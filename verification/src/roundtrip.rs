//! Reading and writing amounts agree: what is written reads back as the
//! same amount, and what is read is written in its shortest form.

use vstd::prelude::*;
use crate::amount::{
    format_spec, fraction_digits, fraction_units, fraction_upto, padded_digits, parse_spec,
    place_weight, PLACES, PLACES_MOD,
};
use crate::decimal::{
    all_digits, decimal_value, digit_byte, digit_run, digit_value, digits_of, is_digit,
    lemma_digit_run, lemma_digit_run_is, lemma_digits_of, lemma_digits_of_value, strip_zeros,
    trim_zeros, POINT, ZERO,
};

verus! {

/// The shortest text for the amount that `text` writes: the whole part
/// without zeros in front (a single `0` where nothing else is left), then,
/// where the fraction is not zero, a point and the fraction without zeros
/// at its end.
pub open spec fn canonical(text: Seq<u8>) -> Seq<u8> {
    let n = digit_run(text) as int;
    let whole = strip_zeros(text.take(n));
    let frac = if n < text.len() {
        trim_zeros(text.skip(n + 1))
    } else {
        Seq::empty()
    };
    if frac.len() == 0 {
        whole
    } else {
        whole.push(POINT) + frac
    }
}

/// The units of a fraction, place by place.
proof fn lemma_fraction_by_place(frac: Seq<u8>)
    ensures
        fraction_units(frac) == (if frac.len() > 0 {
            1000 * digit_value(frac[0])
        } else {
            0
        }) + (if frac.len() > 1 {
            100 * digit_value(frac[1])
        } else {
            0
        }) + (if frac.len() > 2 {
            10 * digit_value(frac[2])
        } else {
            0
        }) + (if frac.len() > 3 {
            digit_value(frac[3])
        } else {
            0
        }),
{
    reveal_with_fuel(fraction_upto, 5);
    if frac.len() > 0 {
        assert(digit_value(frac[0]) * place_weight(0) == 1000 * digit_value(frac[0]));
    }
    if frac.len() > 1 {
        assert(digit_value(frac[1]) * place_weight(1) == 100 * digit_value(frac[1]));
    }
    if frac.len() > 2 {
    }
    if frac.len() > 3 {
        assert(digit_value(frac[3]) * place_weight(3) == digit_value(frac[3]));
    }
}

/// The four digits of a fraction of `f` units.
proof fn lemma_padded_four(f: nat)
    requires
        f < 10_000,
    ensures
        padded_digits(f, 4) == seq![
            digit_byte(f / 1000),
            digit_byte(f / 100 % 10),
            digit_byte(f / 10 % 10),
            digit_byte(f % 10),
        ],
        padded_digits(f / 10, 3) == seq![
            digit_byte(f / 1000),
            digit_byte(f / 100 % 10),
            digit_byte(f / 10 % 10),
        ],
        padded_digits(f / 100, 2) == seq![digit_byte(f / 1000), digit_byte(f / 100 % 10)],
        padded_digits(f / 1000, 1) == seq![digit_byte(f / 1000)],
{
    reveal_with_fuel(padded_digits, 5);
    assert(f / 1000 % 10 == f / 1000);
    assert(padded_digits(f / 10, 3) =~= seq![
        digit_byte(f / 1000),
        digit_byte(f / 100 % 10),
        digit_byte(f / 10 % 10),
    ]);
    assert(padded_digits(f, 4) =~= seq![
        digit_byte(f / 1000),
        digit_byte(f / 100 % 10),
        digit_byte(f / 10 % 10),
        digit_byte(f % 10),
    ]);
}

/// The digits written for a fraction are at most four digits, do not end
/// in `0`, and read back as the same fraction.
pub proof fn lemma_fraction_digits(f: nat)
    requires
        0 < f < 10_000,
    ensures
        1 <= fraction_digits(f, 4).len() <= 4,
        all_digits(fraction_digits(f, 4)),
        fraction_digits(f, 4).last() != ZERO,
        fraction_units(fraction_digits(f, 4)) == f,
{
    reveal_with_fuel(fraction_digits, 5);
    lemma_padded_four(f);
    lemma_fraction_by_place(fraction_digits(f, 4));
}

/// Up to four fractional digits are written back as they were read, but
/// for the zeros at their end.
pub proof fn lemma_fraction_units(frac: Seq<u8>)
    requires
        all_digits(frac),
        frac.len() <= 4,
    ensures
        fraction_units(frac) < 10_000,
        fraction_units(frac) == 0 ==> trim_zeros(frac).len() == 0,
        fraction_units(frac) > 0 ==> fraction_digits(fraction_units(frac), 4) == trim_zeros(frac),
{
    reveal_with_fuel(fraction_digits, 5);
    reveal_with_fuel(trim_zeros, 5);
    let f = fraction_units(frac);
    lemma_fraction_by_place(frac);
    lemma_padded_four(f);
    assert(f / 100 / 10 == f / 1000);
    if frac.len() == 4 {
        assert(frac.drop_last().drop_last() =~= seq![frac[0], frac[1]]);
    } else if frac.len() == 3 {
        assert(frac.drop_last().drop_last().drop_last().len() == 0);
    } else if frac.len() == 2 {
        assert(frac.drop_last().drop_last().len() == 0);
    } else if frac.len() == 1 {
        assert(frac =~= seq![frac[0]]);
        assert(frac.drop_last().len() == 0);
    }
    if f > 0 {
        assert(fraction_digits(f, 4) =~= trim_zeros(frac));
    }
}

/// What is written reads back: the text of an amount is read as that
/// amount.
pub proof fn lemma_format_then_parse(units: nat)
    requires
        units <= u64::MAX,
    ensures
        parse_spec(format_spec(units)) == Some(units),
{
    let whole = units / PLACES_MOD as nat;
    let f = units % PLACES_MOD as nat;
    let digits = digits_of(whole);
    let text = format_spec(units);
    lemma_digits_of(whole);
    if f == 0 {
        lemma_digit_run_is(text, text.len() as int);
        assert(text.take(text.len() as int) =~= digits);
    } else {
        let frac = fraction_digits(f, 4);
        lemma_fraction_digits(f);
        let n = digits.len() as int;
        assert(text[n] == POINT);
        assert forall|i: int| 0 <= i < n implies is_digit(text[i]) by {
            assert(text[i] == digits[i]);
        }
        lemma_digit_run_is(text, n);
        assert(text.take(n) =~= digits);
        assert(text.skip(n + 1) =~= frac);
    }
}

/// What is read is written in its shortest form: for a text that is read
/// as an amount and has at most four fractional digits, the text of that
/// amount is the canonical form of the text read.
pub proof fn lemma_parse_then_format(text: Seq<u8>)
    requires
        parse_spec(text) is Some,
        text.len() <= digit_run(text) + 1 + PLACES,
    ensures
        format_spec(parse_spec(text).unwrap()) == canonical(text),
{
    let n = digit_run(text) as int;
    lemma_digit_run(text);
    lemma_digits_of_value(text.take(n));
    if n < text.len() {
        let frac = text.skip(n + 1);
        lemma_fraction_units(frac);
        if fraction_units(frac) > 0 {
            lemma_fraction_digits(fraction_units(frac));
        }
    }
}

/// Digits after the fourth fractional digit are cut off: they do not
/// change the amount that is read.
pub proof fn lemma_parse_truncates(text: Seq<u8>, more: Seq<u8>)
    requires
        parse_spec(text) is Some,
        text.len() >= digit_run(text) + 1 + PLACES,
        all_digits(more),
    ensures
        parse_spec(text + more) == parse_spec(text),
{
    let n = digit_run(text) as int;
    let longer = text + more;
    lemma_digit_run(text);
    assert forall|i: int| 0 <= i < n implies is_digit(longer[i]) by {
        assert(longer[i] == text.take(n)[i]);
    }
    lemma_digit_run_is(longer, n);
    assert(longer.take(n) =~= text.take(n));
    let frac = text.skip(n + 1);
    assert(longer.skip(n + 1) =~= frac + more);
    assert(all_digits(frac + more)) by {
        assert forall|i: int| 0 <= i < (frac + more).len() implies is_digit(
            #[trigger] (frac + more)[i],
        ) by {
            if i >= frac.len() {
                assert((frac + more)[i] == more[i - frac.len()]);
            }
        }
    }
    assert(fraction_units(frac + more) == fraction_units(frac)) by {
        reveal_with_fuel(fraction_upto, 5);
    }
}

/// A byte that is neither a digit nor the one point after the whole part
/// spoils the text: no amount is read from a text with a byte that is no
/// digit, unless that byte is a point with only digits before it.
pub proof fn lemma_parse_rejects(text: Seq<u8>, i: int)
    requires
        0 <= i < text.len(),
        !is_digit(text[i]),
        text[i] != POINT || exists|j: int| 0 <= j < i && !is_digit(text[j]),
    ensures
        parse_spec(text) is None,
{
    let n = digit_run(text) as int;
    lemma_digit_run(text);
    if i < n {
        assert(text.take(n)[i] == text[i]);
    }
    if text[n] == POINT {
        if i == n {
            let j = choose|j: int| 0 <= j < i && !is_digit(text[j]);
            assert(text.take(n)[j] == text[j]);
        } else {
            assert(text.skip(n + 1)[i - n - 1] == text[i]);
        }
    }
}

} // verus!
