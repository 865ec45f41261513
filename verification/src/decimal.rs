//! Decimal text as mathematics: what a run of ASCII digits is worth, and
//! which digits a number is written with.

use vstd::prelude::*;

verus! {

/// The byte `.`.
pub const POINT: u8 = 46;

/// The byte `0`.
pub const ZERO: u8 = 48;

/// The byte `+`.
pub const PLUS: u8 = 43;

/// The byte `-`.
pub const MINUS: u8 = 45;

/// Whether `b` is one of the bytes `0` to `9`.
pub open spec fn is_digit(b: u8) -> bool {
    48 <= b <= 57
}

/// The number that the digit `b` stands for.
pub open spec fn digit_value(b: u8) -> nat {
    (b - 48) as nat
}

/// The byte that writes the number `d`, for `d` below ten.
pub open spec fn digit_byte(d: nat) -> u8 {
    (48 + d) as u8
}

/// Whether every byte of `s` is a digit.
pub open spec fn all_digits(s: Seq<u8>) -> bool {
    forall|i: int| 0 <= i < s.len() ==> is_digit(#[trigger] s[i])
}

/// How many digits `s` starts with.
pub open spec fn digit_run(s: Seq<u8>) -> nat
    decreases s.len(),
{
    if s.len() > 0 && is_digit(s[0]) {
        1 + digit_run(s.drop_first())
    } else {
        0
    }
}

/// The number that the digits `s` write in base ten; zero for no digits.
pub open spec fn decimal_value(s: Seq<u8>) -> nat
    decreases s.len(),
{
    if s.len() == 0 {
        0
    } else {
        10 * decimal_value(s.drop_last()) + digit_value(s.last())
    }
}

/// The digits that write `n` in base ten, without leading zeros; the
/// single digit `0` for zero.
pub open spec fn digits_of(n: nat) -> Seq<u8>
    decreases n,
{
    if n < 10 {
        seq![digit_byte(n)]
    } else {
        digits_of(n / 10).push(digit_byte(n % 10))
    }
}

/// The run of leading digits is a prefix, made of digits only, that no
/// digit follows.
pub proof fn lemma_digit_run(s: Seq<u8>)
    ensures
        digit_run(s) <= s.len(),
        all_digits(s.take(digit_run(s) as int)),
        digit_run(s) < s.len() ==> !is_digit(s[digit_run(s) as int]),
    decreases s.len(),
{
    if s.len() > 0 && is_digit(s[0]) {
        let rest = s.drop_first();
        lemma_digit_run(rest);
        let n = digit_run(s) as int;
        assert forall|i: int| 0 <= i < n implies is_digit(#[trigger] s.take(n)[i]) by {
            if i > 0 {
                assert(s.take(n)[i] == rest.take(n - 1)[i - 1]);
            }
        }
    }
}

/// A prefix of digits that no digit follows is the run of leading digits.
pub proof fn lemma_digit_run_is(s: Seq<u8>, n: int)
    requires
        0 <= n <= s.len(),
        forall|i: int| 0 <= i < n ==> is_digit(s[i]),
        n < s.len() ==> !is_digit(s[n]),
    ensures
        digit_run(s) == n,
    decreases s.len(),
{
    if n > 0 {
        lemma_digit_run_is(s.drop_first(), n - 1);
    }
}

/// The digits of `n` are digits, there is at least one, they are worth
/// `n`, and the first is not `0` unless `n` is zero.
pub proof fn lemma_digits_of(n: nat)
    ensures
        digits_of(n).len() >= 1,
        all_digits(digits_of(n)),
        decimal_value(digits_of(n)) == n,
        n > 0 ==> digits_of(n)[0] != ZERO,
    decreases n,
{
    if n < 10 {
        assert(digits_of(n).drop_last() =~= Seq::<u8>::empty());
        assert(decimal_value(Seq::<u8>::empty()) == 0);
    } else {
        lemma_digits_of(n / 10);
        assert(digits_of(n).drop_last() =~= digits_of(n / 10));
    }
}

/// Digits that are all `0` are worth nothing, and digits worth nothing are
/// all `0`.
pub proof fn lemma_zero_value(s: Seq<u8>)
    requires
        all_digits(s),
    ensures
        decimal_value(s) == 0 <==> (forall|i: int| 0 <= i < s.len() ==> s[i] == ZERO),
    decreases s.len(),
{
    if s.len() > 0 {
        lemma_zero_value(s.drop_last());
        if decimal_value(s) == 0 {
            assert forall|i: int| 0 <= i < s.len() implies s[i] == ZERO by {
                if i < s.len() - 1 {
                    assert(s[i] == s.drop_last()[i]);
                }
            }
        } else if decimal_value(s.drop_last()) != 0 {
            let i = choose|i: int| 0 <= i < s.len() - 1 && s.drop_last()[i] != ZERO;
            assert(s[i] != ZERO);
        }
    }
}

/// `s` without the zeros it starts with, but for the last digit, which
/// stays; the single digit `0` for no digits at all.
pub open spec fn strip_zeros(s: Seq<u8>) -> Seq<u8>
    decreases s.len(),
{
    if s.len() == 0 {
        seq![ZERO]
    } else if s.len() > 1 && s[0] == ZERO {
        strip_zeros(s.drop_first())
    } else {
        s
    }
}

/// `s` without the zeros it ends with.
pub open spec fn trim_zeros(s: Seq<u8>) -> Seq<u8>
    decreases s.len(),
{
    if s.len() > 0 && s.last() == ZERO {
        trim_zeros(s.drop_last())
    } else {
        s
    }
}

/// What one more digit does to `strip_zeros`: after digits worth nothing
/// the new digit stands alone, after others it is appended.
pub proof fn lemma_strip_zeros_push(s: Seq<u8>, d: u8)
    requires
        all_digits(s),
        is_digit(d),
    ensures
        strip_zeros(s.push(d)) == if decimal_value(s) == 0 {
            seq![d]
        } else {
            strip_zeros(s).push(d)
        },
    decreases s.len(),
{
    let t = s.push(d);
    lemma_zero_value(s);
    if s.len() > 0 {
        let rest = s.drop_first();
        assert(t.drop_first() =~= rest.push(d));
        assert(all_digits(rest)) by {
            assert forall|i: int| 0 <= i < rest.len() implies is_digit(#[trigger] rest[i]) by {
                assert(rest[i] == s[i + 1]);
            }
        }
        lemma_zero_value(rest);
        if s[0] == ZERO {
            lemma_strip_zeros_push(rest, d);
            if decimal_value(s) == 0 {
                assert forall|i: int| 0 <= i < rest.len() implies rest[i] == ZERO by {
                    assert(rest[i] == s[i + 1]);
                }
            } else {
                let i = choose|i: int| 0 <= i < s.len() && s[i] != ZERO;
                assert(rest[i - 1] != ZERO);
            }
        }
    }
}

/// The digits of a number are the digits that wrote it, without the zeros
/// in front.
pub proof fn lemma_digits_of_value(s: Seq<u8>)
    requires
        all_digits(s),
    ensures
        digits_of(decimal_value(s)) == strip_zeros(s),
    decreases s.len(),
{
    if s.len() > 0 {
        let front = s.drop_last();
        let d = s.last();
        assert(s =~= front.push(d));
        lemma_digits_of_value(front);
        lemma_strip_zeros_push(front, d);
    }
}

} // verus!
