//! Exact fixed-point money: an unsigned count of ten-thousandths.

use vstd::prelude::*;
use crate::decimal::{
    all_digits, decimal_value, digit_byte, digit_run, digit_value, digits_of, is_digit, POINT, ZERO,
};
use crate::outside::{ascii_to_digit, from_radix_10_checked};
use crate::text::as_text;

verus! {

/// Number of fractional decimal digits an [`Amount`] keeps.
pub const PLACES: usize = 4;

/// How many units make one whole: ten to the power [`PLACES`].
pub const PLACES_MOD: u64 = 10_000;

/// What a digit at the fractional place `place` is worth in units: a
/// thousand at the first place, one at the fourth, nothing beyond.
pub open spec fn place_weight(place: nat) -> nat {
    if place == 0 {
        1000
    } else if place == 1 {
        100
    } else if place == 2 {
        10
    } else if place == 3 {
        1
    } else {
        0
    }
}

/// The units that the first `places` digits of the fraction `frac` are
/// worth.
pub open spec fn fraction_upto(frac: Seq<u8>, places: nat) -> nat
    decreases places,
{
    if places == 0 {
        0
    } else {
        fraction_upto(frac, (places - 1) as nat) + (if places - 1 < frac.len() {
            digit_value(frac[places - 1]) * place_weight((places - 1) as nat)
        } else {
            0
        })
    }
}

/// The units that the fraction `frac` is worth: its first four digits
/// count, later ones are cut off.
pub open spec fn fraction_units(frac: Seq<u8>) -> nat {
    fraction_upto(frac, PLACES as nat)
}

/// The amount, in units, that `text` writes, if it writes one. A text has
/// the form `whole` or `whole.fraction`, both parts made of digits only,
/// and is not empty; its amount must fit in 64 bits.
pub open spec fn parse_spec(text: Seq<u8>) -> Option<nat> {
    let n = digit_run(text) as int;
    let whole = decimal_value(text.take(n));
    if text.len() == 0 {
        None
    } else if n == text.len() {
        fitting(whole * PLACES_MOD as nat)
    } else if text[n] != POINT || !all_digits(text.skip(n + 1)) {
        None
    } else {
        fitting(whole * PLACES_MOD as nat + fraction_units(text.skip(n + 1)))
    }
}

/// `units`, if an amount can hold that many.
pub open spec fn fitting(units: nat) -> Option<nat> {
    if units <= u64::MAX {
        Some(units)
    } else {
        None
    }
}

/// The last `places` digits of `n`, leading zeros included.
pub open spec fn padded_digits(n: nat, places: nat) -> Seq<u8>
    decreases places,
{
    if places == 0 {
        Seq::empty()
    } else {
        padded_digits(n / 10, (places - 1) as nat).push(digit_byte(n % 10))
    }
}

/// The digits of the fraction of `n` units out of ten to the power
/// `places`, without trailing zeros.
pub open spec fn fraction_digits(n: nat, places: nat) -> Seq<u8>
    decreases places,
{
    if places == 0 {
        Seq::empty()
    } else if n % 10 == 0 {
        fraction_digits(n / 10, (places - 1) as nat)
    } else {
        padded_digits(n, places)
    }
}

/// The text of an amount of `units`: the whole part, then, where the
/// fraction is not zero, a point and the fraction's digits without
/// trailing zeros.
pub open spec fn format_spec(units: nat) -> Seq<u8> {
    let whole = digits_of(units / PLACES_MOD as nat);
    if units % PLACES_MOD as nat == 0 {
        whole
    } else {
        whole.push(POINT) + fraction_digits(units % PLACES_MOD as nat, PLACES as nat)
    }
}

/// Ten to the power `places`.
pub open spec fn pow10(places: nat) -> nat
    decreases places,
{
    if places == 0 {
        1
    } else {
        10 * pow10((places - 1) as nat)
    }
}

/// Appends the digits of `n` to `out`.
fn push_digits(out: &mut Vec<u8>, n: u64)
    ensures
        final(out)@ == old(out)@ + digits_of(n as nat),
    decreases n,
{
    if n >= 10 {
        push_digits(out, n / 10);
    }
    out.push(ZERO + (n % 10) as u8);
    assert(out@ =~= old(out)@ + digits_of(n as nat));
}

/// Appends the last `places` digits of `n` to `out`.
fn push_padded(out: &mut Vec<u8>, n: u64, places: usize)
    ensures
        final(out)@ == old(out)@ + padded_digits(n as nat, places as nat),
    decreases places,
{
    if places > 0 {
        push_padded(out, n / 10, places - 1);
        out.push(ZERO + (n % 10) as u8);
    }
    assert(out@ =~= old(out)@ + padded_digits(n as nat, places as nat));
}

/// A non-negative decimal amount with four fractional digits, held as the
/// number of ten-thousandths.
#[derive(Clone, Copy, Debug, PartialEq, Eq, Structural, PartialOrd, Ord, Hash)]
pub struct Amount(u64);

impl View for Amount {
    type V = nat;

    /// The amount in ten-thousandths.
    open spec fn view(&self) -> nat {
        self.units() as nat
    }
}

impl Default for Amount {
    fn default() -> (r: Self)
        ensures
            r@ == 0,
    {
        Amount(0)
    }
}

impl Amount {
    /// The stored number of ten-thousandths.
    pub closed spec fn units(self) -> u64 {
        self.0
    }

    /// The amount made of `units` ten-thousandths.
    pub fn from_scaled(units: u64) -> (r: Self)
        ensures
            r@ == units,
    {
        Amount(units)
    }

    /// The amount in ten-thousandths.
    pub fn scaled(self) -> (r: u64)
        ensures
            r == self@,
    {
        self.0
    }

    /// The amount zero.
    pub fn zero() -> (r: Self)
        ensures
            r@ == 0,
    {
        Amount(0)
    }

    /// The sum of two amounts, or `None` when it does not fit in 64 bits.
    pub fn checked_add(self, rhs: Amount) -> (r: Option<Self>)
        ensures
            self@ + rhs@ <= u64::MAX ==> r is Some && r.unwrap()@ == self@ + rhs@,
            self@ + rhs@ > u64::MAX ==> r is None,
    {
        match self.0.checked_add(rhs.0) {
            Some(v) => Some(Amount(v)),
            None => None,
        }
    }

    /// The difference of two amounts, or `None` when `rhs` is the larger.
    pub fn checked_sub(self, rhs: Amount) -> (r: Option<Self>)
        ensures
            self@ >= rhs@ ==> r is Some && r.unwrap()@ == self@ - rhs@,
            self@ < rhs@ ==> r is None,
    {
        match self.0.checked_sub(rhs.0) {
            Some(v) => Some(Amount(v)),
            None => None,
        }
    }

    /// The text of the amount as ASCII bytes.
    pub fn to_bytes(self) -> (r: Vec<u8>)
        ensures
            r@ == format_spec(self@),
            parse_spec(r@) == Some(self@),
    {
        proof {
            crate::roundtrip::lemma_format_then_parse(self@);
        }
        let whole: u64 = self.0 / PLACES_MOD;
        let mut fract: u64 = self.0 % PLACES_MOD;
        let mut out: Vec<u8> = Vec::new();
        push_digits(&mut out, whole);
        if fract > 0 {
            out.push(POINT);
            let ghost tail = fraction_digits(fract as nat, PLACES as nat);
            let mut places: usize = PLACES;
            assert(pow10(PLACES as nat) == PLACES_MOD) by {
                reveal_with_fuel(pow10, 5);
            }
            while fract % 10 == 0
                invariant
                    0 < fract < pow10(places as nat),
                    places <= PLACES,
                    fraction_digits(fract as nat, places as nat) == tail,
                decreases places,
            {
                reveal_with_fuel(pow10, 2);
                fract = fract / 10;
                places = places - 1;
            }
            assert(places > 0) by {
                reveal_with_fuel(pow10, 1);
            }
            push_padded(&mut out, fract, places);
        }
        out
    }

    /// The text of the amount: the whole part, then, where the fraction is
    /// not zero, a point and the fraction's digits without trailing zeros.
    pub fn to_string(&self) -> (r: String)
        ensures
            r@ == as_text(format_spec(self@)),
    {
        let bytes = self.to_bytes();
        let mut out = String::new();
        let mut i: usize = 0;
        while i < bytes.len()
            invariant
                i <= bytes.len(),
                out@ == as_text(bytes@.take(i as int)),
            decreases bytes.len() - i,
        {
            out.push(bytes[i] as char);
            i = i + 1;
            assert(out@ =~= as_text(bytes@.take(i as int)));
        }
        assert(bytes@.take(i as int) =~= bytes@);
        out
    }

    /// Reads an amount from ASCII text of the form `whole` or
    /// `whole.fraction`. Fractional digits after the fourth are cut off,
    /// not rounded. `None` for text of another form, and for an amount
    /// that does not fit in 64 bits.
    pub fn parse(bytes: &[u8]) -> (r: Option<Self>)
        ensures
            match parse_spec(bytes@) {
                Some(units) => r is Some && r.unwrap()@ == units,
                None => r is None,
            },
    {
        if bytes.len() == 0 {
            return None;
        }
        let (whole, size) = from_radix_10_checked(bytes);
        proof {
            crate::decimal::lemma_digit_run(bytes@);
        }
        let whole: u64 = match whole {
            Some(whole) => whole,
            None => {
                return None;
            },
        };
        let whole: u64 = match whole.checked_mul(PLACES_MOD) {
            Some(whole) => whole,
            None => {
                return None;
            },
        };
        if size == bytes.len() {
            return Some(Amount(whole));
        }
        if bytes[size] != POINT {
            return None;
        }
        let start: usize = size + 1;
        let count: usize = bytes.len() - start;
        let ghost frac = bytes@.skip(start as int);
        let mut fract: u64 = 0;
        let mut weight: u64 = 1000;
        let mut place: usize = 0;
        while place < PLACES && place < count
            invariant
                size == digit_run(bytes@),
                size < bytes.len(),
                bytes[size as int] == POINT,
                start == size + 1,
                start + count == bytes.len(),
                frac == bytes@.skip(start as int),
                place <= PLACES,
                place <= count,
                weight == place_weight(place as nat),
                fract == fraction_upto(frac, place as nat),
                fract + 10 * weight <= 10_000,
                forall|i: int| 0 <= i < place ==> is_digit(#[trigger] frac[i]),
            decreases PLACES - place,
        {
            let digit: u8 = match ascii_to_digit(bytes[start + place]) {
                Some(digit) => digit,
                None => {
                    assert(!is_digit(frac[place as int]));
                    return None;
                },
            };
            fract = fract + (digit as u64) * weight;
            weight = weight / 10;
            place = place + 1;
        }
        proof {
            lemma_fraction_upto_short(frac, place as nat, PLACES as nat);
        }
        // The digits that are cut off must still be digits.
        while place < count
            invariant
                size == digit_run(bytes@),
                size < bytes.len(),
                bytes[size as int] == POINT,
                start == size + 1,
                start + count == bytes.len(),
                frac == bytes@.skip(start as int),
                place <= count,
                forall|i: int| 0 <= i < place ==> is_digit(#[trigger] frac[i]),
            decreases count - place,
        {
            if ascii_to_digit(bytes[start + place]).is_none() {
                assert(!is_digit(frac[place as int]));
                return None;
            }
            place = place + 1;
        }
        match whole.checked_add(fract) {
            Some(units) => Some(Amount(units)),
            None => None,
        }
    }
}

/// Places at or after the end of the fraction add nothing.
pub proof fn lemma_fraction_upto_short(frac: Seq<u8>, from: nat, to: nat)
    requires
        from <= to,
        from >= frac.len() || from >= PLACES,
    ensures
        fraction_upto(frac, to) == fraction_upto(frac, from),
    decreases to,
{
    if from < to {
        lemma_fraction_upto_short(frac, from, (to - 1) as nat);
        if to - 1 < frac.len() {
            assert(place_weight((to - 1) as nat) == 0);
            assert(digit_value(frac[to - 1]) * 0 == 0);
        }
    }
}

} // verus!
