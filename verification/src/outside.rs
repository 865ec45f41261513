//! The calls into the `atoi` and `memchr` crates and into the parts of
//! `std` that come without a contract, each with the contract that the rest
//! of the library relies on. Nothing in this file is proved: every contract
//! restates what the called code does.

use vstd::prelude::*;
use atoi::FromRadix10Checked;
use crate::decimal::{decimal_value, digit_run, is_digit, MINUS, PLUS};
use crate::text::positions;

verus! {

/// What `atoi::atoi` returns for an unsigned type whose largest value is
/// `max`: an optional sign, then the run of digits after it. Without sign
/// and without digit there is no number. After `-` only zero is a number.
/// Otherwise the digits' value is the number, if it is at most `max`.
/// Bytes after the digits are ignored.
pub open spec fn atoi_spec(text: Seq<u8>, max: nat) -> Option<nat> {
    let signed = text.len() > 0 && (text[0] == PLUS || text[0] == MINUS);
    let rest = if signed {
        text.skip(1)
    } else {
        text
    };
    let value = decimal_value(rest.take(digit_run(rest) as int));
    if !signed && digit_run(rest) == 0 {
        None
    } else if signed && text[0] == MINUS {
        if value == 0 {
            Some(0)
        } else {
            None
        }
    } else if value <= max {
        Some(value)
    } else {
        None
    }
}

/// Calls `atoi::ascii_to_digit`: the value of `character` if it is one of
/// the bytes `0` to `9`, else `None`.
#[verifier::external_body]
pub(crate) fn ascii_to_digit(character: u8) -> (r: Option<u8>)
    ensures
        is_digit(character) ==> r == Some((character - 48) as u8),
        !is_digit(character) ==> r is None,
{
    atoi::ascii_to_digit::<u8>(character)
}

/// Calls `u64::from_radix_10_checked` of `atoi`. The second part of the
/// result is the number of digits that `text` starts with. The first part
/// is the value of those digits (zero for none), or `None` if that value
/// does not fit in 64 bits.
#[verifier::external_body]
pub(crate) fn from_radix_10_checked(text: &[u8]) -> (r: (Option<u64>, usize))
    ensures
        r.1 == digit_run(text@),
        decimal_value(text@.take(r.1 as int)) <= u64::MAX ==> r.0 == Some(
            decimal_value(text@.take(r.1 as int)) as u64,
        ),
        decimal_value(text@.take(r.1 as int)) > u64::MAX ==> r.0 is None,
{
    u64::from_radix_10_checked(text)
}

/// Calls `atoi::atoi` for `u16`: the number that `text` starts with, as
/// [`atoi_spec`] says it for the largest value 65535, or `None` where there
/// is none.
#[verifier::external_body]
pub(crate) fn atoi_u16(text: &[u8]) -> (r: Option<u16>)
    ensures
        match atoi_spec(text@, u16::MAX as nat) {
            Some(v) => r == Some(v as u16),
            None => r is None,
        },
{
    atoi::atoi::<u16>(text)
}

/// Calls `atoi::atoi` for `u32`: the number that `text` starts with, as
/// [`atoi_spec`] says it for the largest value 4294967295, or `None` where
/// there is none.
#[verifier::external_body]
pub(crate) fn atoi_u32(text: &[u8]) -> (r: Option<u32>)
    ensures
        match atoi_spec(text@, u32::MAX as nat) {
            Some(v) => r == Some(v as u32),
            None => r is None,
        },
{
    atoi::atoi::<u32>(text)
}

/// Calls `memchr::memchr_iter` and collects what it yields: every place
/// at which `needle` stands in `haystack`, in rising order.
#[verifier::external_body]
pub(crate) fn memchr_iter(needle: u8, haystack: &[u8]) -> (r: Vec<usize>)
    ensures
        r@.len() == positions(haystack@, needle).len(),
        forall|k: int| 0 <= k < r.len() ==> r[k] == positions(haystack@, needle)[k],
{
    memchr::memchr_iter(needle, haystack).collect()
}

/// `String::push` appends `ch` to the string.
pub assume_specification[ String::push ](s: &mut String, ch: char)
    ensures
        final(s)@ == old(s)@.push(ch),
;

} // verus!
