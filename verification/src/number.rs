//! Reading decimal digits into machine integers.

use crate::grammar::{all_digits, decimal_value, digit_value};
use crate::shape::Width;
use crate::text::split_first;
use vstd::arithmetic::div_mod::{lemma_add_mod_noop, lemma_mul_mod_noop_right};
use vstd::prelude::*;

verus! {

/// A run of digits extended by one digit denotes ten times the number plus
/// the digit.
pub proof fn lemma_decimal_value_push(s: Seq<char>, c: char)
    ensures
        decimal_value(s.push(c)) == 10 * decimal_value(s) + digit_value(c),
{
    assert(s.push(c).drop_last() =~= s);
}

/// The number that the digits of `digits` denote: reduced modulo 2^64, and
/// whether it is below 2^64, so that the reduced number is the number
/// itself. `None` where `digits` is empty or holds anything but digits.
pub(crate) fn decimal(digits: &str) -> (r: Option<(u64, bool)>)
    ensures
        match r {
            Some((v, exact)) => {
                &&& digits@.len() > 0
                &&& all_digits(digits@)
                &&& v == decimal_value(digits@) % 0x1_0000_0000_0000_0000
                &&& exact == (decimal_value(digits@) <= u64::MAX)
            },
            None => digits@.len() == 0 || !all_digits(digits@),
        },
{
    if digits.is_empty() {
        return None;
    }
    let mut rest = digits;
    let mut acc: u64 = 0;
    let mut exact = true;
    let ghost mut seen: Seq<char> = Seq::empty();
    loop
        invariant
            digits@.len() > 0,
            digits@ =~= seen + rest@,
            all_digits(seen),
            acc == decimal_value(seen) % 0x1_0000_0000_0000_0000,
            exact == (decimal_value(seen) <= u64::MAX),
        decreases rest@.len(),
    {
        match split_first(rest) {
            None => {
                assert(digits@ =~= seen);
                return Some((acc, exact));
            },
            Some((c, tail)) => {
                if !('0' <= c && c <= '9') {
                    assert(digits@[seen.len() as int] == c);
                    return None;
                }
                let d: u64 = (c as u64) - ('0' as u64);
                let fits = match acc.checked_mul(10) {
                    Some(m) => m.checked_add(d).is_some(),
                    None => false,
                };
                proof {
                    let m: int = 0x1_0000_0000_0000_0000;
                    let v = decimal_value(seen) as int;
                    lemma_decimal_value_push(seen, c);
                    lemma_mul_mod_noop_right(10, v, m);
                    lemma_add_mod_noop(10 * v, d as int, m);
                    assert(seen.push(c) + tail@ =~= seen + rest@);
                }
                acc = acc.wrapping_mul(10).wrapping_add(d);
                exact = exact && fits;
                rest = tail;
                proof {
                    seen = seen.push(c);
                }
            },
        }
    }
}

/// `v` as an unsigned integer of width `w` holds it: reduced modulo the
/// number of values of that width.
pub(crate) fn truncate(v: u64, w: Width) -> (r: u64)
    ensures
        r == v as int % w.modulus(),
{
    match w {
        Width::W8 => v % 0x100,
        Width::W16 => v % 0x1_0000,
        Width::W32 => v % 0x1_0000_0000,
        Width::W64 => v,
    }
}

} // verus!
