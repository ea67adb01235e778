//! Verified decimal formatting for labels, identifiers and stat read-outs.
//!
//! Fractional quantities cross this module in milli-units (thousandths), so
//! formatting is plain digit arithmetic with no floating point involved.

use vstd::prelude::*;
use crate::common::tdiv;

verus! {

pub const DIGITS: [char; 10] = ['0', '1', '2', '3', '4', '5', '6', '7', '8', '9'];

/// Decimal digit string of a nonnegative integer, most significant first.
pub open spec fn dec_str(n: int) -> Seq<char>
    decreases n,
{
    if n < 10 {
        seq![DIGITS@[if n < 0 { 0 } else { n }]]
    } else {
        dec_str(n / 10) + seq![DIGITS@[n % 10]]
    }
}

/// Decimal string of a possibly negative integer.
pub open spec fn int_str(n: int) -> Seq<char> {
    if n < 0 {
        seq!['-'] + dec_str(-n)
    } else {
        dec_str(n)
    }
}

/// Relies on String::push: appends exactly the given character.
#[verifier::external_body]
pub fn push_char(s: &mut String, c: char)
    ensures
        final(s)@ == old(s)@ + seq![c],
{
    s.push(c);
}

fn push_dec(s: &mut String, n: u64)
    ensures
        final(s)@ == old(s)@ + dec_str(n as int),
    decreases n,
{
    if n >= 10 {
        push_dec(s, n / 10);
    }
    push_char(s, DIGITS[(n % 10) as usize]);
}

pub fn u64_to_string(n: u64) -> (s: String)
    ensures
        s@ == dec_str(n as int),
{
    let mut s = String::new();
    push_dec(&mut s, n);
    s
}

pub fn i64_to_string(n: i64) -> (s: String)
    requires
        n > i64::MIN,
    ensures
        s@ == int_str(n as int),
{
    let mut s = String::new();
    if n < 0 {
        push_char(&mut s, '-');
        push_dec(&mut s, (-n) as u64);
    } else {
        push_dec(&mut s, n as u64);
    }
    s
}

/// What `format_number` produces for a milli-unit value `n` and a requested
/// number of fraction digits `p` (at most three are available).
///
/// Values of a thousand whole units or more collapse to a "k" form with one
/// fraction digit.  The shown digits are rounded to nearest, ties away from
/// zero, as the last fraction digit's half is added before the scale-down.
pub open spec fn format_number_str(n: int, p: int) -> Seq<char> {
    let a = abs_spec(n);
    let sign: Seq<char> = if n < 0 {
        seq!['-']
    } else {
        Seq::empty()
    };
    if a >= 1_000_000 {
        let s = (a + 50_000) / 100_000;
        sign + dec_str(s / 10) + seq!['.'] + seq![DIGITS@[s % 10]] + seq!['k']
    } else if p <= 0 {
        sign + dec_str((a + 500) / 1000)
    } else if p == 1 {
        let s = (a + 50) / 100;
        sign + dec_str(s / 10) + seq!['.'] + seq![DIGITS@[s % 10]]
    } else if p == 2 {
        let s = (a + 5) / 10;
        sign + dec_str(s / 100) + seq!['.'] + seq![DIGITS@[(s / 10) % 10], DIGITS@[s % 10]]
    } else {
        sign + dec_str(a / 1000) + seq!['.'] + seq![
            DIGITS@[(a / 100) % 10],
            DIGITS@[(a / 10) % 10],
            DIGITS@[a % 10],
        ]
    }
}

pub open spec fn abs_spec(n: int) -> int {
    if n < 0 {
        -n
    } else {
        n
    }
}

/// Format a milli-unit quantity with the given number of fraction digits,
/// rounded to nearest (ties away from zero).  A value of 12_500 formats as
/// "12.5" (with `precision` 1) and 1_550_000 as "1.6k".
pub fn format_number(n: i64, precision: usize) -> (s: String)
    requires
        n > i64::MIN,
    ensures
        s@ == format_number_str(n as int, precision as int),
{
    let a: u64 = if n < 0 {
        (-n) as u64
    } else {
        n as u64
    };
    let mut s = String::new();
    if n < 0 {
        push_char(&mut s, '-');
    }
    if a >= 1_000_000 {
        let r = (a + 50_000) / 100_000;
        push_dec(&mut s, r / 10);
        push_char(&mut s, '.');
        push_char(&mut s, DIGITS[(r % 10) as usize]);
        push_char(&mut s, 'k');
    } else if precision == 0 {
        push_dec(&mut s, (a + 500) / 1000);
    } else if precision == 1 {
        let r = (a + 50) / 100;
        push_dec(&mut s, r / 10);
        push_char(&mut s, '.');
        push_char(&mut s, DIGITS[(r % 10) as usize]);
    } else if precision == 2 {
        let r = (a + 5) / 10;
        push_dec(&mut s, r / 100);
        push_char(&mut s, '.');
        push_char(&mut s, DIGITS[((r / 10) % 10) as usize]);
        push_char(&mut s, DIGITS[(r % 10) as usize]);
    } else {
        push_dec(&mut s, a / 1000);
        push_char(&mut s, '.');
        push_char(&mut s, DIGITS[((a / 100) % 10) as usize]);
        push_char(&mut s, DIGITS[((a / 10) % 10) as usize]);
        push_char(&mut s, DIGITS[(a % 10) as usize]);
    }
    s
}

} // verus!
