//! Decimal rendering of integers and prices.
//!
//! Violation messages print a player's price in millions with at most one
//! decimal digit (`14m`, `10.5m`), and request URLs embed team and event
//! numbers. Both renderings are specified here as functions on sequences of
//! characters and implemented against those specifications.

use vstd::prelude::*;

verus! {

/// The character for one decimal digit.
pub open spec fn digit_char(d: int) -> char {
    if d == 0 {
        '0'
    } else if d == 1 {
        '1'
    } else if d == 2 {
        '2'
    } else if d == 3 {
        '3'
    } else if d == 4 {
        '4'
    } else if d == 5 {
        '5'
    } else if d == 6 {
        '6'
    } else if d == 7 {
        '7'
    } else if d == 8 {
        '8'
    } else {
        '9'
    }
}

/// The usual decimal rendering of a non-negative integer, most significant
/// digit first, with no leading zeros (`0` renders as `"0"`).
pub open spec fn dec_str(n: nat) -> Seq<char>
    decreases n,
{
    if n < 10 {
        seq![digit_char(n as int)]
    } else {
        dec_str(n / 10).push(digit_char((n % 10) as int))
    }
}

/// The decimal rendering of a signed integer: a leading `-` for negative
/// values, then the digits of the magnitude.
pub open spec fn int_str(n: int) -> Seq<char> {
    if n < 0 {
        seq!['-'] + dec_str((-n) as nat)
    } else {
        dec_str(n as nat)
    }
}

/// The rendering of a price given in tenths of a million: the whole number
/// of millions, and the tenths digit only when it is non-zero.
pub open spec fn price_str(tenths: nat) -> Seq<char> {
    if tenths % 10 == 0 {
        dec_str(tenths / 10)
    } else {
        dec_str(tenths / 10).push('.').push(digit_char((tenths % 10) as int))
    }
}

/// One decimal digit as a string slice.
fn digit_str(d: u64) -> (s: &'static str)
    requires
        d < 10,
    ensures
        s@ == seq![digit_char(d as int)],
{
    proof {
        reveal_strlit("0");
        reveal_strlit("1");
        reveal_strlit("2");
        reveal_strlit("3");
        reveal_strlit("4");
        reveal_strlit("5");
        reveal_strlit("6");
        reveal_strlit("7");
        reveal_strlit("8");
        reveal_strlit("9");
    }
    match d {
        0 => "0",
        1 => "1",
        2 => "2",
        3 => "3",
        4 => "4",
        5 => "5",
        6 => "6",
        7 => "7",
        8 => "8",
        _ => "9",
    }
}

/// Renders a non-negative integer in decimal.
pub fn u64_to_string(n: u64) -> (s: String)
    ensures
        s@ == dec_str(n as nat),
    decreases n,
{
    if n < 10 {
        String::from_str(digit_str(n))
    } else {
        let mut s = u64_to_string(n / 10);
        s.append(digit_str(n % 10));
        proof {
            assert(s@ == dec_str((n / 10) as nat).push(digit_char((n % 10) as int)));
        }
        s
    }
}

/// Renders a signed integer in decimal.
pub fn i64_to_string(n: i64) -> (s: String)
    ensures
        s@ == int_str(n as int),
{
    if n < 0 {
        let magnitude: u64 = ((-(n as i128)) as u64);
        let mut s = String::from_str("-");
        proof {
            reveal_strlit("-");
        }
        s.append(u64_to_string(magnitude).as_str());
        s
    } else {
        u64_to_string(n as u64)
    }
}

/// Renders a price given in tenths of a million, as it appears in
/// violation messages: `140` renders as `"14"`, `105` as `"10.5"`.
pub fn price_to_string(tenths: u64) -> (s: String)
    ensures
        s@ == price_str(tenths as nat),
{
    let mut s = u64_to_string(tenths / 10);
    if tenths % 10 != 0 {
        proof {
            reveal_strlit(".");
        }
        s.append(".");
        s.append(digit_str(tenths % 10));
    }
    s
}

} // verus!
