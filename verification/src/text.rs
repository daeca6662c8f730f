//! Texts for error values: decimal numbers and their place in a sentence.

use vstd::prelude::*;
use vstd::string::StringExecFns;

verus! {

/// The text of one decimal digit.
pub open spec fn digit_text(d: nat) -> Seq<char> {
    if d == 0 {
        "0"@
    } else if d == 1 {
        "1"@
    } else if d == 2 {
        "2"@
    } else if d == 3 {
        "3"@
    } else if d == 4 {
        "4"@
    } else if d == 5 {
        "5"@
    } else if d == 6 {
        "6"@
    } else if d == 7 {
        "7"@
    } else if d == 8 {
        "8"@
    } else {
        "9"@
    }
}

/// The decimal text of a number, without leading zeros.
pub open spec fn decimal_text(n: nat) -> Seq<char>
    decreases n,
{
    if n < 10 {
        digit_text(n)
    } else {
        decimal_text(n / 10) + digit_text(n % 10)
    }
}

/// The text of the decimal digit `d`.
pub fn digit(d: usize) -> (r: &'static str)
    requires
        d < 10,
    ensures
        r@ == digit_text(d as nat),
{
    if d == 0 {
        "0"
    } else if d == 1 {
        "1"
    } else if d == 2 {
        "2"
    } else if d == 3 {
        "3"
    } else if d == 4 {
        "4"
    } else if d == 5 {
        "5"
    } else if d == 6 {
        "6"
    } else if d == 7 {
        "7"
    } else if d == 8 {
        "8"
    } else {
        "9"
    }
}

/// The decimal text of `n`.
pub fn decimal(n: usize) -> (r: String)
    ensures
        r@ == decimal_text(n as nat),
    decreases n,
{
    if n < 10 {
        digit(n).to_string()
    } else {
        decimal(n / 10).concat(digit(n % 10))
    }
}

/// `head`, the decimal text of `a`, then `tail`.
pub fn with_number(head: &str, a: usize, tail: &str) -> (r: String)
    ensures
        r@ == head@ + decimal_text(a as nat) + tail@,
{
    head.to_string().concat(decimal(a).as_str()).concat(tail)
}

/// `head`, `a`, `middle`, `b`, then `tail`, the numbers in decimal.
pub fn with_two_numbers(head: &str, a: usize, middle: &str, b: usize, tail: &str) -> (r: String)
    ensures
        r@ == head@ + decimal_text(a as nat) + middle@ + decimal_text(b as nat) + tail@,
{
    with_number(head, a, middle).concat(decimal(b).as_str()).concat(tail)
}

/// `head`, `a`, `first`, `b`, `second`, `c`, then `tail`, the numbers in decimal.
pub fn with_three_numbers(
    head: &str,
    a: usize,
    first: &str,
    b: usize,
    second: &str,
    c: usize,
    tail: &str,
) -> (r: String)
    ensures
        r@ == head@ + decimal_text(a as nat) + first@ + decimal_text(b as nat) + second@
            + decimal_text(c as nat) + tail@,
{
    with_two_numbers(head, a, first, b, second).concat(decimal(c).as_str()).concat(tail)
}

} // verus!
