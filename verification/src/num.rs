//! Bounded arithmetic on terminal cells and row counts.

use vstd::prelude::*;

verus! {

/// The larger of two numbers.
pub open spec fn max_int(a: int, b: int) -> int {
    if a < b { b } else { a }
}

/// The smaller of two numbers.
pub open spec fn min_int(a: int, b: int) -> int {
    if a < b { a } else { b }
}

/// `a - b`, or zero where that would be negative.
pub open spec fn monus(a: int, b: int) -> int {
    if a < b { 0 } else { a - b }
}

/// `value` moved into `low..=high`.
pub open spec fn clamp_int(value: int, low: int, high: int) -> int {
    if value < low { low } else if value > high { high } else { value }
}

pub fn max_u16(a: u16, b: u16) -> (r: u16)
    ensures
        r == max_int(a as int, b as int),
{
    if a < b { b } else { a }
}

pub fn min_u16(a: u16, b: u16) -> (r: u16)
    ensures
        r == min_int(a as int, b as int),
{
    if a < b { a } else { b }
}

pub fn max_usize(a: usize, b: usize) -> (r: usize)
    ensures
        r == max_int(a as int, b as int),
{
    if a < b { b } else { a }
}

pub fn min_usize(a: usize, b: usize) -> (r: usize)
    ensures
        r == min_int(a as int, b as int),
{
    if a < b { a } else { b }
}

/// What is left of a number in sixteen bits.
pub open spec fn low16(n: int) -> int {
    n % 65536
}

/// The low sixteen bits of a number.
pub fn cut_u16(n: usize) -> (r: u16)
    ensures
        r == low16(n as int),
{
    (n % 65536) as u16
}

/// A number as far as sixteen bits can hold it.
pub open spec fn sat16(n: int) -> int {
    if n > 65535 { 65535 } else { n }
}

/// A number as far as sixteen bits can hold it.
pub fn sat_u16(n: usize) -> (r: u16)
    ensures
        r == sat16(n as int),
{
    if n > 65535 { 65535 } else { n as u16 }
}

} // verus!
