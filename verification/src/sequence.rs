//! Wrapping comparison of 16-bit sequence numbers (ticks, packet indices,
//! local keys).

use vstd::prelude::*;

verus! {

/// Half of the 16-bit sequence space.
pub const HALF_RANGE: u16 = 32768;

/// `a` comes after `b` in wrapping order.
pub open spec fn greater_than(a: u16, b: u16) -> bool {
    ||| (a > b && a - b <= 32768)
    ||| (a < b && b - a > 32768)
}

/// `a` comes before `b` in wrapping order.
pub open spec fn less_than(a: u16, b: u16) -> bool {
    greater_than(b, a)
}

/// `a` is `b` or comes before it in wrapping order.
pub open spec fn not_after(a: u16, b: u16) -> bool {
    a == b || greater_than(b, a)
}

/// The sequence number `n` steps after `a`.
pub open spec fn advance(a: u16, n: int) -> u16 {
    ((a + n) % 65536) as u16
}

/// The signed distance from `a` to `b` along the shorter way round.
pub open spec fn diff(a: u16, b: u16) -> int {
    let d = b - a;
    if d > 32767 {
        d - 65536
    } else if d < -32768 {
        d + 65536
    } else {
        d
    }
}

pub fn sequence_greater_than(s1: u16, s2: u16) -> (r: bool)
    ensures
        r == greater_than(s1, s2),
{
    ((s1 > s2) && (s1 - s2 <= HALF_RANGE)) || ((s1 < s2) && (s2 - s1 > HALF_RANGE))
}

pub fn sequence_less_than(s1: u16, s2: u16) -> (r: bool)
    ensures
        r == less_than(s1, s2),
{
    sequence_greater_than(s2, s1)
}

/// The signed number of steps from `a` to `b`, taking the shorter way round
/// the sequence space.
pub fn wrapping_diff(a: u16, b: u16) -> (r: i16)
    ensures
        r == diff(a, b),
{
    let a32: i32 = a as i32;
    let b32: i32 = b as i32;
    let d: i32 = b32 - a32;
    if d > 32767 {
        (d - 65536) as i16
    } else if d < -32768 {
        (d + 65536) as i16
    } else {
        d as i16
    }
}

/// Of two distinct sequence numbers exactly one comes after the other; a
/// number never comes after itself.
pub proof fn lemma_greater_than_wrap_safe(a: u16, b: u16)
    ensures
        (greater_than(a, b) == !greater_than(b, a)) || a == b,
        !greater_than(a, a),
{
}

} // verus!
