//! Forward ring distance over 16-bit block numbers.
//!
//! All block-number arithmetic in the protocol is modulo 2^16; the distance
//! from `a` to `b` is the number of forward steps from `a` that reach `b`.

use vstd::prelude::*;

verus! {

/// The forward distance from `a` to `b` on the 16-bit ring:
/// `(b - a) mod 2^16`.
pub open spec fn spec_ring_diff(a: u16, b: u16) -> int {
    if a <= b {
        b - a
    } else {
        0x10000 - a + b
    }
}

/// Adding `k` forward steps to `a` on the 16-bit ring.
pub open spec fn spec_ring_add(a: u16, k: int) -> u16 {
    ((a + k) % 0x10000) as u16
}

/// `spec_ring_diff` inverts `spec_ring_add`: walking `k < 2^16` steps
/// forward from `a` lands at distance exactly `k`.
pub proof fn lemma_ring_diff_of_add(a: u16, k: int)
    requires
        0 <= k < 0x10000,
    ensures
        spec_ring_diff(a, spec_ring_add(a, k)) == k,
{
}

/// Forward steps compose: walking `x` and then `y` steps is walking
/// `x + y` steps.
pub proof fn lemma_ring_add_assoc(a: u16, x: int, y: int)
    requires
        0 <= x,
        0 <= y,
    ensures
        spec_ring_add(spec_ring_add(a, x), y) == spec_ring_add(a, x + y),
{
    let m = 0x10000;
    vstd::arithmetic::div_mod::lemma_add_mod_noop((a + x) % m, y, m);
    vstd::arithmetic::div_mod::lemma_mod_twice(a + x, m);
    vstd::arithmetic::div_mod::lemma_add_mod_noop(a + x, y, m);
    vstd::arithmetic::div_mod::lemma_mod_twice(y, m);
}

/// The forward 16-bit ring distance from `a` to `b`.
pub fn ring_diff(a: u16, b: u16) -> (r: usize)
    ensures
        r == spec_ring_diff(a, b),
        r < 0x10000,
{
    if a <= b {
        (b - a) as usize
    } else {
        0x10000 - (a as usize) + (b as usize)
    }
}

/// `a` advanced by `k` blocks, wrapping past 65535.
pub fn ring_add(a: u16, k: u16) -> (r: u16)
    ensures
        r == spec_ring_add(a, k as int),
{
    a.wrapping_add(k)
}

} // verus!
