//! Bucketing of in-attribute positions.

use vstd::prelude::*;

verus! {

/// The smallest value of `p, 2p, 4p, ...` that is at least `r`.
pub open spec fn next_power_from(r: nat, p: nat) -> nat
    decreases if p >= r { 0 } else { r - p },
{
    if p == 0 || p >= r {
        p
    } else {
        next_power_from(r, 2 * p)
    }
}

/// Positions under 16 are kept; those from 16 to 23 become 24; larger ones
/// become the smallest power of two at least as large, capped at `u16::MAX`.
pub open spec fn spec_bucketed_position(relative: u16) -> u16 {
    if relative < 16 {
        relative
    } else if relative < 24 {
        24
    } else if relative <= 32768 {
        next_power_from(relative as nat, 32) as u16
    } else {
        65535
    }
}

/// Maps an in-attribute position to its bucket.
pub fn bucketed_position(relative: u16) -> (r: u16)
    ensures
        r == spec_bucketed_position(relative),
{
    if relative < 16 {
        relative
    } else if relative < 24 {
        24
    } else if relative <= 32768 {
        let mut p: u32 = 32;
        while p < relative as u32
            invariant
                24 <= relative <= 32768,
                p == 32 || p == 64 || p == 128 || p == 256 || p == 512 || p == 1024 || p == 2048
                    || p == 4096 || p == 8192 || p == 16384 || p == 32768,
                next_power_from(relative as nat, p as nat) == next_power_from(relative as nat, 32),
            decreases if p >= relative { 0 } else { relative - p },
        {
            p = p * 2;
        }
        p as u16
    } else {
        65535
    }
}

proof fn lemma_next_power_from(r1: nat, r2: nat, p: nat)
    requires
        p > 0,
        r1 <= r2,
    ensures
        p <= next_power_from(r1, p) <= next_power_from(r2, p),
        p < r2 ==> next_power_from(r2, p) < 2 * r2,
    decreases if p >= r2 { 0 } else { r2 - p },
{
    if p < r2 {
        if p < r1 {
            lemma_next_power_from(r1, r2, 2 * p);
        } else {
            lemma_next_power_from(r2, r2, 2 * p);
        }
    }
}

/// Buckets keep the order of positions.
pub proof fn lemma_bucketed_position_monotone(a: u16, b: u16)
    requires
        a <= b,
    ensures
        spec_bucketed_position(a) <= spec_bucketed_position(b),
{
    if a >= 24 && b <= 32768 {
        lemma_next_power_from(a as nat, b as nat, 32);
    }
    if b >= 24 && b <= 32768 {
        lemma_next_power_from(b as nat, b as nat, 32);
    }
}

} // verus!
