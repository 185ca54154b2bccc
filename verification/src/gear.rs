//! The gear table: 256 pseudo-random 64-bit values, one per byte value,
//! used to perturb the rolling hash. The table is generated deterministically
//! from a seed, so two detectors built with the same seed agree on every
//! boundary; a custom seed yields a different, incompatible table.

use vstd::prelude::*;

verus! {

/// Seed used for the gear table when the caller does not supply one.
pub const DEFAULT_GEAR_SEED: u64 = 0;

/// Increment of the Weyl sequence that drives the generator.
pub const GEAR_STEP: u64 = 0x9E37_79B9_7F4A_7C15;

/// First multiplier of the output mixer.
pub const GEAR_MIX_A: u64 = 0xBF58_476D_1CE4_E5B9;

/// Second multiplier of the output mixer.
pub const GEAR_MIX_B: u64 = 0x94D0_49BB_1331_11EB;

/// The 64-bit finalizer applied to each raw generator state: xor-shifts and
/// odd-constant multiplications, all modulo `2^64`.
pub open spec fn mix64(z: u64) -> u64 {
    let a = (z ^ (z >> 30)).wrapping_mul(GEAR_MIX_A);
    let b = (a ^ (a >> 27)).wrapping_mul(GEAR_MIX_B);
    b ^ (b >> 31)
}

/// The gear value for byte `i` under `seed`.
pub open spec fn gear_entry(seed: u64, i: int) -> u64 {
    mix64(seed.wrapping_add(((i + 1) as u64).wrapping_mul(GEAR_STEP)))
}

/// The whole 256-entry table for `seed`.
pub open spec fn gear_table(seed: u64) -> Seq<u64> {
    Seq::new(256, |i: int| gear_entry(seed, i))
}

/// Computes one gear value, so that callers (and tests) can reproduce the
/// rolling hash independently of a detector.
pub fn gear_value(seed: u64, index: usize) -> (g: u64)
    requires
        index < 256,
    ensures
        g == gear_entry(seed, index as int),
{
    let z: u64 = seed.wrapping_add(((index as u64) + 1).wrapping_mul(GEAR_STEP));
    let a: u64 = (z ^ (z >> 30)).wrapping_mul(GEAR_MIX_A);
    let b: u64 = (a ^ (a >> 27)).wrapping_mul(GEAR_MIX_B);
    b ^ (b >> 31)
}

/// Builds the full table for `seed`.
pub fn make_gear_table(seed: u64) -> (g: Vec<u64>)
    ensures
        g@ == gear_table(seed),
{
    let mut g: Vec<u64> = Vec::new();
    let mut i: usize = 0;
    while i < 256
        invariant
            i <= 256,
            g@.len() == i,
            forall|j: int| 0 <= j < i ==> g@[j] == gear_entry(seed, j),
        decreases 256 - i,
    {
        g.push(gear_value(seed, i));
        i = i + 1;
    }
    proof {
        assert(g@ =~= gear_table(seed));
    }
    g
}

} // verus!
