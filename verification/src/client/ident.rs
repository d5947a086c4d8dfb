//! Connection identifiers.
use rand::rngs::StdRng;
use rand::{RngCore, SeedableRng};

use vstd::prelude::*;

verus! {

/// The seed that identifiers are drawn from.
pub const SEED: u64 = 0x0123_4567_89ab_cdef;

/// The first `len` bytes that `rand::rngs::StdRng` gives when it is seeded with
/// `SeedableRng::seed_from_u64(seed)`.
pub uninterp spec fn std_rng_bytes(seed: u64, len: nat) -> Seq<u8>;

/// Fills a vector with `RngCore::fill_bytes` of a `StdRng` seeded by `seed_from_u64`. The generator
/// is deterministic, so the bytes depend on the seed and the length alone; every byte of the vector
/// is filled.
#[verifier::external_body]
fn seeded_bytes(seed: u64, len: usize) -> (r: Vec<u8>)
    requires
        len <= isize::MAX,
    ensures
        r@ == std_rng_bytes(seed, len as nat),
        r@.len() == len,
{
    let mut v = vec![0u8; len];
    StdRng::seed_from_u64(seed).fill_bytes(&mut v);
    v
}

/// The bytes of a connection identifier; the same on every call.
pub fn rand_bytes(len: usize) -> (r: Vec<u8>)
    requires
        len <= isize::MAX,
    ensures
        r@ == std_rng_bytes(SEED, len as nat),
        r@.len() == len,
{
    seeded_bytes(SEED, len)
}

} // verus!
