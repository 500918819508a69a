//! Deterministic dice and salt generation.  Each call builds a fresh
//! pseudo-random stream from a seed hashed out of the caller's context,
//! so outcomes are reproducible from identical inputs; callers mix in a
//! private nonce and timestamp so no seed is ever reused.
//!
//! The generator itself comes from an outside crate and is opaque here:
//! the contracts state only what holds of every outcome (ranges and
//! lengths), never which values come out.

use vstd::prelude::*;
use vstd::string::StrSliceExecFns;
use vstd::string::StringSliceAdditionalSpecFns;
use crate::crypto::sha256_of;

verus! {

#[verifier::external_type_specification]
#[verifier::external_body]
pub struct ExStdRng(rand::rngs::StdRng);

/// Relies on rand::rngs::StdRng (through rand::SeedableRng::from_seed):
/// builds an independent generator from a 32-byte seed.
#[verifier::external_body]
fn rng_from_seed(seed: [u8; 32]) -> rand::rngs::StdRng {
    <rand::rngs::StdRng as rand::SeedableRng>::from_seed(seed)
}

/// Relies on rand::Rng::gen_range: returns a value of the given
/// half-open range, which must not be empty.
#[verifier::external_body]
fn rng_range_u8(rng: &mut rand::rngs::StdRng, lo: u8, hi: u8) -> (r: u8)
    requires
        lo < hi,
    ensures
        lo <= r < hi,
{
    rand::Rng::gen_range(rng, lo..hi)
}

/// Relies on rand::Rng::gen: draws one byte.
#[verifier::external_body]
fn rng_next_byte(rng: &mut rand::rngs::StdRng) -> u8 {
    rand::Rng::gen(rng)
}

/// The 32-byte seed for a round: the digest of the context hash string
/// and the timestamp string.
fn get_seed_array(hash: &str, timestamp: &str) -> (r: [u8; 32])
    ensures
        r@ == sha256_of(hash.spec_bytes() + timestamp.spec_bytes()),
{
    let mut buf = hash.as_bytes_vec();
    let mut tail = timestamp.as_bytes_vec();
    let mut i: usize = 0;
    while i < tail.len()
        invariant
            0 <= i <= tail@.len(),
            tail@ == timestamp.spec_bytes(),
            buf@ =~= hash.spec_bytes() + tail@.subrange(0, i as int),
        decreases tail@.len() - i,
    {
        buf.push(tail[i]);
        i = i + 1;
    }
    proof {
        assert(buf@ =~= hash.spec_bytes() + timestamp.spec_bytes());
    }
    crate::crypto::sha256_digest(buf.as_slice())
}

/// Get a value uniform in [min, max), from a fresh generator seeded by
/// the hash and timestamp.
pub fn get_random_value(min: u8, max: u8, hash: String, timestamp: String) -> (r: u8)
    requires
        min < max,
    ensures
        min <= r < max,
{
    let mut rng = rng_from_seed(get_seed_array(hash.as_str(), timestamp.as_str()));
    rng_range_u8(&mut rng, min, max)
}

/// Generate one die roll in 1..=6.
pub fn roll_die(hash: String, timestamp: String) -> (r: u8)
    ensures
        1 <= r <= 6,
{
    get_random_value(1, 7, hash, timestamp)
}

/// Generate `count` dice rolls, each in 1..=6, from one fresh generator.
pub fn roll_dice(count: u8, hash: String, timestamp: String) -> (r: Vec<u8>)
    ensures
        r@.len() == count,
        forall|i: int| 0 <= i < r@.len() ==> 1 <= #[trigger] r@[i] <= 6,
{
    let mut rng = rng_from_seed(get_seed_array(hash.as_str(), timestamp.as_str()));
    let mut dice: Vec<u8> = Vec::new();
    let mut i: usize = 0;
    while i < count as usize
        invariant
            0 <= i <= count,
            dice@.len() == i,
            forall|j: int| 0 <= j < dice@.len() ==> 1 <= #[trigger] dice@[j] <= 6,
        decreases count - i,
    {
        let d = rng_range_u8(&mut rng, 1, 7);
        dice.push(d);
        i = i + 1;
    }
    dice
}

/// Generate a 32-byte salt from one fresh generator.
pub fn generate_random_salt(hash: String, timestamp: String) -> [u8; 32] {
    let mut rng = rng_from_seed(get_seed_array(hash.as_str(), timestamp.as_str()));
    let mut salt = [0u8; 32];
    let mut i: usize = 0;
    while i < 32
        invariant
            0 <= i <= 32,
        decreases 32 - i,
    {
        salt[i] = rng_next_byte(&mut rng);
        i = i + 1;
    }
    salt
}

} // verus!
