//! The hash by which the sketches spread their keys: `rustc_hash::FxHasher`.

use std::hash::{Hash, Hasher};

use rustc_hash::FxHasher;
use vstd::prelude::*;

verus! {

/// What a fresh `FxHasher` on a target with words of `word_bits` bits reaches
/// after the slice `key`. The hasher has no seed of its own; besides its input
/// only the word size and the byte order of the target enter the result, and the
/// name is read for the byte order of the target that the crate is built for.
pub uninterp spec fn fx_digest(word_bits: u32, key: Seq<u8>) -> u64;

/// What a fresh `FxHasher` on a target with words of `word_bits` bits reaches
/// after the number `seed` and then the slice `key`, read as [`fx_digest`] is.
pub uninterp spec fn fx_seeded_digest(word_bits: u32, seed: u64, key: Seq<u8>) -> u64;

/// Feeds `key` to a fresh `rustc_hash::FxHasher` and finishes it. The claim is
/// that the result depends on the bytes of `key`, on the target's word size and
/// byte order, and on nothing else.
#[verifier::external_body]
pub(crate) fn fx_hash(key: &[u8]) -> (r: u64)
    ensures
        r == fx_digest(usize::BITS, key@),
{
    let mut hasher = FxHasher::default();
    key.hash(&mut hasher);
    hasher.finish()
}

/// Feeds `seed` and then `key` to a fresh `rustc_hash::FxHasher` and finishes it.
/// The claim is that the result depends on `seed`, on the bytes of `key`, on the
/// target's word size and byte order, and on nothing else.
#[verifier::external_body]
pub(crate) fn fx_hash_seeded(seed: u64, key: &[u8]) -> (r: u64)
    ensures
        r == fx_seeded_digest(usize::BITS, seed, key@),
{
    let mut hasher = FxHasher::default();
    seed.hash(&mut hasher);
    key.hash(&mut hasher);
    hasher.finish()
}

} // verus!
