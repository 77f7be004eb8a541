//! The one hash function every layer shares: a 64-bit digest of a sequence
//! of 64-bit words, computed with the standard library's `DefaultHasher`.
//!
//! The digest itself is left abstract: specifications only rely on it being
//! a deterministic function of the words fed in. Each word is written to
//! the hasher as its eight little-endian bytes, so the abstract transcript
//! seen by `DefaultHasher::spec_finish` is pinned down exactly by the word
//! sequence.

use vstd::prelude::*;
use vstd::bytes::{spec_u64_to_le_bytes, u64_to_le_bytes};
use vstd::std_specs::hash::DefaultHasherAdditionalSpecFns;
use std::collections::hash_map::DefaultHasher;
use std::hash::Hasher;

verus! {

/// The transcript of hasher writes that a word sequence produces:
/// one entry of eight little-endian bytes per word.
pub open spec fn words_transcript(words: Seq<u64>) -> Seq<Seq<u8>> {
    Seq::new(words.len(), |i: int| spec_u64_to_le_bytes(words[i]))
}

/// The 64-bit digest of a word sequence. Deterministic, but otherwise
/// uninterpreted: no specification in this crate constrains its value.
pub open spec fn words_hash(words: Seq<u64>) -> u64 {
    DefaultHasher::spec_finish(words_transcript(words))
}

/// Computes the digest of a word sequence by feeding each word's
/// little-endian bytes to a fresh `DefaultHasher`.
pub fn hash_words(words: &Vec<u64>) -> (r: u64)
    ensures
        r == words_hash(words@),
{
    let mut hasher = DefaultHasher::new();
    let mut i: usize = 0;
    while i < words.len()
        invariant
            i <= words.len(),
            hasher@ == words_transcript(words@.take(i as int)),
        decreases words.len() - i,
    {
        let bytes = u64_to_le_bytes(words[i]);
        hasher.write(bytes.as_slice());
        i = i + 1;
        proof {
            assert(words_transcript(words@.take(i as int)) =~= words_transcript(
                words@.take(i - 1),
            ).push(spec_u64_to_le_bytes(words@[i - 1])));
        }
    }
    proof {
        assert(words@.take(words@.len() as int) =~= words@);
    }
    hasher.finish()
}

} // verus!
