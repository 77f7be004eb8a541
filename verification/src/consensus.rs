//! The consensus layer: a pluggable rule that decides whether a header is
//! admissible, and that constructs ("seals") headers satisfying the rule,
//! independent of what the header's extrinsics do.
//!
//! The proof-of-work instantiation requires block authors to find a nonce
//! under which the header's hash falls below a difficulty threshold.

use vstd::prelude::*;
use crate::hashing::{hash_words, words_hash};

verus! {

/// A header generic over a consensus-specific digest type. The unit
/// digest stands for an unsealed header; a consensus engine turns it into
/// a sealed one by filling in a digest of its own type.
#[derive(Clone, Copy, Debug, PartialEq, Eq, Hash)]
pub struct Header<Digest> {
    /// The hash of this header's parent header.
    pub parent: u64,
    /// Zero for the genesis header, and one more than the parent otherwise.
    pub height: u64,
    /// A commitment to the block body's extrinsics.
    pub extrinsics_root: u64,
    /// A commitment to the state the block leads to.
    pub state_root: u64,
    /// The consensus-specific seal.
    pub consensus_digest: Digest,
}

/// A consensus engine: decides which headers are admissible, and seals
/// partial headers so that they become admissible. Implementations state
/// what they decide in their own `ensures` clauses.
pub trait Consensus {
    /// The consensus-specific digest carried in sealed headers.
    type Digest;

    /// Whether the given header is admissible under this rule, in the
    /// context of its parent's digest.
    fn validate(&self, parent_digest: &Self::Digest, header: &Header<Self::Digest>) -> bool;

    /// Attempt to seal the partial header: fill in a digest under which
    /// the header satisfies this rule. Sealing may fail, in which case
    /// nothing is returned.
    fn seal(&self, parent_digest: &Self::Digest, partial_header: Header<()>) -> Option<
        Header<Self::Digest>,
    >;
}

/// A proof-of-work consensus engine: a header is admissible when its hash
/// falls below the difficulty threshold.
pub struct PoW {
    threshold: u64,
}

/// The sealed header a nonce makes out of a partial header.
pub open spec fn with_digest(partial: Header<()>, nonce: u64) -> Header<u64> {
    Header {
        parent: partial.parent,
        height: partial.height,
        extrinsics_root: partial.extrinsics_root,
        state_root: partial.state_root,
        consensus_digest: nonce,
    }
}

/// The proof-of-work hash of a sealed header: the hash of the header's
/// content together with its digest.
#[verifier::opaque]
pub open spec fn pow_hash(h: Header<u64>) -> u64 {
    words_hash(seq![h.parent, h.height, h.extrinsics_root, h.state_root, h.consensus_digest])
}

/// Computes the proof-of-work hash of a sealed header.
pub fn hash_pow_header(h: &Header<u64>) -> (r: u64)
    ensures
        r == pow_hash(*h),
{
    let words = vec![h.parent, h.height, h.extrinsics_root, h.state_root, h.consensus_digest];
    proof {
        reveal(pow_hash);
        assert(words@ =~= seq![
            h.parent,
            h.height,
            h.extrinsics_root,
            h.state_root,
            h.consensus_digest,
        ]);
    }
    hash_words(&words)
}

impl PoW {
    /// The difficulty threshold this engine was built with.
    pub closed spec fn spec_threshold(self) -> u64 {
        self.threshold
    }

    /// A proof-of-work engine with the given difficulty threshold.
    pub fn new(threshold: u64) -> (r: PoW)
        ensures
            r.spec_threshold() == threshold,
    {
        PoW { threshold }
    }
}

impl Consensus for PoW {
    type Digest = u64;

    /// Check that the provided header's hash is below the required
    /// threshold. This does not rely on the parent digest at all.
    fn validate(&self, parent_digest: &u64, header: &Header<u64>) -> (r: bool)
        ensures
            r == (pow_hash(*header) < self.spec_threshold()),
    {
        let digest = hash_pow_header(header);
        digest < self.threshold
    }

    /// Mine a proof-of-work seal for the partial header provided, testing
    /// nonces in increasing order. This does not rely on the parent
    /// digest at all. Nothing is returned only when no nonce at all
    /// satisfies the threshold.
    #[verifier::loop_isolation(false)]
    fn seal(&self, parent_digest: &u64, partial_header: Header<()>) -> (r: Option<Header<u64>>)
        ensures
            match r {
                Option::Some(h) => {
                    &&& h == with_digest(partial_header, h.consensus_digest)
                    &&& pow_hash(h) < self.spec_threshold()
                    &&& forall|earlier: u64|
                        earlier < h.consensus_digest ==> pow_hash(
                            #[trigger] with_digest(partial_header, earlier),
                        ) >= self.spec_threshold()
                },
                Option::None => forall|nonce: u64|
                    pow_hash(#[trigger] with_digest(partial_header, nonce))
                        >= self.spec_threshold(),
            },
    {
        let mut nonce: u64 = 0;
        while nonce < u64::MAX
            invariant
                forall|m: u64|
                    m < nonce ==> pow_hash(#[trigger] with_digest(partial_header, m))
                        >= self.spec_threshold(),
            decreases u64::MAX - nonce,
        {
            let candidate = Header {
                parent: partial_header.parent,
                height: partial_header.height,
                extrinsics_root: partial_header.extrinsics_root,
                state_root: partial_header.state_root,
                consensus_digest: nonce,
            };
            if hash_pow_header(&candidate) < self.threshold {
                return Option::Some(candidate);
            }
            nonce = nonce + 1;
        }
        let last = Header {
            parent: partial_header.parent,
            height: partial_header.height,
            extrinsics_root: partial_header.extrinsics_root,
            state_root: partial_header.state_root,
            consensus_digest: u64::MAX,
        };
        if hash_pow_header(&last) < self.threshold {
            return Option::Some(last);
        }
        proof {
            assert forall|m: u64|
                pow_hash(#[trigger] with_digest(partial_header, m)) >= self.spec_threshold() by {
                if m < u64::MAX {
                } else {
                    assert(with_digest(partial_header, m) == last);
                }
            }
        }
        Option::None
    }
}

/// Create a proof-of-work consensus engine whose difficulty threshold
/// admits roughly one in a hundred randomly drawn nonces: the threshold
/// is the greatest representable value divided by one hundred.
pub fn moderate_difficulty_pow() -> (r: PoW)
    ensures
        r.spec_threshold() == u64::MAX / 100,
{
    PoW::new(u64::MAX / 100)
}

} // verus!
