//! A hash-linked chain of headers that directly carry one extrinsic and one
//! piece of state each. The chain works as an adder: state starts at zero
//! and each header adds its extrinsic to its parent's state.
//!
//! Verification walks the stored headers and recomputes every link: the
//! parent hash, the consecutive height, and the state relationship.

use vstd::prelude::*;
use crate::hashing::{hash_words, words_hash};

verus! {

/// A block header carrying a single extrinsic and the state it leads to.
#[derive(Clone, Copy, Debug, PartialEq, Eq, Hash)]
pub struct Header {
    /// The hash of this header's parent header; zero for the genesis header.
    pub parent: u64,
    /// Zero for the genesis header, and one more than the parent otherwise.
    pub height: u64,
    /// The one extrinsic this header carries; the chain adds it to the state.
    pub extrinsic: u64,
    /// The state after applying this header's extrinsic to the parent's state.
    pub state: u64,
    /// No consensus takes part in this chain.
    pub consensus_digest: (),
}

/// The digest of a header: the hash of its four word-sized fields.
#[verifier::opaque]
pub open spec fn header_hash(h: Header) -> u64 {
    words_hash(seq![h.parent, h.height, h.extrinsic, h.state])
}

/// Computes the digest of a header.
pub fn hash_header(h: &Header) -> (r: u64)
    ensures
        r == header_hash(*h),
{
    let words = vec![h.parent, h.height, h.extrinsic, h.state];
    proof {
        reveal(header_hash);
        assert(words@ =~= seq![h.parent, h.height, h.extrinsic, h.state]);
    }
    hash_words(&words)
}

/// The canonical genesis header: height zero, null parent, no extrinsic,
/// zero state.
pub open spec fn genesis_header() -> Header {
    Header { parent: 0, height: 0, extrinsic: 0, state: 0, consensus_digest: () }
}

/// What makes `c` a valid child of `p`: `c` names the hash of `p` as its
/// parent, sits one higher, and its state is the parent's state plus its
/// extrinsic.
pub open spec fn child_links(p: Header, c: Header) -> bool {
    &&& c.parent == header_hash(p)
    &&& c.height == p.height + 1
    &&& c.state == p.state + c.extrinsic
}

/// A chain hanging from `g` is valid when every stored header is a valid
/// child of the one before it.
pub open spec fn chain_valid_from(g: Header, chain: Seq<Header>) -> bool
    decreases chain.len(),
{
    chain.len() == 0 || (child_links(g, chain[0]) && chain_valid_from(
        chain[0],
        chain.drop_first(),
    ))
}

impl Header {
    /// Returns a new valid genesis header.
    pub fn genesis() -> (r: Header)
        ensures
            r == genesis_header(),
    {
        Header { parent: 0, height: 0, extrinsic: 0, state: 0, consensus_digest: () }
    }

    /// Create and return a valid child header.
    ///
    /// This blockchain works as an adder: the state starts at zero, and at
    /// each block the extrinsic is added to the state.
    pub fn child(&self, extrinsic: u64) -> (r: Header)
        requires
            self.height + 1 <= u64::MAX,
            self.state + extrinsic <= u64::MAX,
        ensures
            r == (Header {
                parent: header_hash(*self),
                height: (self.height + 1) as u64,
                extrinsic,
                state: (self.state + extrinsic) as u64,
                consensus_digest: (),
            }),
            child_links(*self, r),
    {
        Header {
            parent: hash_header(self),
            height: self.height + 1,
            extrinsic,
            state: self.state + extrinsic,
            consensus_digest: (),
        }
    }

    /// Verify that all the given headers form a valid chain from this
    /// header to the tip: consecutive heights, linked hashes, and the
    /// adder's state relationship at every step.
    #[verifier::loop_isolation(false)]
    pub fn verify_sub_chain(&self, chain: &[Header]) -> (r: bool)
        ensures
            r == chain_valid_from(*self, chain@),
    {
        let mut prev: Header = *self;
        let mut i: usize = 0;
        proof {
            assert(chain@.skip(0) =~= chain@);
        }
        while i < chain.len()
            invariant
                i <= chain@.len(),
                prev == if i == 0 {
                    *self
                } else {
                    chain@[i - 1]
                },
                chain_valid_from(*self, chain@) == chain_valid_from(prev, chain@.skip(i as int)),
            decreases chain@.len() - i,
        {
            let ghost tail = chain@.skip(i as int);
            proof {
                assert(tail[0] == chain@[i as int]);
                assert(tail.drop_first() =~= chain@.skip(i + 1));
            }
            let h = chain[i];
            let parent_hash = hash_header(&prev);
            let linked = h.parent == parent_hash && h.height as u128 == prev.height as u128 + 1
                && h.state as u128 == prev.state as u128 + h.extrinsic as u128;
            if !linked {
                proof {
                    assert(!child_links(prev, tail[0]));
                }
                return false;
            }
            prev = h;
            i = i + 1;
        }
        proof {
            assert(chain@.skip(chain@.len() as int) =~= Seq::<Header>::empty());
        }
        true
    }
}

/// Header linkage: in a valid chain every stored header names the hash of
/// the header before it as its parent and sits exactly one higher, with
/// the adder's state relationship at every step.
pub proof fn lemma_valid_chain_links(g: Header, chain: Seq<Header>, i: int)
    requires
        chain_valid_from(g, chain),
        0 <= i < chain.len(),
    ensures
        child_links(
            if i == 0 {
                g
            } else {
                chain[i - 1]
            },
            chain[i],
        ),
    decreases i,
{
    if i > 0 {
        lemma_valid_chain_links(chain[0], chain.drop_first(), i - 1);
        assert(chain.drop_first()[i - 1] == chain[i]);
        if i >= 2 {
            assert(chain.drop_first()[i - 2] == chain[i - 1]);
        }
    }
}

/// A valid chain stays valid when a valid child of its last header is
/// appended.
pub proof fn lemma_chain_valid_push(g: Header, chain: Seq<Header>, c: Header)
    requires
        chain_valid_from(g, chain),
        child_links(
            if chain.len() == 0 {
                g
            } else {
                chain.last()
            },
            c,
        ),
    ensures
        chain_valid_from(g, chain.push(c)),
    decreases chain.len(),
{
    let grown = chain.push(c);
    if chain.len() == 0 {
        assert(grown[0] == c);
        assert(grown.drop_first() =~= Seq::<Header>::empty());
        assert(chain_valid_from(c, Seq::<Header>::empty()));
        assert(chain_valid_from(g, grown));
    } else {
        assert(grown[0] == chain[0]);
        assert(grown.drop_first() =~= chain.drop_first().push(c));
        if chain.len() > 1 {
            assert(chain.drop_first().last() == chain.last());
        }
        lemma_chain_valid_push(chain[0], chain.drop_first(), c);
        assert(chain_valid_from(chain[0], grown.drop_first()));
        assert(chain_valid_from(g, grown));
    }
}

/// Build and return a valid chain with the given number of child headers
/// under the genesis header. Each child repeats its parent's extrinsic,
/// which the genesis header fixes at zero.
#[verifier::loop_isolation(false)]
pub fn build_valid_chain(n: u64) -> (r: Vec<Header>)
    ensures
        r@.len() == n + 1,
        r@[0] == genesis_header(),
        chain_valid_from(r@[0], r@.skip(1)),
        forall|i: int| 0 <= i < r@.len() ==> (#[trigger] r@[i]).extrinsic == 0,
{
    let mut chain: Vec<Header> = Vec::new();
    chain.push(Header::genesis());
    let mut prev: Header = Header::genesis();
    let mut i: u64 = 0;
    while i < n
        invariant
            i <= n,
            chain@.len() == i + 1,
            chain@[0] == genesis_header(),
            prev == chain@[chain@.len() - 1],
            prev.height == i,
            prev.extrinsic == 0,
            prev.state == 0,
            forall|j: int| 0 <= j < chain@.len() ==> (#[trigger] chain@[j]).extrinsic == 0,
            chain_valid_from(chain@[0], chain@.skip(1)),
        decreases n - i,
    {
        let next = prev.child(prev.extrinsic);
        let ghost before = chain@;
        chain.push(next);
        proof {
            let btail = before.skip(1);
            if i == 0 {
                assert(btail.len() == 0);
            } else {
                assert(btail.last() == before[before.len() - 1]);
            }
            lemma_chain_valid_push(before[0], btail, next);
            assert(chain@.skip(1) =~= btail.push(next));
        }
        prev = next;
        i = i + 1;
    }
    chain
}

/// Build and return a chain of three headers that starts with a proper
/// genesis header but is not valid as a whole: both children hang from
/// the genesis header directly, so the heights cannot be consecutive.
/// Only `genesis` and `child` are used to create the headers.
pub fn build_an_invalid_chain() -> (r: Vec<Header>)
    ensures
        r@.len() == 3,
        r@[0] == genesis_header(),
        !chain_valid_from(r@[0], r@.skip(1)),
{
    let g = Header::genesis();
    let first = g.child(1);
    let second = g.child(2);
    let mut chain: Vec<Header> = Vec::new();
    chain.push(g);
    chain.push(first);
    chain.push(second);
    proof {
        let tail = chain@.skip(1);
        assert(tail[0] == first && tail[1] == second);
        if chain_valid_from(chain@[0], tail) {
            lemma_valid_chain_links(chain@[0], tail, 1);
            assert(second.height == first.height + 1);
            assert(false);
        }
    }
    chain
}

/// Build and return two header chains: both individually valid, sharing
/// the same genesis header, and not the same chain.
pub fn build_forked_chain() -> (r: (Vec<Header>, Vec<Header>))
    ensures
        r.0@.len() == 5,
        r.1@.len() == 5,
        r.0@[0] == genesis_header(),
        r.1@[0] == genesis_header(),
        chain_valid_from(r.0@[0], r.0@.skip(1)),
        chain_valid_from(r.1@[0], r.1@.skip(1)),
        r.0@[4] != r.1@[4],
{
    let g = Header::genesis();

    let a1 = g.child(1);
    let a2 = a1.child(2);
    let a3 = a2.child(3);
    let a4 = a3.child(4);
    let mut left: Vec<Header> = Vec::new();
    left.push(g);
    left.push(a1);
    left.push(a2);
    left.push(a3);
    left.push(a4);

    let b1 = g.child(3);
    let b2 = b1.child(4);
    let b3 = b2.child(5);
    let b4 = b3.child(6);
    let mut right: Vec<Header> = Vec::new();
    right.push(g);
    right.push(b1);
    right.push(b2);
    right.push(b3);
    right.push(b4);

    proof {
        let e = Seq::<Header>::empty();
        lemma_chain_valid_push(g, e, a1);
        lemma_chain_valid_push(g, e.push(a1), a2);
        lemma_chain_valid_push(g, e.push(a1).push(a2), a3);
        lemma_chain_valid_push(g, e.push(a1).push(a2).push(a3), a4);
        assert(left@.skip(1) =~= e.push(a1).push(a2).push(a3).push(a4));

        lemma_chain_valid_push(g, e, b1);
        lemma_chain_valid_push(g, e.push(b1), b2);
        lemma_chain_valid_push(g, e.push(b1).push(b2), b3);
        lemma_chain_valid_push(g, e.push(b1).push(b2).push(b3), b4);
        assert(right@.skip(1) =~= e.push(b1).push(b2).push(b3).push(b4));

        assert(a4.extrinsic != b4.extrinsic);
    }
    (left, right)
}

} // verus!
