//! Complete blocks: the header no longer carries an extrinsic directly but
//! a commitment to a batch of extrinsics stored in the block body, together
//! with the state the batch leads to. Headers alone can be checked for
//! structural validity — linked hashes and consecutive heights — while
//! execution is checked at the block level by folding each body through
//! the adder and comparing against the committed state.

use vstd::prelude::*;
use crate::hashing::{hash_words, words_hash};

verus! {

/// A block header: a hash-linked summary of a block, carrying structural
/// and state commitments without the full extrinsics list.
#[derive(Clone, Copy, Debug, PartialEq, Eq, Hash)]
pub struct Header {
    /// The hash of this header's parent header; zero for the genesis header.
    pub parent: u64,
    /// Zero for the genesis header, and one more than the parent otherwise.
    pub height: u64,
    /// A concise cryptographic commitment to the complete list of
    /// extrinsics in the block body.
    pub extrinsics_root: u64,
    /// The state after folding the block's extrinsics into the parent's
    /// state.
    pub state: u64,
    /// The consensus digest; zero where no consensus rule takes part.
    pub consensus_digest: u64,
}

/// A complete block is a header and the batched extrinsics.
#[derive(Clone, Debug, PartialEq, Eq, Hash)]
pub struct Block {
    pub header: Header,
    pub body: Vec<u64>,
}

/// The digest of a header: the hash of its five word-sized fields.
#[verifier::opaque]
pub open spec fn header_hash(h: Header) -> u64 {
    words_hash(seq![h.parent, h.height, h.extrinsics_root, h.state, h.consensus_digest])
}

/// Computes the digest of a header.
pub fn hash_header(h: &Header) -> (r: u64)
    ensures
        r == header_hash(*h),
{
    let words = vec![h.parent, h.height, h.extrinsics_root, h.state, h.consensus_digest];
    proof {
        reveal(header_hash);
        assert(words@ =~= seq![
            h.parent,
            h.height,
            h.extrinsics_root,
            h.state,
            h.consensus_digest,
        ]);
    }
    hash_words(&words)
}

/// The canonical genesis header: height zero, null parent, empty
/// commitments, zero state.
pub open spec fn genesis_header() -> Header {
    Header { parent: 0, height: 0, extrinsics_root: 0, state: 0, consensus_digest: 0 }
}

/// The structural link between a parent and a child header: the child
/// names the hash of the parent as its parent and sits one higher. This
/// says nothing about the extrinsics — header validity and execution
/// validity are separate layers.
pub open spec fn header_links(p: Header, c: Header) -> bool {
    &&& c.parent == header_hash(p)
    &&& c.height == p.height + 1
}

/// A header chain hanging from `g` is structurally valid when every
/// stored header is linked to the one before it.
pub open spec fn header_chain_valid_from(g: Header, chain: Seq<Header>) -> bool
    decreases chain.len(),
{
    chain.len() == 0 || (header_links(g, chain[0]) && header_chain_valid_from(
        chain[0],
        chain.drop_first(),
    ))
}

/// The total of a batch of extrinsics.
pub open spec fn sum_words(s: Seq<u64>) -> int
    decreases s.len(),
{
    if s.len() == 0 {
        0
    } else {
        sum_words(s.drop_last()) + s.last()
    }
}

/// A block is valid after a parent header when its header is structurally
/// linked to it, its extrinsics commitment is the hash of its body, and
/// its committed state is the parent's state plus the body's total.
pub open spec fn block_valid_after(p: Header, b: Block) -> bool {
    &&& header_links(p, b.header)
    &&& b.header.extrinsics_root == words_hash(b.body@)
    &&& b.header.state == p.state + sum_words(b.body@)
}

/// A block chain hanging from the header `g` is valid when every stored
/// block is valid after the one before it. The whole chain is valid only
/// if every block passes; verification short-circuits at the first
/// failure.
pub open spec fn block_chain_valid_from(g: Header, chain: Seq<Block>) -> bool
    decreases chain.len(),
{
    chain.len() == 0 || (block_valid_after(g, chain[0]) && block_chain_valid_from(
        chain[0].header,
        chain.drop_first(),
    ))
}

proof fn lemma_sum_words_bound(s: Seq<u64>)
    ensures
        0 <= sum_words(s) <= s.len() * (u64::MAX as int),
    decreases s.len(),
{
    if s.len() > 0 {
        lemma_sum_words_bound(s.drop_last());
    }
}

/// The total of a block body, wide enough that no batch can overflow it.
#[verifier::loop_isolation(false)]
fn body_total(body: &Vec<u64>) -> (r: u128)
    ensures
        r == sum_words(body@),
{
    let mut total: u128 = 0;
    let mut i: usize = 0;
    while i < body.len()
        invariant
            i <= body.len(),
            total == sum_words(body@.take(i as int)),
        decreases body.len() - i,
    {
        proof {
            lemma_sum_words_bound(body@.take(i as int));
            assert(body@.take(i + 1).drop_last() =~= body@.take(i as int));
            assert(body@.take(i + 1).last() == body@[i as int]);
        }
        total = total + body[i] as u128;
        i = i + 1;
    }
    proof {
        assert(body@.take(body@.len() as int) =~= body@);
    }
    total
}

impl Header {
    /// Returns a new valid genesis header.
    pub fn genesis() -> (r: Header)
        ensures
            r == genesis_header(),
    {
        Header { parent: 0, height: 0, extrinsics_root: 0, state: 0, consensus_digest: 0 }
    }

    /// Create and return a valid child header. Without the extrinsics
    /// themselves the final state cannot be calculated here, so both the
    /// extrinsics commitment and the state are passed in.
    pub fn child(&self, extrinsics_root: u64, state: u64) -> (r: Header)
        requires
            self.height + 1 <= u64::MAX,
        ensures
            r == (Header {
                parent: header_hash(*self),
                height: (self.height + 1) as u64,
                extrinsics_root,
                state,
                consensus_digest: 0,
            }),
            header_links(*self, r),
    {
        Header {
            parent: hash_header(self),
            height: self.height + 1,
            extrinsics_root,
            state,
            consensus_digest: 0,
        }
    }

    /// Verify a single child header: the structural check alone. It can
    /// pass even when the block carrying the child header fails
    /// execution-level verification.
    pub fn verify_child(&self, child: &Header) -> (r: bool)
        ensures
            r == header_links(*self, *child),
    {
        let parent_hash = hash_header(self);
        child.parent == parent_hash && child.height as u128 == self.height as u128 + 1
    }

    /// Verify that all the given headers form a structurally valid chain
    /// from this header to the tip.
    #[verifier::loop_isolation(false)]
    pub fn verify_sub_chain(&self, chain: &[Header]) -> (r: bool)
        ensures
            r == header_chain_valid_from(*self, chain@),
    {
        let mut prev: Header = *self;
        let mut i: usize = 0;
        proof {
            assert(chain@.skip(0) =~= chain@);
        }
        while i < chain.len()
            invariant
                i <= chain@.len(),
                prev == if i == 0 {
                    *self
                } else {
                    chain@[i - 1]
                },
                header_chain_valid_from(*self, chain@) == header_chain_valid_from(
                    prev,
                    chain@.skip(i as int),
                ),
            decreases chain@.len() - i,
        {
            let ghost tail = chain@.skip(i as int);
            proof {
                assert(tail[0] == chain@[i as int]);
                assert(tail.drop_first() =~= chain@.skip(i + 1));
            }
            let h = chain[i];
            if !prev.verify_child(&h) {
                proof {
                    assert(!header_links(prev, tail[0]));
                }
                return false;
            }
            prev = h;
            i = i + 1;
        }
        proof {
            assert(chain@.skip(chain@.len() as int) =~= Seq::<Header>::empty());
        }
        true
    }
}

impl Block {
    /// Returns a new valid genesis block. By convention this block has no
    /// extrinsics.
    pub fn genesis() -> (r: Block)
        ensures
            r.header == genesis_header(),
            r.body@ == Seq::<u64>::empty(),
    {
        Block { header: Header::genesis(), body: Vec::new() }
    }

    /// Create and return a valid child block: the extrinsics are batched,
    /// so each of them is executed to compute the new state, and the body
    /// is committed to in the header.
    pub fn child(&self, extrinsics: Vec<u64>) -> (r: Block)
        requires
            self.header.height + 1 <= u64::MAX,
            self.header.state + sum_words(extrinsics@) <= u64::MAX,
        ensures
            r.body@ == extrinsics@,
            r.header == (Header {
                parent: header_hash(self.header),
                height: (self.header.height + 1) as u64,
                extrinsics_root: words_hash(extrinsics@),
                state: (self.header.state + sum_words(extrinsics@)) as u64,
                consensus_digest: 0,
            }),
            block_valid_after(self.header, r),
    {
        proof {
            lemma_sum_words_bound(extrinsics@);
        }
        let total = body_total(&extrinsics);
        let state = self.header.state + total as u64;
        let root = hash_words(&extrinsics);
        let header = self.header.child(root, state);
        Block { header, body: extrinsics }
    }

    /// Verify that all the given blocks form a valid chain from this block
    /// to the tip: the headers must be structurally linked, and every
    /// body, folded through the adder from the previous state, must
    /// reproduce the committed state.
    #[verifier::loop_isolation(false)]
    pub fn verify_sub_chain(&self, chain: &[Block]) -> (r: bool)
        ensures
            r == block_chain_valid_from(self.header, chain@),
    {
        let mut prev: Header = self.header;
        let mut i: usize = 0;
        proof {
            assert(chain@.skip(0) =~= chain@);
        }
        while i < chain.len()
            invariant
                i <= chain@.len(),
                prev == if i == 0 {
                    self.header
                } else {
                    chain@[i - 1].header
                },
                block_chain_valid_from(self.header, chain@) == block_chain_valid_from(
                    prev,
                    chain@.skip(i as int),
                ),
            decreases chain@.len() - i,
        {
            let ghost tail = chain@.skip(i as int);
            proof {
                assert(tail[0] == chain@[i as int]);
                assert(tail.drop_first() =~= chain@.skip(i + 1));
            }
            let b = &chain[i];
            let structurally = prev.verify_child(&b.header);
            let root = hash_words(&b.body);
            let total = body_total(&b.body);
            proof {
                lemma_sum_words_bound(b.body@);
                assert(b.body@.len() == b.body.len());
                assert(b.body@.len() * (u64::MAX as int) <= (u64::MAX as int) * (u64::MAX as int))
                    by (nonlinear_arith)
                    requires b.body@.len() <= u64::MAX as int;
            }
            let executed = b.header.extrinsics_root == root && b.header.state as u128
                == prev.state as u128 + total;
            if !(structurally && executed) {
                proof {
                    assert(!block_valid_after(prev, tail[0]));
                }
                return false;
            }
            prev = b.header;
            i = i + 1;
        }
        proof {
            assert(chain@.skip(chain@.len() as int) =~= Seq::<Block>::empty());
        }
        true
    }
}

/// Create an invalid child block of the given header whose own header is
/// nevertheless valid: the header links correctly and commits to the
/// body, but the committed state is not the state the body leads to.
/// Header validity and execution validity are separate layers, so the
/// header passes the structural check while any block chain carrying this
/// block fails verification.
pub fn build_invalid_child_block_with_valid_header(parent: &Header) -> (r: Block)
    requires
        parent.height + 1 <= u64::MAX,
    ensures
        header_links(*parent, r.header),
        r.header.extrinsics_root == words_hash(r.body@),
        r.header.state != parent.state + sum_words(r.body@),
        !block_chain_valid_from(*parent, seq![r]),
{
    let body = vec![1u64];
    let root = hash_words(&body);
    let header = parent.child(root, parent.state);
    let block = Block { header, body };
    proof {
        assert(block.body@ =~= seq![1u64]);
        assert(block.body@.drop_last() =~= Seq::<u64>::empty());
        assert(sum_words(Seq::<u64>::empty()) == 0);
        assert(block.body@.last() == 1u64);
        assert(sum_words(block.body@) == 1);
        assert(seq![block][0] == block);
        assert(!block_valid_after(*parent, block));
    }
    block
}

/// Header linkage: in a structurally valid header chain every stored
/// header names the hash of the header before it as its parent and sits
/// exactly one higher.
pub proof fn lemma_header_chain_links(g: Header, chain: Seq<Header>, i: int)
    requires
        header_chain_valid_from(g, chain),
        0 <= i < chain.len(),
    ensures
        header_links(
            if i == 0 {
                g
            } else {
                chain[i - 1]
            },
            chain[i],
        ),
    decreases i,
{
    if i > 0 {
        lemma_header_chain_links(chain[0], chain.drop_first(), i - 1);
        assert(chain.drop_first()[i - 1] == chain[i]);
        if i >= 2 {
            assert(chain.drop_first()[i - 2] == chain[i - 1]);
        }
    }
}

/// Header linkage holds of valid block chains too: execution-level
/// validity includes the structural link at every step.
pub proof fn lemma_block_chain_links(g: Header, chain: Seq<Block>, i: int)
    requires
        block_chain_valid_from(g, chain),
        0 <= i < chain.len(),
    ensures
        header_links(
            if i == 0 {
                g
            } else {
                chain[i - 1].header
            },
            chain[i].header,
        ),
    decreases i,
{
    if i > 0 {
        lemma_block_chain_links(chain[0].header, chain.drop_first(), i - 1);
        assert(chain.drop_first()[i - 1] == chain[i]);
        if i >= 2 {
            assert(chain.drop_first()[i - 2] == chain[i - 1]);
        }
    }
}

} // verus!
