//! Blocks: the records that identify a position in a chain.

use vstd::prelude::*;
use vstd::std_specs::cmp::PartialEqSpecImpl;
use crate::clock::unix_seconds;
use crate::encoding::{
    bincode_serialize, canonical_encoding, encoded_len, lemma_encoding_injective,
    lemma_encoding_len, lengths_fit,
};
use crate::hashing::{sha256, sha256_digest, MAX_HASH_INPUT};
use crate::text::{append_decimal, decimal, hex_encode, hex_encoding};
use vstd::string::StringExecFns;

verus! {

/// Timestamp of the genesis block. It is a marker, not a clock reading.
pub const GENESIS_TIMESTAMP: u64 = 10101;

/// One block of the chain, as proposed by a node.
#[derive(Debug, Hash)]
pub struct Block {
    /// Identity of the proposing node.
    pub miner: u8,
    /// Height: genesis is 0, every other block is one above its parent.
    pub number: u64,
    /// Seconds since the Unix epoch at construction.
    pub timestamp: u64,
    /// Digest of the parent block; empty for genesis.
    pub parent: Vec<u8>,
    /// Placeholder, never validated.
    pub creator_signature: Vec<u8>,
    /// Placeholder, never validated.
    pub verifier_signature: Option<Vec<u8>>,
}

/// The mathematical value of a [`Block`].
pub struct BlockView {
    pub miner: u8,
    pub number: u64,
    pub timestamp: u64,
    pub parent: Seq<u8>,
    pub creator_signature: Seq<u8>,
    pub verifier_signature: Option<Seq<u8>>,
}

impl View for Block {
    type V = BlockView;

    open spec fn view(&self) -> BlockView {
        BlockView {
            miner: self.miner,
            number: self.number,
            timestamp: self.timestamp,
            parent: self.parent@,
            creator_signature: self.creator_signature@,
            verifier_signature: match self.verifier_signature {
                Some(s) => Some(s@),
                None => None,
            },
        }
    }
}

impl BlockView {
    /// The encoding of the block is short enough to be built and hashed.
    pub open spec fn hashable(self) -> bool {
        encoded_len(self) <= MAX_HASH_INPUT && encoded_len(self) <= isize::MAX
    }

    /// The block can be the parent of another: it can be hashed and its
    /// height has a successor.
    pub open spec fn extendable(self) -> bool {
        self.hashable() && self.number < u64::MAX
    }

    /// The content digest of the block: SHA-256 over its canonical encoding.
    pub open spec fn digest(self) -> Seq<u8> {
        sha256(canonical_encoding(self))
    }
}

/// The one-line label of a block: its author, and the first four digits of
/// its parent's digest in hexadecimal, or `null` where the parent is too
/// short to have them.
pub open spec fn label(block: BlockView) -> Seq<char> {
    "miner: "@ + decimal(block.miner) + ", parent: "@ + if block.parent.len() >= 2 {
        hex_encoding(block.parent.subrange(0, 2))
    } else {
        "null"@
    }
}

/// The value of the genesis block.
pub open spec fn genesis_view() -> BlockView {
    BlockView {
        miner: 0,
        number: 0,
        timestamp: GENESIS_TIMESTAMP,
        parent: Seq::empty(),
        creator_signature: Seq::empty(),
        verifier_signature: None,
    }
}

/// The value of the block that `miner` builds on `parent` at `timestamp`.
pub open spec fn child_view(miner: u8, parent: BlockView, timestamp: u64) -> BlockView {
    BlockView {
        miner,
        number: (parent.number + 1) as u64,
        timestamp,
        parent: parent.digest(),
        creator_signature: Seq::empty(),
        verifier_signature: None,
    }
}

/// Digests are determined by the fields: blocks with equal fields have
/// equal digests.
pub proof fn lemma_equal_fields_equal_digest(a: Block, b: Block)
    requires
        a@ == b@,
    ensures
        a@.digest() == b@.digest(),
{
}

/// Every field goes into the digest: blocks that differ in any field are
/// hashed from different bytes. That the digests then differ is left to the
/// hash function.
pub proof fn lemma_distinct_blocks_distinct_hash_input(a: Block, b: Block)
    requires
        a@ != b@,
    ensures
        canonical_encoding(a@) != canonical_encoding(b@),
{
    if canonical_encoding(a@) == canonical_encoding(b@) {
        a.lemma_lengths_fit();
        b.lemma_lengths_fit();
        lemma_encoding_injective(a@, b@);
    }
}

/// Genesis is the only block without a past: a block that was built on a
/// parent lies above height 0, and so is not the genesis block.
pub proof fn lemma_child_is_not_genesis(miner: u8, parent: BlockView, timestamp: u64)
    requires
        parent.number < u64::MAX,
    ensures
        child_view(miner, parent, timestamp).number == parent.number + 1,
        child_view(miner, parent, timestamp) != genesis_view(),
{
}

/// Whether two byte vectors hold the same bytes.
fn same_bytes(a: &Vec<u8>, b: &Vec<u8>) -> (same: bool)
    ensures
        same == (a@ == b@),
{
    if a.len() != b.len() {
        return false;
    }
    let mut i: usize = 0;
    while i < a.len()
        invariant
            a.len() == b.len(),
            i <= a.len(),
            a@.subrange(0, i as int) == b@.subrange(0, i as int),
        decreases a.len() - i,
    {
        if a[i] != b[i] {
            assert(a@[i as int] != b@[i as int]);
            return false;
        }
        assert(a@.subrange(0, i + 1) =~= a@.subrange(0, i as int).push(a@[i as int]));
        assert(b@.subrange(0, i + 1) =~= b@.subrange(0, i as int).push(b@[i as int]));
        i += 1;
    }
    assert(a@ =~= a@.subrange(0, a.len() as int));
    assert(b@ =~= b@.subrange(0, b.len() as int));
    true
}

/// A copy of a byte vector.
fn copy_bytes(a: &Vec<u8>) -> (copy: Vec<u8>)
    ensures
        copy@ == a@,
{
    let copy = a.clone();
    assert(copy@ =~= a@);
    copy
}

impl Clone for Block {
    fn clone(&self) -> (copy: Block)
        ensures
            copy@ == self@,
    {
        Block {
            miner: self.miner,
            number: self.number,
            timestamp: self.timestamp,
            parent: copy_bytes(&self.parent),
            creator_signature: copy_bytes(&self.creator_signature),
            verifier_signature: match &self.verifier_signature {
                Some(s) => Some(copy_bytes(s)),
                None => None,
            },
        }
    }
}

impl PartialEq for Block {
    fn eq(&self, other: &Block) -> (equal: bool) {
        let signatures = match (&self.verifier_signature, &other.verifier_signature) {
            (Some(a), Some(b)) => same_bytes(a, b),
            (None, None) => true,
            _ => false,
        };
        self.miner == other.miner && self.number == other.number && self.timestamp
            == other.timestamp && same_bytes(&self.parent, &other.parent) && same_bytes(
            &self.creator_signature,
            &other.creator_signature,
        ) && signatures
    }
}

impl PartialEqSpecImpl for Block {
    open spec fn obeys_eq_spec() -> bool {
        true
    }

    open spec fn eq_spec(&self, other: &Block) -> bool {
        self@ == other@
    }
}

impl Eq for Block {

}

impl Default for Block {
    fn default() -> (block: Block)
        ensures
            block@ == (BlockView {
                miner: 0,
                number: 0,
                timestamp: 0,
                parent: Seq::empty(),
                creator_signature: Seq::empty(),
                verifier_signature: None,
            }),
    {
        Block {
            miner: 0,
            number: 0,
            timestamp: 0,
            parent: Vec::new(),
            creator_signature: Vec::new(),
            verifier_signature: None,
        }
    }
}

impl Block {
    /// The byte strings of a block in memory have lengths that fit their
    /// eight-byte prefixes.
    pub proof fn lemma_lengths_fit(&self)
        ensures
            lengths_fit(self@),
    {
        assert(self.parent@.len() == self.parent.len());
        assert(self.creator_signature@.len() == self.creator_signature.len());
        if let Some(s) = self.verifier_signature {
            assert(s@.len() == s.len());
        }
    }

    /// The fixed first block of every chain.
    pub fn genesis() -> (block: Block)
        ensures
            block@ == genesis_view(),
    {
        Block {
            miner: 0,
            number: 0,
            timestamp: GENESIS_TIMESTAMP,
            parent: Vec::new(),
            creator_signature: Vec::new(),
            verifier_signature: None,
        }
    }

    /// Whether the block's encoding is short enough to be built and hashed.
    pub fn is_hashable(&self) -> (yes: bool)
        ensures
            yes == self@.hashable(),
    {
        let limit: u64 = if isize::MAX as u64 <= MAX_HASH_INPUT {
            isize::MAX as u64
        } else {
            MAX_HASH_INPUT
        };
        let optional: u64 = match &self.verifier_signature {
            Some(s) => {
                if s.len() as u64 > limit - 8 {
                    return false;
                }
                8 + s.len() as u64
            },
            None => 0,
        };
        let parent: u64 = self.parent.len() as u64;
        let creator: u64 = self.creator_signature.len() as u64;
        optional <= limit && parent <= limit - optional && creator <= limit - optional - parent
            && 34 <= limit - optional - parent - creator
    }

    /// The content digest of the block: 32 bytes that depend on every field.
    pub fn digest(&self) -> (digest: Vec<u8>)
        requires
            self@.hashable(),
        ensures
            digest@ == self@.digest(),
            digest@.len() == 32,
    {
        proof {
            lemma_encoding_len(self@);
        }
        let encoded = bincode_serialize(self);
        sha256_digest(encoded.as_slice())
    }

    /// The one-line label of the block, for display.
    pub fn to_string(&self) -> (text: String)
        ensures
            text@ == label(self@),
    {
        let mut text = String::from_str("miner: ");
        append_decimal(&mut text, self.miner);
        text.append(", parent: ");
        if self.parent.len() >= 2 {
            let head = vstd::slice::slice_subrange(self.parent.as_slice(), 0, 2);
            let digits = hex_encode(head);
            text.append(digits.as_str());
        } else {
            text.append("null");
        }
        text
    }

    /// The block that `miner` builds on `parent` with the given timestamp.
    pub fn with_timestamp(miner: u8, parent: &Block, timestamp: u64) -> (block: Block)
        requires
            parent@.extendable(),
        ensures
            block@ == child_view(miner, parent@, timestamp),
            block@.parent.len() == 32,
    {
        Block {
            miner,
            number: parent.number + 1,
            timestamp,
            parent: parent.digest(),
            creator_signature: Vec::new(),
            verifier_signature: None,
        }
    }

    /// The block that `miner` builds on `parent` now: its timestamp is the
    /// wall clock's reading in seconds. There is no block while the clock
    /// stands before the Unix epoch.
    pub fn new(miner: u8, parent: &Block) -> (block: Option<Block>)
        requires
            parent@.extendable(),
        ensures
            block matches Some(b) ==> b@.parent.len() == 32 && exists|timestamp: u64|
                b@ == #[trigger] child_view(miner, parent@, timestamp),
    {
        match unix_seconds() {
            Some(timestamp) => Some(Block::with_timestamp(miner, parent, timestamp)),
            None => None,
        }
    }
}

} // verus!
