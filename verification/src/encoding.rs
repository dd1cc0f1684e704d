//! The canonical byte encoding of a block, which is what gets hashed.
//!
//! The layout is the one bincode gives a record of these six fields with
//! fixed-width little-endian integers: every integer and every length takes
//! eight bytes, a byte string is its length followed by its bytes, and an
//! optional value is one tag byte followed by the value when there is one.

use vstd::prelude::*;
use vstd::bytes::{spec_u64_to_le_bytes, spec_u64_from_le_bytes, lemma_auto_spec_u64_to_from_le_bytes};
use crate::block::{Block, BlockView};

verus! {

/// A byte string preceded by its length as eight little-endian bytes.
pub open spec fn length_prefixed(bytes: Seq<u8>) -> Seq<u8> {
    spec_u64_to_le_bytes(bytes.len() as u64) + bytes
}

/// An optional byte string: tag 0 alone, or tag 1 and the length-prefixed bytes.
pub open spec fn optional_bytes(bytes: Option<Seq<u8>>) -> Seq<u8> {
    match bytes {
        None => seq![0u8],
        Some(b) => seq![1u8] + length_prefixed(b),
    }
}

/// The canonical encoding of a block: its fields in declaration order.
pub open spec fn canonical_encoding(b: BlockView) -> Seq<u8> {
    seq![b.miner] + spec_u64_to_le_bytes(b.number) + spec_u64_to_le_bytes(b.timestamp)
        + length_prefixed(b.parent) + length_prefixed(b.creator_signature) + optional_bytes(
        b.verifier_signature,
    )
}

/// The number of bytes in the canonical encoding of a block.
pub open spec fn encoded_len(b: BlockView) -> nat {
    34 + b.parent.len() + b.creator_signature.len() + match b.verifier_signature {
        None => 0nat,
        Some(s) => 8 + s.len(),
    }
}

/// Every byte string of the block has a length that fits the eight bytes of
/// its prefix. This holds of every block in memory.
pub open spec fn lengths_fit(b: BlockView) -> bool {
    &&& b.parent.len() <= u64::MAX
    &&& b.creator_signature.len() <= u64::MAX
    &&& b.verifier_signature matches Some(s) ==> s.len() <= u64::MAX
}

/// The canonical encoding has exactly `encoded_len` bytes.
pub proof fn lemma_encoding_len(b: BlockView)
    ensures
        canonical_encoding(b).len() == encoded_len(b),
{
    lemma_auto_spec_u64_to_from_le_bytes();
}

/// Two concatenations that agree, with first parts of one length, agree part by part.
proof fn lemma_concat_parts(front_a: Seq<u8>, back_a: Seq<u8>, front_b: Seq<u8>, back_b: Seq<u8>)
    requires
        front_a + back_a == front_b + back_b,
        front_a.len() == front_b.len(),
    ensures
        front_a == front_b,
        back_a == back_b,
{
    let whole = front_a + back_a;
    let cut = front_a.len() as int;
    assert(front_a =~= whole.subrange(0, cut));
    assert(front_b =~= (front_b + back_b).subrange(0, cut));
    assert(back_a =~= whole.subrange(cut, whole.len() as int));
    assert(back_b =~= (front_b + back_b).subrange(cut, whole.len() as int));
}

/// Two length-prefixed strings followed by anything agree only if the
/// strings agree, and then what follows agrees too.
proof fn lemma_length_prefixed_parts(x: Seq<u8>, rx: Seq<u8>, y: Seq<u8>, ry: Seq<u8>)
    requires
        x.len() <= u64::MAX,
        y.len() <= u64::MAX,
        length_prefixed(x) + rx == length_prefixed(y) + ry,
    ensures
        x == y,
        rx == ry,
{
    lemma_auto_spec_u64_to_from_le_bytes();
    let lx = spec_u64_to_le_bytes(x.len() as u64);
    let ly = spec_u64_to_le_bytes(y.len() as u64);
    assert(length_prefixed(x) + rx =~= lx + (x + rx));
    assert(length_prefixed(y) + ry =~= ly + (y + ry));
    lemma_concat_parts(lx, x + rx, ly, y + ry);
    assert(spec_u64_from_le_bytes(lx) == x.len() as u64);
    assert(spec_u64_from_le_bytes(ly) == y.len() as u64);
    lemma_concat_parts(x, rx, y, ry);
}

/// The encoding tells blocks apart: two blocks with the same canonical
/// encoding have the same fields. A change to any field therefore changes
/// what is hashed.
pub proof fn lemma_encoding_injective(a: BlockView, b: BlockView)
    requires
        lengths_fit(a),
        lengths_fit(b),
        canonical_encoding(a) == canonical_encoding(b),
    ensures
        a == b,
{
    lemma_auto_spec_u64_to_from_le_bytes();
    let empty = Seq::<u8>::empty();
    let a5 = optional_bytes(a.verifier_signature);
    let b5 = optional_bytes(b.verifier_signature);
    let a4 = length_prefixed(a.creator_signature) + a5;
    let b4 = length_prefixed(b.creator_signature) + b5;
    let a3 = length_prefixed(a.parent) + a4;
    let b3 = length_prefixed(b.parent) + b4;
    let a2 = spec_u64_to_le_bytes(a.timestamp) + a3;
    let b2 = spec_u64_to_le_bytes(b.timestamp) + b3;
    let a1 = spec_u64_to_le_bytes(a.number) + a2;
    let b1 = spec_u64_to_le_bytes(b.number) + b2;
    assert(canonical_encoding(a) =~= seq![a.miner] + a1);
    assert(canonical_encoding(b) =~= seq![b.miner] + b1);
    lemma_concat_parts(seq![a.miner], a1, seq![b.miner], b1);
    assert(seq![a.miner][0] == seq![b.miner][0]);
    lemma_concat_parts(spec_u64_to_le_bytes(a.number), a2, spec_u64_to_le_bytes(b.number), b2);
    assert(spec_u64_from_le_bytes(spec_u64_to_le_bytes(a.number)) == a.number);
    lemma_concat_parts(
        spec_u64_to_le_bytes(a.timestamp),
        a3,
        spec_u64_to_le_bytes(b.timestamp),
        b3,
    );
    assert(spec_u64_from_le_bytes(spec_u64_to_le_bytes(a.timestamp)) == a.timestamp);
    lemma_length_prefixed_parts(a.parent, a4, b.parent, b4);
    lemma_length_prefixed_parts(a.creator_signature, a5, b.creator_signature, b5);
    assert(a5[0] == b5[0]);
    match (a.verifier_signature, b.verifier_signature) {
        (Some(x), Some(y)) => {
            assert(a5 =~= seq![1u8] + (length_prefixed(x) + empty));
            assert(b5 =~= seq![1u8] + (length_prefixed(y) + empty));
            lemma_concat_parts(
                seq![1u8],
                length_prefixed(x) + empty,
                seq![1u8],
                length_prefixed(y) + empty,
            );
            lemma_length_prefixed_parts(x, empty, y, empty);
        },
        _ => {},
    }
}

/// Serialises the six fields of a block with `bincode::serialize`.
///
/// Trusted: the fields are handed over as a tuple, which bincode writes like
/// a record, one field after the other and with nothing in between. With the
/// settings of `bincode::serialize` (no size limit, little-endian, fixed-width
/// integers) the call cannot fail on integers, byte vectors and options of
/// them, and yields the layout that `canonical_encoding` spells out. bincode
/// allocates the whole output at once, so its size has to fit an allocation.
#[verifier::external_body]
pub(crate) fn bincode_serialize(block: &Block) -> (bytes: Vec<u8>)
    requires
        encoded_len(block@) <= isize::MAX,
    ensures
        bytes@ == canonical_encoding(block@),
{
    let fields = (
        block.miner,
        block.number,
        block.timestamp,
        &block.parent,
        &block.creator_signature,
        &block.verifier_signature,
    );
    bincode::serialize(&fields).unwrap()
}

} // verus!
