//! The state-transition function: checks that a block body extends its
//! parent header and builds the header that follows.
use crate::block::{lemma_head_encoding_injective, state_encoding, BlockData, HeadData, HeadModel};
use vstd::bytes::lemma_auto_spec_u64_to_from_le_bytes;
use crate::hashing::{digests_equal, keccak256, keccak256_of};
use vstd::prelude::*;

verus! {

/// The start state of a block does not match the state its parent commits
/// to, or the claimed parent hash does not commit to the parent header.
#[derive(Clone, Copy, Debug, PartialEq, Eq)]
pub struct StateMismatch;

/// Keccak-256 of the encoded header.
pub open spec fn head_hash(h: HeadModel) -> Seq<u8> {
    keccak256_of(h.encoding())
}

/// Keccak-256 of the encoded state value.
pub open spec fn state_hash(state: u64) -> Seq<u8> {
    keccak256_of(state_encoding(state))
}

/// The counter after `block` is applied: its start state plus its addend,
/// modulo 2^64.
pub open spec fn next_state(block: BlockData) -> u64 {
    ((block.state + block.add) % 0x1_0000_0000_0000_0000) as u64
}

/// What executing `block` on `parent_head`, claimed to hash to
/// `parent_hash`, yields.
pub open spec fn spec_execute(
    parent_hash: Seq<u8>,
    parent_head: HeadModel,
    block: BlockData,
) -> Result<HeadModel, StateMismatch> {
    if parent_hash != head_hash(parent_head) || state_hash(block.state) != parent_head.post_state {
        Err(StateMismatch)
    } else {
        Ok(
            HeadModel {
                number: (parent_head.number + 1) as u64,
                parent_hash,
                post_state: state_hash(next_state(block)),
            },
        )
    }
}

/// The value of an execution result.
pub open spec fn result_model(r: Result<HeadData, StateMismatch>) -> Result<HeadModel, StateMismatch> {
    match r {
        Ok(h) => Ok(h@),
        Err(e) => Err(e),
    }
}

impl HeadData {
    /// Keccak-256 of the header's canonical encoding.
    pub fn hash(&self) -> (r: [u8; 32])
        ensures
            r@ == head_hash(self@),
    {
        let bytes = self.encode();
        keccak256(bytes.as_slice())
    }
}

/// Keccak-256 of the canonical encoding of a state value.
pub fn hash_state(state: u64) -> (r: [u8; 32])
    ensures
        r@ == state_hash(state),
{
    let bytes = vstd::bytes::u64_to_le_bytes(state);
    keccak256(bytes.as_slice())
}

/// Executes a block body on top of the given parent header, producing the
/// next header where the block is valid.
///
/// The block is rejected where `parent_hash` is not the hash of
/// `parent_head`, or where the hash of the block's start state is not the
/// parent's post-state. Otherwise the new header has the next number, links
/// to `parent_hash`, and commits to the start state plus the addend,
/// wrapping on overflow.
pub fn execute(parent_hash: [u8; 32], parent_head: HeadData, block_data: &BlockData) -> (r: Result<
    HeadData,
    StateMismatch,
>)
    requires
        parent_head.number < u64::MAX,
    ensures
        result_model(r) == spec_execute(parent_hash@, parent_head@, *block_data),
{
    let own_hash = parent_head.hash();
    if !digests_equal(&parent_hash, &own_hash) {
        return Err(StateMismatch);
    }
    let start = hash_state(block_data.state);
    if !digests_equal(&start, &parent_head.post_state) {
        return Err(StateMismatch);
    }
    let new_state = block_data.state.wrapping_add(block_data.add);
    let new_head = HeadData {
        number: parent_head.number + 1,
        parent_hash,
        post_state: hash_state(new_state),
    };
    assert(new_state == next_state(*block_data));
    Ok(new_head)
}

/// A header's hash is a function of its canonical encoding, and that
/// encoding tells every header apart: headers hash alike when they are
/// equal, and differ in encoding whenever they differ in any field.
pub proof fn lemma_head_hash_deterministic(a: HeadData, b: HeadData)
    ensures
        a == b ==> head_hash(a@) == head_hash(b@),
        a != b ==> a.encoding() != b.encoding(),
{
    if a.encoding() == b.encoding() {
        lemma_head_encoding_injective(a, b);
    }
}

/// A state's hash is a function of the state, and distinct states have
/// distinct encodings.
pub proof fn lemma_state_hash_deterministic(x: u64, y: u64)
    ensures
        x == y ==> state_hash(x) == state_hash(y),
        x != y ==> state_encoding(x) != state_encoding(y),
{
    lemma_auto_spec_u64_to_from_le_bytes();
}

/// A block whose start state does not hash to the parent's post-state is
/// always rejected, whatever the other inputs.
pub proof fn lemma_linkage_check(parent_hash: Seq<u8>, parent_head: HeadModel, block: BlockData)
    requires
        state_hash(block.state) != parent_head.post_state,
    ensures
        spec_execute(parent_hash, parent_head, block) == Err::<HeadModel, StateMismatch>(StateMismatch),
{
}

} // verus!
