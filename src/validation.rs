//! Validation of one candidate block handed over as raw bytes: the encoded
//! parent header and the encoded block body.
use crate::block::{BlockData, HeadData, BLOCK_LEN, HEAD_LEN};
use crate::hashing::{keccak256, keccak256_of};
use crate::stf::{execute, spec_execute};
use vstd::prelude::*;

verus! {

/// Why a candidate block was not accepted.
#[derive(Clone, Copy, Debug, PartialEq, Eq)]
pub enum ValidationError {
    /// The parent header bytes are too short to hold a header.
    BadParentHead,
    /// The block body bytes are too short to hold a block body.
    BadBlockData,
    /// The parent header is at the largest block number.
    HeightExhausted,
    /// The state-transition function rejected the block.
    StateMismatch,
}

/// What validating the two buffers yields: the encoded next header, or
/// the first reason to reject.
pub open spec fn spec_validate(parent_head: Seq<u8>, block_data: Seq<u8>) -> Result<Seq<u8>, ValidationError> {
    match HeadData::spec_decode(parent_head) {
        None => Err(ValidationError::BadParentHead),
        Some(head) => match BlockData::spec_decode(block_data) {
            None => Err(ValidationError::BadBlockData),
            Some(block) => if head.number == u64::MAX {
                Err(ValidationError::HeightExhausted)
            } else {
                match spec_execute(keccak256_of(parent_head), head@, block) {
                    Ok(next) => Ok(next.encoding()),
                    Err(_) => Err(ValidationError::StateMismatch),
                }
            },
        },
    }
}

/// Decodes the parent header and the block body, hashes the parent header
/// bytes exactly as given, executes the block, and returns the encoded next
/// header.
pub fn validate(parent_head: &[u8], block_data: &[u8]) -> (r: Result<Vec<u8>, ValidationError>)
    ensures
        match r {
            Ok(out) => spec_validate(parent_head@, block_data@) == Ok::<Seq<u8>, ValidationError>(out@),
            Err(e) => spec_validate(parent_head@, block_data@) == Err::<Seq<u8>, ValidationError>(e),
        },
{
    let head = match HeadData::decode(parent_head) {
        Some(h) => h,
        None => return Err(ValidationError::BadParentHead),
    };
    let block = match BlockData::decode(block_data) {
        Some(b) => b,
        None => return Err(ValidationError::BadBlockData),
    };
    if head.number == u64::MAX {
        return Err(ValidationError::HeightExhausted);
    }
    let parent_hash = keccak256(parent_head);
    match execute(parent_hash, head, &block) {
        Ok(next) => Ok(next.encode()),
        Err(_) => Err(ValidationError::StateMismatch),
    }
}

/// A parameter block too short to hold a header or a block body is never
/// accepted.
pub proof fn lemma_truncated_input_rejected(parent_head: Seq<u8>, block_data: Seq<u8>)
    requires
        parent_head.len() < HEAD_LEN || block_data.len() < BLOCK_LEN,
    ensures
        spec_validate(parent_head, block_data) is Err,
{
}

} // verus!
