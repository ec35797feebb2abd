use robonomics_parachain::{BlockData, HeadData};
use robonomics_parachain::{execute, hash_state, StateMismatch};
use robonomics_parachain::{validate, ValidationError};

fn genesis() -> HeadData {
    HeadData { number: 0, parent_hash: [0u8; 32], post_state: hash_state(0) }
}

fn apply(parent: HeadData, block: BlockData) -> Result<HeadData, StateMismatch> {
    execute(parent.hash(), parent, &block)
}

#[test]
fn genesis_then_two_blocks() {
    let g = genesis();
    let first = apply(g.clone(), BlockData { state: 0, add: 5 }).unwrap();
    assert_eq!(first, HeadData { number: 1, parent_hash: g.hash(), post_state: hash_state(5) });
    let second = apply(first.clone(), BlockData { state: 5, add: u64::MAX }).unwrap();
    assert_eq!(second.number, 2);
    assert_eq!(second.parent_hash, first.hash());
    assert_eq!(second.post_state, hash_state(4));
}

#[test]
fn wraparound_is_not_a_fault() {
    let parent = HeadData { number: 7, parent_hash: [9u8; 32], post_state: hash_state(u64::MAX) };
    let next = apply(parent.clone(), BlockData { state: u64::MAX, add: 1 }).unwrap();
    assert_eq!(next.number, 8);
    assert_eq!(next.parent_hash, parent.hash());
    assert_eq!(next.post_state, hash_state(0));
}

#[test]
fn start_state_mismatch_is_rejected() {
    let g = genesis();
    assert_eq!(apply(g.clone(), BlockData { state: 1, add: 5 }), Err(StateMismatch));
    assert_eq!(apply(g, BlockData { state: u64::MAX, add: 1 }), Err(StateMismatch));
}

#[test]
fn forged_parent_hash_is_rejected() {
    let g = genesis();
    let mut forged = g.hash();
    forged[0] ^= 1;
    assert_eq!(execute(forged, g.clone(), &BlockData { state: 0, add: 5 }), Err(StateMismatch));
    assert_eq!(execute([0u8; 32], g, &BlockData { state: 0, add: 5 }), Err(StateMismatch));
}

#[test]
fn chain_of_blocks_sums_addends() {
    let adds: [u64; 5] = [3, u64::MAX, 10, 1 << 63, 1 << 63];
    let mut head = genesis();
    let mut state: u64 = 0;
    for add in adds {
        head = apply(head, BlockData { state, add }).unwrap();
        state = state.wrapping_add(add);
    }
    assert_eq!(head.number, 5);
    assert_eq!(state, 12);
    assert_eq!(head.post_state, hash_state(12));
}

#[test]
fn head_encoding_is_little_endian_fields_in_order() {
    let h = HeadData { number: 0x0102030405060708, parent_hash: [0xaa; 32], post_state: [0xbb; 32] };
    let bytes = h.encode();
    assert_eq!(bytes.len(), 72);
    assert_eq!(&bytes[0..8], &[8, 7, 6, 5, 4, 3, 2, 1]);
    assert!(bytes[8..40].iter().all(|b| *b == 0xaa));
    assert!(bytes[40..72].iter().all(|b| *b == 0xbb));
}

#[test]
fn block_encoding_is_little_endian_fields_in_order() {
    let b = BlockData { state: 1, add: 0x0100 };
    assert_eq!(b.encode(), vec![1, 0, 0, 0, 0, 0, 0, 0, 0, 1, 0, 0, 0, 0, 0, 0]);
}

#[test]
fn head_round_trip() {
    let bytes: Vec<u8> = (0..72u8).map(|i| i.wrapping_mul(37)).collect();
    let h = HeadData::decode(&bytes).unwrap();
    assert_eq!(h.encode(), bytes);
    let again = HeadData { number: u64::MAX, parent_hash: [1; 32], post_state: [2; 32] };
    assert_eq!(HeadData::decode(&again.encode()), Some(again));
}

#[test]
fn block_round_trip() {
    let bytes: Vec<u8> = (0..16u8).map(|i| 255 - i).collect();
    let b = BlockData::decode(&bytes).unwrap();
    assert_eq!(b.encode(), bytes);
    let again = BlockData { state: 42, add: u64::MAX };
    assert_eq!(BlockData::decode(&again.encode()), Some(again));
}

#[test]
fn short_input_does_not_decode() {
    assert_eq!(HeadData::decode(&[0u8; 71]), None);
    assert_eq!(BlockData::decode(&[0u8; 15]), None);
    assert_eq!(BlockData::decode(&[]), None);
}

#[test]
fn hashes_are_keccak256_of_the_encoding() {
    assert_eq!(hash_state(5), tiny_keccak::keccak256(&5u64.to_le_bytes()));
    let h = genesis();
    assert_eq!(h.hash(), tiny_keccak::keccak256(&h.encode()));
    assert_ne!(hash_state(5).to_vec(), 5u64.to_le_bytes().to_vec());
}

#[test]
fn hash_is_deterministic_and_bit_sensitive() {
    let h = genesis();
    assert_eq!(h.hash(), h.clone().hash());
    assert_eq!(hash_state(77), hash_state(77));
    let mut flipped = h.clone();
    flipped.parent_hash[31] ^= 0x80;
    assert_ne!(h.hash(), flipped.hash());
    assert_ne!(hash_state(0), hash_state(1));
    assert_ne!(hash_state(0), hash_state(1 << 63));
}

#[test]
fn validate_accepts_a_valid_block() {
    let g = genesis();
    let out = validate(&g.encode(), &BlockData { state: 0, add: 5 }.encode()).unwrap();
    let expected = HeadData { number: 1, parent_hash: g.hash(), post_state: hash_state(5) };
    assert_eq!(out, expected.encode());
}

#[test]
fn validate_rejects_truncated_input() {
    let g = genesis().encode();
    let b = BlockData { state: 0, add: 5 }.encode();
    assert_eq!(validate(&g[..71], &b), Err(ValidationError::BadParentHead));
    assert_eq!(validate(&[], &b), Err(ValidationError::BadParentHead));
    assert_eq!(validate(&g, &b[..15]), Err(ValidationError::BadBlockData));
}

#[test]
fn validate_rejects_corrupt_input() {
    let b = BlockData { state: 0, add: 5 }.encode();
    let mut g = genesis().encode();
    g[50] ^= 1;
    assert_eq!(validate(&g, &b), Err(ValidationError::StateMismatch));
    let mut longer = genesis().encode();
    longer.push(0);
    assert_eq!(validate(&longer, &b), Err(ValidationError::StateMismatch));
}

#[test]
fn validate_rejects_the_last_height() {
    let top = HeadData { number: u64::MAX, parent_hash: [0u8; 32], post_state: hash_state(0) };
    let b = BlockData { state: 0, add: 5 }.encode();
    assert_eq!(validate(&top.encode(), &b), Err(ValidationError::HeightExhausted));
}
