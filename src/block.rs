//! Headers and block bodies, and their canonical wire encoding: each `u64`
//! as eight little-endian bytes, each hash as its 32 bytes, fields in
//! declaration order, no length prefixes and no padding.
use vstd::array::{spec_array_fill_for_copy_type, spec_array_update};
use vstd::bytes::{spec_u64_from_le_bytes, spec_u64_to_le_bytes, u64_from_le_bytes, u64_to_le_bytes};
use vstd::bytes::lemma_auto_spec_u64_to_from_le_bytes;
use vstd::prelude::*;
use vstd::slice::slice_subrange;

verus! {

/// Length in bytes of an encoded header.
pub const HEAD_LEN: usize = 72;

/// Length in bytes of an encoded block body.
pub const BLOCK_LEN: usize = 16;

/// The authenticated summary of the chain at one height.
#[derive(Clone, Copy, Debug, Default, Hash, PartialEq, Eq)]
pub struct HeadData {
    /// Block number.
    pub number: u64,
    /// Keccak-256 of the encoded parent header.
    pub parent_hash: [u8; 32],
    /// Keccak-256 of the encoded state after this block.
    pub post_state: [u8; 32],
}

/// The mathematical value of a header: its number and its two digests as
/// byte sequences.
pub struct HeadModel {
    pub number: u64,
    pub parent_hash: Seq<u8>,
    pub post_state: Seq<u8>,
}

impl HeadModel {
    /// The canonical encoding of a header with this value.
    pub open spec fn encoding(self) -> Seq<u8> {
        state_encoding(self.number) + self.parent_hash + self.post_state
    }
}

impl View for HeadData {
    type V = HeadModel;

    open spec fn view(&self) -> HeadModel {
        HeadModel {
            number: self.number,
            parent_hash: self.parent_hash@,
            post_state: self.post_state@,
        }
    }
}

/// A proposed transition: the state it starts from and the amount it adds.
#[derive(Clone, Copy, Debug, Default, Hash, PartialEq, Eq)]
pub struct BlockData {
    /// State to begin from.
    pub state: u64,
    /// Amount to add, wrapping on overflow.
    pub add: u64,
}

/// The canonical encoding of a bare state value.
pub open spec fn state_encoding(state: u64) -> Seq<u8> {
    spec_u64_to_le_bytes(state)
}

impl HeadData {
    /// The canonical encoding of this header.
    pub open spec fn encoding(self) -> Seq<u8> {
        self@.encoding()
    }

    /// The header that `bytes` starts with, where it is long enough.
    pub open spec fn spec_decode(bytes: Seq<u8>) -> Option<HeadData> {
        if bytes.len() >= HEAD_LEN {
            Some(choose|h: HeadData| h.encoding() == bytes.subrange(0, HEAD_LEN as int))
        } else {
            None
        }
    }

    /// Writes the header in its canonical encoding.
    pub fn encode(&self) -> (r: Vec<u8>)
        ensures
            r@ == self.encoding(),
    {
        let mut out = u64_to_le_bytes(self.number);
        push_digest(&mut out, &self.parent_hash);
        push_digest(&mut out, &self.post_state);
        assert(out@ =~= self.encoding());
        out
    }

    /// Reads a header from the first bytes of `bytes`; bytes past the
    /// header are ignored. Fails only where `bytes` is too short.
    pub fn decode(bytes: &[u8]) -> (r: Option<HeadData>)
        ensures
            r == HeadData::spec_decode(bytes@),
    {
        if bytes.len() < HEAD_LEN {
            return None;
        }
        let number = u64_from_le_bytes(slice_subrange(bytes, 0, 8));
        let parent_hash = read_digest(bytes, 8);
        let post_state = read_digest(bytes, 40);
        let h = HeadData { number, parent_hash, post_state };
        proof {
            lemma_auto_spec_u64_to_from_le_bytes();
            assert(h.encoding() =~= bytes@.subrange(0, HEAD_LEN as int));
            let c = choose|c: HeadData| c.encoding() == bytes@.subrange(0, HEAD_LEN as int);
            lemma_head_encoding_injective(h, c);
        }
        Some(h)
    }
}

impl BlockData {
    /// The canonical encoding of this block body.
    pub open spec fn encoding(self) -> Seq<u8> {
        state_encoding(self.state) + state_encoding(self.add)
    }

    /// The block body that `bytes` starts with, where it is long enough.
    pub open spec fn spec_decode(bytes: Seq<u8>) -> Option<BlockData> {
        if bytes.len() >= BLOCK_LEN {
            Some(choose|b: BlockData| b.encoding() == bytes.subrange(0, BLOCK_LEN as int))
        } else {
            None
        }
    }

    /// Writes the block body in its canonical encoding.
    pub fn encode(&self) -> (r: Vec<u8>)
        ensures
            r@ == self.encoding(),
    {
        let mut out = u64_to_le_bytes(self.state);
        let tail = u64_to_le_bytes(self.add);
        let mut i: usize = 0;
        while i < 8
            invariant
                0 <= i <= 8,
                tail@.len() == 8,
                out@ == state_encoding(self.state) + tail@.subrange(0, i as int),
            decreases 8 - i,
        {
            out.push(tail[i]);
            i = i + 1;
            assert(out@ =~= state_encoding(self.state) + tail@.subrange(0, i as int));
        }
        assert(tail@.subrange(0, 8) =~= tail@);
        out
    }

    /// Reads a block body from the first bytes of `bytes`; bytes past it are
    /// ignored. Fails only where `bytes` is too short.
    pub fn decode(bytes: &[u8]) -> (r: Option<BlockData>)
        ensures
            r == BlockData::spec_decode(bytes@),
    {
        if bytes.len() < BLOCK_LEN {
            return None;
        }
        let state = u64_from_le_bytes(slice_subrange(bytes, 0, 8));
        let add = u64_from_le_bytes(slice_subrange(bytes, 8, 16));
        let b = BlockData { state, add };
        proof {
            lemma_auto_spec_u64_to_from_le_bytes();
            assert(bytes@.subrange(0, 8) + bytes@.subrange(8, 16)
                =~= bytes@.subrange(0, BLOCK_LEN as int));
            let c = choose|c: BlockData| c.encoding() == bytes@.subrange(0, BLOCK_LEN as int);
            lemma_block_encoding_injective(b, c);
        }
        Some(b)
    }
}

/// Appends the 32 bytes of a digest.
fn push_digest(out: &mut Vec<u8>, d: &[u8; 32])
    ensures
        final(out)@ == old(out)@ + d@,
{
    let ghost start = out@;
    let mut i: usize = 0;
    while i < 32
        invariant
            0 <= i <= 32,
            d@.len() == 32,
            out@ == start + d@.subrange(0, i as int),
        decreases 32 - i,
    {
        out.push(d[i]);
        i = i + 1;
        assert(out@ =~= start + d@.subrange(0, i as int));
    }
    assert(d@.subrange(0, 32) =~= d@);
}

/// Copies the 32 bytes that start at `at`.
fn read_digest(bytes: &[u8], at: usize) -> (r: [u8; 32])
    requires
        at + 32 <= bytes@.len(),
    ensures
        r@ == bytes@.subrange(at as int, at + 32),
{
    let n = bytes.len();
    let mut d = [0u8; 32];
    let mut i: usize = 0;
    while i < 32
        invariant
            0 <= i <= 32,
            n == bytes@.len(),
            at + 32 <= bytes@.len(),
            d@.len() == 32,
            forall|k: int| 0 <= k < i ==> d@[k] == bytes@[at + k],
        decreases 32 - i,
    {
        d[i] = bytes[at + i];
        i = i + 1;
    }
    assert(d@ =~= bytes@.subrange(at as int, at + 32));
    d
}

/// Two headers with the same encoding are the same header.
pub proof fn lemma_head_encoding_injective(a: HeadData, b: HeadData)
    requires
        a.encoding() == b.encoding(),
    ensures
        a == b,
{
    lemma_auto_spec_u64_to_from_le_bytes();
    let (ea, eb) = (a.encoding(), b.encoding());
    assert(state_encoding(a.number) =~= ea.subrange(0, 8));
    assert(state_encoding(b.number) =~= eb.subrange(0, 8));
    assert(a.parent_hash@ =~= ea.subrange(8, 40));
    assert(b.parent_hash@ =~= eb.subrange(8, 40));
    assert(a.post_state@ =~= ea.subrange(40, 72));
    assert(b.post_state@ =~= eb.subrange(40, 72));
    assert(a.parent_hash =~= b.parent_hash);
    assert(a.post_state =~= b.post_state);
}

/// Two block bodies with the same encoding are the same block body.
pub proof fn lemma_block_encoding_injective(a: BlockData, b: BlockData)
    requires
        a.encoding() == b.encoding(),
    ensures
        a == b,
{
    lemma_auto_spec_u64_to_from_le_bytes();
    let (ea, eb) = (a.encoding(), b.encoding());
    assert(state_encoding(a.state) =~= ea.subrange(0, 8));
    assert(state_encoding(b.state) =~= eb.subrange(0, 8));
    assert(state_encoding(a.add) =~= ea.subrange(8, 16));
    assert(state_encoding(b.add) =~= eb.subrange(8, 16));
}

/// A 32-byte array whose first `k` bytes are those of `s`.
proof fn digest_prefix(s: Seq<u8>, k: nat) -> (a: [u8; 32])
    requires
        s.len() == 32,
        k <= 32,
    ensures
        forall|i: int| 0 <= i < k ==> a@[i] == s[i],
    decreases k,
{
    broadcast use vstd::array::group_array_axioms;
    if k == 0 {
        spec_array_fill_for_copy_type::<u8, 32>(0u8)
    } else {
        let prev = digest_prefix(s, (k - 1) as nat);
        let a = spec_array_update(prev, k - 1, s[k - 1]);
        assert(a@ == prev@.update(k - 1, s[k - 1]));
        a
    }
}

/// Every 32-byte sequence is the value of some digest array.
proof fn digest_of(s: Seq<u8>) -> (a: [u8; 32])
    requires
        s.len() == 32,
    ensures
        a@ == s,
{
    let a = digest_prefix(s, 32);
    assert(a@ =~= s);
    a
}

/// Decoding an encoded header gives the header back.
pub proof fn lemma_head_decode_encode(h: HeadData)
    ensures
        HeadData::spec_decode(h.encoding()) == Some(h),
{
    lemma_auto_spec_u64_to_from_le_bytes();
    let e = h.encoding();
    assert(e.subrange(0, HEAD_LEN as int) =~= e);
    let c = choose|c: HeadData| c.encoding() == e.subrange(0, HEAD_LEN as int);
    lemma_head_encoding_injective(h, c);
}

/// Every 72-byte sequence decodes to a header whose encoding is that
/// sequence.
pub proof fn lemma_head_encode_decode(bytes: Seq<u8>)
    requires
        bytes.len() == HEAD_LEN,
    ensures
        HeadData::spec_decode(bytes) matches Some(h) && h.encoding() == bytes,
{
    lemma_auto_spec_u64_to_from_le_bytes();
    let w = HeadData {
        number: spec_u64_from_le_bytes(bytes.subrange(0, 8)),
        parent_hash: digest_of(bytes.subrange(8, 40)),
        post_state: digest_of(bytes.subrange(40, 72)),
    };
    assert(w.encoding() =~= bytes);
    assert(bytes.subrange(0, HEAD_LEN as int) =~= bytes);
}

/// Decoding an encoded block body gives the block body back.
pub proof fn lemma_block_decode_encode(b: BlockData)
    ensures
        BlockData::spec_decode(b.encoding()) == Some(b),
{
    lemma_auto_spec_u64_to_from_le_bytes();
    let e = b.encoding();
    assert(e.subrange(0, BLOCK_LEN as int) =~= e);
    let c = choose|c: BlockData| c.encoding() == e.subrange(0, BLOCK_LEN as int);
    lemma_block_encoding_injective(b, c);
}

/// Every 16-byte sequence decodes to a block body whose encoding is that
/// sequence.
pub proof fn lemma_block_encode_decode(bytes: Seq<u8>)
    requires
        bytes.len() == BLOCK_LEN,
    ensures
        BlockData::spec_decode(bytes) matches Some(b) && b.encoding() == bytes,
{
    lemma_auto_spec_u64_to_from_le_bytes();
    let w = BlockData {
        state: spec_u64_from_le_bytes(bytes.subrange(0, 8)),
        add: spec_u64_from_le_bytes(bytes.subrange(8, 16)),
    };
    assert(w.encoding() =~= bytes);
    assert(bytes.subrange(0, BLOCK_LEN as int) =~= bytes);
}

} // verus!
