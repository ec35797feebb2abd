//! Runs of blocks applied one after another from a genesis header.
use crate::block::{BlockData, HeadModel};
use crate::stf::{head_hash, spec_execute, state_hash, StateMismatch};
use vstd::arithmetic::div_mod::{lemma_add_mod_noop, lemma_small_mod};
use vstd::prelude::*;

verus! {

/// 2^64, the modulus of the counter.
pub open spec fn counter_modulus() -> int {
    0x1_0000_0000_0000_0000
}

/// The plain sum of the addends of `blocks`.
pub open spec fn sum_adds(blocks: Seq<BlockData>) -> int
    decreases blocks.len(),
{
    if blocks.len() == 0 {
        0
    } else {
        sum_adds(blocks.drop_last()) + blocks.last().add
    }
}

/// The counter after `blocks`, starting from zero.
pub open spec fn running_state(blocks: Seq<BlockData>) -> u64 {
    (sum_adds(blocks) % counter_modulus()) as u64
}

/// Each block starts from the counter that the blocks before it leave.
pub open spec fn starts_chained(blocks: Seq<BlockData>) -> bool {
    forall|i: int| 0 <= i < blocks.len() ==> #[trigger] blocks[i].state == running_state(blocks.take(i))
}

/// Applies `blocks` in order on top of `genesis`, each on top of the header
/// the one before it produced, linked by that header's own hash.
pub open spec fn run_chain(genesis: HeadModel, blocks: Seq<BlockData>) -> Result<HeadModel, StateMismatch>
    decreases blocks.len(),
{
    if blocks.len() == 0 {
        Ok(genesis)
    } else {
        match run_chain(genesis, blocks.drop_last()) {
            Ok(h) => spec_execute(head_hash(h), h, blocks.last()),
            Err(e) => Err(e),
        }
    }
}

/// From a genesis header at number zero that commits to the state zero, a
/// run of N blocks, each starting from the counter that the ones before it
/// leave, is accepted block after block and ends in a header numbered N
/// that commits to the sum of all addends modulo 2^64.
pub proof fn lemma_chain(genesis: HeadModel, blocks: Seq<BlockData>)
    requires
        genesis.number == 0,
        genesis.post_state == state_hash(0),
        blocks.len() <= u64::MAX,
        starts_chained(blocks),
    ensures
        run_chain(genesis, blocks) matches Ok(h) && h.number == blocks.len() && h.post_state
            == state_hash(running_state(blocks)),
    decreases blocks.len(),
{
    if blocks.len() > 0 {
        let prefix = blocks.drop_last();
        let last = blocks.last();
        assert forall|i: int| 0 <= i < prefix.len() implies #[trigger] prefix[i].state
            == running_state(prefix.take(i)) by {
            assert(prefix.take(i) =~= blocks.take(i));
            assert(prefix[i] == blocks[i]);
        }
        lemma_chain(genesis, prefix);
        assert(blocks.take(blocks.len() - 1) =~= prefix);
        assert(last == blocks[blocks.len() - 1]);
        let s = sum_adds(prefix);
        let m = counter_modulus();
        lemma_add_mod_noop(s, last.add as int, m);
        lemma_small_mod(last.add as nat, m as nat);
    }
}

} // verus!
