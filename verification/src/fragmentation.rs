//! How many blocks a workload takes under two reservation strategies.

use crate::block_allocator::BlockAllocator;
use vstd::prelude::*;

verus! {

/// Blocks of `block_size` tokens that `tokens` tokens need.
pub open spec fn blocks_for(tokens: nat, block_size: nat) -> nat {
    ((tokens + block_size - 1) / block_size as int) as nat
}

/// Blocks that sequences of the given lengths need together.
pub open spec fn total_blocks(lengths: Seq<usize>, block_size: nat) -> nat
    decreases lengths.len(),
{
    if lengths.len() == 0 {
        0
    } else {
        total_blocks(lengths.drop_last(), block_size) + blocks_for(
            lengths.last() as nat,
            block_size,
        )
    }
}

/// Blocks of `block_size` tokens that `tokens` tokens need.
fn blocks_needed(tokens: usize, block_size: usize) -> (r: usize)
    requires
        block_size > 0,
    ensures
        r == blocks_for(tokens as nat, block_size as nat),
        tokens <= r * block_size < tokens + block_size,
{
    let whole: usize = tokens / block_size;
    proof {
        lemma_round_up(tokens as int, block_size as int);
        lemma_round_up_covers(tokens as int, block_size as int);
    }
    if tokens % block_size == 0 {
        whole
    } else {
        whole + 1
    }
}

/// Blocks that are reserved when each sequence gets room for the longest
/// possible sequence up front.
pub fn naive_blocks_required(num_sequences: usize, max_seq_len: usize, block_size: usize) -> (r:
    usize)
    requires
        block_size > 0,
        num_sequences * blocks_for(max_seq_len as nat, block_size as nat) <= usize::MAX,
    ensures
        r == num_sequences * blocks_for(max_seq_len as nat, block_size as nat),
        r == num_sequences * ((max_seq_len + block_size - 1) / block_size as int),
{
    let per_sequence: usize = blocks_needed(max_seq_len, block_size);
    proof {
        lemma_round_up(max_seq_len as int, block_size as int);
    }
    num_sequences * per_sequence
}

/// Blocks that are in use once each sequence has grown, one block at a time, to
/// cover its own length, out of a pool of `num_pool_blocks`. None if the pool is
/// too small for the workload.
pub fn paged_blocks_used(lengths: &[usize], block_size: usize, num_pool_blocks: usize) -> (r:
    Option<usize>)
    requires
        block_size > 0,
    ensures
        r is Some <==> total_blocks(lengths@, block_size as nat) <= num_pool_blocks,
        r matches Some(used) ==> used == total_blocks(lengths@, block_size as nat),
        ({
            let needed = lengths@.fold_left(
                0int,
                |sum: int, tokens: usize| sum + (tokens + block_size as nat - 1) / block_size as int,
            );
            &&& r is Some <==> needed <= num_pool_blocks
            &&& r matches Some(used) ==> used == needed
        }),
{
    proof {
        total_adds_up(lengths@, block_size as nat);
    }
    let mut allocator = BlockAllocator::with_block_size(num_pool_blocks, block_size);
    let mut seq_id: usize = 0;
    assert(lengths@.take(0) =~= Seq::empty());
    while seq_id < lengths.len()
        invariant
            seq_id <= lengths@.len(),
            block_size > 0,
            allocator@.wf(),
            allocator@.evictable.len() == 0,
            allocator@.free.len() == num_pool_blocks - total_blocks(
                lengths@.take(seq_id as int),
                block_size as nat,
            ),
        decreases lengths@.len() - seq_id,
    {
        let needed: usize = blocks_needed(lengths[seq_id], block_size);
        let ghost before = total_blocks(lengths@.take(seq_id as int), block_size as nat);
        proof {
            let next = lengths@.take(seq_id + 1);
            assert(next.drop_last() =~= lengths@.take(seq_id as int));
            assert(next.last() == lengths@[seq_id as int]);
            lemma_total_monotone(lengths@, seq_id + 1, block_size as nat);
        }
        let mut i: usize = 0;
        while i < needed
            invariant
                i <= needed,
                block_size > 0,
                before + needed <= total_blocks(lengths@, block_size as nat),
                allocator@.wf(),
                allocator@.evictable.len() == 0,
                allocator@.free.len() == num_pool_blocks - before - i,
            decreases needed - i,
        {
            match allocator.allocate_block_for(seq_id as u64) {
                Some(_) => {},
                None => {
                    proof {
                        total_adds_up(lengths@, block_size as nat);
                    }
                    return None;
                },
            }
            i += 1;
        }
        seq_id += 1;
    }
    assert(lengths@.take(lengths@.len() as int) =~= lengths@);
    Some(num_pool_blocks - allocator.num_free())
}

/// Division rounded up, by cases.
proof fn lemma_round_up(a: int, b: int)
    by (nonlinear_arith)
    requires
        a >= 0,
        b > 0,
    ensures
        (a + b - 1) / b == if a % b == 0 {
            a / b
        } else {
            a / b + 1
        },
        a % b != 0 ==> a / b < a,
{
}

/// The rounded-up quotient is the least number of blocks that covers `a`.
proof fn lemma_round_up_covers(a: int, b: int)
    requires
        a >= 0,
        b > 0,
    ensures
        a <= ((a + b - 1) / b) * b < a + b,
{
    let q = (a + b - 1) / b;
    vstd::arithmetic::div_mod::lemma_fundamental_div_mod(a + b - 1, b);
    assert(b * q == q * b) by (nonlinear_arith);
}

/// The blocks for `tokens` tokens hold them all, with less than one block to
/// spare.
pub proof fn blocks_cover_the_tokens(tokens: nat, block_size: nat)
    requires
        block_size > 0,
    ensures
        tokens <= blocks_for(tokens, block_size) * block_size < tokens + block_size,
{
    lemma_round_up_covers(tokens as int, block_size as int);
    vstd::arithmetic::div_mod::lemma_div_pos_is_pos(tokens + block_size - 1, block_size as int);
}

/// The blocks of a workload are those of its sequences, rounded up one by one
/// and added up.
pub proof fn total_adds_up(lengths: Seq<usize>, block_size: nat)
    requires
        block_size > 0,
    ensures
        total_blocks(lengths, block_size) == lengths.fold_left(
            0int,
            |sum: int, tokens: usize| sum + (tokens + block_size - 1) / block_size as int,
        ),
    decreases lengths.len(),
{
    if lengths.len() > 0 {
        total_adds_up(lengths.drop_last(), block_size);
        vstd::arithmetic::div_mod::lemma_div_pos_is_pos(
            lengths.last() + block_size - 1,
            block_size as int,
        );
    }
}

/// A prefix of the workload needs no more than the whole.
proof fn lemma_total_monotone(lengths: Seq<usize>, n: int, block_size: nat)
    requires
        0 <= n <= lengths.len(),
    ensures
        total_blocks(lengths.take(n), block_size) <= total_blocks(lengths, block_size),
    decreases lengths.len(),
{
    if n < lengths.len() {
        let init = lengths.drop_last();
        lemma_total_monotone(init, n, block_size);
        assert(init.take(n) =~= lengths.take(n));
    } else {
        assert(lengths.take(n) =~= lengths);
    }
}

/// A longer sequence needs at least as many blocks.
proof fn lemma_blocks_monotone(a: nat, b: nat, block_size: nat)
    requires
        a <= b,
        block_size > 0,
    ensures
        blocks_for(a, block_size) <= blocks_for(b, block_size),
{
    vstd::arithmetic::div_mod::lemma_div_is_ordered(
        a + block_size - 1,
        b + block_size - 1,
        block_size as int,
    );
}

/// Growing sequences on demand never takes more blocks than reserving for the
/// longest possible sequence.
pub proof fn paging_never_takes_more(lengths: Seq<usize>, max_seq_len: nat, block_size: nat)
    requires
        block_size > 0,
        forall|i: int| 0 <= i < lengths.len() ==> (#[trigger] lengths[i]) <= max_seq_len,
    ensures
        total_blocks(lengths, block_size) <= lengths.len() * blocks_for(max_seq_len, block_size),
    decreases lengths.len(),
{
    if lengths.len() > 0 {
        let init = lengths.drop_last();
        let per = blocks_for(max_seq_len, block_size);
        paging_never_takes_more(init, max_seq_len, block_size);
        assert(lengths.last() == lengths[lengths.len() - 1]);
        lemma_blocks_monotone(lengths.last() as nat, max_seq_len, block_size);
        assert((lengths.len() - 1) * per + per == lengths.len() * per) by (nonlinear_arith);
    }
}

} // verus!
