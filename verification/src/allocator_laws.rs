//! What the block allocator's operations guarantee together.

use crate::block_allocator::{AllocatorState, BlockId};
use vstd::prelude::*;

verus! {

/// The blocks of the pool that are not free.
pub open spec fn used_blocks(s: AllocatorState) -> Set<BlockId> {
    Set::new(|b: BlockId| b < s.num_blocks && !s.free.contains(b))
}

/// A fresh pool has every block on its free list, the lowest id at the bottom,
/// and no table and no candidate.
pub proof fn fresh_pool_is_free(num_blocks: nat, block_size: nat)
    requires
        num_blocks <= usize::MAX,
    ensures
        ({
            let s = AllocatorState::initial(num_blocks, block_size);
            &&& s.num_blocks == num_blocks
            &&& s.block_size == block_size
            &&& s.free.len() == num_blocks
            &&& forall|i: int| 0 <= i < num_blocks ==> (#[trigger] s.free[i]) == i
            &&& forall|id: u64| !(#[trigger] s.tables.contains_key(id))
            &&& s.evictable.len() == 0
        }),
{
}

/// Tables are never empty, and the candidates are distinct owners of tables.
pub proof fn well_formed_pool(s: AllocatorState)
    ensures
        s.wf() <==> {
            &&& s.num_blocks <= usize::MAX
            &&& s.block_size <= usize::MAX
            &&& forall|id: u64| #[trigger] s.tables.contains_key(id) ==> s.tables[id].len() > 0
            &&& forall|i: int, j: int|
                0 <= i < j < s.evictable.len() ==> s.evictable[i] != s.evictable[j]
            &&& forall|i: int|
                0 <= i < s.evictable.len() ==> s.tables.contains_key(#[trigger] s.evictable[i])
        },
{
    if forall|i: int, j: int|
        0 <= i < j < s.evictable.len() ==> s.evictable[i] != s.evictable[j] {
        assert(s.evictable.no_duplicates());
    }
}

/// A sound pool has each block once: once on the free list or once in one
/// table, and nothing that is not a block.
pub proof fn sound_pool(s: AllocatorState)
    ensures
        s.sound() <==> {
            &&& forall|i: int| 0 <= i < s.free.len() ==> (#[trigger] s.free[i]) < s.num_blocks
            &&& forall|i: int, j: int| 0 <= i < j < s.free.len() ==> s.free[i] != s.free[j]
            &&& forall|id: u64, i: int|
                #![trigger s.tables[id][i]]
                s.tables.contains_key(id) && 0 <= i < s.tables[id].len() ==> s.tables[id][i]
                    < s.num_blocks && !s.free.contains(s.tables[id][i])
            &&& forall|a: u64, i: int, b: u64, j: int|
                #![trigger s.tables[a][i], s.tables[b][j]]
                s.tables.contains_key(a) && 0 <= i < s.tables[a].len() && s.tables.contains_key(b)
                    && 0 <= j < s.tables[b].len() && (a != b || i != j) ==> s.tables[a][i]
                    != s.tables[b][j]
        },
{
    if s.sound() {
        assert forall|id: u64, i: int|
            #![trigger s.tables[id][i]]
            s.tables.contains_key(id) && 0 <= i < s.tables[id].len() implies s.tables[id][i]
            < s.num_blocks && !s.free.contains(s.tables[id][i]) by {
            assert(s.owns_at(id, i));
        }
        assert forall|a: u64, i: int, b: u64, j: int|
            #![trigger s.tables[a][i], s.tables[b][j]]
            s.tables.contains_key(a) && 0 <= i < s.tables[a].len() && s.tables.contains_key(b) && 0
                <= j < s.tables[b].len() && (a != b || i != j) implies s.tables[a][i]
            != s.tables[b][j] by {
            assert(s.owns_at(a, i) && s.owns_at(b, j));
        }
    }
    if forall|i: int, j: int| 0 <= i < j < s.free.len() ==> s.free[i] != s.free[j] {
        assert(s.free.no_duplicates());
    }
}

/// A block is held when it is one of the pool's, not free and in no table.
pub proof fn held_block_is_nowhere_else(s: AllocatorState, block_id: BlockId)
    ensures
        s.held(block_id) <==> {
            &&& block_id < s.num_blocks
            &&& !s.free.contains(block_id)
            &&& forall|id: u64| #[trigger]
                s.tables.contains_key(id) ==> !s.tables[id].contains(block_id)
        },
{
    s.lemma_held(block_id);
}

/// Handing a block out shortens the free list by its last block and returning
/// one lengthens it by that block; nothing else changes.
pub proof fn single_blocks_come_and_go_at_the_end(s: AllocatorState, block_id: BlockId)
    ensures
        s.free.len() > 0 ==> s.free == s.take_free().free.push(s.free.last()),
        s.take_free().tables == s.tables,
        s.take_free().evictable == s.evictable,
        s.take_free().num_blocks == s.num_blocks,
        s.take_free().block_size == s.block_size,
        s.put_free(block_id).free == s.free.push(block_id),
        s.put_free(block_id).tables == s.tables,
        s.put_free(block_id).evictable == s.evictable,
        s.put_free(block_id).num_blocks == s.num_blocks,
        s.put_free(block_id).block_size == s.block_size,
{
    if s.free.len() > 0 {
        assert(s.free =~= s.take_free().free.push(s.free.last()));
    }
}

/// Growth moves the last free block to the end of the sequence's table: what
/// was the free list is what is left with that block behind it, the table is
/// the old one with that block behind it, and no other table changes.
pub proof fn growth_moves_the_last_free_block(s: AllocatorState, seq_id: u64)
    requires
        s.free.len() > 0,
    ensures
        ({
            let next = s.grow(seq_id);
            let b = s.free.last();
            &&& next.free.push(b) == s.free
            &&& next.tables.contains_key(seq_id)
            &&& next.tables[seq_id].last() == b
            &&& next.tables[seq_id].drop_last() == (if s.tables.contains_key(seq_id) {
                s.tables[seq_id]
            } else {
                Seq::<BlockId>::empty()
            })
            &&& next.tables[seq_id].len() > 0
            &&& forall|t: u64|
                t != seq_id ==> (#[trigger] next.tables.contains_key(t) <==> s.tables.contains_key(
                    t,
                ))
            &&& forall|t: u64| t != seq_id ==> #[trigger] next.tables[t] == s.tables[t]
            &&& next.evictable == s.evictable
            &&& next.num_blocks == s.num_blocks
            &&& next.block_size == s.block_size
            &&& s.sound() ==> !next.free.contains(b)
        }),
{
    let next = s.grow(seq_id);
    let b = s.free.last();
    assert(next.free.push(b) =~= s.free);
    assert(next.tables[seq_id].drop_last() =~= s.table(seq_id));
    if s.sound() && next.free.contains(b) {
        let i = choose|i: int| 0 <= i < next.free.len() && next.free[i] == b;
        assert(s.free[i] == s.free[s.free.len() - 1]);
    }
}

/// Freeing a sequence puts its blocks behind the free ones, in the order of its
/// table; the sequence has no table any more and is no candidate, and no other
/// table changes.
pub proof fn release_appends_the_table(s: AllocatorState, seq_id: u64)
    requires
        s.wf(),
    ensures
        ({
            let next = s.release(seq_id);
            &&& next.free == s.free + (if s.tables.contains_key(seq_id) {
                s.tables[seq_id]
            } else {
                Seq::<BlockId>::empty()
            })
            &&& !next.tables.contains_key(seq_id)
            &&& forall|t: u64|
                t != seq_id ==> (#[trigger] next.tables.contains_key(t) <==> s.tables.contains_key(
                    t,
                ))
            &&& forall|t: u64| t != seq_id ==> #[trigger] next.tables[t] == s.tables[t]
            &&& !next.evictable.contains(seq_id)
            &&& next.evictable == s.evictable.filter(|t: u64| t != seq_id)
            &&& next.num_blocks == s.num_blocks
            &&& next.block_size == s.block_size
        }),
{
    let next = s.release(seq_id);
    s.evictable.index_of_first_ensures(seq_id);
    if !s.tables.contains_key(seq_id) {
        assert(next.free =~= s.free + Seq::<BlockId>::empty());
        if s.evictable.contains(seq_id) {
            let i = choose|i: int| 0 <= i < s.evictable.len() && s.evictable[i] == seq_id;
            assert(s.tables.contains_key(s.evictable[i]));
        }
    }
    lemma_remove_is_filter(s.evictable, seq_id);
    assert(next.evictable =~= s.evictable.remove_value(seq_id));
    assert(!s.evictable.remove_value(seq_id).contains(seq_id)) by {
        let kept = s.evictable.filter(|t: u64| t != seq_id);
        broadcast use vstd::seq_lib::group_filter_ensures;

        if kept.contains(seq_id) {
            let i = choose|i: int| 0 <= i < kept.len() && kept[i] == seq_id;
            assert(kept[i] != seq_id);
        }
    }
}

/// Removing a value that occurs at most once keeps all the others.
proof fn lemma_remove_is_filter(s: Seq<u64>, v: u64)
    requires
        s.no_duplicates(),
    ensures
        s.remove_value(v) == s.filter(|t: u64| t != v),
    decreases s.len(),
{
    reveal(Seq::filter);
    s.index_of_first_ensures(v);
    if s.len() > 0 {
        let init = s.drop_last();
        init.index_of_first_ensures(v);
        lemma_remove_is_filter(init, v);
        assert(init.contains(v) || s.last() == v <==> s.contains(v)) by {
            if s.contains(v) && s.last() != v {
                let i = choose|i: int| 0 <= i < s.len() && s[i] == v;
                assert(init[i] == v);
            }
            if init.contains(v) {
                let i = choose|i: int| 0 <= i < init.len() && init[i] == v;
                assert(s[i] == v);
            }
            if s.last() == v {
                assert(s[s.len() - 1] == v);
            }
        }
        if s.last() == v {
            assert(!init.contains(v));
            assert(s.remove_value(v) =~= init);
        } else if init.contains(v) {
            assert(s.remove_value(v) =~= init.remove_value(v).push(s.last()));
        } else {
            assert(s.remove_value(v) =~= init.push(s.last()));
        }
    } else {
        assert(s.remove_value(v) =~= s.filter(|t: u64| t != v));
    }
}

/// A block can be had when one is free or when someone else than the requester
/// may be evicted.
pub proof fn room_is_a_free_block_or_a_candidate(s: AllocatorState, seq_id: u64)
    requires
        s.wf(),
    ensures
        s.has_room_for(seq_id) <==> s.free.len() > 0 || exists|i: int|
            0 <= i < s.evictable.len() && #[trigger] s.evictable[i] != seq_id,
        s.victim(seq_id) matches Some(v) ==> exists|i: int|
            {
                &&& 0 <= i < s.evictable.len()
                &&& #[trigger] s.evictable[i] == v
                &&& v != seq_id
                &&& forall|j: int| 0 <= j < i ==> #[trigger] s.evictable[j] == seq_id
            },
{
    if s.evictable.len() > 0 && s.evictable[0] != seq_id {
        assert(s.victim(seq_id) == Some(s.evictable[0]));
    } else if s.evictable.len() > 1 {
        assert(s.evictable[0] == seq_id);
        assert(s.evictable[1] != seq_id);
        assert(s.victim(seq_id) == Some(s.evictable[1]));
    }
}

/// The block that a sequence gets was the last free one or, where none was
/// free, the last one of the first candidate other than the sequence. It goes to
/// the end of the sequence's table and is free no longer.
pub proof fn new_block_goes_to_the_end_of_the_table(s: AllocatorState, seq_id: u64)
    requires
        s.wf(),
        s.sound(),
        s.has_room_for(seq_id),
    ensures
        ({
            let b = s.make_room(seq_id).free.last();
            let next = s.make_room(seq_id).grow(seq_id);
            &&& next.tables.contains_key(seq_id)
            &&& next.tables[seq_id] == (if s.tables.contains_key(seq_id) {
                s.tables[seq_id].push(b)
            } else {
                seq![b]
            })
            &&& !next.free.contains(b)
            &&& s.free.len() > 0 ==> b == s.free.last() && next.free == s.free.drop_last()
            &&& s.free.len() == 0 ==> exists|i: int|
                {
                    &&& 0 <= i < s.evictable.len()
                    &&& #[trigger] s.evictable[i] != seq_id
                    &&& forall|j: int| 0 <= j < i ==> #[trigger] s.evictable[j] == seq_id
                    &&& b == s.tables[s.evictable[i]].last()
                    &&& next.free == s.tables[s.evictable[i]].drop_last()
                    &&& !next.tables.contains_key(s.evictable[i])
                    &&& next.evictable == s.evictable.remove(i)
                }
        }),
{
    let room = s.make_room(seq_id);
    let b = room.free.last();
    s.lemma_make_room(seq_id);
    assert(room.free.no_duplicates()) by {
        if s.free.len() == 0 {
            let i = choose|i: int|
                {
                    &&& 0 <= i < s.evictable.len()
                    &&& #[trigger] s.evictable[i] != seq_id
                    &&& s.tables.contains_key(s.evictable[i])
                    &&& room.free == s.tables[s.evictable[i]]
                };
            let v = s.evictable[i];
            assert forall|x: int, y: int|
                0 <= x < room.free.len() && 0 <= y < room.free.len() && x != y implies room.free[x]
                != room.free[y] by {
                assert(s.owns_at(v, x) && s.owns_at(v, y));
            }
        }
    }
    growth_moves_the_last_free_block(room, seq_id);
    let next = room.grow(seq_id);
    if next.free.contains(b) {
        let i = choose|i: int| 0 <= i < next.free.len() && next.free[i] == b;
        assert(room.free[i] == room.free[room.free.len() - 1]);
    }
}

/// A position is found by dividing it by the block size: the quotient is the
/// place in the sequence's table, the remainder the offset in the block.
pub proof fn position_is_found_by_division(s: AllocatorState, seq_id: u64, position: nat)
    ensures
        s.locate(seq_id, position) is Some <==> s.tables.contains_key(seq_id) && position
            < s.tables[seq_id].len() * s.block_size,
        s.locate(seq_id, position) matches Some((b, offset)) ==> {
            &&& b == s.tables[seq_id][position as int / s.block_size as int]
            &&& offset == position as int % s.block_size as int
        },
{
    assert(Seq::<BlockId>::empty().len() * s.block_size == 0);
}

/// The ids below `n` are `n` in number.
proof fn lemma_ids(n: nat)
    requires
        n <= usize::MAX,
    ensures
        Set::new(|b: BlockId| b < n).finite(),
        Set::new(|b: BlockId| b < n).len() == n,
    decreases n,
{
    let ids = Set::new(|b: BlockId| b < n);
    if n == 0 {
        assert(ids =~= Set::empty());
    } else {
        let fewer = Set::new(|b: BlockId| b < n - 1);
        lemma_ids((n - 1) as nat);
        assert(fewer =~= Set::new(|b: BlockId| b < (n - 1) as nat));
        assert(ids =~= fewer.insert((n - 1) as usize));
    }
}

/// No block is lost: the free blocks and the others together are the pool.
pub proof fn free_and_used_make_up_the_pool(s: AllocatorState)
    requires
        s.wf(),
        s.sound(),
    ensures
        used_blocks(s).finite(),
        s.free.len() + used_blocks(s).len() == s.num_blocks,
{
    let ids = Set::new(|b: BlockId| b < s.num_blocks);
    let free = s.free.to_set();
    lemma_ids(s.num_blocks);
    s.free.unique_seq_to_set();
    assert(used_blocks(s) =~= ids.difference(free));
    assert(ids =~= used_blocks(s) + free) by {
        assert forall|b: BlockId| free.contains(b) implies ids.contains(b) by {
            let i = choose|i: int| 0 <= i < s.free.len() && s.free[i] == b;
        }
    }
    vstd::set_lib::lemma_set_subset_finite(ids, used_blocks(s));
    vstd::set_lib::lemma_set_subset_finite(ids, free);
    vstd::set_lib::lemma_set_disjoint_lens(used_blocks(s), free);
}

/// Every block that a sequence owns is in use.
pub proof fn owned_blocks_are_used(s: AllocatorState, seq_id: u64, i: int)
    requires
        s.sound(),
        s.owns_at(seq_id, i),
    ensures
        used_blocks(s).contains(s.tables[seq_id][i]),
{
}

/// A block that is returned is the next one to be handed out, and handing it
/// out again undoes the return.
pub proof fn returned_block_is_next(s: AllocatorState, block_id: BlockId)
    ensures
        s.put_free(block_id).free.len() > 0,
        s.put_free(block_id).free.last() == block_id,
        s.put_free(block_id).take_free() == s,
{
    assert(s.put_free(block_id).take_free().free =~= s.free);
}

/// Returning a block undoes handing it out.
pub proof fn return_undoes_allocation(s: AllocatorState)
    requires
        s.free.len() > 0,
    ensures
        s.take_free().put_free(s.free.last()) == s,
{
    assert(s.take_free().put_free(s.free.last()).free =~= s.free);
}

/// Position `i * block_size + offset` of a sequence lies at `offset` in the
/// sequence's `i`-th block.
pub proof fn positions_fill_blocks_in_order(s: AllocatorState, seq_id: u64, i: nat, offset: nat)
    requires
        s.owns_at(seq_id, i as int),
        offset < s.block_size,
    ensures
        s.locate(seq_id, i * s.block_size + offset) == Some((s.tables[seq_id][i as int], offset)),
{
    let size = s.block_size as int;
    let p = i * size + offset;
    let count = s.tables[seq_id].len() as int;
    assert(p < count * size) by (nonlinear_arith)
        requires
            p == i * size + offset,
            i + 1 <= count,
            offset < size,
    ;
    vstd::arithmetic::div_mod::lemma_fundamental_div_mod_converse(
        p,
        size,
        i as int,
        offset as int,
    );
}

/// A token position that can be located lies in one of the sequence's own
/// blocks, at an offset within the block.
pub proof fn located_position_is_owned(s: AllocatorState, seq_id: u64, position: nat)
    requires
        s.locate(seq_id, position) is Some,
    ensures
        s.block_size > 0,
        s.owns_at(seq_id, position as int / s.block_size as int),
        s.locate(seq_id, position) == Some(
            (
                s.tables[seq_id][position as int / s.block_size as int],
                (position % s.block_size) as nat,
            ),
        ),
        position % s.block_size < s.block_size,
{
    let size = s.block_size as int;
    let count = s.table(seq_id).len() as int;
    let p = position as int;
    assert(size > 0 && 0 <= p / size < count) by (nonlinear_arith)
        requires
            0 <= p < count * size,
            0 <= size,
            0 <= count,
    ;
}

/// No two token positions, of one sequence or of two, share a slot.
pub proof fn positions_do_not_collide(s: AllocatorState, a: u64, p: nat, b: u64, q: nat)
    requires
        s.sound(),
        s.locate(a, p) is Some,
        s.locate(a, p) == s.locate(b, q),
    ensures
        a == b,
        p == q,
{
    located_position_is_owned(s, a, p);
    located_position_is_owned(s, b, q);
    let size = s.block_size as int;
    let i = p as int / size;
    let j = q as int / size;
    assert(s.owns_at(a, i) && s.owns_at(b, j));
    vstd::arithmetic::div_mod::lemma_fundamental_div_mod(p as int, size);
    vstd::arithmetic::div_mod::lemma_fundamental_div_mod(q as int, size);
}

/// One more block gives a sequence `block_size` more positions and moves none
/// of those that it, or any other sequence, had.
pub proof fn growth_moves_nothing(s: AllocatorState, seq_id: u64, other: u64, position: nat)
    requires
        s.free.len() > 0,
    ensures
        s.locate(other, position) is Some ==> s.grow(seq_id).locate(other, position) == s.locate(
            other,
            position,
        ),
        other != seq_id ==> s.grow(seq_id).locate(other, position) == s.locate(other, position),
        s.grow(seq_id).locate(seq_id, position) is Some <==> position < (s.table(seq_id).len() + 1)
            * s.block_size,
{
    let next = s.grow(seq_id);
    if other == seq_id && s.locate(other, position) is Some {
        located_position_is_owned(s, other, position);
        let n = s.table(seq_id).len() as int;
        let size = s.block_size as int;
        assert(n * size <= (n + 1) * size) by (nonlinear_arith)
            requires
                size >= 0,
        ;
        assert(next.table(seq_id)[position as int / size] == s.table(seq_id)[position as int
            / size]);
    }
}

/// Freeing a sequence returns all of its blocks, leaves it with none, and
/// touches no other sequence.
pub proof fn release_returns_every_block(s: AllocatorState, seq_id: u64)
    ensures
        s.release(seq_id).free.len() == s.free.len() + s.table(seq_id).len(),
        s.release(seq_id).table(seq_id).len() == 0,
        forall|other: u64|
            other != seq_id ==> #[trigger] s.release(seq_id).table(other) == s.table(other),
        forall|i: int|
            0 <= i < s.table(seq_id).len() ==> s.release(seq_id).free.contains(
                #[trigger] s.table(seq_id)[i],
            ),
{
    assert forall|i: int| 0 <= i < s.table(seq_id).len() implies s.release(seq_id).free.contains(
        #[trigger] s.table(seq_id)[i],
    ) by {
        assert(s.release(seq_id).free[s.free.len() + i] == s.table(seq_id)[i]);
    }
}

/// Eviction takes place only when no block is free. The victim is a candidate
/// other than the requester, it loses every block, and every other sequence
/// keeps its own.
pub proof fn eviction_spares_the_others(s: AllocatorState, seq_id: u64)
    requires
        s.wf(),
        s.has_room_for(seq_id),
    ensures
        s.make_room(seq_id).free.len() > 0,
        s.make_room(seq_id).table(seq_id) == s.table(seq_id),
        s.free.len() > 0 ==> s.make_room(seq_id) == s,
        s.free.len() == 0 ==> {
            let v = s.victim(seq_id)->0;
            &&& v != seq_id
            &&& s.evictable.contains(v)
            &&& s.make_room(seq_id).table(v).len() == 0
            &&& forall|other: u64|
                other != v ==> #[trigger] s.make_room(seq_id).table(other) == s.table(other)
        },
{
    if s.free.len() == 0 {
        let v = s.victim(seq_id)->0;
        assert(s.tables.contains_key(s.evictable[0]));
        if s.evictable[0] == seq_id {
            assert(s.evictable[1] == v);
        }
        release_returns_every_block(s, v);
    }
}

/// A sequence that no one has marked is never evicted.
pub proof fn only_candidates_are_evicted(s: AllocatorState, seq_id: u64, kept: u64)
    requires
        s.wf(),
        s.has_room_for(seq_id),
        !s.evictable.contains(kept),
    ensures
        s.make_room(seq_id).table(kept) == s.table(kept),
{
    eviction_spares_the_others(s, seq_id);
}

} // verus!
