//! What the scheduler's operations guarantee together.

use crate::scheduler::SchedulerState;
use vstd::prelude::*;

verus! {

/// At first nothing runs and nothing waits, and the free list has every block,
/// the lowest id at the bottom.
pub proof fn fresh_scheduler_is_idle(num_blocks: nat, block_size: nat)
    requires
        num_blocks <= usize::MAX,
    ensures
        ({
            let s = SchedulerState::initial(num_blocks, block_size);
            &&& s.pool.num_blocks == num_blocks
            &&& s.pool.block_size == block_size
            &&& s.pool.free.len() == num_blocks
            &&& forall|i: int| 0 <= i < num_blocks ==> (#[trigger] s.pool.free[i]) == i
            &&& forall|id: u64| !(#[trigger] s.pool.tables.contains_key(id))
            &&& s.pool.evictable.len() == 0
            &&& forall|id: u64| !(#[trigger] s.admitted.contains(id))
            &&& s.waiting.len() == 0
        }),
{
}

/// What keeps a scheduler well formed: the running sequences are those with a
/// table, each table has one block, and nobody may be evicted.
pub proof fn well_formed_scheduler(s: SchedulerState)
    ensures
        s.wf() <==> {
            &&& s.pool.wf()
            &&& s.pool.sound()
            &&& s.pool.evictable.len() == 0
            &&& s.admitted.finite()
            &&& forall|id: u64| #[trigger]
                s.admitted.contains(id) <==> s.pool.tables.contains_key(id)
            &&& forall|id: u64| #[trigger]
                s.admitted.contains(id) ==> s.pool.tables[id].len() == 1
            &&& s.pool.free.len() + s.admitted.len() == s.pool.num_blocks
        },
{
    if s.wf() {
        assert forall|id: u64| #[trigger]
            s.admitted.contains(id) <==> s.pool.tables.contains_key(id) by {}
    }
    if forall|id: u64| #[trigger] s.admitted.contains(id) <==> s.pool.tables.contains_key(id) {
        assert(s.admitted =~= s.pool.tables.dom());
    }
}

/// A sequence can be admitted exactly when it does not run and a block is free.
pub proof fn admission_takes_a_free_block(s: SchedulerState, seq_id: u64)
    ensures
        s.can_admit(seq_id) <==> !s.admitted.contains(seq_id) && s.pool.free.len() > 0,
        s.room() == s.pool.free.len(),
{
}

/// A sequence that starts to run gets the last free block as its only one.
/// Nothing changes for the other sequences.
pub proof fn start_gives_the_last_free_block(s: SchedulerState, seq_id: u64)
    requires
        s.wf(),
        !s.admitted.contains(seq_id),
        s.pool.free.len() > 0,
    ensures
        ({
            let next = s.start(seq_id);
            &&& next.pool.free.push(s.pool.free.last()) == s.pool.free
            &&& next.pool.tables[seq_id] == seq![s.pool.free.last()]
            &&& forall|id: u64|
                id != seq_id ==> #[trigger] next.pool.tables[id] == s.pool.tables[id]
            &&& forall|id: u64| #[trigger]
                next.pool.tables.contains_key(id) <==> id == seq_id || s.pool.tables.contains_key(
                    id,
                )
            &&& forall|id: u64| #[trigger]
                next.admitted.contains(id) <==> id == seq_id || s.admitted.contains(id)
            &&& next.waiting == s.waiting
            &&& next.pool.evictable == s.pool.evictable
        }),
{
    let next = s.start(seq_id);
    assert(!s.pool.tables.contains_key(seq_id));
    assert(next.pool.free.push(s.pool.free.last()) =~= s.pool.free);
    assert(next.pool.tables[seq_id] =~= seq![s.pool.free.last()]);
}

/// A sequence that finishes runs no longer and its block becomes the last free
/// one. Nothing changes for the other sequences.
pub proof fn finish_returns_the_block(s: SchedulerState, seq_id: u64)
    requires
        s.wf(),
    ensures
        ({
            let next = s.finish(seq_id);
            &&& next.pool.free == (if s.admitted.contains(seq_id) {
                s.pool.free.push(s.pool.tables[seq_id][0])
            } else {
                s.pool.free
            })
            &&& forall|id: u64| #[trigger]
                next.pool.tables.contains_key(id) <==> id != seq_id && s.pool.tables.contains_key(
                    id,
                )
            &&& forall|id: u64|
                id != seq_id ==> #[trigger] next.pool.tables[id] == s.pool.tables[id]
            &&& forall|id: u64| #[trigger]
                next.admitted.contains(id) <==> id != seq_id && s.admitted.contains(id)
            &&& next.waiting == s.waiting
        }),
{
    let next = s.finish(seq_id);
    assert(s.admitted.contains(seq_id) <==> s.pool.tables.contains_key(seq_id));
    if s.admitted.contains(seq_id) {
        assert(s.pool.tables[seq_id].len() == 1);
        assert(next.pool.free =~= s.pool.free.push(s.pool.tables[seq_id][0]));
    }
}

/// A batch is a run of different sequences at the head of the queue, none of
/// which runs, with a free block for each. It ends at the end of the queue, when
/// the blocks are used up, or before a sequence that runs or is in the batch.
pub proof fn batch_ends_where_it_must(s: SchedulerState, k: int)
    ensures
        s.batch_is(k) <==> {
            &&& 0 <= k <= s.waiting.len()
            &&& k <= s.pool.free.len()
            &&& forall|i: int| 0 <= i < k ==> !s.admitted.contains(#[trigger] s.waiting[i])
            &&& forall|i: int, j: int| 0 <= i < j < k ==> s.waiting[i] != s.waiting[j]
            &&& {
                ||| k == s.waiting.len()
                ||| k == s.pool.free.len()
                ||| s.admitted.contains(s.waiting[k])
                ||| exists|i: int| 0 <= i < k && #[trigger] s.waiting[i] == s.waiting[k]
            }
        },
{
    let ids = s.waiting.take(k);
    if s.batch_is(k) {
        s.lemma_batch(k);
        assert forall|i: int, j: int| 0 <= i < j < k implies s.waiting[i] != s.waiting[j] by {
            assert(ids[i] != ids[j]);
        }
        if k < s.waiting.len() && ids.contains(s.waiting[k]) {
            let i = choose|i: int| 0 <= i < ids.len() && ids[i] == s.waiting[k];
            assert(s.waiting[i] == s.waiting[k]);
        }
    }
    if 0 <= k <= s.waiting.len() && (forall|i: int, j: int|
        0 <= i < j < k ==> s.waiting[i] != s.waiting[j]) {
        assert(ids.no_duplicates());
    }
    if 0 <= k < s.waiting.len() && s.fits(k + 1) {
        let more = s.waiting.take(k + 1);
        assert(!s.admitted.contains(s.waiting[k]));
        assert forall|i: int| 0 <= i < k implies #[trigger] s.waiting[i] != s.waiting[k] by {
            assert(more[i] != more[k]);
        }
    }
}

/// A dispatch gives the `i`-th sequence of its batch the free block that is
/// `i`-th from the end, takes the batch off the queue, and changes nothing for
/// the others.
pub proof fn dispatch_gives_blocks_in_order(s: SchedulerState, k: int)
    requires
        s.wf(),
        s.batch_is(k),
    ensures
        ({
            let next = s.dispatch(k);
            let free = s.pool.free;
            &&& next.waiting == s.waiting.skip(k)
            &&& next.pool.free == free.take(free.len() - k)
            &&& forall|i: int|
                0 <= i < k ==> next.pool.tables[#[trigger] s.waiting[i]] == seq![free[free.len() - 1
                    - i]]
            &&& forall|i: int| 0 <= i < k ==> next.admitted.contains(#[trigger] s.waiting[i])
            &&& forall|id: u64| #[trigger]
                s.admitted.contains(id) ==> next.admitted.contains(id) && next.pool.tables[id]
                    == s.pool.tables[id]
            &&& next.pool.evictable == s.pool.evictable
        }),
{
    let ids = s.waiting.take(k);
    s.lemma_batch(k);
    assert forall|i: int| 0 <= i < ids.len() implies !s.pool.tables.contains_key(
        #[trigger] ids[i],
    ) by {
        assert(!s.admitted.contains(ids[i]));
    }
    s.lemma_start_all(ids);
    s.lemma_started_tables(ids);
    let next = s.dispatch(k);
    let free = s.pool.free;
    assert forall|i: int| 0 <= i < k implies next.pool.tables[#[trigger] s.waiting[i]]
        == seq![free[free.len() - 1 - i]] && next.admitted.contains(s.waiting[i]) by {
        assert(ids[i] == s.waiting[i]);
        assert(ids.contains(ids[i]));
    }
    assert forall|id: u64| #[trigger] s.admitted.contains(id) implies next.admitted.contains(id)
        && next.pool.tables[id] == s.pool.tables[id] by {
        if ids.contains(id) {
            let i = choose|i: int| 0 <= i < ids.len() && ids[i] == id;
            assert(!s.admitted.contains(ids[i]));
        }
    }
}

/// A shorter prefix of a batch that fits, fits.
proof fn lemma_fits_down(s: SchedulerState, j: int, k: int)
    requires
        0 <= j <= k,
        s.fits(k),
    ensures
        s.fits(j),
{
    let long = s.waiting.take(k);
    let short = s.waiting.take(j);
    assert forall|a: int, b: int|
        0 <= a < short.len() && 0 <= b < short.len() && a != b implies short[a] != short[b] by {
        assert(long[a] != long[b]);
    }
}

/// The queue and the pool determine how many sequences a dispatch admits.
pub proof fn batch_is_determined(s: SchedulerState, j: int, k: int)
    requires
        s.batch_is(j),
        s.batch_is(k),
    ensures
        j == k,
{
    if j < k {
        lemma_fits_down(s, j + 1, k);
    } else if k < j {
        lemma_fits_down(s, k + 1, j);
    }
}

/// Where the waiting sequences differ from one another and none of them runs, a
/// dispatch admits as many as there is room for, or all of them.
pub proof fn fresh_requests_fill_the_room(s: SchedulerState)
    requires
        s.waiting.no_duplicates(),
        forall|i: int|
            0 <= i < s.waiting.len() ==> !s.admitted.contains(#[trigger] s.waiting[i]),
    ensures
        s.batch_is(
            if s.waiting.len() <= s.room() {
                s.waiting.len() as int
            } else {
                s.room() as int
            },
        ),
{
    let k = if s.waiting.len() <= s.room() {
        s.waiting.len() as int
    } else {
        s.room() as int
    };
    assert(s.waiting.take(s.waiting.len() as int) =~= s.waiting);
    let ids = s.waiting.take(k);
    assert forall|a: int, b: int|
        0 <= a < ids.len() && 0 <= b < ids.len() && a != b implies ids[a] != ids[b] by {
        assert(s.waiting[a] != s.waiting[b]);
    }
}

/// No request is lost and none overtakes another: those that a dispatch admits,
/// followed by those that still wait, are the queue as it was.
pub proof fn dispatch_keeps_the_order(s: SchedulerState, k: int)
    requires
        s.batch_is(k),
    ensures
        s.waiting.take(k) + s.dispatch(k).waiting == s.waiting,
{
    assert(s.waiting.take(k) + s.waiting.skip(k) =~= s.waiting);
}

/// A dispatch admits exactly the sequences of its batch and takes one block for
/// each.
pub proof fn dispatch_runs_its_batch(s: SchedulerState, k: int)
    requires
        s.batch_is(k),
    ensures
        s.dispatch(k).room() == s.room() - k,
        forall|id: u64| #[trigger]
            s.dispatch(k).admitted.contains(id) <==> s.admitted.contains(id) || s.waiting.take(
                k,
            ).contains(id),
{
    s.lemma_start_all(s.waiting.take(k));
}

/// A second dispatch right after the first admits no one.
pub proof fn dispatch_leaves_no_room_unused(s: SchedulerState, k: int)
    requires
        s.batch_is(k),
    ensures
        s.dispatch(k).batch_is(0),
{
    let ids = s.waiting.take(k);
    let next = s.dispatch(k);
    s.lemma_start_all(ids);
    assert(next.waiting.take(0) =~= Seq::empty());
    if next.fits(1) {
        let head = next.waiting[0];
        assert(head == s.waiting[k]);
        assert(!next.admitted.contains(head));
        let more = s.waiting.take(k + 1);
        assert forall|a: int, b: int|
            0 <= a < more.len() && 0 <= b < more.len() && a != b implies more[a] != more[b] by {
            if a < k && b < k {
                assert(ids[a] != ids[b]);
            } else if a < k {
                assert(ids.contains(ids[a]));
            } else if b < k {
                assert(ids.contains(ids[b]));
            }
        }
        assert forall|i: int| 0 <= i < k + 1 implies !s.admitted.contains(
            #[trigger] s.waiting[i],
        ) by {}
        assert(s.fits(k + 1));
    }
}

/// Finishing a sequence right after it was admitted restores the state.
pub proof fn completion_undoes_admission(s: SchedulerState, seq_id: u64)
    requires
        s.wf(),
        s.can_admit(seq_id),
    ensures
        s.start(seq_id).finish(seq_id) == s,
{
    let back = s.start(seq_id).finish(seq_id);
    s.start(seq_id).pool.evictable.index_of_first_ensures(seq_id);
    assert(!s.pool.tables.contains_key(seq_id));
    assert(back.pool.free =~= s.pool.free);
    assert(back.pool.tables =~= s.pool.tables);
    assert(back.pool.evictable =~= s.pool.evictable);
    assert(back.admitted =~= s.admitted);
}

/// A block that a finished sequence gives up goes to the longest-waiting
/// request in the next dispatch, whoever else still runs.
pub proof fn completion_lets_the_first_in_line_run(s: SchedulerState, done: u64, k: int)
    requires
        s.wf(),
        s.admitted.contains(done),
        s.waiting.len() > 0,
        !s.admitted.contains(s.waiting[0]) || s.waiting[0] == done,
        s.finish(done).batch_is(k),
    ensures
        k > 0,
        s.finish(done).dispatch(k).admitted.contains(s.waiting[0]),
{
    let freed = s.finish(done);
    assert(s.pool.tables.contains_key(done));
    assert(freed.room() == s.room() + 1);
    assert(freed.fits(1));
    if k < 1 {
        assert(k == 0);
    }
    dispatch_runs_its_batch(freed, k);
    assert(freed.waiting.take(k)[0] == s.waiting[0]);
}

/// Finishing a sequence leaves every other one running.
pub proof fn completion_spares_the_others(s: SchedulerState, done: u64, other: u64)
    requires
        other != done,
    ensures
        s.finish(done).admitted.contains(other) <==> s.admitted.contains(other),
        s.finish(done).pool.table(other) == s.pool.table(other),
{
}

/// Every block is free or belongs to a running sequence, and each running
/// sequence has one.
pub proof fn running_sequences_and_free_blocks_make_up_the_pool(s: SchedulerState)
    requires
        s.wf(),
    ensures
        s.room() + s.admitted.len() == s.pool.num_blocks,
        forall|id: u64| #[trigger] s.admitted.contains(id) <==> s.pool.table(id).len() == 1,
{
    assert forall|id: u64| #[trigger] s.admitted.contains(id) <==> s.pool.table(id).len()
        == 1 by {
        assert(s.admitted.contains(id) <==> s.pool.tables.contains_key(id));
    }
}

} // verus!
