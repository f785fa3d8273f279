//! Admission control and per-iteration dispatch of continuous batching.
//!
//! A request that has been submitted waits in arrival order. A request that
//! has been admitted runs and owns one block. `dispatch` fills the room there
//! is, `complete` makes room in the middle of a batch.

use crate::block_allocator::{AllocatorState, BlockAllocator, BlockId};
use std::collections::HashSet;
use std::collections::VecDeque;
use vstd::prelude::*;

verus! {

broadcast use vstd::std_specs::hash::group_hash_axioms;

/// What a scheduler holds, as a mathematical value.
#[verifier::ext_equal]
pub struct SchedulerState {
    /// The block pool.
    pub pool: AllocatorState,
    /// The sequences that run.
    pub admitted: Set<u64>,
    /// The sequences that wait, the longest-waiting one first.
    pub waiting: Seq<u64>,
}

impl SchedulerState {
    /// Nothing runs, nothing waits, every block is free.
    pub open spec fn initial(num_blocks: nat, block_size: nat) -> Self {
        SchedulerState {
            pool: AllocatorState::initial(num_blocks, block_size),
            admitted: Set::empty(),
            waiting: Seq::empty(),
        }
    }

    /// Number of free blocks.
    pub open spec fn room(self) -> nat {
        self.pool.free.len()
    }

    /// Each admitted sequence owns one block and nothing else owns any; a
    /// running sequence is never up for eviction; every block is free or owned
    /// by an admitted sequence.
    pub open spec fn wf(self) -> bool {
        &&& self.pool.wf()
        &&& self.pool.sound()
        &&& self.pool.evictable.len() == 0
        &&& self.admitted.finite()
        &&& self.admitted =~= self.pool.tables.dom()
        &&& forall|s: u64| #[trigger]
            self.admitted.contains(s) ==> self.pool.tables[s].len() == 1
        &&& self.room() + self.admitted.len() == self.pool.num_blocks
    }

    /// `seq_id` does not run yet and there is a block for it.
    pub open spec fn can_admit(self, seq_id: u64) -> bool {
        !self.admitted.contains(seq_id) && self.room() > 0
    }

    /// The state after `seq_id` took the top free block and started to run.
    pub open spec fn start(self, seq_id: u64) -> Self {
        SchedulerState {
            pool: self.pool.grow(seq_id),
            admitted: self.admitted.insert(seq_id),
            ..self
        }
    }

    /// The state after the sequences of `ids` were admitted one by one.
    pub open spec fn start_all(self, ids: Seq<u64>) -> Self
        decreases ids.len(),
    {
        if ids.len() == 0 {
            self
        } else {
            self.start_all(ids.drop_last()).start(ids.last())
        }
    }

    /// The state after `seq_id` finished.
    pub open spec fn finish(self, seq_id: u64) -> Self {
        SchedulerState {
            pool: self.pool.release(seq_id),
            admitted: self.admitted.remove(seq_id),
            ..self
        }
    }

    /// The first `k` waiting sequences can all be admitted: there is a block
    /// for each, they differ from one another, and none of them runs yet.
    pub open spec fn fits(self, k: int) -> bool {
        &&& 0 <= k <= self.waiting.len()
        &&& k <= self.room()
        &&& self.waiting.take(k).no_duplicates()
        &&& forall|i: int| 0 <= i < k ==> !self.admitted.contains(#[trigger] self.waiting[i])
    }

    /// `k` is the length of the longest prefix of the queue that fits.
    pub open spec fn batch_is(self, k: int) -> bool {
        self.fits(k) && !self.fits(k + 1)
    }

    /// The state after the first `k` waiting sequences left the queue and were
    /// admitted.
    pub open spec fn dispatch(self, k: int) -> Self {
        SchedulerState {
            waiting: self.waiting.skip(k),
            ..self.start_all(self.waiting.take(k))
        }
    }

    /// Starting sequences leaves the queue alone, takes one block for each, and
    /// adds them to the running ones.
    pub(crate) proof fn lemma_start_all(self, ids: Seq<u64>)
        requires
            ids.len() <= self.room(),
        ensures
            self.start_all(ids).waiting == self.waiting,
            self.start_all(ids).room() == self.room() - ids.len(),
            forall|s: u64| #[trigger]
                self.start_all(ids).admitted.contains(s) <==> self.admitted.contains(s)
                    || ids.contains(s),
        decreases ids.len(),
    {
        if ids.len() > 0 {
            let init = ids.drop_last();
            self.lemma_start_all(init);
            assert forall|s: u64| #[trigger]
                self.start_all(ids).admitted.contains(s) <==> self.admitted.contains(s)
                    || ids.contains(s) by {
                assert(ids[ids.len() - 1] == ids.last());
                if init.contains(s) {
                    let i = choose|i: int| 0 <= i < init.len() && init[i] == s;
                    assert(ids[i] == s);
                }
                if ids.contains(s) && s != ids.last() {
                    let i = choose|i: int| 0 <= i < ids.len() && ids[i] == s;
                    assert(init[i] == s);
                }
                assert(self.start_all(init).admitted.contains(s) <==> self.admitted.contains(s)
                    || init.contains(s));
            }
        }
    }

    /// Starting sequences takes the blocks off the top of the free list, one
    /// each in order, and leaves the tables of the others alone.
    pub(crate) proof fn lemma_started_tables(self, ids: Seq<u64>)
        requires
            ids.len() <= self.room(),
            ids.no_duplicates(),
            forall|i: int|
                0 <= i < ids.len() ==> !self.pool.tables.contains_key(#[trigger] ids[i]),
        ensures
            self.start_all(ids).pool.free == self.pool.free.take(self.room() - ids.len()),
            forall|i: int|
                0 <= i < ids.len() ==> self.start_all(ids).pool.tables[#[trigger] ids[i]]
                    == seq![self.pool.free[self.room() - 1 - i]],
            forall|id: u64| #[trigger]
                self.start_all(ids).pool.tables.contains_key(id) <==> self.pool.tables.contains_key(
                    id,
                ) || ids.contains(id),
            forall|id: u64|
                !ids.contains(id) ==> #[trigger] self.start_all(ids).pool.tables[id]
                    == self.pool.tables[id],
            self.start_all(ids).pool.num_blocks == self.pool.num_blocks,
            self.start_all(ids).pool.block_size == self.pool.block_size,
            self.start_all(ids).pool.evictable == self.pool.evictable,
        decreases ids.len(),
    {
        if ids.len() == 0 {
            assert(self.pool.free.take(self.room() as int) =~= self.pool.free);
        } else {
            let init = ids.drop_last();
            let n = init.len() as int;
            let last = ids.last();
            assert forall|i: int| 0 <= i < init.len() implies !self.pool.tables.contains_key(
                #[trigger] init[i],
            ) by {
                assert(init[i] == ids[i]);
            }
            self.lemma_started_tables(init);
            let mid = self.start_all(init);
            let next = self.start_all(ids);
            assert(ids[n] == last);
            assert(!init.contains(last));
            assert(!mid.pool.tables.contains_key(last));
            assert(mid.pool.free.last() == self.pool.free[self.room() - 1 - n]);
            assert(next.pool.free =~= self.pool.free.take(self.room() - ids.len()));
            assert(next.pool.tables[last] =~= seq![self.pool.free[self.room() - 1 - n]]);
            assert forall|i: int| 0 <= i < ids.len() implies next.pool.tables[#[trigger] ids[i]]
                == seq![self.pool.free[self.room() - 1 - i]] by {
                if i < n {
                    assert(init[i] == ids[i]);
                    assert(ids[i] != ids[n]);
                }
            }
            assert forall|id: u64| #[trigger] init.contains(id) || id == last <==> ids.contains(
                id,
            ) by {
                if init.contains(id) {
                    let i = choose|i: int| 0 <= i < init.len() && init[i] == id;
                    assert(ids[i] == id);
                }
                if ids.contains(id) && id != last {
                    let i = choose|i: int| 0 <= i < ids.len() && ids[i] == id;
                    assert(init[i] == id);
                }
            }
            assert forall|id: u64| #[trigger]
                next.pool.tables.contains_key(id) <==> self.pool.tables.contains_key(id)
                    || ids.contains(id) by {
                assert(mid.pool.tables.contains_key(id) <==> self.pool.tables.contains_key(id)
                    || init.contains(id));
                assert(init.contains(id) || id == last <==> ids.contains(id));
            }
            assert forall|id: u64| !ids.contains(id) implies #[trigger] next.pool.tables[id]
                == self.pool.tables[id] by {
                assert(init.contains(id) || id == last <==> ids.contains(id));
                assert(mid.pool.tables[id] == self.pool.tables[id]);
            }
        }
    }

    /// Why a batch ends where it ends.
    pub(crate) proof fn lemma_batch(self, k: int)
        requires
            self.batch_is(k),
        ensures
            0 <= k <= self.waiting.len(),
            k <= self.pool.free.len(),
            forall|i: int|
                0 <= i < k ==> !self.admitted.contains(#[trigger] self.waiting.take(k)[i]),
            self.waiting.take(k).no_duplicates(),
            k == self.waiting.len() || k == self.pool.free.len() || self.admitted.contains(
                self.waiting[k],
            ) || self.waiting.take(k).contains(self.waiting[k]),
    {
        let ids = self.waiting.take(k);
        assert forall|i: int| 0 <= i < k implies !self.admitted.contains(#[trigger] ids[i]) by {
            assert(ids[i] == self.waiting[i]);
        }
        if k < self.waiting.len() && k < self.room() && !self.admitted.contains(self.waiting[k])
            && !ids.contains(self.waiting[k]) {
            let more = self.waiting.take(k + 1);
            assert forall|a: int, b: int|
                0 <= a < more.len() && 0 <= b < more.len() && a != b implies more[a] != more[b] by {
                if a < k && b < k {
                    assert(ids[a] != ids[b]);
                } else if a < k {
                    assert(ids.contains(ids[a]));
                } else if b < k {
                    assert(ids.contains(ids[b]));
                }
            }
            assert(self.fits(k + 1));
        }
    }

    /// Once a prefix of the queue has been started, the next sequence can be
    /// started exactly when the longer prefix fits.
    proof fn lemma_fits_step(self, k: int)
        requires
            self.fits(k),
            k < self.waiting.len(),
        ensures
            self.fits(k + 1) <==> self.start_all(self.waiting.take(k)).can_admit(self.waiting[k]),
    {
        let ids = self.waiting.take(k);
        let more = self.waiting.take(k + 1);
        self.lemma_start_all(ids);
        let next = self.waiting[k];
        assert(self.start_all(ids).admitted.contains(next) <==> self.admitted.contains(next)
            || ids.contains(next));
        assert(more =~= ids.push(next));
        if self.fits(k + 1) {
            if ids.contains(next) {
                let i = choose|i: int| 0 <= i < ids.len() && ids[i] == next;
                assert(more[i] == more[k]);
            }
        }
    }
}

/// Decides which sequences run.
pub struct Scheduler {
    allocator: BlockAllocator,
    admitted: HashSet<u64>,
    waiting: VecDeque<u64>,
}

impl View for Scheduler {
    type V = SchedulerState;

    closed spec fn view(&self) -> SchedulerState {
        SchedulerState {
            pool: self.allocator@,
            admitted: self.admitted@,
            waiting: self.waiting@,
        }
    }
}

impl Scheduler {
    /// A scheduler over a fresh pool of `num_blocks` blocks of `block_size`
    /// tokens.
    pub fn new(num_blocks: usize, block_size: usize) -> (r: Self)
        ensures
            r@ == SchedulerState::initial(num_blocks as nat, block_size as nat),
            r@.pool.num_blocks == num_blocks,
            r@.pool.block_size == block_size,
            r@.pool.free.len() == num_blocks,
            forall|i: int| 0 <= i < num_blocks ==> (#[trigger] r@.pool.free[i]) == i,
            r@.pool.tables == Map::<u64, Seq<BlockId>>::empty(),
            r@.admitted == Set::<u64>::empty(),
            r@.waiting == Seq::<u64>::empty(),
            r@.wf(),
    {
        let allocator: BlockAllocator = BlockAllocator::with_block_size(num_blocks, block_size);
        let admitted: HashSet<u64> = HashSet::new();
        let waiting: VecDeque<u64> = VecDeque::new();
        Self { allocator, admitted, waiting }
    }

    /// Tries to admit `seq_id`; an admitted sequence owns exactly one block.
    ///
    /// Fails, and changes nothing, if the sequence already runs or if the pool
    /// is exhausted. A running sequence is never evicted to make room.
    pub fn try_admit(&mut self, seq_id: u64) -> (r: bool)
        requires
            old(self)@.wf(),
        ensures
            r == old(self)@.can_admit(seq_id),
            r ==> final(self)@ == old(self)@.start(seq_id),
            !r ==> final(self)@ == old(self)@,
            r <==> !old(self)@.admitted.contains(seq_id) && old(self)@.pool.free.len() > 0,
            r ==> {
                &&& final(self)@.admitted == old(self)@.admitted.insert(seq_id)
                &&& final(self)@.pool.free == old(self)@.pool.free.drop_last()
                &&& final(self)@.pool.tables == old(self)@.pool.tables.insert(
                    seq_id,
                    seq![old(self)@.pool.free.last()],
                )
            },
            final(self)@.waiting == old(self)@.waiting,
            final(self)@.pool.num_blocks == old(self)@.pool.num_blocks,
            final(self)@.pool.block_size == old(self)@.pool.block_size,
            final(self)@.wf(),
    {
        if self.is_admitted(seq_id) {
            return false;
        }
        match self.allocator.allocate_block_for(seq_id) {
            Some(_) => {
                self.admitted.insert(seq_id);
                assert(!old(self)@.pool.tables.contains_key(seq_id));
                assert(self@.pool.tables =~= old(self)@.pool.tables.insert(
                    seq_id,
                    seq![old(self)@.pool.free.last()],
                ));
                true
            },
            None => false,
        }
    }

    /// Does `seq_id` run?
    pub fn is_admitted(&self, seq_id: u64) -> (r: bool)
        ensures
            r == self@.admitted.contains(seq_id),
    {
        self.admitted.contains(&seq_id)
    }

    /// How many blocks are free.
    pub fn num_free_blocks(&self) -> (r: usize)
        ensures
            r == self@.room(),
            r == self@.pool.free.len(),
    {
        self.allocator.num_free()
    }

    /// Queues `seq_id` behind the sequences that already wait. Admits nothing
    /// and takes no block.
    pub fn submit(&mut self, seq_id: u64)
        requires
            old(self)@.wf(),
        ensures
            final(self)@ == (SchedulerState {
                waiting: old(self)@.waiting.push(seq_id),
                ..old(self)@
            }),
            final(self)@.wf(),
    {
        self.waiting.push_back(seq_id);
    }

    /// Admits waiting sequences in the order of their arrival, up to the first
    /// one that cannot be admitted; that one stays first in line. Returns the
    /// admitted sequences in the order of their admission.
    pub fn dispatch(&mut self) -> (r: Vec<u64>)
        requires
            old(self)@.wf(),
        ensures
            old(self)@.batch_is(r@.len() as int),
            r@ == old(self)@.waiting.take(r@.len() as int),
            final(self)@ == old(self)@.dispatch(r@.len() as int),
            r@.len() <= old(self)@.waiting.len(),
            r@.len() <= old(self)@.pool.free.len(),
            forall|i: int|
                0 <= i < r@.len() ==> #[trigger] r@[i] == old(self)@.waiting[i]
                    && !old(self)@.admitted.contains(r@[i]),
            forall|i: int, j: int| 0 <= i < j < r@.len() ==> r@[i] != r@[j],
            r@.len() == old(self)@.waiting.len() || r@.len() == old(self)@.pool.free.len() || old(self)@.admitted.contains(old(self)@.waiting[r@.len() as int]) || r@.contains(
                old(self)@.waiting[r@.len() as int],
            ),
            final(self)@.waiting == old(self)@.waiting.skip(r@.len() as int),
            forall|id: u64| #[trigger]
                final(self)@.admitted.contains(id) <==> old(self)@.admitted.contains(id)
                    || r@.contains(id),
            final(self)@.pool.free == old(self)@.pool.free.take(
                old(self)@.pool.free.len() - r@.len(),
            ),
            forall|i: int|
                0 <= i < r@.len() ==> final(self)@.pool.tables[#[trigger] r@[i]]
                    == seq![old(self)@.pool.free[old(self)@.pool.free.len() - 1 - i]],
            forall|id: u64| #[trigger]
                old(self)@.admitted.contains(id) ==> final(self)@.pool.tables[id]
                    == old(self)@.pool.tables[id],
            final(self)@.pool.num_blocks == old(self)@.pool.num_blocks,
            final(self)@.pool.block_size == old(self)@.pool.block_size,
            final(self)@.wf(),
    {
        let mut dispatched: Vec<u64> = Vec::new();
        let ghost start = self@;
        assert(start.waiting.take(0) =~= Seq::empty());
        assert(start.waiting.skip(0) =~= start.waiting);
        assert(start.dispatch(0) =~= start);
        loop
            invariant
                start.wf(),
                self@.wf(),
                start.fits(dispatched@.len() as int),
                dispatched@ == start.waiting.take(dispatched@.len() as int),
                self@ == start.dispatch(dispatched@.len() as int),
            ensures
                start.batch_is(dispatched@.len() as int),
            decreases start.waiting.len() - dispatched@.len(),
        {
            let ghost k = dispatched@.len() as int;
            proof {
                start.lemma_start_all(start.waiting.take(k));
            }
            match self.waiting.pop_front() {
                Some(seq_id) => {
                    let ghost popped = self@;
                    assert(seq_id == start.waiting[k]);
                    proof {
                        start.lemma_fits_step(k);
                    }
                    if self.try_admit(seq_id) {
                        dispatched.push(seq_id);
                        assert(start.waiting.take(k + 1).drop_last() =~= start.waiting.take(k));
                        assert(start.waiting.take(k + 1) =~= dispatched@);
                        assert(popped.waiting =~= start.waiting.skip(k + 1));
                        assert(self@ =~= start.dispatch(k + 1));
                    } else {
                        self.waiting.push_front(seq_id);
                        assert(self@.waiting =~= start.waiting.skip(k));
                        break;
                    }
                },
                None => {
                    break;
                },
            }
        }
        proof {
            let k = dispatched@.len() as int;
            start.lemma_start_all(dispatched@);
            start.lemma_batch(k);
            start.lemma_started_tables(dispatched@);
        }
        dispatched
    }

    /// Marks `seq_id` as finished: frees its blocks and stops tracking it.
    /// Does nothing for a sequence that does not run. Whoever waits is let in
    /// by the next `dispatch`.
    pub fn complete(&mut self, seq_id: u64)
        requires
            old(self)@.wf(),
        ensures
            final(self)@ == old(self)@.finish(seq_id),
            final(self)@.admitted == old(self)@.admitted.remove(seq_id),
            final(self)@.waiting == old(self)@.waiting,
            final(self)@.pool.free == (if old(self)@.admitted.contains(seq_id) {
                old(self)@.pool.free + old(self)@.pool.tables[seq_id]
            } else {
                old(self)@.pool.free
            }),
            final(self)@.pool.free.len() == old(self)@.pool.free.len() + (if old(self)@.admitted.contains(seq_id) {
                1int
            } else {
                0int
            }),
            forall|id: u64| #[trigger]
                final(self)@.admitted.contains(id) ==> final(self)@.pool.tables[id]
                    == old(self)@.pool.tables[id],
            final(self)@.pool.num_blocks == old(self)@.pool.num_blocks,
            final(self)@.pool.block_size == old(self)@.pool.block_size,
            final(self)@.room() == old(self)@.room() + (if old(self)@.admitted.contains(seq_id) {
                1int
            } else {
                0int
            }),
            final(self)@.wf(),
    {
        proof {
            self.allocator@.evictable.index_of_first_ensures(seq_id);
        }
        self.allocator.free_sequence(seq_id);
        self.admitted.remove(&seq_id);
    }
}

} // verus!
