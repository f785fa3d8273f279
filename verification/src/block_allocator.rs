//! Paged KV cache block allocator.
//!
//! Pure bookkeeping: the allocator tracks which block ids are free, which
//! sequence owns which blocks and in what order, and which sequences may be
//! evicted when the pool runs dry. It touches no memory itself.

use std::collections::HashMap;
use vstd::prelude::*;

verus! {

broadcast use vstd::std_specs::hash::group_hash_axioms;

/// A block's identity: its index into the pool.
pub type BlockId = usize;

/// Tokens per block of an allocator built by [`BlockAllocator::new`].
pub const DEFAULT_BLOCK_SIZE: usize = 16;

/// What an allocator holds, as a mathematical value.
#[verifier::ext_equal]
pub struct AllocatorState {
    /// Number of blocks in the pool.
    pub num_blocks: nat,
    /// Tokens that one block holds.
    pub block_size: nat,
    /// The free list, a stack whose top is the last element.
    pub free: Seq<BlockId>,
    /// The blocks of each sequence, in the order of its token positions.
    pub tables: Map<u64, Seq<BlockId>>,
    /// The sequences that may be evicted, the first candidate first.
    pub evictable: Seq<u64>,
}

impl AllocatorState {
    /// A pool of `num_blocks` blocks, all of them free.
    pub open spec fn initial(num_blocks: nat, block_size: nat) -> Self {
        AllocatorState {
            num_blocks,
            block_size,
            free: Seq::new(num_blocks, |i: int| i as usize),
            tables: Map::empty(),
            evictable: Seq::empty(),
        }
    }

    /// The blocks of `seq_id`; none for a sequence that owns nothing.
    pub open spec fn table(self, seq_id: u64) -> Seq<BlockId> {
        if self.tables.contains_key(seq_id) {
            self.tables[seq_id]
        } else {
            Seq::empty()
        }
    }

    /// `seq_id` has a block at index `i` of its table.
    pub open spec fn owns_at(self, seq_id: u64, i: int) -> bool {
        self.tables.contains_key(seq_id) && 0 <= i < self.tables[seq_id].len()
    }

    /// Some sequence owns `block_id`.
    pub open spec fn owned(self, block_id: BlockId) -> bool {
        exists|s: u64, i: int| #[trigger] self.owns_at(s, i) && self.tables[s][i] == block_id
    }

    /// `block_id` belongs to the pool, and is neither free nor owned by a
    /// sequence: a caller of `allocate` holds it.
    pub open spec fn held(self, block_id: BlockId) -> bool {
        &&& block_id < self.num_blocks
        &&& !self.free.contains(block_id)
        &&& !self.owned(block_id)
    }

    /// Every table has a block, and the eviction candidates are distinct
    /// sequences that own blocks.
    pub open spec fn wf(self) -> bool {
        &&& self.num_blocks <= usize::MAX
        &&& self.block_size <= usize::MAX
        &&& forall|s: u64| #[trigger] self.tables.contains_key(s) ==> self.tables[s].len() > 0
        &&& self.evictable.no_duplicates()
        &&& forall|i: int|
            0 <= i < self.evictable.len() ==> self.tables.contains_key(#[trigger] self.evictable[i])
    }

    /// No block is in two places: the free list has no duplicates, no block is
    /// both free and owned, and no block is owned twice. All ids are in range.
    pub open spec fn sound(self) -> bool {
        &&& self.free.no_duplicates()
        &&& forall|i: int|
            0 <= i < self.free.len() ==> (#[trigger] self.free[i]) < self.num_blocks
        &&& forall|s: u64, i: int| #[trigger]
            self.owns_at(s, i) ==> self.tables[s][i] < self.num_blocks && !self.free.contains(
                self.tables[s][i],
            )
        &&& forall|s: u64, i: int, t: u64, j: int|
            #![trigger self.owns_at(s, i), self.owns_at(t, j)]
            self.owns_at(s, i) && self.owns_at(t, j) && self.tables[s][i] == self.tables[t][j]
                ==> s == t && i == j
    }

    /// The state after the top block left the free list.
    pub open spec fn take_free(self) -> Self {
        AllocatorState { free: self.free.drop_last(), ..self }
    }

    /// The state after `block_id` went on top of the free list.
    pub open spec fn put_free(self, block_id: BlockId) -> Self {
        AllocatorState { free: self.free.push(block_id), ..self }
    }

    /// The state after the top free block went to the end of `seq_id`'s table.
    pub open spec fn grow(self, seq_id: u64) -> Self {
        AllocatorState {
            free: self.free.drop_last(),
            tables: self.tables.insert(seq_id, self.table(seq_id).push(self.free.last())),
            ..self
        }
    }

    /// The state after every block of `seq_id` went back to the free list.
    pub open spec fn release(self, seq_id: u64) -> Self {
        if self.tables.contains_key(seq_id) {
            AllocatorState {
                free: self.free + self.tables[seq_id],
                tables: self.tables.remove(seq_id),
                evictable: self.evictable.remove_value(seq_id),
                ..self
            }
        } else {
            self
        }
    }

    /// The sequence that gives way to `seq_id`: the first candidate that is
    /// not `seq_id` itself.
    pub open spec fn victim(self, seq_id: u64) -> Option<u64> {
        if self.evictable.len() > 0 && self.evictable[0] != seq_id {
            Some(self.evictable[0])
        } else if self.evictable.len() > 1 {
            Some(self.evictable[1])
        } else {
            None
        }
    }

    /// A block can be had for `seq_id`, by eviction if need be.
    pub open spec fn has_room_for(self, seq_id: u64) -> bool {
        self.free.len() > 0 || self.victim(seq_id) is Some
    }

    /// The state from which the block for `seq_id` is taken: this one where a
    /// block is free, else the one after the eviction.
    pub open spec fn make_room(self, seq_id: u64) -> Self {
        if self.free.len() > 0 {
            self
        } else {
            self.release(self.victim(seq_id)->0)
        }
    }

    /// Block and offset within it of a token position, where the sequence's
    /// blocks reach that far.
    pub open spec fn locate(self, seq_id: u64, position: nat) -> Option<(BlockId, nat)> {
        if position < self.table(seq_id).len() * self.block_size {
            Some(
                (
                    self.table(seq_id)[position as int / self.block_size as int],
                    position % self.block_size,
                ),
            )
        } else {
            None
        }
    }
}

impl AllocatorState {
    /// Taking the top free block keeps the pool sound and leaves the block
    /// with the caller.
    proof fn lemma_take_free(self)
        requires
            self.sound(),
            self.free.len() > 0,
        ensures
            self.take_free().sound(),
            self.take_free().held(self.free.last()),
    {
        let next = self.take_free();
        let b = self.free.last();
        assert(next.free.no_duplicates());
        assert(!next.free.contains(b));
        assert(self.free[self.free.len() - 1] < self.num_blocks);
        assert(self.free.contains(b));
        assert forall|s: u64, i: int| #[trigger] next.owns_at(s, i) implies next.tables[s][i]
            < next.num_blocks && !next.free.contains(next.tables[s][i]) by {
            assert(self.owns_at(s, i));
        }
        assert forall|s: u64, i: int, t: u64, j: int|
            #![trigger next.owns_at(s, i), next.owns_at(t, j)]
            next.owns_at(s, i) && next.owns_at(t, j) && next.tables[s][i]
                == next.tables[t][j] implies s == t && i == j by {
            assert(self.owns_at(s, i) && self.owns_at(t, j));
        }
        assert(!next.owned(b)) by {
            if next.owned(b) {
                let (s, i) = choose|s: u64, i: int| #[trigger]
                    next.owns_at(s, i) && next.tables[s][i] == b;
                assert(self.owns_at(s, i));
            }
        }
    }

    /// A block is held exactly when it belongs to the pool, is not free and is
    /// in no table.
    pub(crate) proof fn lemma_held(self, block_id: BlockId)
        ensures
            self.held(block_id) <==> block_id < self.num_blocks && !self.free.contains(block_id)
                && forall|s: u64| #[trigger]
                self.tables.contains_key(s) ==> !self.tables[s].contains(block_id),
    {
        if !self.owned(block_id) {
            assert forall|s: u64| #[trigger]
                self.tables.contains_key(s) implies !self.tables[s].contains(block_id) by {
                if self.tables[s].contains(block_id) {
                    let i = choose|i: int|
                        0 <= i < self.tables[s].len() && self.tables[s][i] == block_id;
                    assert(self.owns_at(s, i));
                }
            }
        } else {
            let (s, i) = choose|s: u64, i: int| #[trigger]
                self.owns_at(s, i) && self.tables[s][i] == block_id;
            assert(self.tables.contains_key(s) && self.tables[s].contains(block_id));
        }
    }

    /// Returning a held block keeps the pool sound.
    proof fn lemma_put_free(self, block_id: BlockId)
        requires
            self.sound(),
            self.held(block_id),
        ensures
            self.put_free(block_id).sound(),
    {
        let next = self.put_free(block_id);
        assert forall|s: u64, i: int| #[trigger] next.owns_at(s, i) implies next.tables[s][i]
            < next.num_blocks && !next.free.contains(next.tables[s][i]) by {
            assert(self.owns_at(s, i));
        }
        assert forall|s: u64, i: int, t: u64, j: int|
            #![trigger next.owns_at(s, i), next.owns_at(t, j)]
            next.owns_at(s, i) && next.owns_at(t, j) && next.tables[s][i]
                == next.tables[t][j] implies s == t && i == j by {
            assert(self.owns_at(s, i) && self.owns_at(t, j));
        }
    }

    /// Handing the top free block to a sequence keeps the pool well formed.
    proof fn lemma_grow(self, seq_id: u64)
        requires
            self.wf(),
            self.free.len() > 0,
        ensures
            self.grow(seq_id).wf(),
            self.sound() ==> self.grow(seq_id).sound(),
    {
        let next = self.grow(seq_id);
        if self.sound() {
            self.lemma_take_free();
            let mid = self.take_free();
            let b = self.free.last();
            let last = self.table(seq_id).len() as int;
            assert(self.free.contains(b));
            assert forall|s: u64, i: int| #[trigger] next.owns_at(s, i) implies (s == seq_id && i
                == last) || mid.owns_at(s, i) by {}
            assert forall|s: u64, i: int| #[trigger] next.owns_at(s, i) implies next.tables[s][i]
                < next.num_blocks && !next.free.contains(next.tables[s][i]) by {
                if !(s == seq_id && i == last) {
                    assert(mid.owns_at(s, i));
                    assert(next.tables[s][i] == mid.tables[s][i]);
                }
            }
            assert forall|s: u64, i: int, t: u64, j: int|
                #![trigger next.owns_at(s, i), next.owns_at(t, j)]
                next.owns_at(s, i) && next.owns_at(t, j) && next.tables[s][i]
                    == next.tables[t][j] implies s == t && i == j by {
                let si_new = s == seq_id && i == last;
                let tj_new = t == seq_id && j == last;
                if !si_new {
                    assert(mid.owns_at(s, i) && next.tables[s][i] == mid.tables[s][i]);
                }
                if !tj_new {
                    assert(mid.owns_at(t, j) && next.tables[t][j] == mid.tables[t][j]);
                }
                assert(!mid.owned(b));
            }
        }
    }

    /// Making room evicts nobody while a block is free, and else the first
    /// candidate other than the requester.
    pub(crate) proof fn lemma_make_room(self, seq_id: u64)
        requires
            self.wf(),
            self.has_room_for(seq_id),
        ensures
            self.free.len() > 0 ==> self.make_room(seq_id) == self,
            self.free.len() == 0 ==> exists|i: int|
                {
                    &&& 0 <= i < self.evictable.len()
                    &&& #[trigger] self.evictable[i] != seq_id
                    &&& forall|j: int| 0 <= j < i ==> #[trigger] self.evictable[j] == seq_id
                    &&& self.tables.contains_key(self.evictable[i])
                    &&& self.tables[self.evictable[i]].len() > 0
                    &&& self.make_room(seq_id).free == self.tables[self.evictable[i]]
                    &&& self.make_room(seq_id).tables == self.tables.remove(self.evictable[i])
                    &&& self.make_room(seq_id).evictable == self.evictable.remove(i)
                },
            self.make_room(seq_id).num_blocks == self.num_blocks,
            self.make_room(seq_id).block_size == self.block_size,
    {
        if self.free.len() == 0 {
            let i: int = if self.evictable[0] != seq_id {
                0
            } else {
                1
            };
            let v = self.evictable[i];
            assert(self.victim(seq_id) == Some(v));
            self.evictable.index_of_first_ensures(v);
            assert(self.evictable.contains(v));
            assert(self.evictable.index_of_first(v) == Some(i));
            assert(self.make_room(seq_id).free =~= self.tables[v]);
        }
    }

    /// Taking every block from a sequence keeps the pool well formed.
    proof fn lemma_release(self, seq_id: u64)
        requires
            self.wf(),
        ensures
            self.release(seq_id).wf(),
            self.sound() ==> self.release(seq_id).sound(),
    {
        let next = self.release(seq_id);
        if self.tables.contains_key(seq_id) {
            lemma_remove_value(self.evictable, seq_id);
            assert forall|i: int| 0 <= i < next.evictable.len() implies next.tables.contains_key(
                #[trigger] next.evictable[i],
            ) by {
                assert(self.evictable.contains(next.evictable[i]));
            }
            if self.sound() {
                let table = self.tables[seq_id];
                assert forall|i: int| 0 <= i < next.free.len() implies (#[trigger] next.free[i])
                    < next.num_blocks by {
                    if i >= self.free.len() {
                        assert(self.owns_at(seq_id, i - self.free.len()));
                    }
                }
                assert forall|i: int, j: int|
                    0 <= i < next.free.len() && 0 <= j < next.free.len() && i
                        != j implies next.free[i] != next.free[j] by {
                    let n = self.free.len() as int;
                    if i >= n {
                        assert(self.owns_at(seq_id, i - n));
                    }
                    if j >= n {
                        assert(self.owns_at(seq_id, j - n));
                    }
                    if i < n {
                        assert(self.free.contains(self.free[i]));
                    }
                    if j < n {
                        assert(self.free.contains(self.free[j]));
                    }
                }
                assert forall|s: u64, i: int| #[trigger] next.owns_at(s, i) implies next.tables[s][i]
                    < next.num_blocks && !next.free.contains(next.tables[s][i]) by {
                    assert(self.owns_at(s, i));
                    if next.free.contains(next.tables[s][i]) {
                        let k = choose|k: int|
                            0 <= k < next.free.len() && next.free[k] == next.tables[s][i];
                        if k < self.free.len() {
                            assert(self.free[k] == next.free[k]);
                        } else {
                            assert(self.owns_at(seq_id, k - self.free.len()));
                        }
                    }
                }
                assert forall|s: u64, i: int, t: u64, j: int|
                    #![trigger next.owns_at(s, i), next.owns_at(t, j)]
                    next.owns_at(s, i) && next.owns_at(t, j) && next.tables[s][i]
                        == next.tables[t][j] implies s == t && i == j by {
                    assert(self.owns_at(s, i) && self.owns_at(t, j));
                }
            }
        }
    }
}

/// Removing a value keeps a duplicate-free sequence duplicate-free, and takes
/// out that value only.
proof fn lemma_remove_value(s: Seq<u64>, v: u64)
    requires
        s.no_duplicates(),
    ensures
        s.remove_value(v).no_duplicates(),
        forall|i: int|
            0 <= i < s.remove_value(v).len() ==> s.contains(#[trigger] s.remove_value(v)[i])
                && s.remove_value(v)[i] != v,
{
    s.index_of_first_ensures(v);
    let r = s.remove_value(v);
    if s.contains(v) {
        let k = s.index_of_first(v)->0;
        assert(r == s.remove(k));
        assert forall|i: int| 0 <= i < r.len() implies s.contains(#[trigger] r[i]) && r[i] != v by {
            assert(r[i] == if i < k { s[i] } else { s[i + 1] });
        }
    } else {
        assert forall|i: int| 0 <= i < r.len() implies s.contains(#[trigger] r[i]) && r[i] != v by {
            assert(r == s);
        }
    }
}

/// Manages the blocks of the KV cache pool.
pub struct BlockAllocator {
    num_blocks: usize,
    block_size: usize,
    free_blocks: Vec<BlockId>,
    tables: HashMap<u64, Vec<BlockId>>,
    evictable: Vec<u64>,
}

impl View for BlockAllocator {
    type V = AllocatorState;

    closed spec fn view(&self) -> AllocatorState {
        AllocatorState {
            num_blocks: self.num_blocks as nat,
            block_size: self.block_size as nat,
            free: self.free_blocks@,
            tables: self.tables@.map_values(|t: Vec<BlockId>| t@),
            evictable: self.evictable@,
        }
    }
}

impl BlockAllocator {
    /// An allocator of `num_blocks` blocks of [`DEFAULT_BLOCK_SIZE`] tokens,
    /// all free.
    pub fn new(num_blocks: usize) -> (r: Self)
        ensures
            r@ == AllocatorState::initial(num_blocks as nat, DEFAULT_BLOCK_SIZE as nat),
            r@.num_blocks == num_blocks,
            r@.block_size == 16,
            r@.free.len() == num_blocks,
            forall|i: int| 0 <= i < num_blocks ==> (#[trigger] r@.free[i]) == i,
            r@.tables == Map::<u64, Seq<BlockId>>::empty(),
            r@.evictable == Seq::<u64>::empty(),
            r@.wf(),
            r@.sound(),
    {
        Self::with_block_size(num_blocks, DEFAULT_BLOCK_SIZE)
    }

    /// An allocator of `num_blocks` blocks of `block_size` tokens, all free.
    pub fn with_block_size(num_blocks: usize, block_size: usize) -> (r: Self)
        ensures
            r@ == AllocatorState::initial(num_blocks as nat, block_size as nat),
            r@.num_blocks == num_blocks,
            r@.block_size == block_size,
            r@.free.len() == num_blocks,
            forall|i: int| 0 <= i < num_blocks ==> (#[trigger] r@.free[i]) == i,
            r@.tables == Map::<u64, Seq<BlockId>>::empty(),
            r@.evictable == Seq::<u64>::empty(),
            r@.wf(),
            r@.sound(),
    {
        let mut free_blocks: Vec<BlockId> = Vec::new();
        let mut id: usize = 0;
        while id < num_blocks
            invariant
                id <= num_blocks,
                free_blocks@ == Seq::new(id as nat, |i: int| i as usize),
            decreases num_blocks - id,
        {
            free_blocks.push(id);
            id += 1;
        }
        let r = BlockAllocator {
            num_blocks,
            block_size,
            free_blocks,
            tables: HashMap::new(),
            evictable: Vec::new(),
        };
        assert(r@ =~= AllocatorState::initial(num_blocks as nat, block_size as nat));
        r
    }

    /// Takes one free block, or none if the pool is exhausted.
    pub fn allocate(&mut self) -> (r: Option<BlockId>)
        ensures
            r is Some <==> old(self)@.free.len() > 0,
            r matches Some(b) ==> b == old(self)@.free.last(),
            r is Some ==> final(self)@ == old(self)@.take_free(),
            r is Some ==> final(self)@.free == old(self)@.free.drop_last(),
            r is None ==> final(self)@ == old(self)@,
            final(self)@.tables == old(self)@.tables,
            final(self)@.evictable == old(self)@.evictable,
            final(self)@.num_blocks == old(self)@.num_blocks,
            final(self)@.block_size == old(self)@.block_size,
            old(self)@.wf() ==> final(self)@.wf(),
            old(self)@.sound() ==> final(self)@.sound(),
            old(self)@.sound() ==> (r matches Some(b) ==> final(self)@.held(b)),
            old(self)@.sound() ==> (r matches Some(b) ==> {
                &&& b < final(self)@.num_blocks
                &&& !final(self)@.free.contains(b)
                &&& forall|s: u64| #[trigger]
                    final(self)@.tables.contains_key(s) ==> !final(self)@.tables[s].contains(b)
            }),
    {
        proof {
            if old(self)@.sound() && old(self)@.free.len() > 0 {
                old(self)@.lemma_take_free();
                old(self)@.take_free().lemma_held(old(self)@.free.last());
            }
        }
        let top = self.free_blocks.pop();
        assert(self@.tables == old(self)@.tables && self@.evictable == old(self)@.evictable);
        top
    }

    /// Returns `block_id` to the free pool.
    ///
    /// The id goes on top of the free list as it stands. A caller that returns
    /// a block it holds keeps the pool sound.
    pub fn free(&mut self, block_id: BlockId)
        ensures
            final(self)@ == old(self)@.put_free(block_id),
            final(self)@.free == old(self)@.free.push(block_id),
            final(self)@.tables == old(self)@.tables,
            final(self)@.evictable == old(self)@.evictable,
            final(self)@.num_blocks == old(self)@.num_blocks,
            final(self)@.block_size == old(self)@.block_size,
            old(self)@.wf() ==> final(self)@.wf(),
            old(self)@.sound() && old(self)@.held(block_id) ==> final(self)@.sound(),
            old(self)@.sound() && block_id < old(self)@.num_blocks && !old(self)@.free.contains(
                block_id,
            ) && (forall|s: u64| #[trigger]
                old(self)@.tables.contains_key(s) ==> !old(self)@.tables[s].contains(block_id))
                ==> final(self)@.sound(),
    {
        proof {
            old(self)@.lemma_held(block_id);
            if old(self)@.sound() && old(self)@.held(block_id) {
                old(self)@.lemma_put_free(block_id);
            }
        }
        self.free_blocks.push(block_id);
        assert(self@.tables == old(self)@.tables && self@.evictable == old(self)@.evictable);
    }

    /// How many blocks are free.
    pub fn num_free(&self) -> (r: usize)
        ensures
            r == self@.free.len(),
    {
        self.free_blocks.len()
    }

    /// Lets `seq_id` be evicted when a block is wanted and none is free. A
    /// sequence that owns no block has nothing to give, and one that is
    /// already a candidate keeps its place.
    pub fn mark_evictable(&mut self, seq_id: u64)
        requires
            old(self)@.wf(),
        ensures
            final(self)@ == (if old(self)@.tables.contains_key(seq_id)
                && !old(self)@.evictable.contains(seq_id) {
                AllocatorState { evictable: old(self)@.evictable.push(seq_id), ..old(self)@ }
            } else {
                old(self)@
            }),
            final(self)@.free == old(self)@.free,
            final(self)@.tables == old(self)@.tables,
            final(self)@.wf(),
            old(self)@.sound() ==> final(self)@.sound(),
    {
        if !self.tables.contains_key(&seq_id) {
            return;
        }
        let mut i: usize = 0;
        while i < self.evictable.len()
            invariant
                i <= self.evictable.len(),
                *self == *old(self),
                old(self)@.wf(),
                self.tables@.contains_key(seq_id),
                forall|j: int| 0 <= j < i ==> self.evictable@[j] != seq_id,
            decreases self.evictable.len() - i,
        {
            if self.evictable[i] == seq_id {
                assert(self@.evictable.contains(seq_id));
                return;
            }
            i += 1;
        }
        self.evictable.push(seq_id);
        assert(self@.tables == old(self)@.tables);
        proof {
            let old_state = old(self)@;
            assert forall|s: u64, i: int| #[trigger] self@.owns_at(s, i) == old_state.owns_at(
                s,
                i,
            ) by {}
        }
    }

    /// Takes `seq_id` off the list of eviction candidates.
    fn unmark_evictable(&mut self, seq_id: u64)
        ensures
            final(self)@ == (AllocatorState {
                evictable: old(self)@.evictable.remove_value(seq_id),
                ..old(self)@
            }),
    {
        proof {
            self.evictable@.index_of_first_ensures(seq_id);
        }
        let mut i: usize = 0;
        while i < self.evictable.len()
            invariant
                i <= self.evictable.len(),
                *self == *old(self),
                forall|j: int| 0 <= j < i ==> self.evictable@[j] != seq_id,
            decreases self.evictable.len() - i,
        {
            if self.evictable[i] == seq_id {
                proof {
                    self.evictable@.index_of_first_ensures(seq_id);
                    assert(self.evictable@.contains(seq_id));
                }
                self.evictable.remove(i);
                assert(self@.tables == old(self)@.tables);
                return;
            }
            i += 1;
        }
    }

    /// Gives `seq_id` one more block, at the end of its table.
    ///
    /// Where no block is free, the first eviction candidate other than
    /// `seq_id` loses all of its blocks first. Where there is no candidate
    /// either, nothing changes.
    pub fn allocate_block_for(&mut self, seq_id: u64) -> (r: Option<BlockId>)
        requires
            old(self)@.wf(),
        ensures
            r is Some <==> old(self)@.has_room_for(seq_id),
            r matches Some(b) ==> b == old(self)@.make_room(seq_id).free.last() && final(self)@
                == old(self)@.make_room(seq_id).grow(seq_id),
            r is None ==> final(self)@ == old(self)@,
            r is Some <==> old(self)@.free.len() > 0 || exists|i: int|
                0 <= i < old(self)@.evictable.len() && #[trigger] old(self)@.evictable[i] != seq_id,
            r matches Some(b) ==> {
                &&& final(self)@.tables.contains_key(seq_id)
                &&& final(self)@.tables[seq_id] == (if old(self)@.tables.contains_key(seq_id) {
                    old(self)@.tables[seq_id].push(b)
                } else {
                    seq![b]
                })
            },
            r is Some && old(self)@.free.len() > 0 ==> {
                &&& r == Some(old(self)@.free.last())
                &&& final(self)@.free == old(self)@.free.drop_last()
                &&& final(self)@.evictable == old(self)@.evictable
                &&& forall|t: u64|
                    t != seq_id ==> (#[trigger] final(self)@.tables.contains_key(t) <==> old(self)@.tables.contains_key(t))
                &&& forall|t: u64|
                    t != seq_id && #[trigger] final(self)@.tables.contains_key(t) ==> final(self)@.tables[t] == old(self)@.tables[t]
            },
            r is Some && old(self)@.free.len() == 0 ==> exists|i: int|
                {
                    &&& 0 <= i < old(self)@.evictable.len()
                    &&& #[trigger] old(self)@.evictable[i] != seq_id
                    &&& forall|j: int|
                        0 <= j < i ==> #[trigger] old(self)@.evictable[j] == seq_id
                    &&& r == Some(old(self)@.tables[old(self)@.evictable[i]].last())
                    &&& final(self)@.free == old(self)@.tables[old(self)@.evictable[i]].drop_last()
                    &&& final(self)@.evictable == old(self)@.evictable.remove(i)
                    &&& forall|t: u64|
                        t != seq_id ==> (#[trigger] final(self)@.tables.contains_key(t) <==> t
                            != old(self)@.evictable[i] && old(self)@.tables.contains_key(t))
                    &&& forall|t: u64|
                        t != seq_id && #[trigger] final(self)@.tables.contains_key(t) ==> final(self)@.tables[t] == old(self)@.tables[t]
                },
            old(self)@.sound() ==> (r matches Some(b) ==> !final(self)@.free.contains(b)),
            final(self)@.num_blocks == old(self)@.num_blocks,
            final(self)@.block_size == old(self)@.block_size,
            final(self)@.wf(),
            old(self)@.sound() ==> final(self)@.sound(),
    {
        if self.free_blocks.len() == 0 {
            let victim = if self.evictable.len() > 0 && self.evictable[0] != seq_id {
                Some(self.evictable[0])
            } else if self.evictable.len() > 1 {
                Some(self.evictable[1])
            } else {
                None
            };
            match victim {
                Some(v) => {
                    assert(self@.tables.contains_key(v));
                    self.free_sequence(v);
                },
                None => {
                    return None;
                },
            }
        }
        let ghost room = self@;
        proof {
            room.lemma_grow(seq_id);
            old(self)@.lemma_make_room(seq_id);
        }
        match self.free_blocks.pop() {
            Some(block_id) => {
                let mut table = match self.tables.remove(&seq_id) {
                    Some(table) => table,
                    None => Vec::new(),
                };
                assert(table@ == room.table(seq_id));
                table.push(block_id);
                self.tables.insert(seq_id, table);
                assert(self@ =~= room.grow(seq_id));
                assert(self@.owns_at(seq_id, room.table(seq_id).len() as int));
                Some(block_id)
            },
            None => None,
        }
    }

    /// Frees every block that `seq_id` owns, and forgets the sequence.
    pub fn free_sequence(&mut self, seq_id: u64)
        requires
            old(self)@.wf(),
        ensures
            final(self)@ == old(self)@.release(seq_id),
            final(self)@.free == (if old(self)@.tables.contains_key(seq_id) {
                old(self)@.free + old(self)@.tables[seq_id]
            } else {
                old(self)@.free
            }),
            forall|t: u64| #[trigger]
                final(self)@.tables.contains_key(t) <==> t != seq_id && old(self)@.tables.contains_key(t),
            forall|t: u64| #[trigger]
                final(self)@.tables.contains_key(t) ==> final(self)@.tables[t] == old(self)@.tables[t],
            final(self)@.evictable == old(self)@.evictable.remove_value(seq_id),
            final(self)@.num_blocks == old(self)@.num_blocks,
            final(self)@.block_size == old(self)@.block_size,
            final(self)@.wf(),
            old(self)@.sound() ==> final(self)@.sound(),
    {
        proof {
            old(self)@.lemma_release(seq_id);
        }
        match self.tables.remove(&seq_id) {
            Some(table) => {
                let mut table = table;
                self.free_blocks.append(&mut table);
                self.unmark_evictable(seq_id);
                assert(self@ =~= old(self)@.release(seq_id));
            },
            None => {
                proof {
                    old(self)@.evictable.index_of_first_ensures(seq_id);
                }
                assert(self@ =~= old(self)@);
            },
        }
    }

    /// Where a token position of `seq_id` lies: its block and the offset in
    /// that block, or none if the sequence's blocks do not reach that far.
    pub fn locate(&self, seq_id: u64, position: usize) -> (r: Option<(BlockId, usize)>)
        ensures
            match r {
                Some((block_id, offset)) => self@.locate(seq_id, position as nat) == Some(
                    (block_id, offset as nat),
                ),
                None => self@.locate(seq_id, position as nat) is None,
            },
            r is Some <==> self@.tables.contains_key(seq_id) && position
                < self@.tables[seq_id].len() * self@.block_size,
            r matches Some((block_id, offset)) ==> {
                &&& block_id == self@.tables[seq_id][position as int / self@.block_size as int]
                &&& offset == position as int % self@.block_size as int
            },
    {
        proof {
            vstd::arithmetic::mul::lemma_mul_basics(self@.table(seq_id).len() as int);
            vstd::arithmetic::mul::lemma_mul_basics(self@.block_size as int);
        }
        if self.block_size == 0 {
            return None;
        }
        match self.tables.get(&seq_id) {
            Some(table) => {
                let index: usize = position / self.block_size;
                proof {
                    lemma_covers(position as int, self.block_size as int, table@.len() as int);
                }
                assert(self@.table(seq_id) == table@);
                if index < table.len() {
                    assert(self@.locate(seq_id, position as nat) == Some(
                        (table@[index as int], (position % self.block_size) as nat),
                    ));
                    Some((table[index], position % self.block_size))
                } else {
                    None
                }
            },
            None => None,
        }
    }
}

/// `count` blocks of `size` tokens reach position `p` exactly when the block
/// index of `p` is below `count`.
proof fn lemma_covers(p: int, size: int, count: int)
    by (nonlinear_arith)
    requires
        p >= 0,
        size > 0,
        count >= 0,
    ensures
        p < count * size <==> p / size < count,
{
}

} // verus!
