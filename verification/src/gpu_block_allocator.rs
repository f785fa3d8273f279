//! The block allocator's bookkeeping joined to the device memory behind it.

use crate::allocator_laws;
use crate::block_allocator::{AllocatorState, BlockAllocator, BlockId};
use crate::device;
use crate::device::{PagedGpuBuffer, PagedState};
use vstd::prelude::*;

verus! {

/// A block allocator and the device region that its blocks stand for.
pub struct GpuBlockAllocator {
    pub allocator: BlockAllocator,
    pub gpu: PagedGpuBuffer,
}

impl GpuBlockAllocator {
    /// The bookkeeping and the region have the same blocks.
    pub open spec fn wf(&self) -> bool {
        &&& self.allocator@.wf()
        &&& self.gpu.wf()
        &&& self.allocator@.num_blocks == self.gpu@.num_blocks
    }

    /// Device address of the block in which a token position lies.
    pub open spec fn position_addr(&self, seq_id: u64, position: nat) -> Option<nat> {
        match self.allocator@.locate(seq_id, position) {
            Some((block_id, _)) => if block_id < self.gpu@.num_blocks {
                Some(self.gpu@.block_addr(block_id as nat))
            } else {
                None
            },
            None => None,
        }
    }

    /// An allocator of `num_blocks` blocks of `block_size` tokens, backed by a
    /// region of `num_blocks` blocks of `block_size_bytes` bytes that the
    /// device placed at `addr`. A null address means that the allocation
    /// failed.
    pub fn new(
        num_blocks: usize,
        block_size: usize,
        block_size_bytes: usize,
        addr: usize,
    ) -> (r: Option<Self>)
        requires
            addr + num_blocks * block_size_bytes <= usize::MAX,
        ensures
            r is Some <==> addr != 0,
            r matches Some(a) ==> {
                &&& a.wf()
                &&& a.allocator@.sound()
                &&& a.allocator@ == AllocatorState::initial(num_blocks as nat, block_size as nat)
                &&& a.gpu@ == (PagedState {
                    addr: addr as nat,
                    block_size_bytes: block_size_bytes as nat,
                    num_blocks: num_blocks as nat,
                })
            },
            r matches Some(a) ==> {
                &&& a.allocator@.num_blocks == num_blocks
                &&& a.allocator@.block_size == block_size
                &&& a.allocator@.free.len() == num_blocks
                &&& forall|i: int| 0 <= i < num_blocks ==> (#[trigger] a.allocator@.free[i]) == i
                &&& a.allocator@.tables == Map::<u64, Seq<BlockId>>::empty()
                &&& a.gpu@.addr == addr
                &&& a.gpu@.block_size_bytes == block_size_bytes
                &&& a.gpu@.num_blocks == num_blocks
            },
    {
        let allocator = BlockAllocator::with_block_size(num_blocks, block_size);
        match PagedGpuBuffer::new(num_blocks, block_size_bytes, addr) {
            Some(gpu) => Some(Self { allocator, gpu }),
            None => None,
        }
    }

    /// Device address of the block in which a token position of `seq_id` lies.
    /// It is the start of the block, whatever the offset within it. None if the
    /// sequence's blocks do not reach that far, or if the block is not one of
    /// the region's.
    pub fn block_ptr_for(&self, seq_id: u64, position: usize) -> (r: Option<usize>)
        requires
            self.gpu.wf(),
        ensures
            match r {
                Some(p) => self.position_addr(seq_id, position as nat) == Some(p as nat),
                None => self.position_addr(seq_id, position as nat) is None,
            },
            ({
                let pool = self.allocator@;
                let index = position as int / pool.block_size as int;
                &&& r is Some <==> pool.tables.contains_key(seq_id) && position
                    < pool.tables[seq_id].len() * pool.block_size && pool.tables[seq_id][index]
                    < self.gpu@.num_blocks
                &&& r matches Some(p) ==> p == self.gpu@.addr + pool.tables[seq_id][index]
                    * self.gpu@.block_size_bytes
            }),
    {
        let (block_id, _) = self.allocator.locate(seq_id, position)?;
        self.gpu.block_ptr(block_id)
    }
}

/// As long as no block is in two places, every position that the sequence's
/// blocks reach has an address, and no other has one.
pub proof fn owned_positions_have_addresses(g: GpuBlockAllocator, seq_id: u64, position: nat)
    requires
        g.wf(),
        g.allocator@.sound(),
    ensures
        g.position_addr(seq_id, position) is Some <==> position < g.allocator@.table(seq_id).len()
            * g.allocator@.block_size,
{
    let s = g.allocator@;
    if s.locate(seq_id, position) is Some {
        allocator_laws::located_position_is_owned(s, seq_id, position);
    }
}

/// The address of a position is the start of the block that the sequence's
/// table has for it.
pub proof fn address_is_that_of_the_table_entry(
    g: GpuBlockAllocator,
    seq_id: u64,
    position: nat,
)
    ensures
        ({
            let pool = g.allocator@;
            let index = position as int / pool.block_size as int;
            &&& g.position_addr(seq_id, position) is Some <==> pool.tables.contains_key(seq_id)
                && position < pool.tables[seq_id].len() * pool.block_size
                && pool.tables[seq_id][index] < g.gpu@.num_blocks
            &&& g.position_addr(seq_id, position) matches Some(p) ==> p == g.gpu@.addr
                + pool.tables[seq_id][index] * g.gpu@.block_size_bytes
        }),
{
    assert(Seq::<BlockId>::empty().len() * g.allocator@.block_size == 0);
}

/// Positions in one block resolve to the same address.
pub proof fn address_ignores_offset(g: GpuBlockAllocator, seq_id: u64, p: nat, q: nat)
    requires
        g.position_addr(seq_id, p) is Some,
        g.position_addr(seq_id, q) is Some,
        p as int / g.allocator@.block_size as int == q as int / g.allocator@.block_size as int,
    ensures
        g.position_addr(seq_id, p) == g.position_addr(seq_id, q),
{
}

/// The blocks of two sequences never overlap on the device.
pub proof fn sequences_do_not_share_memory(g: GpuBlockAllocator, a: u64, p: nat, b: u64, q: nat)
    requires
        g.wf(),
        g.allocator@.sound(),
        a != b,
        g.position_addr(a, p) is Some,
        g.position_addr(b, q) is Some,
    ensures
        ({
            let size = g.gpu@.block_size_bytes;
            let x = g.position_addr(a, p)->0;
            let y = g.position_addr(b, q)->0;
            x + size <= y || y + size <= x
        }),
{
    let s = g.allocator@;
    allocator_laws::located_position_is_owned(s, a, p);
    allocator_laws::located_position_is_owned(s, b, q);
    let i = p as int / s.block_size as int;
    let j = q as int / s.block_size as int;
    assert(s.owns_at(a, i) && s.owns_at(b, j));
    device::blocks_are_disjoint(g.gpu, s.tables[a][i] as nat, s.tables[b][j] as nat);
}

} // verus!
