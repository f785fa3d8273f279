//! Device memory as address arithmetic: one allocation, and the same cut into
//! blocks of one size.
//!
//! The device hands out and takes back memory elsewhere. Here an allocation is
//! the address that the device gave and the size that was asked for.

use vstd::prelude::*;

verus! {

/// Where a device allocation lies.
pub struct BufferState {
    pub addr: nat,
    pub size_bytes: nat,
}

/// A part of a device allocation that a copy may touch.
pub struct CopyRange {
    /// First byte on the device.
    pub addr: usize,
    /// Number of bytes.
    pub len: usize,
}

/// A device allocation.
pub struct GpuBuffer {
    addr: usize,
    size_bytes: usize,
}

impl View for GpuBuffer {
    type V = BufferState;

    closed spec fn view(&self) -> BufferState {
        BufferState { addr: self.addr as nat, size_bytes: self.size_bytes as nat }
    }
}

impl GpuBuffer {
    /// The allocation is not null and ends within the address space.
    pub open spec fn wf(&self) -> bool {
        &&& self@.addr > 0
        &&& self@.addr + self@.size_bytes <= usize::MAX
    }

    /// The buffer for a request of `size_bytes` that the device answered with
    /// `addr`. A null address means that the allocation failed.
    pub fn new(size_bytes: usize, addr: usize) -> (r: Option<Self>)
        requires
            addr + size_bytes <= usize::MAX,
        ensures
            r is Some <==> addr != 0,
            r matches Some(b) ==> b.wf() && b@ == (BufferState {
                addr: addr as nat,
                size_bytes: size_bytes as nat,
            }),
            r matches Some(b) ==> b@.addr == addr && b@.size_bytes == size_bytes,
    {
        if addr == 0 {
            return None;
        }
        Some(GpuBuffer { addr, size_bytes })
    }

    /// Size of the allocation.
    pub fn size_bytes(&self) -> (r: usize)
        ensures
            r == self@.size_bytes,
    {
        self.size_bytes
    }

    /// Address of the first byte.
    pub fn ptr(&self) -> (r: usize)
        ensures
            r == self@.addr,
    {
        self.addr
    }

    /// What a copy of `len` bytes between the host and the start of this
    /// buffer touches; none if the buffer is too small for it, in which case
    /// nothing is to be copied.
    pub fn copy_range(&self, len: usize) -> (r: Option<CopyRange>)
        ensures
            r is Some <==> len <= self@.size_bytes,
            r matches Some(c) ==> c.addr == self@.addr && c.len == len,
    {
        if len > self.size_bytes {
            return None;
        }
        Some(CopyRange { addr: self.addr, len })
    }
}

/// Where a device allocation that is cut into blocks lies.
pub struct PagedState {
    pub addr: nat,
    pub block_size_bytes: nat,
    pub num_blocks: nat,
}

impl PagedState {
    /// Address of the first byte of block `i`.
    pub open spec fn block_addr(self, i: nat) -> nat {
        self.addr + i * self.block_size_bytes
    }

    /// Address behind the last byte of the region.
    pub open spec fn end(self) -> nat {
        self.addr + self.num_blocks * self.block_size_bytes
    }
}

/// A device allocation cut into `num_blocks` blocks of `block_size_bytes`.
pub struct PagedGpuBuffer {
    block_size_bytes: usize,
    num_blocks: usize,
    buffer: GpuBuffer,
}

impl View for PagedGpuBuffer {
    type V = PagedState;

    closed spec fn view(&self) -> PagedState {
        PagedState {
            addr: self.buffer@.addr,
            block_size_bytes: self.block_size_bytes as nat,
            num_blocks: self.num_blocks as nat,
        }
    }
}

impl PagedGpuBuffer {
    /// The allocation holds the blocks exactly.
    pub closed spec fn wf(&self) -> bool {
        &&& self.buffer.wf()
        &&& self.buffer@.size_bytes == self.num_blocks * self.block_size_bytes
    }

    /// Bytes to ask the device for.
    pub fn total_bytes(num_blocks: usize, block_size_bytes: usize) -> (r: usize)
        requires
            num_blocks * block_size_bytes <= usize::MAX,
        ensures
            r == num_blocks * block_size_bytes,
    {
        num_blocks * block_size_bytes
    }

    /// The region for a request of [`PagedGpuBuffer::total_bytes`] that the
    /// device answered with `addr`. A null address means that the allocation
    /// failed.
    pub fn new(num_blocks: usize, block_size_bytes: usize, addr: usize) -> (r: Option<Self>)
        requires
            addr + num_blocks * block_size_bytes <= usize::MAX,
        ensures
            r is Some <==> addr != 0,
            r matches Some(b) ==> b.wf() && b@ == (PagedState {
                addr: addr as nat,
                block_size_bytes: block_size_bytes as nat,
                num_blocks: num_blocks as nat,
            }),
            r matches Some(b) ==> {
                &&& b@.addr == addr
                &&& b@.block_size_bytes == block_size_bytes
                &&& b@.num_blocks == num_blocks
            },
    {
        let total_bytes: usize = Self::total_bytes(num_blocks, block_size_bytes);
        match GpuBuffer::new(total_bytes, addr) {
            Some(buffer) => Some(Self { block_size_bytes, num_blocks, buffer }),
            None => None,
        }
    }

    /// Address of block `block_index`, or none if there is no such block.
    pub fn block_ptr(&self, block_index: usize) -> (r: Option<usize>)
        requires
            self.wf(),
        ensures
            r is Some <==> block_index < self@.num_blocks,
            r matches Some(p) ==> p == self@.block_addr(block_index as nat),
            r matches Some(p) ==> p == self@.addr + block_index * self@.block_size_bytes,
    {
        if block_index >= self.num_blocks {
            return None;
        }
        proof {
            lemma_block_in_region(
                block_index as int,
                self.num_blocks as int,
                self.block_size_bytes as int,
            );
        }
        let offset: usize = block_index * self.block_size_bytes;
        Some(self.buffer.ptr() + offset)
    }
}

/// Block `i` of `n` ends within `n * size`.
proof fn lemma_block_in_region(i: int, n: int, size: int)
    by (nonlinear_arith)
    requires
        0 <= i < n,
        0 <= size,
    ensures
        0 <= i * size,
        i * size + size <= n * size,
{
}

/// Block `i` starts `i` block sizes behind the start of the region, which
/// ends behind its last block.
pub proof fn blocks_start_at_multiples(s: PagedState, i: nat)
    ensures
        s.block_addr(i) == s.addr + i * s.block_size_bytes,
        s.end() == s.addr + s.num_blocks * s.block_size_bytes,
{
}

/// Every block lies within the region.
pub proof fn block_lies_in_region(b: PagedGpuBuffer, i: nat)
    requires
        i < b@.num_blocks,
    ensures
        b@.addr <= b@.block_addr(i),
        b@.block_addr(i) + b@.block_size_bytes <= b@.end(),
{
    lemma_block_in_region(i as int, b@.num_blocks as int, b@.block_size_bytes as int);
}

/// Each block starts one block size behind the one before it.
pub proof fn blocks_are_adjacent(b: PagedGpuBuffer, i: nat)
    ensures
        b@.block_addr(i + 1) == b@.block_addr(i) + b@.block_size_bytes,
{
    let size = b@.block_size_bytes as int;
    assert((i + 1) * size == i * size + size) by (nonlinear_arith);
}

/// Two different blocks have no byte in common.
pub proof fn blocks_are_disjoint(b: PagedGpuBuffer, i: nat, j: nat)
    requires
        i != j,
    ensures
        b@.block_addr(i) + b@.block_size_bytes <= b@.block_addr(j) || b@.block_addr(j)
            + b@.block_size_bytes <= b@.block_addr(i),
{
    let size = b@.block_size_bytes as int;
    if i < j {
        lemma_block_in_region(i as int, j as int, size);
    } else {
        lemma_block_in_region(j as int, i as int, size);
    }
}

} // verus!
