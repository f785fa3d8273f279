use scout::device::{GpuBuffer, PagedGpuBuffer};
use scout::gpu_block_allocator::GpuBlockAllocator;
use scout::launch::{kernel_dim, AttentionDims, MatmulDims, RmsNormDims, RopeDims};

/// An address such as a device allocator gives.
const ADDR: usize = 0x7f00_0000;

#[test]
fn allocates_a_real_gpu_buffer() {
    let buf = GpuBuffer::new(1024, ADDR);
    assert!(buf.is_some());
    assert_eq!(buf.unwrap().size_bytes(), 1024);
}

#[test]
fn null_address_is_a_failed_allocation() {
    assert!(GpuBuffer::new(1024, 0).is_none());
    assert!(PagedGpuBuffer::new(4, 1024, 0).is_none());
    assert!(GpuBlockAllocator::new(4, 4, 1024, 0).is_none());
}

#[test]
fn copy_stays_within_the_buffer() {
    let buf = GpuBuffer::new(16, ADDR).unwrap();
    assert_eq!(buf.ptr(), ADDR);
    let range = buf.copy_range(16).unwrap();
    assert_eq!((range.addr, range.len), (ADDR, 16));
    assert_eq!(buf.copy_range(0).unwrap().len, 0);
    assert!(buf.copy_range(17).is_none());
}

#[test]
fn allocates_a_paged_gpu_buffer() {
    let buf = PagedGpuBuffer::new(4, 1024, ADDR);
    assert!(buf.is_some());
    assert_eq!(PagedGpuBuffer::total_bytes(4, 1024), 4096);
}

#[test]
fn block_ptr_is_none_out_of_bounds() {
    let buf = PagedGpuBuffer::new(4, 1024, ADDR).unwrap();
    assert!(buf.block_ptr(4).is_none());
    assert!(buf.block_ptr(100).is_none());
}

#[test]
fn block_ptr_is_some_in_bounds() {
    let buf = PagedGpuBuffer::new(4, 1024, ADDR).unwrap();
    for i in 0..4 {
        assert!(buf.block_ptr(i).is_some());
    }
}

#[test]
fn block_ptr_advances_by_block_size_bytes() {
    let block_size_bytes = 1024;
    let buf = PagedGpuBuffer::new(4, block_size_bytes, ADDR).unwrap();

    let p0 = buf.block_ptr(0).unwrap();
    let p1 = buf.block_ptr(1).unwrap();
    let p3 = buf.block_ptr(3).unwrap();

    assert_eq!(p0, ADDR);
    assert_eq!(p1 - p0, block_size_bytes);
    assert_eq!(p3 - p0, 3 * block_size_bytes);
}

#[test]
fn constructs_successfully() {
    let alloc = GpuBlockAllocator::new(4, 4, 1024, ADDR);
    assert!(alloc.is_some());
}

#[test]
fn block_ptr_for_unknown_seq_is_none() {
    let alloc = GpuBlockAllocator::new(4, 4, 1024, ADDR).unwrap();
    assert!(alloc.block_ptr_for(99, 0).is_none());
}

#[test]
fn block_ptr_for_position_beyond_allocated_is_none() {
    let mut alloc = GpuBlockAllocator::new(4, 4, 1024, ADDR).unwrap();
    alloc.allocator.allocate_block_for(1);
    assert!(alloc.block_ptr_for(1, 4).is_none());
}

#[test]
fn block_ptr_for_resolves_to_matching_gpu_block_ptr() {
    let mut alloc = GpuBlockAllocator::new(4, 4, 1024, ADDR).unwrap();
    let block_id = alloc.allocator.allocate_block_for(1).unwrap();
    let expected = alloc.gpu.block_ptr(block_id).unwrap();
    assert_eq!(alloc.block_ptr_for(1, 0).unwrap(), expected);
}

#[test]
fn block_ptr_for_crosses_block_boundary() {
    let mut alloc = GpuBlockAllocator::new(4, 4, 1024, ADDR).unwrap();
    let b0 = alloc.allocator.allocate_block_for(1).unwrap();
    let b1 = alloc.allocator.allocate_block_for(1).unwrap();
    assert_ne!(b0, b1);

    let ptr_in_first = alloc.block_ptr_for(1, 3).unwrap();
    let ptr_in_second = alloc.block_ptr_for(1, 4).unwrap();

    assert_eq!(ptr_in_first, alloc.gpu.block_ptr(b0).unwrap());
    assert_eq!(ptr_in_second, alloc.gpu.block_ptr(b1).unwrap());
}

#[test]
fn block_ptr_for_ignores_within_block_offset() {
    let mut alloc = GpuBlockAllocator::new(4, 4, 1024, ADDR).unwrap();
    let block_id = alloc.allocator.allocate_block_for(1).unwrap();
    let expected = alloc.gpu.block_ptr(block_id).unwrap();

    for position in 0..4 {
        assert_eq!(alloc.block_ptr_for(1, position).unwrap(), expected);
    }
}

#[test]
fn sequences_lie_apart_on_the_device() {
    let mut alloc = GpuBlockAllocator::new(4, 4, 1024, ADDR).unwrap();
    alloc.allocator.allocate_block_for(1).unwrap();
    alloc.allocator.allocate_block_for(2).unwrap();
    let a = alloc.block_ptr_for(1, 0).unwrap();
    let b = alloc.block_ptr_for(2, 0).unwrap();
    assert!(a + 1024 <= b || b + 1024 <= a);
}

#[test]
fn small_dimensions_pass_unchanged() {
    assert_eq!(kernel_dim(0), 0);
    assert_eq!(kernel_dim(3584), 3584);
    assert_eq!(kernel_dim(0x7fff_ffff), i32::MAX);
}

#[test]
fn large_dimensions_keep_their_low_bits() {
    assert_eq!(kernel_dim(0x8000_0000), i32::MIN);
    assert_eq!(kernel_dim(0xffff_ffff), -1);
    assert_eq!(kernel_dim(0x1_0000_0005), 5);
}

#[test]
fn launch_dimensions_stay_in_their_places() {
    let d = MatmulDims::new(2, 3, 4);
    assert_eq!((d.m, d.n, d.k), (2, 3, 4));
    let d = RmsNormDims::new(5, 6);
    assert_eq!((d.num_tokens, d.hidden_size), (5, 6));
    let d = RopeDims::new(7, 8, 9);
    assert_eq!((d.num_tokens, d.num_heads, d.head_dim), (7, 8, 9));
    let d = AttentionDims::new(1, 28, 4, 10, 11, 128);
    assert_eq!((d.batch, d.num_heads, d.num_heads_k), (1, 28, 4));
    assert_eq!((d.seqlen_q, d.seqlen_k, d.head_dim), (10, 11, 128));
}
