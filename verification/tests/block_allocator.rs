use scout::block_allocator::{BlockAllocator, DEFAULT_BLOCK_SIZE};

#[test]
fn starts_with_all_blocks_free() {
    let allocator = BlockAllocator::new(4);
    assert_eq!(allocator.num_free(), 4);
}

#[test]
fn allocate_reduces_free_count() {
    let mut allocator = BlockAllocator::new(4);
    let block = allocator.allocate();
    assert!(block.is_some());
    assert_eq!(allocator.num_free(), 3);
}

#[test]
fn allocate_until_exhausted_returns_none() {
    let mut allocator = BlockAllocator::new(2);
    assert!(allocator.allocate().is_some());
    assert!(allocator.allocate().is_some());
    assert!(allocator.allocate().is_none());
    assert_eq!(allocator.num_free(), 0);
}

#[test]
fn free_returns_block_to_pool() {
    let mut allocator = BlockAllocator::new(1);
    let block = allocator.allocate().unwrap();
    assert_eq!(allocator.num_free(), 0);
    allocator.free(block);
    assert_eq!(allocator.num_free(), 1);
}

#[test]
fn freed_block_can_be_reallocated() {
    let mut allocator = BlockAllocator::new(1);
    let block = allocator.allocate().unwrap();
    allocator.free(block);
    let reallocated = allocator.allocate();
    assert!(reallocated.is_some());
}

#[test]
fn freed_block_is_the_next_one_out() {
    let mut allocator = BlockAllocator::new(4);
    let a = allocator.allocate().unwrap();
    let b = allocator.allocate().unwrap();
    assert_ne!(a, b);
    allocator.free(a);
    assert_eq!(allocator.allocate(), Some(a));
    assert_eq!(allocator.num_free(), 2);
}

#[test]
fn every_id_of_the_pool_is_handed_out_once() {
    let mut allocator = BlockAllocator::new(5);
    let mut ids: Vec<usize> = Vec::new();
    while let Some(id) = allocator.allocate() {
        ids.push(id);
    }
    assert_eq!(ids, vec![4, 3, 2, 1, 0]);
}

#[test]
fn empty_pool_has_nothing_to_give() {
    let mut allocator = BlockAllocator::new(0);
    assert_eq!(allocator.num_free(), 0);
    assert!(allocator.allocate().is_none());
    assert!(allocator.allocate_block_for(1).is_none());
}

#[test]
fn default_block_size_is_sixteen_tokens() {
    let mut allocator = BlockAllocator::new(2);
    let block = allocator.allocate_block_for(1).unwrap();
    assert_eq!(DEFAULT_BLOCK_SIZE, 16);
    assert_eq!(allocator.locate(1, 15), Some((block, 15)));
    assert_eq!(allocator.locate(1, 16), None);
}

#[test]
fn positions_fill_the_blocks_in_order() {
    let mut allocator = BlockAllocator::with_block_size(4, 4);
    let b0 = allocator.allocate_block_for(1).unwrap();
    let b1 = allocator.allocate_block_for(1).unwrap();
    assert_ne!(b0, b1);
    assert_eq!(allocator.locate(1, 0), Some((b0, 0)));
    assert_eq!(allocator.locate(1, 3), Some((b0, 3)));
    assert_eq!(allocator.locate(1, 4), Some((b1, 0)));
    assert_eq!(allocator.locate(1, 7), Some((b1, 3)));
    assert_eq!(allocator.locate(1, 8), None);
    assert_eq!(allocator.locate(2, 0), None);
}

#[test]
fn growth_keeps_earlier_positions_in_place() {
    let mut allocator = BlockAllocator::with_block_size(3, 2);
    allocator.allocate_block_for(1).unwrap();
    allocator.allocate_block_for(2).unwrap();
    let first = allocator.locate(1, 1);
    let second = allocator.locate(2, 0);
    allocator.allocate_block_for(1).unwrap();
    assert_eq!(allocator.locate(1, 1), first);
    assert_eq!(allocator.locate(2, 0), second);
    assert!(allocator.locate(1, 3).is_some());
}

#[test]
fn sequences_do_not_share_slots() {
    let mut allocator = BlockAllocator::with_block_size(4, 2);
    for seq_id in [1, 2, 1, 2] {
        allocator.allocate_block_for(seq_id).unwrap();
    }
    let mut slots: Vec<(usize, usize)> = Vec::new();
    for seq_id in [1, 2] {
        for position in 0..4 {
            slots.push(allocator.locate(seq_id, position).unwrap());
        }
    }
    slots.sort();
    slots.dedup();
    assert_eq!(slots.len(), 8);
}

#[test]
fn blocks_of_no_tokens_hold_no_position() {
    let mut allocator = BlockAllocator::with_block_size(2, 0);
    allocator.allocate_block_for(1).unwrap();
    assert_eq!(allocator.locate(1, 0), None);
}

#[test]
fn free_sequence_returns_every_block() {
    let mut allocator = BlockAllocator::with_block_size(4, 4);
    allocator.allocate_block_for(1).unwrap();
    allocator.allocate_block_for(1).unwrap();
    allocator.allocate_block_for(2).unwrap();
    assert_eq!(allocator.num_free(), 1);
    allocator.free_sequence(1);
    assert_eq!(allocator.num_free(), 3);
    assert_eq!(allocator.locate(1, 0), None);
    assert!(allocator.locate(2, 0).is_some());
    allocator.free_sequence(1);
    assert_eq!(allocator.num_free(), 3);
}

#[test]
fn exhausted_pool_without_candidates_is_left_alone() {
    let mut allocator = BlockAllocator::with_block_size(1, 4);
    let block = allocator.allocate_block_for(1).unwrap();
    assert_eq!(allocator.allocate_block_for(2), None);
    assert_eq!(allocator.num_free(), 0);
    assert_eq!(allocator.locate(1, 0), Some((block, 0)));
    assert_eq!(allocator.locate(2, 0), None);
}

#[test]
fn eviction_takes_the_first_candidate_and_spares_the_rest() {
    let mut allocator = BlockAllocator::with_block_size(3, 4);
    for seq_id in [1, 2, 3] {
        allocator.allocate_block_for(seq_id).unwrap();
    }
    allocator.mark_evictable(2);
    allocator.mark_evictable(1);
    allocator.mark_evictable(2);
    let taken = allocator.locate(2, 0).unwrap();
    assert_eq!(allocator.allocate_block_for(4), Some(taken.0));
    assert_eq!(allocator.locate(2, 0), None);
    assert!(allocator.locate(1, 0).is_some());
    assert!(allocator.locate(3, 0).is_some());
}

#[test]
fn a_sequence_is_not_evicted_for_itself() {
    let mut allocator = BlockAllocator::with_block_size(2, 4);
    allocator.allocate_block_for(1).unwrap();
    allocator.mark_evictable(1);
    allocator.allocate_block_for(1).unwrap();
    assert_eq!(allocator.allocate_block_for(1), None);
    assert!(allocator.locate(1, 7).is_some());

    assert!(allocator.allocate_block_for(2).is_some());
    assert_eq!(allocator.locate(1, 0), None);
    assert_eq!(allocator.num_free(), 1);
}

#[test]
fn the_second_candidate_gives_way_to_the_first() {
    let mut allocator = BlockAllocator::with_block_size(2, 4);
    allocator.allocate_block_for(1).unwrap();
    allocator.allocate_block_for(2).unwrap();
    allocator.mark_evictable(1);
    allocator.mark_evictable(2);
    assert!(allocator.allocate_block_for(1).is_some());
    assert_eq!(allocator.locate(2, 0), None);
    assert!(allocator.locate(1, 7).is_some());
}

#[test]
fn a_sequence_without_blocks_is_no_candidate() {
    let mut allocator = BlockAllocator::with_block_size(1, 4);
    allocator.mark_evictable(2);
    allocator.allocate_block_for(1).unwrap();
    assert_eq!(allocator.allocate_block_for(3), None);
}

#[test]
fn a_freed_sequence_is_no_candidate() {
    let mut allocator = BlockAllocator::with_block_size(1, 4);
    allocator.allocate_block_for(1).unwrap();
    allocator.mark_evictable(1);
    allocator.free_sequence(1);
    allocator.allocate_block_for(1).unwrap();
    assert_eq!(allocator.allocate_block_for(2), None);
}
