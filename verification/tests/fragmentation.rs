use scout::fragmentation::{naive_blocks_required, paged_blocks_used};

#[test]
fn naive_reserves_the_longest_sequence_for_each() {
    assert_eq!(naive_blocks_required(64, 32768, 16), 131072);
    assert_eq!(naive_blocks_required(3, 17, 16), 6);
    assert_eq!(naive_blocks_required(0, 17, 16), 0);
}

#[test]
fn paging_takes_what_the_lengths_need() {
    assert_eq!(paged_blocks_used(&[1, 16, 17, 150], 16, 100), Some(1 + 1 + 2 + 10));
    assert_eq!(paged_blocks_used(&[], 16, 100), Some(0));
    assert_eq!(paged_blocks_used(&[0, 0], 16, 0), Some(0));
    assert_eq!(paged_blocks_used(&[5], 1, 5), Some(5));
}

#[test]
fn paging_takes_no_more_than_reserving() {
    let lengths = [3, 90, 32768, 16, 15, 1];
    let naive = naive_blocks_required(lengths.len(), 32768, 16);
    assert!(paged_blocks_used(&lengths, 16, naive).unwrap() <= naive);
}

#[test]
fn undersized_pool_is_reported() {
    assert_eq!(paged_blocks_used(&[17, 1], 16, 3), Some(3));
    assert_eq!(paged_blocks_used(&[17, 1], 16, 2), None);
    assert_eq!(paged_blocks_used(&[1], 16, 0), None);
}
