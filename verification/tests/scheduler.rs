use scout::scheduler::Scheduler;

#[test]
fn admits_when_room_available() {
    let mut scheduler = Scheduler::new(4, 4);
    assert!(scheduler.try_admit(1));
    assert!(scheduler.is_admitted(1));
    assert_eq!(scheduler.num_free_blocks(), 3);
}

#[test]
fn not_admitted_before_try_admit() {
    let scheduler = Scheduler::new(4, 4);
    assert!(!scheduler.is_admitted(1));
}

#[test]
fn rejects_when_pool_exhausted_and_nothing_evictable() {
    let mut scheduler = Scheduler::new(1, 4);
    assert!(scheduler.try_admit(1));
    assert!(!scheduler.try_admit(2));
    assert!(!scheduler.is_admitted(2));
    assert_eq!(scheduler.num_free_blocks(), 0);
}

#[test]
fn admitting_same_seq_id_twice_still_only_uses_one_block_worth_of_admission_state() {
    let mut scheduler = Scheduler::new(4, 4);
    assert!(scheduler.try_admit(1));
    let free_after_first = scheduler.num_free_blocks();
    scheduler.try_admit(1);
    assert_eq!(scheduler.num_free_blocks(), free_after_first);
}

#[test]
fn submit_does_not_admit_immediately() {
    let mut scheduler = Scheduler::new(4, 4);
    scheduler.submit(1);
    assert!(!scheduler.is_admitted(1));
    assert_eq!(scheduler.num_free_blocks(), 4);
}

#[test]
fn dispatch_with_nothing_waiting_returns_empty() {
    let mut scheduler = Scheduler::new(4, 4);
    assert_eq!(scheduler.dispatch(), Vec::<u64>::new());
}

#[test]
fn dispatch_admits_submitted_sequences_when_room() {
    let mut scheduler = Scheduler::new(4, 4);
    scheduler.submit(1);
    scheduler.submit(2);
    assert_eq!(scheduler.dispatch(), vec![1, 2]);
    assert!(scheduler.is_admitted(1));
    assert!(scheduler.is_admitted(2));
    assert_eq!(scheduler.num_free_blocks(), 2);
}

#[test]
fn dispatch_stops_at_first_rejection_and_requeues_it() {
    let mut scheduler = Scheduler::new(1, 4);
    scheduler.submit(1);
    scheduler.submit(2);

    assert_eq!(scheduler.dispatch(), vec![1]);
    assert!(!scheduler.is_admitted(2));

    assert!(scheduler.dispatch().is_empty());
}

#[test]
fn requeued_sequence_stays_first_in_line_for_the_next_dispatch() {
    let mut scheduler = Scheduler::new(1, 4);
    scheduler.submit(1);
    scheduler.submit(2);
    scheduler.dispatch();

    scheduler.submit(3);
    scheduler.complete(1);

    assert_eq!(scheduler.dispatch(), vec![2]);
}

#[test]
fn complete_frees_blocks_and_unmarks_admitted() {
    let mut scheduler = Scheduler::new(4, 4);
    scheduler.try_admit(1);
    assert_eq!(scheduler.num_free_blocks(), 3);

    scheduler.complete(1);
    assert!(!scheduler.is_admitted(1));
    assert_eq!(scheduler.num_free_blocks(), 4);
}

#[test]
fn complete_then_dispatch_backfills_a_waiting_sequence_without_draining_the_whole_batch() {
    let mut scheduler = Scheduler::new(1, 4);
    scheduler.try_admit(1);
    scheduler.submit(2);

    assert!(scheduler.dispatch().is_empty());

    scheduler.complete(1);
    assert_eq!(scheduler.dispatch(), vec![2]);
    assert!(scheduler.is_admitted(2));
    assert!(!scheduler.is_admitted(1));
}

#[test]
fn duplicate_request_waits_until_the_first_one_is_done() {
    let mut scheduler = Scheduler::new(4, 4);
    scheduler.submit(1);
    scheduler.submit(1);
    scheduler.submit(2);
    assert_eq!(scheduler.dispatch(), vec![1]);
    assert!(scheduler.dispatch().is_empty());
    assert!(!scheduler.is_admitted(2));
    scheduler.complete(1);
    assert_eq!(scheduler.dispatch(), vec![1, 2]);
    assert_eq!(scheduler.num_free_blocks(), 2);
}

#[test]
fn dispatch_admits_as_many_as_there_are_blocks() {
    let mut scheduler = Scheduler::new(3, 4);
    for seq_id in [5, 4, 3, 2, 1] {
        scheduler.submit(seq_id);
    }
    assert_eq!(scheduler.dispatch(), vec![5, 4, 3]);
    assert_eq!(scheduler.num_free_blocks(), 0);
    assert!(scheduler.dispatch().is_empty());
    scheduler.complete(4);
    assert!(scheduler.is_admitted(5));
    assert!(scheduler.is_admitted(3));
    assert_eq!(scheduler.dispatch(), vec![2]);
    scheduler.complete(5);
    scheduler.complete(3);
    assert_eq!(scheduler.dispatch(), vec![1]);
}

#[test]
fn completing_a_sequence_that_does_not_run_changes_nothing() {
    let mut scheduler = Scheduler::new(2, 4);
    assert!(scheduler.try_admit(1));
    scheduler.complete(7);
    assert_eq!(scheduler.num_free_blocks(), 1);
    assert!(scheduler.is_admitted(1));
}

#[test]
fn running_sequences_and_free_blocks_add_up() {
    let mut scheduler = Scheduler::new(4, 4);
    for seq_id in 0..6 {
        scheduler.submit(seq_id);
    }
    let running = scheduler.dispatch().len();
    assert_eq!(running + scheduler.num_free_blocks(), 4);
    scheduler.complete(2);
    assert_eq!(running - 1 + scheduler.num_free_blocks(), 4);
}

#[test]
fn a_scheduler_without_blocks_admits_nobody() {
    let mut scheduler = Scheduler::new(0, 4);
    assert!(!scheduler.try_admit(1));
    scheduler.submit(1);
    assert!(scheduler.dispatch().is_empty());
}
