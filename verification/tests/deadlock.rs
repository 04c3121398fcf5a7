use kernel_core::deadlock::DeadlockDetector;

#[test]
fn new_table_is_empty() {
    let d = DeadlockDetector::new();
    assert!(d.available.is_empty());
    assert!(d.work.is_empty());
    assert!(d.need.is_empty());
    assert!(d.allocation.is_empty());
    assert!(d.finished.is_empty());
}

#[test]
fn grow_pads_with_zeros_and_keeps_entries() {
    let mut d = DeadlockDetector::new();
    d.declare(1, 5);
    assert_eq!(d.available, vec![0, 5]);
    assert_eq!(d.work, vec![0, 5]);
    d.grow(2, 3);
    assert_eq!(d.available, vec![0, 5, 0]);
    assert_eq!(d.work, vec![0, 5, 0]);
    assert_eq!(d.need, vec![vec![0, 0, 0], vec![0, 0, 0]]);
    assert_eq!(d.allocation, vec![vec![0, 0, 0], vec![0, 0, 0]]);
    assert_eq!(d.finished, vec![false, false]);
    d.grow(1, 1);
    assert_eq!(d.available, vec![0, 5, 0]);
    assert_eq!(d.need.len(), 2);
}

#[test]
fn declare_adds_units_to_available_and_work() {
    let mut d = DeadlockDetector::new();
    d.declare(0, 1);
    d.declare(2, 4);
    d.declare(0, 3);
    assert_eq!(d.available, vec![4, 0, 4]);
    assert_eq!(d.work, vec![4, 0, 4]);
    assert!(d.need.is_empty());
}

#[test]
fn safe_request_moves_a_unit_from_work_to_allocation() {
    let mut d = DeadlockDetector::new();
    d.declare(0, 2);
    assert!(d.request(0, 0));
    assert_eq!(d.available, vec![2]);
    assert_eq!(d.work, vec![1]);
    assert_eq!(d.need, vec![vec![0]]);
    assert_eq!(d.allocation, vec![vec![1]]);
    assert_eq!(d.finished, vec![true]);
    assert!(d.request(1, 0));
    assert_eq!(d.work, vec![0]);
    assert_eq!(d.need, vec![vec![0], vec![0]]);
    assert_eq!(d.allocation, vec![vec![1], vec![1]]);
    assert_eq!(d.finished, vec![true, true]);
}

#[test]
fn refused_request_stays_recorded_and_grants_nothing() {
    let mut d = DeadlockDetector::new();
    d.declare(0, 0);
    assert!(!d.request(0, 0));
    assert_eq!(d.available, vec![0]);
    assert_eq!(d.work, vec![0]);
    assert_eq!(d.need, vec![vec![1]]);
    assert_eq!(d.allocation, vec![vec![0]]);
    assert_eq!(d.finished, vec![false]);
}

#[test]
fn request_for_an_unknown_resource_widens_the_table() {
    let mut d = DeadlockDetector::new();
    assert!(!d.request(1, 2));
    assert_eq!(d.available, vec![0, 0, 0]);
    assert_eq!(d.work, vec![0, 0, 0]);
    assert_eq!(d.need, vec![vec![0, 0, 0], vec![0, 0, 1]]);
    assert_eq!(d.allocation, vec![vec![0, 0, 0], vec![0, 0, 0]]);
    assert_eq!(d.finished, vec![true, false]);
}

#[test]
fn check_needs_a_second_scan_when_a_later_thread_frees_the_resource() {
    let mut d = DeadlockDetector::new();
    d.grow(2, 1);
    d.available[0] = 1;
    d.allocation[1][0] = 1;
    d.need[0][0] = 1;
    assert!(d.check());
    assert_eq!(d.finished, vec![true, true]);
    assert_eq!(d.work, vec![0]);
    assert_eq!(d.allocation, vec![vec![0], vec![1]]);
    assert_eq!(d.need, vec![vec![1], vec![0]]);
}

#[test]
fn check_marks_only_the_threads_that_can_finish() {
    let mut d = DeadlockDetector::new();
    d.grow(3, 2);
    d.work[0] = 1;
    d.need[0][1] = 1;
    d.need[1][0] = 1;
    d.allocation[1][0] = 2;
    d.need[2][0] = 4;
    assert!(!d.check());
    assert_eq!(d.finished, vec![false, true, false]);
    assert_eq!(d.work, vec![1, 0]);
}

#[test]
fn check_on_a_table_without_threads_is_safe() {
    let mut d = DeadlockDetector::new();
    assert!(d.check());
    d.declare(0, 1);
    assert!(d.check());
    assert!(d.finished.is_empty());
}

#[test]
fn check_leaves_the_counts_alone() {
    let mut d = DeadlockDetector::new();
    d.declare(0, 3);
    assert!(d.request(0, 0));
    assert!(d.request(1, 0));
    let (available, work) = (d.available.clone(), d.work.clone());
    let (need, allocation) = (d.need.clone(), d.allocation.clone());
    assert!(d.check());
    assert_eq!(d.available, available);
    assert_eq!(d.work, work);
    assert_eq!(d.need, need);
    assert_eq!(d.allocation, allocation);
}

#[test]
fn circular_wait_is_refused_at_the_request_that_closes_the_cycle() {
    let (a, b) = (0usize, 1usize);
    let mut d = DeadlockDetector::new();
    d.declare(0, 1);
    d.declare(1, 1);
    assert!(d.request(a, 0));
    assert!(d.request(b, 1));
    assert_eq!(d.work, vec![0, 0]);
    assert!(d.request(b, 0));
    assert_eq!(d.work, vec![-1, 0]);
    assert_eq!(d.allocation, vec![vec![1, 0], vec![1, 1]]);
    assert!(!d.request(a, 1));
    assert_eq!(d.need, vec![vec![0, 1], vec![0, 0]]);
    assert_eq!(d.work, vec![-1, 0]);
    assert_eq!(d.allocation, vec![vec![1, 0], vec![1, 1]]);
    assert_eq!(d.finished, vec![false, false]);
}

#[test]
fn release_of_a_mutex_only_returns_the_unit() {
    let mut d = DeadlockDetector::new();
    d.declare(0, 1);
    assert!(d.request(0, 0));
    d.release_mutex(0);
    assert_eq!(d.work, vec![1]);
    assert_eq!(d.allocation, vec![vec![1]]);
    d.release_mutex(2);
    assert_eq!(d.work, vec![1, 0, 1]);
    assert_eq!(d.available, vec![1, 0, 0]);
}

#[test]
fn release_of_a_semaphore_unit_also_leaves_the_allocation() {
    let mut d = DeadlockDetector::new();
    d.declare(0, 2);
    assert!(d.request(1, 0));
    d.release_semaphore(1, 0);
    assert_eq!(d.work, vec![2]);
    assert_eq!(d.allocation, vec![vec![0], vec![0]]);
    d.release_semaphore(0, 0);
    assert_eq!(d.work, vec![3]);
    assert_eq!(d.allocation, vec![vec![-1], vec![0]]);
}

#[test]
fn units_in_use_and_free_add_up_for_semaphores() {
    let mut d = DeadlockDetector::new();
    d.declare(0, 3);
    d.declare(1, 2);
    let script: [(bool, usize, usize); 8] = [
        (true, 0, 0),
        (true, 1, 0),
        (true, 1, 1),
        (false, 0, 0),
        (true, 2, 1),
        (false, 1, 1),
        (false, 2, 0),
        (true, 0, 1),
    ];
    for (is_request, tid, id) in script {
        if is_request {
            assert!(d.request(tid, id));
        } else {
            d.release_semaphore(tid, id);
        }
        for r in 0..d.work.len() {
            let held: isize = d.allocation.iter().map(|row| row[r]).sum();
            assert_eq!(d.work[r] + held, d.available[r]);
        }
    }
}
