use kernel_core::config::{BIG_STRIDE, DEFAULT_PRIORITY};
use kernel_core::manager::{add_task, fetch_task, TaskManager};
use kernel_core::processor::Processor;
use kernel_core::task::{TaskControlBlock, TaskStatus};

fn task(tid: usize, stride: u64, priority: isize) -> TaskControlBlock {
    let mut t = TaskControlBlock::new(0, tid, 0);
    t.stride = stride;
    t.priority = priority;
    t
}

#[test]
fn new_task_is_ready_with_default_priority() {
    let t = TaskControlBlock::new(3, 1, 77);
    assert_eq!(t.pid, 3);
    assert_eq!(t.tid, 1);
    assert_eq!(t.task_status, TaskStatus::Ready);
    assert_eq!(t.priority, DEFAULT_PRIORITY);
    assert_eq!(t.priority, 16);
    assert_eq!(t.stride, 0);
    assert_eq!(t.start_time, 77);
    assert_eq!(t.exit_code, 0);
    assert_eq!(t.trap_return, 0);
    assert!(t.syscall_times.iter().all(|&n| n == 0));
}

#[test]
fn empty_queue_yields_no_task() {
    let mut m = TaskManager::new();
    assert_eq!(m.len(), 0);
    assert!(m.fetch_stride().is_none());
    assert!(m.fetch().is_none());
    assert_eq!(m.len(), 0);
}

#[test]
fn add_appends_and_fetch_takes_the_head() {
    let mut m = TaskManager::new();
    m.add(task(1, 50, 2));
    m.add(task(2, 10, 2));
    m.add(task(3, 30, 2));
    assert_eq!(m.len(), 3);
    let head = m.fetch().unwrap();
    assert_eq!(head.tid, 1);
    assert_eq!(head.stride, 50);
    assert_eq!(m.len(), 2);
    assert_eq!(m.ready_queue[0].tid, 2);
    assert_eq!(m.ready_queue[1].tid, 3);
}

#[test]
fn fetch_stride_selects_the_least_stride() {
    let mut m = TaskManager::new();
    m.add(task(1, 50, 2));
    m.add(task(2, 10, 4));
    m.add(task(3, 30, 2));
    let picked = m.fetch_stride().unwrap();
    assert_eq!(picked.tid, 2);
    assert_eq!(picked.stride, 10 + BIG_STRIDE / 4);
    assert_eq!(m.len(), 2);
    assert_eq!(m.ready_queue[0].tid, 1);
    assert_eq!(m.ready_queue[1].tid, 3);
    let picked = m.fetch_stride().unwrap();
    assert_eq!(picked.tid, 3);
    let picked = m.fetch_stride().unwrap();
    assert_eq!(picked.tid, 1);
    assert!(m.fetch_stride().is_none());
}

#[test]
fn fetch_stride_breaks_ties_by_queue_order() {
    let mut m = TaskManager::new();
    m.add(task(7, 20, 2));
    m.add(task(8, 5, 2));
    m.add(task(9, 5, 2));
    m.add(task(10, 5, 3));
    assert_eq!(m.fetch_stride().unwrap().tid, 8);
    assert_eq!(m.fetch_stride().unwrap().tid, 9);
    assert_eq!(m.fetch_stride().unwrap().tid, 10);
    assert_eq!(m.fetch_stride().unwrap().tid, 7);
}

#[test]
fn stride_step_is_the_truncated_quotient() {
    assert_eq!(BIG_STRIDE, 0x7FFF_FFFF);
    let mut m = TaskManager::new();
    m.add(task(1, 0, 2));
    assert_eq!(m.fetch_stride().unwrap().stride, 1_073_741_823);
    m.add(task(1, 0, 3));
    assert_eq!(m.fetch_stride().unwrap().stride, 715_827_882);
    m.add(task(1, 0, 16));
    assert_eq!(m.fetch_stride().unwrap().stride, 134_217_727);
    m.add(task(1, 100, isize::MAX));
    assert_eq!(m.fetch_stride().unwrap().stride, 100);
}

#[test]
fn single_task_advances_by_the_same_step_every_round() {
    for priority in [2isize, 3, 5, 16, 1000] {
        let mut m = TaskManager::new();
        m.add(task(1, 7, priority));
        let step = BIG_STRIDE / priority as u64;
        for round in 1..=20u64 {
            let t = m.fetch_stride().unwrap();
            assert_eq!(t.stride, 7 + round * step);
            assert_eq!(t.priority, priority);
            assert_eq!(m.len(), 0);
            m.add(t);
        }
    }
}

#[test]
fn higher_priority_runs_more_often() {
    let mut m = TaskManager::new();
    m.add(task(1, 0, 2));
    m.add(task(2, 0, 8));
    let mut runs = [0usize; 3];
    for _ in 0..50 {
        let t = m.fetch_stride().unwrap();
        runs[t.tid] += 1;
        m.add(t);
    }
    assert_eq!(runs[1] + runs[2], 50);
    assert_eq!(runs[1], 10);
    assert_eq!(runs[2], 40);
}

#[test]
fn free_functions_work_on_the_given_manager() {
    let mut m = TaskManager::new();
    add_task(&mut m, task(4, 9, 2));
    add_task(&mut m, task(5, 3, 2));
    assert_eq!(fetch_task(&mut m).unwrap().tid, 5);
    assert_eq!(fetch_task(&mut m).unwrap().tid, 4);
    assert!(fetch_task(&mut m).is_none());
}

#[test]
fn processor_holds_at_most_one_task() {
    let mut p = Processor::new();
    assert!(p.current().is_none());
    assert!(p.take_current().is_none());
    p.current = Some(task(1, 0, 2));
    assert_eq!(p.current().unwrap().tid, 1);
    assert_eq!(p.current().unwrap().tid, 1);
    assert_eq!(p.take_current().unwrap().tid, 1);
    assert!(p.current().is_none());
    assert!(p.take_current().is_none());
}

#[test]
fn select_names_the_position_without_taking_the_task() {
    let mut m = TaskManager::new();
    assert_eq!(m.select(), None);
    m.add(task(1, 50, 2));
    assert_eq!(m.select(), Some(0));
    m.add(task(2, 10, 2));
    m.add(task(3, 10, 2));
    m.add(task(4, 30, 2));
    assert_eq!(m.select(), Some(1));
    assert_eq!(m.len(), 4);
    assert_eq!(m.fetch_stride().unwrap().tid, 2);
    assert_eq!(m.select(), Some(1));
    assert_eq!(m.ready_queue[1].tid, 3);
}

#[test]
fn select_takes_the_head_when_all_strides_are_equal() {
    let mut m = TaskManager::new();
    for tid in 0..5 {
        m.add(task(tid, u64::MAX, 2));
    }
    assert_eq!(m.select(), Some(0));
}
