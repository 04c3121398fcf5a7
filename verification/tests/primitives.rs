use kernel_core::manager::TaskManager;
use kernel_core::processor::Processor;
use kernel_core::sync::condvar::Condvar;
use kernel_core::sync::mutex::{Mutex, MutexBlocking, MutexSpin};
use kernel_core::sync::semaphore::Semaphore;
use kernel_core::task::{TaskControlBlock, TaskStatus};

fn running(tid: usize) -> Processor {
    let mut t = TaskControlBlock::new(0, tid, 0);
    t.task_status = TaskStatus::Running;
    Processor { current: Some(t) }
}

#[test]
fn spin_mutex_is_acquired_once() {
    let mut m = MutexSpin::new();
    assert!(!m.locked);
    assert!(m.try_lock());
    assert!(m.locked);
    assert!(!m.try_lock());
    assert!(!m.try_lock());
    assert!(m.locked);
    m.unlock();
    assert!(!m.locked);
    assert!(m.try_lock());
    m.unlock();
    m.lock();
    assert!(m.locked);
    assert!(!m.try_lock());
}

#[test]
fn blocking_mutex_free_lock_keeps_the_caller_running() {
    let mut m = MutexBlocking::new();
    let mut p = running(1);
    m.lock(&mut p);
    assert!(m.locked);
    assert_eq!(m.wait_queue.len(), 0);
    assert_eq!(p.current.unwrap().tid, 1);
    assert_eq!(p.current.unwrap().task_status, TaskStatus::Running);
}

#[test]
fn blocking_mutex_held_lock_queues_the_caller() {
    let mut m = MutexBlocking::new();
    let mut a = running(1);
    m.lock(&mut a);
    let mut b = running(2);
    m.lock(&mut b);
    assert!(b.current.is_none());
    let mut c = running(3);
    m.lock(&mut c);
    assert!(c.current.is_none());
    assert!(m.locked);
    assert_eq!(m.wait_queue.len(), 2);
    assert_eq!(m.wait_queue[0].tid, 2);
    assert_eq!(m.wait_queue[0].task_status, TaskStatus::Blocked);
    assert_eq!(m.wait_queue[1].tid, 3);
    assert_eq!(a.current.unwrap().tid, 1);
}

#[test]
fn blocking_mutex_unlock_hands_over_in_arrival_order() {
    let mut m = MutexBlocking::new();
    let mut ready = TaskManager::new();
    let mut a = running(1);
    m.lock(&mut a);
    let mut b = running(2);
    m.lock(&mut b);
    let mut c = running(3);
    m.lock(&mut c);

    m.unlock(&mut ready);
    assert!(m.locked);
    assert_eq!(m.wait_queue.len(), 1);
    assert_eq!(ready.len(), 1);
    assert_eq!(ready.ready_queue[0].tid, 2);
    assert_eq!(ready.ready_queue[0].task_status, TaskStatus::Ready);

    m.unlock(&mut ready);
    assert!(m.locked);
    assert_eq!(m.wait_queue.len(), 0);
    assert_eq!(ready.len(), 2);
    assert_eq!(ready.ready_queue[1].tid, 3);

    m.unlock(&mut ready);
    assert!(!m.locked);
    assert_eq!(ready.len(), 2);

    m.unlock(&mut ready);
    assert!(!m.locked);
    assert_eq!(ready.len(), 2);
}

#[test]
fn mutex_never_has_two_holders() {
    let mut m = MutexBlocking::new();
    let mut ready = TaskManager::new();
    let mut holders: i32 = 0;
    let script = [true, true, false, true, false, false, false, true, true, true, false];
    for (step, &is_lock) in script.iter().enumerate() {
        if is_lock {
            let was_free = !m.locked;
            let mut p = running(step);
            m.lock(&mut p);
            if was_free {
                assert!(p.current.is_some());
                holders += 1;
            } else {
                assert!(p.current.is_none());
            }
        } else {
            let waiting = m.wait_queue.len();
            let was_locked = m.locked;
            m.unlock(&mut ready);
            if waiting == 0 && was_locked {
                holders -= 1;
            }
        }
        assert!(holders == 0 || holders == 1);
        assert_eq!(holders == 1, m.locked);
        assert!(m.wait_queue.is_empty() || m.locked);
    }
}

#[test]
fn mutex_enum_dispatches_on_the_kind() {
    let mut ready = TaskManager::new();
    let mut spin = Mutex::Spin(MutexSpin::new());
    let mut p = running(1);
    spin.lock(&mut p);
    assert!(p.current.is_some());
    assert!(matches!(&spin, Mutex::Spin(m) if m.locked));
    spin.unlock(&mut ready);
    assert!(matches!(&spin, Mutex::Spin(m) if !m.locked));
    assert_eq!(ready.len(), 0);

    let mut blocking = Mutex::Blocking(MutexBlocking::new());
    let mut a = running(1);
    blocking.lock(&mut a);
    let mut b = running(2);
    blocking.lock(&mut b);
    assert!(a.current.is_some());
    assert!(b.current.is_none());
    blocking.unlock(&mut ready);
    assert_eq!(ready.len(), 1);
    assert_eq!(ready.ready_queue[0].tid, 2);
    assert!(matches!(&blocking, Mutex::Blocking(m) if m.locked));
}

#[test]
fn semaphore_counts_down_and_blocks_below_zero() {
    let mut s = Semaphore::new(2);
    assert_eq!(s.count, 2);
    let mut a = running(1);
    s.down(&mut a);
    assert_eq!(s.count, 1);
    assert!(a.current.is_some());
    let mut b = running(2);
    s.down(&mut b);
    assert_eq!(s.count, 0);
    assert!(b.current.is_some());
    let mut c = running(3);
    s.down(&mut c);
    assert_eq!(s.count, -1);
    assert!(c.current.is_none());
    assert_eq!(s.wait_queue.len(), 1);
    assert_eq!(s.wait_queue[0].tid, 3);
    assert_eq!(s.wait_queue[0].task_status, TaskStatus::Blocked);
}

#[test]
fn semaphore_up_wakes_one_waiter_in_arrival_order() {
    let mut s = Semaphore::new(0);
    let mut ready = TaskManager::new();
    let mut a = running(1);
    s.down(&mut a);
    let mut b = running(2);
    s.down(&mut b);
    assert_eq!(s.count, -2);
    s.up(&mut ready);
    assert_eq!(s.count, -1);
    assert_eq!(ready.len(), 1);
    assert_eq!(ready.ready_queue[0].tid, 1);
    assert_eq!(ready.ready_queue[0].task_status, TaskStatus::Ready);
    assert_eq!(s.wait_queue.len(), 1);
    s.up(&mut ready);
    assert_eq!(s.count, 0);
    assert_eq!(ready.len(), 2);
    assert_eq!(ready.ready_queue[1].tid, 2);
    s.up(&mut ready);
    assert_eq!(s.count, 1);
    assert_eq!(ready.len(), 2);
    assert_eq!(s.wait_queue.len(), 0);
}

#[test]
fn completed_downs_never_exceed_initial_plus_ups() {
    for initial in [0usize, 1, 3] {
        let mut s = Semaphore::new(initial);
        let mut ready = TaskManager::new();
        let mut completed: isize = 0;
        let mut ups: isize = 0;
        let script = [true, true, false, true, true, true, false, false, false, false, true, false];
        for (step, &is_down) in script.iter().enumerate() {
            if is_down {
                let mut p = running(step);
                s.down(&mut p);
                if p.current.is_some() {
                    completed += 1;
                }
            } else {
                let before = ready.len();
                s.up(&mut ready);
                ups += 1;
                if ready.len() > before {
                    completed += 1;
                }
            }
            assert!(completed <= initial as isize + ups);
            let held_back = if s.count > 0 { s.count } else { 0 };
            assert_eq!(completed, initial as isize + ups - held_back);
            if s.count < 0 {
                assert_eq!(s.wait_queue.len() as isize, -s.count);
            } else {
                assert_eq!(s.wait_queue.len(), 0);
            }
        }
    }
}

#[test]
fn condvar_wait_releases_the_mutex_and_blocks() {
    let mut ready = TaskManager::new();
    let mut mutex = Mutex::Blocking(MutexBlocking::new());
    let mut cv = Condvar::new();
    let mut a = running(1);
    mutex.lock(&mut a);
    cv.wait(&mut mutex, &mut a, &mut ready);
    assert!(a.current.is_none());
    assert!(matches!(&mutex, Mutex::Blocking(m) if !m.locked));
    assert_eq!(cv.wait_queue.len(), 1);
    assert_eq!(cv.wait_queue[0].tid, 1);
    assert_eq!(cv.wait_queue[0].task_status, TaskStatus::Blocked);
    assert_eq!(ready.len(), 0);
}

#[test]
fn condvar_wait_hands_the_mutex_to_its_first_waiter() {
    let mut ready = TaskManager::new();
    let mut mutex = Mutex::Blocking(MutexBlocking::new());
    let mut cv = Condvar::new();
    let mut a = running(1);
    mutex.lock(&mut a);
    let mut b = running(2);
    mutex.lock(&mut b);
    cv.wait(&mut mutex, &mut a, &mut ready);
    assert!(matches!(&mutex, Mutex::Blocking(m) if m.locked && m.wait_queue.is_empty()));
    assert_eq!(ready.len(), 1);
    assert_eq!(ready.ready_queue[0].tid, 2);
    assert_eq!(cv.wait_queue[0].tid, 1);
}

#[test]
fn condvar_signal_wakes_at_most_one_and_grants_no_mutex() {
    let mut ready = TaskManager::new();
    let mut mutex = Mutex::Blocking(MutexBlocking::new());
    let mut cv = Condvar::new();
    cv.signal(&mut ready);
    assert_eq!(ready.len(), 0);
    let mut a = running(1);
    cv.wait(&mut mutex, &mut a, &mut ready);
    let mut b = running(2);
    cv.wait(&mut mutex, &mut b, &mut ready);
    assert_eq!(cv.wait_queue.len(), 2);
    cv.signal(&mut ready);
    assert_eq!(cv.wait_queue.len(), 1);
    assert_eq!(ready.len(), 1);
    assert_eq!(ready.ready_queue[0].tid, 1);
    assert_eq!(ready.ready_queue[0].task_status, TaskStatus::Ready);
    assert!(matches!(&mutex, Mutex::Blocking(m) if !m.locked));
    cv.signal(&mut ready);
    assert_eq!(ready.ready_queue[1].tid, 2);
    cv.signal(&mut ready);
    assert_eq!(ready.len(), 2);
}
