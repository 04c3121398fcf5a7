use kernel_core::kernel::Kernel;
use kernel_core::process::{find_free_slot, install, ProcessControlBlock};
use kernel_core::processor::run_tasks;

#[test]
fn free_slot_is_the_first_empty_one_or_the_end() {
    let empty: Vec<Option<u8>> = Vec::new();
    assert_eq!(find_free_slot(&empty), 0);
    assert_eq!(find_free_slot(&vec![Some(1u8), Some(2)]), 2);
    assert_eq!(find_free_slot(&vec![Some(1u8), None, Some(3), None]), 1);
    assert_eq!(find_free_slot(&vec![None, Some(2u8)]), 0);
}

#[test]
fn install_fills_gaps_before_it_appends() {
    let mut slots: Vec<Option<char>> = Vec::new();
    assert_eq!(install(&mut slots, 'a'), 0);
    assert_eq!(install(&mut slots, 'b'), 1);
    assert_eq!(install(&mut slots, 'c'), 2);
    assert_eq!(slots, vec![Some('a'), Some('b'), Some('c')]);
    slots[0] = None;
    slots[1] = None;
    assert_eq!(install(&mut slots, 'd'), 0);
    assert_eq!(slots, vec![Some('d'), None, Some('c')]);
    assert_eq!(install(&mut slots, 'e'), 1);
    assert_eq!(install(&mut slots, 'f'), 3);
    assert_eq!(slots, vec![Some('d'), Some('e'), Some('c'), Some('f')]);
}

#[test]
fn an_occupied_slot_keeps_its_entry() {
    let mut slots: Vec<Option<u32>> = vec![Some(10), None, Some(30)];
    for value in 0..5 {
        let before = slots.clone();
        let id = install(&mut slots, value);
        assert!(id >= before.len() || before[id].is_none());
        for (j, entry) in before.iter().enumerate() {
            if j != id {
                assert_eq!(&slots[j], entry);
            }
        }
        assert_eq!(slots[id], Some(value));
    }
}

#[test]
fn new_process_starts_empty() {
    let p = ProcessControlBlock::new(4, Some(2), vec![1, 2], 100, 160);
    assert_eq!(p.getpid(), 4);
    assert_eq!(p.parent, Some(2));
    assert!(p.children.is_empty());
    assert!(!p.is_zombie);
    assert_eq!(p.exit_code, 0);
    assert_eq!(p.image, vec![1, 2]);
    assert_eq!((p.heap_bottom, p.program_brk), (100, 160));
    assert!(p.mutex_list.is_empty() && p.semaphore_list.is_empty() && p.condvar_list.is_empty());
    assert!(!p.deadlock_test);
    assert!(p.detector.work.is_empty() && p.detector.need.is_empty());
    assert_eq!(p.thread_count, 1);
    assert!(p.sleepers.is_empty() && p.exited.is_empty());
}

#[test]
fn add_child_extends_the_family_of_the_running_process() {
    let mut k = Kernel::new(vec![1], 64, 0);
    assert!(run_tasks(&mut k));
    assert_eq!(k.add_child(vec![2, 2], 7), 1);
    assert_eq!(k.add_child(vec![3, 3, 3], 8), 2);
    let parent = k.processes[0].as_ref().unwrap();
    assert_eq!(parent.children, vec![1, 2]);
    assert_eq!(parent.image, vec![1]);
    let second = k.processes[2].as_ref().unwrap();
    assert_eq!(second.pid, 2);
    assert_eq!(second.parent, Some(0));
    assert_eq!(second.image, vec![3, 3, 3]);
    assert_eq!((second.heap_bottom, second.program_brk), (64, 64));
    assert_eq!(k.manager.len(), 2);
    assert_eq!(k.manager.ready_queue[1].pid, 2);
    assert_eq!(k.manager.ready_queue[1].start_time, 8);
    assert_eq!(k.processor.current.unwrap().pid, 0);
}
