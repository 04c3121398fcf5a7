//! Blocking synchronisation primitives: mutexes, semaphores and condition
//! variables. Each primitive owns the control blocks of the tasks that wait
//! on it.

pub mod condvar;
pub mod mutex;
pub mod semaphore;
