//! Scheduling and synchronisation core of a small teaching kernel.
//!
//! The kernel state is an explicitly owned value, [`kernel::Kernel`]: every
//! operation takes the state it works on as a parameter and says in its
//! contract how the state changes. Nothing here touches the machine. The
//! clock reading, the bytes of a program file and the like come in as plain
//! arguments, and what is left to the machine after a call (the switch into
//! another task, a mapping, a timer) can be read off the state.
//!
//! - [`task`]: the control block of a task.
//! - [`manager`]: the ready queue and the stride scheduler.
//! - [`processor`]: the running task and the dispatch step.
//! - [`sync`]: mutexes, semaphores and condition variables.
//! - [`deadlock`]: the resource allocation table and its safety check.
//! - [`process`]: the control block of a process and its slot tables.
//! - [`kernel`]: the kernel state and its invariant.
//! - [`syscall`]: the operations that a running task asks for.
//! - [`timer`]: the wake-up of sleeping tasks.

pub mod config;
pub mod deadlock;
pub mod kernel;
pub mod manager;
pub mod process;
pub mod processor;
pub mod sync;
pub mod syscall;
pub mod task;
pub mod timer;
