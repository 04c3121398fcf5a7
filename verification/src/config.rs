//! Constants shared by the whole kernel core.

use vstd::prelude::*;

verus! {

/// Stride budget that one dispatch divides by the task's priority.
pub const BIG_STRIDE: u64 = 0x7FFF_FFFF;

/// Smallest priority a task may have; it keeps the stride divisor away from zero.
pub const MIN_PRIORITY: isize = 2;

/// Priority of a freshly created task.
pub const DEFAULT_PRIORITY: isize = 16;

/// Number of distinct syscall ids that are counted per task.
pub const MAX_SYSCALL_NUM: usize = 500;

/// Size of a page of virtual memory in bytes.
pub const PAGE_SIZE: usize = 4096;

/// Generic failure code.
pub const FAILURE: isize = -1;

/// A matching child exists but has not exited yet.
pub const STILL_RUNNING: isize = -2;

/// A request was refused because granting it could deadlock.
pub const DEADLOCK: isize = -0xDEAD;

} // verus!
