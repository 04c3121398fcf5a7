//! The operations that a running task asks of the kernel core.

pub mod process;
pub mod sync;
