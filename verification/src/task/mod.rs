//! Processes, threads, the scheduler and signals.

pub mod process;
pub mod scheduler;
pub mod signal;
pub mod thread;
