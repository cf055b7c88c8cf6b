//! The execution substrate of a small multiprocessor kernel: physical frames,
//! address spaces, per-process heaps, threads, scheduling and signals, written
//! as state that is handed in and out, with the hardware left to the caller.

use crate::arch::smp::SyncFlags;
use vstd::prelude::*;

pub mod arch;
pub mod console;
pub mod data;
pub mod drivers;
pub mod memory;
pub mod task;

verus! {

/// Tells every CPU that scheduling begins. The caller enables interrupts
/// after it.
pub fn start_schedule(flags: &mut SyncFlags)
    ensures
        *final(flags) == (SyncFlags { start_schedule: true, ..*old(flags) }),
{
    flags.start_schedule = true;
}

} // verus!
