//! State that device code keeps for the kernel core, and memory for devices
//! that read and write it by themselves.

use crate::memory::address::{
    convert_physical_to_virtual, convert_virtual_to_physical, is_canonical, PHYSICAL_LIMIT,
};
use crate::memory::frame::{
    clear_range, has_window, is_chosen_window, law_release_run_restores, release_all, run_of,
    BitmapFrameAllocator, FRAME_SIZE,
};
use vstd::prelude::*;

pub mod fpu;

verus! {

/// Whether a request for `cnt` frames next to each other finds them.
pub open spec fn dma_frames_found(allocator: &BitmapFrameAllocator, cnt: usize) -> bool {
    cnt > 0 && has_window(allocator.frames(), 0, cnt as int)
}

/// Gives the `cnt` frames from frame `first` on back to the allocator.
fn release_run(allocator: &mut BitmapFrameAllocator, first: u64, cnt: usize)
    requires
        old(allocator).wf(),
        first + cnt <= old(allocator).frames().len(),
    ensures
        final(allocator).wf(),
        final(allocator).frames() == release_all(
            old(allocator).frames(),
            run_of(first as int, cnt as int),
        ),
        final(allocator).hint() == old(allocator).hint(),
{
    let ghost run = run_of(first as int, cnt as int);
    let mut k: usize = 0;
    proof {
        allocator.law_record_matches_bitmap();
    }
    while k < cnt
        invariant
            k <= cnt,
            run == run_of(first as int, cnt as int),
            allocator.wf(),
            first + cnt <= old(allocator).frames().len(),
            old(allocator).frames().len() <= crate::memory::frame::MAX_FRAMES,
            allocator.frames().len() == old(allocator).frames().len(),
            allocator.hint() == old(allocator).hint(),
            allocator.frames() == release_all(old(allocator).frames(), run.take(k as int)),
        decreases cnt - k,
    {
        proof {
            assert(run.take(k + 1).drop_last() =~= run.take(k as int));
            assert(run.take(k + 1).last() == first + k);
        }
        let address = (first + k as u64) * FRAME_SIZE;
        assert(address / FRAME_SIZE == first + k);
        allocator.deallocate_frame(address);
        k += 1;
    }
    proof {
        assert(run.take(cnt as int) =~= run);
    }
}

/// Allocates `cnt` frames next to each other for a device and returns the
/// physical address of the first and the virtual address at which the direct
/// map, which begins at `offset`, shows it. `None` if the frames are not to be
/// had, or if the direct map does not show them; the frames are then free as
/// before.
pub fn alloc_for_dma(allocator: &mut BitmapFrameAllocator, cnt: usize, offset: u64) -> (place: Option<
    (u64, u64),
>)
    requires
        old(allocator).wf(),
    ensures
        final(allocator).wf(),
        !dma_frames_found(old(allocator), cnt) ==> place is None && final(allocator).state() == old(allocator).state(),
        dma_frames_found(old(allocator), cnt) ==> exists|base: int|
            {
                &&& is_chosen_window(
                    old(allocator).frames(),
                    old(allocator).hint(),
                    cnt as int,
                    base,
                )
                &&& final(allocator).hint() == if base == old(allocator).hint() {
                    old(allocator).hint() + cnt
                } else {
                    old(allocator).hint()
                }
                &&& if base * FRAME_SIZE + offset <= u64::MAX && is_canonical(
                    (base * FRAME_SIZE + offset) as u64,
                ) {
                    &&& place == Some(
                        ((base * FRAME_SIZE) as u64, (base * FRAME_SIZE + offset) as u64),
                    )
                    &&& final(allocator).frames() == clear_range(
                        old(allocator).frames(),
                        base,
                        cnt as int,
                    )
                } else {
                    &&& place is None
                    &&& final(allocator).frames() == old(allocator).frames()
                }
            },
{
    let physical = match allocator.allocate_frames(cnt) {
        Some(physical) => physical,
        None => {
            return None;
        },
    };
    let ghost base = (physical / FRAME_SIZE) as int;
    match convert_physical_to_virtual(physical, offset) {
        Some(virtual_address) => Some((physical, virtual_address)),
        None => {
            proof {
                law_release_run_restores(old(allocator).frames(), base, cnt as int);
            }
            release_run(allocator, physical / FRAME_SIZE, cnt);
            None
        },
    }
}

/// Gives the `cnt` frames back that `alloc_for_dma` handed out at virtual
/// address `virtual_address`, for a direct map that begins at `offset`. The
/// result says whether that was done: it is not, and nothing changes, if the
/// address is not one of the direct map or the frames do not all exist.
pub fn dealloc_for_dma(
    allocator: &mut BitmapFrameAllocator,
    virtual_address: u64,
    offset: u64,
    cnt: usize,
) -> (done: bool)
    requires
        old(allocator).wf(),
    ensures
        final(allocator).wf(),
        done == (virtual_address >= offset && virtual_address - offset < PHYSICAL_LIMIT && (
        virtual_address - offset) / FRAME_SIZE as int + cnt <= old(allocator).frames().len()),
        done ==> final(allocator).frames() == release_all(
            old(allocator).frames(),
            run_of(((virtual_address - offset) / FRAME_SIZE as int) as int, cnt as int),
        ) && final(allocator).hint() == old(allocator).hint(),
        !done ==> final(allocator).state() == old(allocator).state(),
{
    let physical = match convert_virtual_to_physical(virtual_address, offset) {
        Some(physical) => physical,
        None => {
            return false;
        },
    };
    let first = physical / FRAME_SIZE;
    let count = allocator.frame_count();
    if first > count as u64 || cnt > count - first as usize {
        return false;
    }
    release_run(allocator, first, cnt);
    true
}

} // verus!
