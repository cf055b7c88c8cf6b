//! The physical-frame allocator: one bit for each 4 KiB frame, set while the
//! frame is free.

use crate::data::bitmap::Bitmap;
use crate::memory::address::PHYSICAL_LIMIT;
use vstd::pervasive::unreached;
use vstd::prelude::*;

verus! {

/// The size of a physical frame in bytes.
pub const FRAME_SIZE: u64 = 4096;

/// The number of frames that physical addresses can tell apart.
pub const MAX_FRAMES: u64 = 0x100_0000_0000;

/// The number of set bits, that is of free frames.
pub open spec fn count_free(bits: Seq<bool>) -> nat
    decreases bits.len(),
{
    if bits.len() == 0 {
        0
    } else {
        count_free(bits.drop_last()) + if bits.last() {
            1nat
        } else {
            0nat
        }
    }
}

/// The `cnt` frames from `base` on all exist and are free.
pub open spec fn window_free(bits: Seq<bool>, base: int, cnt: int) -> bool {
    &&& 0 <= base
    &&& base + cnt <= bits.len()
    &&& forall|i: int| base <= i < base + cnt ==> bits[i]
}

/// `base` is the lowest frame at or after `from` where `cnt` free frames begin.
pub open spec fn is_first_window(bits: Seq<bool>, from: int, cnt: int, base: int) -> bool {
    &&& from <= base
    &&& window_free(bits, base, cnt)
    &&& forall|b: int| from <= b < base ==> !window_free(bits, b, cnt)
}

/// `base` is where a request for `cnt` frames next to each other finds them:
/// the lowest run at or after `hint`, or, if there is none there, the lowest
/// run of all.
pub open spec fn is_chosen_window(bits: Seq<bool>, hint: int, cnt: int, base: int) -> bool {
    if has_window(bits, hint, cnt) {
        is_first_window(bits, hint, cnt, base)
    } else {
        is_first_window(bits, 0, cnt, base)
    }
}

/// Some run of `cnt` free frames begins at or after `from`.
pub open spec fn has_window(bits: Seq<bool>, from: int, cnt: int) -> bool {
    exists|b: int| from <= b && window_free(bits, b, cnt)
}

/// The bits with the `cnt` frames from `base` on marked as taken.
pub open spec fn clear_range(bits: Seq<bool>, base: int, cnt: int) -> Seq<bool> {
    Seq::new(
        bits.len(),
        |i: int|
            if base <= i < base + cnt {
                false
            } else {
                bits[i]
            },
    )
}

/// The lowest free frame at or after `from`, or the number of frames if there is none.
pub open spec fn next_free(bits: Seq<bool>, from: int) -> int
    decreases bits.len() - from,
{
    if from < 0 || from >= bits.len() {
        bits.len() as int
    } else if bits[from] {
        from
    } else {
        next_free(bits, from + 1)
    }
}

/// The hint after frame `taken` was allocated and the bits are `bits`: the
/// lowest free frame after the one taken, or, if there is none there, the
/// lowest free frame of all; the number of frames if no frame is free.
pub open spec fn next_hint(bits: Seq<bool>, taken: int) -> int {
    if next_free(bits, taken + 1) < bits.len() {
        next_free(bits, taken + 1)
    } else {
        next_free(bits, 0)
    }
}

/// What `next_free` finds: nothing free before it, and a free frame at it
/// unless it is the end.
pub proof fn lemma_next_free(bits: Seq<bool>, from: int)
    requires
        0 <= from <= bits.len(),
    ensures
        from <= next_free(bits, from) <= bits.len(),
        forall|i: int| from <= i < next_free(bits, from) ==> !bits[i],
        next_free(bits, from) < bits.len() ==> bits[next_free(bits, from)],
    decreases bits.len() - from,
{
    if from < bits.len() && !bits[from] {
        lemma_next_free(bits, from + 1);
    }
}

/// Changing one bit changes the count of free frames by at most one.
pub proof fn lemma_count_update(bits: Seq<bool>, i: int, value: bool)
    requires
        0 <= i < bits.len(),
    ensures
        count_free(bits.update(i, value)) == count_free(bits) + (if value {
            1int
        } else {
            0int
        }) - (if bits[i] {
            1int
        } else {
            0int
        }),
    decreases bits.len(),
{
    let changed = bits.update(i, value);
    if i == bits.len() - 1 {
        assert(changed.drop_last() =~= bits.drop_last());
    } else {
        assert(changed.drop_last() =~= bits.drop_last().update(i, value));
        lemma_count_update(bits.drop_last(), i, value);
    }
}

/// Where a run of `cnt` frames is free, at least `cnt` frames are free.
pub proof fn lemma_window_counts(bits: Seq<bool>, base: int, cnt: int)
    requires
        0 <= cnt,
        window_free(bits, base, cnt),
    ensures
        count_free(bits) >= cnt,
    decreases cnt,
{
    if cnt > 0 {
        let last = base + cnt - 1;
        let rest = bits.update(last, false);
        lemma_count_update(bits, last, false);
        assert(window_free(rest, base, cnt - 1));
        lemma_window_counts(rest, base, cnt - 1);
    }
}

/// There are no more free frames than frames.
pub proof fn lemma_count_bound(bits: Seq<bool>)
    ensures
        count_free(bits) <= bits.len(),
    decreases bits.len(),
{
    if bits.len() > 0 {
        lemma_count_bound(bits.drop_last());
    }
}

/// A bitmap without a set bit has no free frame, and the other way round.
pub proof fn lemma_count_zero(bits: Seq<bool>)
    ensures
        count_free(bits) == 0 <==> (forall|i: int| 0 <= i < bits.len() ==> !bits[i]),
    decreases bits.len(),
{
    if bits.len() > 0 {
        lemma_count_zero(bits.drop_last());
        let front = bits.drop_last();
        if count_free(bits) == 0 {
            assert forall|i: int| 0 <= i < bits.len() implies !bits[i] by {
                if i < front.len() {
                    assert(front[i] == bits[i]);
                }
            }
        }
        if forall|i: int| 0 <= i < bits.len() ==> !bits[i] {
            assert forall|i: int| 0 <= i < front.len() implies !front[i] by {
                assert(front[i] == bits[i]);
            }
        }
    }
}

/// The bits after the frames of `taken` were allocated one after the other.
pub open spec fn take_all(bits: Seq<bool>, taken: Seq<int>) -> Seq<bool>
    decreases taken.len(),
{
    if taken.len() == 0 {
        bits
    } else {
        take_all(bits, taken.drop_last()).update(taken.last(), false)
    }
}

/// The bits after the frames of `released` were given back one after the other.
pub open spec fn release_all(bits: Seq<bool>, released: Seq<int>) -> Seq<bool>
    decreases released.len(),
{
    if released.len() == 0 {
        bits
    } else {
        release_all(bits, released.drop_last()).update(released.last(), true)
    }
}

/// The frames `base`, `base + 1`, ... of a run of `cnt` frames.
pub open spec fn run_of(base: int, cnt: int) -> Seq<int> {
    Seq::new(cnt as nat, |k: int| base + k)
}

/// After a series of allocations a frame is free if it was free before and
/// is not among those taken.
pub proof fn lemma_take_all(bits: Seq<bool>, taken: Seq<int>)
    requires
        forall|k: int| 0 <= k < taken.len() ==> 0 <= #[trigger] taken[k] < bits.len(),
    ensures
        take_all(bits, taken).len() == bits.len(),
        forall|i: int|
            0 <= i < bits.len() ==> take_all(bits, taken)[i] == (bits[i] && !taken.contains(i)),
    decreases taken.len(),
{
    if taken.len() > 0 {
        let front = taken.drop_last();
        lemma_take_all(bits, front);
        assert forall|i: int| 0 <= i < bits.len() implies take_all(bits, taken)[i] == (bits[i]
            && !taken.contains(i)) by {
            if taken.contains(i) {
                let k = choose|k: int| 0 <= k < taken.len() && taken[k] == i;
                if k < front.len() {
                    assert(front[k] == i);
                }
            }
            if front.contains(i) {
                let k = choose|k: int| 0 <= k < front.len() && front[k] == i;
                assert(taken[k] == i);
            }
            if i == taken.last() {
                assert(taken[taken.len() - 1] == i);
            }
        }
    }
}

/// After a series of releases a frame is free if it was free before or is
/// among those given back.
pub proof fn lemma_release_all(bits: Seq<bool>, released: Seq<int>)
    requires
        forall|k: int| 0 <= k < released.len() ==> 0 <= #[trigger] released[k] < bits.len(),
    ensures
        release_all(bits, released).len() == bits.len(),
        forall|i: int|
            0 <= i < bits.len() ==> release_all(bits, released)[i] == (bits[i]
                || released.contains(i)),
    decreases released.len(),
{
    if released.len() > 0 {
        let front = released.drop_last();
        lemma_release_all(bits, front);
        assert forall|i: int| 0 <= i < bits.len() implies release_all(bits, released)[i] == (
        bits[i] || released.contains(i)) by {
            if released.contains(i) {
                let k = choose|k: int| 0 <= k < released.len() && released[k] == i;
                if k < front.len() {
                    assert(front[k] == i);
                }
            }
            if front.contains(i) {
                let k = choose|k: int| 0 <= k < front.len() && front[k] == i;
                assert(released[k] == i);
            }
            if i == released.last() {
                assert(released[released.len() - 1] == i);
            }
        }
    }
}

/// Taking a run of frames at once is taking its frames one after the other.
pub proof fn lemma_clear_range_is_take_all(bits: Seq<bool>, base: int, cnt: int)
    requires
        0 <= base,
        0 <= cnt,
        base + cnt <= bits.len(),
    ensures
        clear_range(bits, base, cnt) == take_all(bits, run_of(base, cnt)),
{
    let run = run_of(base, cnt);
    lemma_take_all(bits, run);
    assert forall|i: int| 0 <= i < bits.len() implies clear_range(bits, base, cnt)[i] == take_all(
        bits,
        run,
    )[i] by {
        assert(take_all(bits, run)[i] == (bits[i] && !run.contains(i)));
        if base <= i < base + cnt {
            assert(run[i - base] == i);
            assert(run.contains(i));
        } else if run.contains(i) {
            let k = choose|k: int| 0 <= k < run.len() && run[k] == i;
            assert(run[k] == base + k);
        }
    }
    assert(clear_range(bits, base, cnt) =~= take_all(bits, run));
}

/// Law: when frames that were free are allocated, in any number of steps, and
/// the same frames are then given back, in any order, every bit of the bitmap
/// is what it was before.
pub proof fn law_release_restores(bits: Seq<bool>, taken: Seq<int>, released: Seq<int>)
    requires
        forall|k: int|
            0 <= k < taken.len() ==> 0 <= #[trigger] taken[k] < bits.len() && bits[taken[k]],
        forall|k: int| 0 <= k < taken.len() ==> released.contains(#[trigger] taken[k]),
        forall|k: int| 0 <= k < released.len() ==> taken.contains(#[trigger] released[k]),
    ensures
        release_all(take_all(bits, taken), released) == bits,
{
    lemma_take_all(bits, taken);
    let held = take_all(bits, taken);
    assert forall|k: int| 0 <= k < released.len() implies 0 <= #[trigger] released[k]
        < held.len() by {
        let j = choose|j: int| 0 <= j < taken.len() && taken[j] == released[k];
        assert(0 <= taken[j] < bits.len());
    }
    lemma_release_all(held, released);
    assert forall|i: int| 0 <= i < bits.len() implies release_all(held, released)[i]
        == bits[i] by {
        if released.contains(i) {
            let k = choose|k: int| 0 <= k < released.len() && released[k] == i;
            let j = choose|j: int| 0 <= j < taken.len() && taken[j] == released[k];
            assert(bits[taken[j]]);
        } else if taken.contains(i) {
            let j = choose|j: int| 0 <= j < taken.len() && taken[j] == i;
            assert(released.contains(taken[j]));
        }
    }
    assert(release_all(held, released) =~= bits);
}

/// Law: giving back each frame of a run that was allocated at once undoes the
/// allocation.
pub proof fn law_release_run_restores(bits: Seq<bool>, base: int, cnt: int)
    requires
        0 <= cnt,
        window_free(bits, base, cnt),
    ensures
        forall|i: int| base <= i < base + cnt ==> !clear_range(bits, base, cnt)[i],
        release_all(clear_range(bits, base, cnt), run_of(base, cnt)) == bits,
{
    let run = run_of(base, cnt);
    lemma_clear_range_is_take_all(bits, base, cnt);
    assert forall|k: int| 0 <= k < run.len() implies 0 <= #[trigger] run[k] < bits.len()
        && bits[run[k]] by {}
    law_release_restores(bits, run, run);
}

/// The allocator as a mathematical value: for each frame whether it is free,
/// and the frame at which the next search begins.
pub struct AllocatorView {
    pub frames: Seq<bool>,
    pub hint: int,
}

impl AllocatorView {
    /// The frame that a request for one frame takes: the lowest free one at or
    /// after the hint, or, if there is none there, the lowest free one of all.
    pub open spec fn chosen(self) -> int {
        if next_free(self.frames, self.hint) < self.frames.len() {
            next_free(self.frames, self.hint)
        } else {
            next_free(self.frames, 0)
        }
    }

    /// The allocator after a request for one frame; the same allocator if no
    /// frame is free.
    pub open spec fn after_one(self) -> AllocatorView {
        if count_free(self.frames) == 0 {
            self
        } else {
            AllocatorView {
                frames: self.frames.update(self.chosen(), false),
                hint: next_hint(self.frames.update(self.chosen(), false), self.chosen()),
            }
        }
    }

    /// The allocator after `n` requests for one frame each.
    pub open spec fn after(self, n: nat) -> AllocatorView
        decreases n,
    {
        if n == 0 {
            self
        } else {
            self.after((n - 1) as nat).after_one()
        }
    }

    /// The frame that the request with number `k`, counted from 0, of a series
    /// of requests for one frame takes.
    pub open spec fn nth(self, k: nat) -> int {
        self.after(k).chosen()
    }
}

/// Law: a series of requests for one frame each, as long as free frames
/// last, takes a different frame each time; every frame it takes was free
/// before the series and is taken after it, and no frame becomes free.
pub proof fn law_series_takes_free_frames(view: AllocatorView, n: nat)
    requires
        0 <= view.hint <= view.frames.len(),
        n <= count_free(view.frames),
    ensures
        view.after(n).frames.len() == view.frames.len(),
        0 <= view.after(n).hint <= view.frames.len(),
        count_free(view.after(n).frames) == count_free(view.frames) - n,
        forall|i: int|
            0 <= i < view.frames.len() && view.after(n).frames[i] ==> view.frames[i],
        forall|k: nat|
            k < n ==> 0 <= #[trigger] view.nth(k) < view.frames.len() && view.frames[view.nth(k)]
                && !view.after(n).frames[view.nth(k)],
        forall|j: nat, k: nat| j < k < n ==> view.nth(j) != view.nth(k),
    decreases n,
{
    if n > 0 {
        let m = (n - 1) as nat;
        law_series_takes_free_frames(view, m);
        let before = view.after(m);
        lemma_count_zero(before.frames);
        lemma_next_free(before.frames, before.hint);
        lemma_next_free(before.frames, 0);
        let f = before.chosen();
        lemma_count_update(before.frames, f, false);
        lemma_next_free(before.frames.update(f, false), f + 1);
        lemma_next_free(before.frames.update(f, false), 0);
        assert(view.nth(m) == f);
        assert forall|j: nat, k: nat| j < k < n implies view.nth(j) != view.nth(k) by {
            if k == m {
                assert(!before.frames[view.nth(j)]);
            }
        }
    }
}

/// Requests in a row add up.
pub proof fn lemma_after_adds(view: AllocatorView, a: nat, b: nat)
    ensures
        view.after(a).after(b) == view.after(a + b),
    decreases b,
{
    if b > 0 {
        lemma_after_adds(view, a, (b - 1) as nat);
    }
}

/// One entry of the memory map that the bootloader hands over.
#[derive(Clone, Copy, Debug, PartialEq, Eq)]
pub struct MemoryRegion {
    /// The physical address at which the region begins.
    pub base: u64,
    /// The length of the region in bytes.
    pub length: u64,
    /// Whether the region is ordinary memory that the kernel may hand out.
    pub usable: bool,
}

/// Why no allocator could be made from a memory map.
#[derive(Clone, Copy, Debug, PartialEq, Eq)]
pub enum FrameInitError {
    /// The memory map has no entry.
    NoRegions,
    /// The end of memory, or the bitmap for it, is beyond what the machine can address.
    TooLarge,
    /// No usable region is long enough to host the bitmap.
    NoRoomForBitmap,
    /// The buffer that was handed in has not the length that the bitmap needs.
    BufferSize,
}

/// Where the bitmap goes: the physical address of its buffer and its length in bytes.
#[derive(Clone, Copy, Debug, PartialEq, Eq)]
pub struct BitmapPlacement {
    pub address: u64,
    pub size: usize,
}

/// The first frame of a region.
pub open spec fn first_frame(region: MemoryRegion) -> int {
    region.base as int / FRAME_SIZE as int
}

/// The number of frames that a region brings.
pub open spec fn frame_span(region: MemoryRegion) -> int {
    region.length as int / FRAME_SIZE as int
}

/// The end of memory: where the last region of the map ends.
pub open spec fn memory_size(regions: Seq<MemoryRegion>) -> int {
    regions.last().base + regions.last().length
}

/// The length in bytes of a bitmap with one bit for each frame below the end of memory.
pub open spec fn bitmap_bytes(regions: Seq<MemoryRegion>) -> int {
    (memory_size(regions) / FRAME_SIZE as int + 7) / 8
}

/// Whether a region can host a buffer of `size` bytes.
pub open spec fn fits(region: MemoryRegion, size: int) -> bool {
    region.usable && region.length >= size
}

/// The index of the first region from `from` on that can host a buffer of
/// `size` bytes, or the number of regions if none can.
pub open spec fn first_fit(regions: Seq<MemoryRegion>, size: int, from: int) -> int
    decreases regions.len() - from,
{
    if from < 0 || from >= regions.len() {
        regions.len() as int
    } else if fits(regions[from], size) {
        from
    } else {
        first_fit(regions, size, from + 1)
    }
}

/// The physical address of the bitmap's buffer: the base of the first region
/// that can host it.
pub open spec fn placed_address(regions: Seq<MemoryRegion>) -> u64 {
    regions[first_fit(regions, bitmap_bytes(regions), 0)].base
}

/// Whether some region can host the bitmap's buffer.
pub open spec fn has_room(regions: Seq<MemoryRegion>) -> bool {
    first_fit(regions, bitmap_bytes(regions), 0) < regions.len()
}

/// Whether a map is too large for this machine.
pub open spec fn too_large(regions: Seq<MemoryRegion>) -> bool {
    memory_size(regions) > PHYSICAL_LIMIT || bitmap_bytes(regions) * 8 > usize::MAX
}

/// Whether one of the first `upto` regions is usable and holds frame `frame`.
pub open spec fn covered(regions: Seq<MemoryRegion>, upto: int, frame: int) -> bool
    decreases upto,
{
    if upto <= 0 {
        false
    } else {
        covered(regions, upto - 1, frame) || in_region(regions[upto - 1], frame)
    }
}

/// Whether a region is usable and holds frame `frame`.
pub open spec fn in_region(region: MemoryRegion, frame: int) -> bool {
    region.usable && first_frame(region) <= frame < first_frame(region) + frame_span(region)
}

/// The number of frames that a buffer of `size` bytes takes.
pub open spec fn frames_for(size: int) -> int {
    (size + FRAME_SIZE as int - 1) / FRAME_SIZE as int
}

/// The bitmap right after initialisation: a frame is free if a usable region
/// holds it and the bitmap's own buffer, placed at `address`, does not.
pub open spec fn initial_frames(regions: Seq<MemoryRegion>, address: u64, size: int) -> Seq<
    bool,
> {
    Seq::new(
        (size * 8) as nat,
        |i: int|
            covered(regions, regions.len() as int, i) && !(address as int / FRAME_SIZE as int <= i
                < address as int / FRAME_SIZE as int + frames_for(size)),
    )
}

/// The lowest first frame among the usable ones of the first `upto` regions,
/// or `MAX_FRAMES` if none of them is usable.
pub open spec fn lowest_start(regions: Seq<MemoryRegion>, upto: int) -> int
    decreases upto,
{
    if upto <= 0 {
        MAX_FRAMES as int
    } else if regions[upto - 1].usable && first_frame(regions[upto - 1]) < lowest_start(
        regions,
        upto - 1,
    ) {
        first_frame(regions[upto - 1])
    } else {
        lowest_start(regions, upto - 1)
    }
}

/// The hint right after initialisation: the lowest usable frame, or, where the
/// bitmap's buffer begins there, the frame after the one that follows the
/// buffer; never beyond the end of the bitmap.
pub open spec fn initial_hint(regions: Seq<MemoryRegion>, address: u64, size: int) -> int {
    let lowest = lowest_start(regions, regions.len() as int);
    let own = address as int / FRAME_SIZE as int;
    let hint = if lowest == own {
        own + frames_for(size) + 1
    } else {
        lowest
    };
    if hint < size * 8 {
        hint
    } else {
        size * 8
    }
}

/// Finds the place for the bitmap's buffer: the base of the first usable
/// region that is at least as long as the bitmap.
pub fn bitmap_placement(memory_map: &Vec<MemoryRegion>) -> (placement: Result<
    BitmapPlacement,
    FrameInitError,
>)
    ensures
        placement == Err::<BitmapPlacement, FrameInitError>(FrameInitError::NoRegions)
            <==> memory_map@.len() == 0,
        placement == Err::<BitmapPlacement, FrameInitError>(FrameInitError::TooLarge) <==> (
        memory_map@.len() > 0 && too_large(memory_map@)),
        placement == Err::<BitmapPlacement, FrameInitError>(FrameInitError::NoRoomForBitmap) <==> (
        memory_map@.len() > 0 && !too_large(memory_map@) && !has_room(memory_map@)),
        placement != Err::<BitmapPlacement, FrameInitError>(FrameInitError::BufferSize),
        placement matches Ok(place) ==> {
            &&& place.size == bitmap_bytes(memory_map@)
            &&& place.size * 8 <= usize::MAX
            &&& place.size * 8 <= MAX_FRAMES
            &&& place.address == placed_address(memory_map@)
        },
{
    let n = memory_map.len();
    if n == 0 {
        return Err(FrameInitError::NoRegions);
    }
    let last = memory_map[n - 1];
    assert(last == memory_map@.last());
    if last.length > u64::MAX - last.base {
        return Err(FrameInitError::TooLarge);
    }
    if last.base + last.length > PHYSICAL_LIMIT {
        return Err(FrameInitError::TooLarge);
    }
    let size64: u64 = ((last.base + last.length) / FRAME_SIZE + 7) / 8;
    if size64 > (usize::MAX / 8) as u64 {
        return Err(FrameInitError::TooLarge);
    }
    let size = size64 as usize;
    assert(size == bitmap_bytes(memory_map@));
    assert(!too_large(memory_map@));
    let mut index: usize = 0;
    while index < n
        invariant
            index <= n,
            n == memory_map@.len(),
            n > 0,
            size == size64,
            size == bitmap_bytes(memory_map@),
            size * 8 <= usize::MAX,
            size * 8 <= MAX_FRAMES,
            !too_large(memory_map@),
            first_fit(memory_map@, size as int, index as int) == first_fit(
                memory_map@,
                size as int,
                0,
            ),
        decreases n - index,
    {
        let region = memory_map[index];
        if region.usable && region.length >= size64 {
            return Ok(BitmapPlacement { address: region.base, size });
        }
        index += 1;
    }
    Err(FrameInitError::NoRoomForBitmap)
}

/// The allocator: the bitmap, the count of free frames and the frame at which
/// the next search begins.
pub struct BitmapFrameAllocator {
    bitmap: Bitmap,
    usable_frames: usize,
    next_frame: usize,
}

impl BitmapFrameAllocator {
    /// Makes the allocator for a memory map. `buffer` becomes the bitmap; it
    /// has the length that `bitmap_placement` gives, and is taken to lie at the
    /// address given there, so the frames under it are marked as taken.
    pub fn init(memory_map: &Vec<MemoryRegion>, buffer: Vec<u8>) -> (made: Result<
        Self,
        FrameInitError,
    >)
        ensures
            made matches Err(e) ==> {
                &&& e == FrameInitError::NoRegions <==> memory_map@.len() == 0
                &&& e == FrameInitError::TooLarge <==> memory_map@.len() > 0 && too_large(
                    memory_map@,
                )
                &&& e == FrameInitError::NoRoomForBitmap <==> memory_map@.len() > 0 && !too_large(
                    memory_map@,
                ) && !has_room(memory_map@)
                &&& e == FrameInitError::BufferSize <==> memory_map@.len() > 0 && !too_large(
                    memory_map@,
                ) && has_room(memory_map@) && buffer@.len() != bitmap_bytes(memory_map@)
            },
            made is Ok <==> memory_map@.len() > 0 && !too_large(memory_map@) && has_room(
                memory_map@,
            ) && buffer@.len() == bitmap_bytes(memory_map@),
            made matches Ok(allocator) ==> {
                &&& allocator.wf()
                &&& allocator.frames() == initial_frames(
                    memory_map@,
                    placed_address(memory_map@),
                    bitmap_bytes(memory_map@),
                )
                &&& allocator.hint() == initial_hint(
                    memory_map@,
                    placed_address(memory_map@),
                    bitmap_bytes(memory_map@),
                )
                &&& allocator.usable() == count_free(allocator.frames())
            },
    {
        let place = match bitmap_placement(memory_map) {
            Ok(place) => place,
            Err(e) => {
                return Err(e);
            },
        };
        if buffer.len() != place.size {
            return Err(FrameInitError::BufferSize);
        }
        let ghost regions = memory_map@;
        let n = memory_map.len();
        let bits: usize = place.size * 8;
        let mut bitmap = Bitmap::new(buffer);
        let mut usable: usize = 0;
        let mut lowest: u64 = MAX_FRAMES;
        proof {
            lemma_count_zero(bitmap@);
            assert(bitmap@ =~= Seq::new(bits as nat, |x: int| covered(regions, 0, x)));
        }
        let mut k: usize = 0;
        while k < n
            invariant
                k <= n,
                n == regions.len(),
                regions == memory_map@,
                bits == bitmap@.len(),
                bitmap@ == Seq::new(bits as nat, |x: int| covered(regions, k as int, x)),
                usable == count_free(bitmap@),
                lowest == lowest_start(regions, k as int),
                lowest <= MAX_FRAMES,
            decreases n - k,
        {
            let region = memory_map[k];
            if region.usable {
                let start: u64 = region.base / FRAME_SIZE;
                let span: u64 = region.length / FRAME_SIZE;
                if start < lowest {
                    lowest = start;
                }
                if start < bits as u64 {
                    let stop: usize = if span < bits as u64 - start {
                        (start + span) as usize
                    } else {
                        bits
                    };
                    let mut i: usize = start as usize;
                    while i < stop
                        invariant
                            start <= i <= stop || (stop < start && i == start),
                            stop <= bits,
                            bits == bitmap@.len(),
                            bitmap@ == Seq::new(
                                bits as nat,
                                |x: int| covered(regions, k as int, x) || start <= x < i,
                            ),
                            usable == count_free(bitmap@),
                        decreases stop - i,
                    {
                        proof {
                            lemma_count_update(bitmap@, i as int, true);
                            lemma_count_bound(bitmap@.update(i as int, true));
                        }
                        if !bitmap.get(i) {
                            bitmap.set(i, true);
                            usable = usable + 1;
                        }
                        i += 1;
                        assert(bitmap@ =~= Seq::new(
                            bits as nat,
                            |x: int| covered(regions, k as int, x) || start <= x < i,
                        ));
                    }
                }
            }
            k += 1;
            assert(bitmap@ =~= Seq::new(bits as nat, |x: int| covered(regions, k as int, x)));
        }
        let own: u64 = place.address / FRAME_SIZE;
        let own_count: u64 = ((place.size as u64) + (FRAME_SIZE - 1)) / FRAME_SIZE;
        assert(own_count == frames_for(place.size as int));
        let ghost filled = bitmap@;
        if own < bits as u64 {
            let stop: usize = if own_count < bits as u64 - own {
                (own + own_count) as usize
            } else {
                bits
            };
            let mut i: usize = own as usize;
            while i < stop
                invariant
                    own <= i <= stop || (stop < own && i == own),
                    stop <= bits,
                    bits == bitmap@.len(),
                    bits == filled.len(),
                    bitmap@ == Seq::new(bits as nat, |x: int| filled[x] && !(own <= x < i)),
                    usable == count_free(bitmap@),
                decreases stop - i,
            {
                proof {
                    lemma_count_update(bitmap@, i as int, false);
                }
                if bitmap.get(i) {
                    bitmap.set(i, false);
                    usable = usable - 1;
                }
                i += 1;
                assert(bitmap@ =~= Seq::new(
                    bits as nat,
                    |x: int| filled[x] && !(own <= x < i),
                ));
            }
        }
        let hint: u64 = if lowest == own {
            own + own_count + 1
        } else {
            lowest
        };
        let next_frame: usize = if hint < bits as u64 {
            hint as usize
        } else {
            bits
        };
        assert(bitmap@ =~= initial_frames(regions, place.address, place.size as int));
        Ok(BitmapFrameAllocator { bitmap, usable_frames: usable, next_frame })
    }

    /// One entry for each frame: whether it is free.
    pub closed spec fn frames(&self) -> Seq<bool> {
        self.bitmap@
    }

    /// The number of free frames that the allocator has on record.
    pub closed spec fn usable(&self) -> nat {
        self.usable_frames as nat
    }

    /// The frame at which the next search begins.
    pub closed spec fn hint(&self) -> int {
        self.next_frame as int
    }

    /// The record agrees with the bitmap, and every frame has an address.
    pub closed spec fn wf(&self) -> bool {
        &&& self.bitmap@.len() <= usize::MAX
        &&& self.bitmap@.len() <= MAX_FRAMES
        &&& self.next_frame <= self.bitmap@.len()
        &&& self.usable_frames == count_free(self.bitmap@)
    }

    /// The allocator as a mathematical value.
    pub open spec fn state(&self) -> AllocatorView {
        AllocatorView { frames: self.frames(), hint: self.hint() }
    }

    /// Law: in a well-formed allocator the number of free frames on record is
    /// the number of set bits of the bitmap, and the hint lies within the
    /// bitmap or at its end.
    pub proof fn law_record_matches_bitmap(&self)
        requires
            self.wf(),
        ensures
            self.usable() == count_free(self.frames()),
            0 <= self.hint() <= self.frames().len(),
            self.frames().len() <= MAX_FRAMES,
            self.frames().len() <= usize::MAX,
    {
    }

    /// The number of frames that the bitmap covers.
    pub fn frame_count(&self) -> (n: usize)
        requires
            self.wf(),
        ensures
            n == self.frames().len(),
    {
        self.bitmap.len() * 8
    }

    /// The number of free frames.
    pub fn usable_frames(&self) -> (n: usize)
        requires
            self.wf(),
        ensures
            n == self.usable(),
            n == count_free(self.frames()),
    {
        self.usable_frames
    }

    /// Whether the frame that holds physical address `address` is free.
    pub fn is_free(&self, address: u64) -> (free: bool)
        requires
            self.wf(),
        ensures
            free == (address / FRAME_SIZE < self.frames().len() && self.frames()[(address
                / FRAME_SIZE) as int]),
    {
        let index = address / FRAME_SIZE;
        let count = self.frame_count();
        if index < count as u64 {
            self.bitmap.get(index as usize)
        } else {
            false
        }
    }

    /// Marks the `cnt` frames from `base` on as taken.
    fn take_range(&mut self, base: usize, cnt: usize)
        requires
            old(self).wf(),
            window_free(old(self).frames(), base as int, cnt as int),
        ensures
            final(self).frames() == clear_range(old(self).frames(), base as int, cnt as int),
            final(self).usable() == old(self).usable() - cnt,
            final(self).hint() == old(self).hint(),
            final(self).wf(),
    {
        let mut i: usize = base;
        while i < base + cnt
            invariant
                base <= i <= base + cnt,
                base + cnt <= old(self).bitmap@.len(),
                self.bitmap@ == clear_range(old(self).bitmap@, base as int, i - base),
                self.usable_frames + (i - base) == old(self).usable_frames,
                self.next_frame == old(self).next_frame,
                self.wf(),
                old(self).wf(),
                window_free(old(self).bitmap@, base as int, cnt as int),
            decreases base + cnt - i,
        {
            proof {
                lemma_count_update(self.bitmap@, i as int, false);
                lemma_count_bound(self.bitmap@.update(i as int, false));
            }
            let ghost before = self.bitmap@;
            self.bitmap.set(i, false);
            self.usable_frames = self.usable_frames - 1;
            i += 1;
            assert(self.bitmap@ =~= clear_range(old(self).bitmap@, base as int, i - base));
        }
    }

    /// The lowest run of `cnt` free frames that begins at or after `from`.
    fn find_window(&self, from: usize, cnt: usize) -> (base: Option<usize>)
        requires
            self.wf(),
            cnt > 0,
            from <= self.frames().len(),
        ensures
            base is Some <==> has_window(self.frames(), from as int, cnt as int),
            base matches Some(b) ==> is_first_window(
                self.frames(),
                from as int,
                cnt as int,
                b as int,
            ),
    {
        let ghost bits = self.bitmap@;
        let end = self.bitmap.len() * 8;
        let mut start = from;
        let mut next = from;
        let mut found = false;
        while next < end && !found
            invariant
                self.bitmap@ == bits,
                end == bits.len(),
                cnt > 0,
                from <= start <= next <= end,
                forall|i: int| start <= i < next ==> bits[i],
                found ==> next - start == cnt,
                !found ==> next - start < cnt,
                forall|b: int| from <= b < start ==> !window_free(bits, b, cnt as int),
            decreases end - next + (if found { 0int } else { 1int }),
        {
            if self.bitmap.get(next) {
                next += 1;
                if next - start == cnt {
                    found = true;
                }
            } else {
                proof {
                    assert forall|b: int| from <= b < next + 1 implies !window_free(
                        bits,
                        b,
                        cnt as int,
                    ) by {
                        if b >= start {
                            assert(b <= next < b + cnt);
                            assert(!bits[next as int]);
                        }
                    }
                }
                next += 1;
                start = next;
            }
        }
        if !found {
            proof {
                assert forall|b: int| from <= b implies !window_free(bits, b, cnt as int) by {
                    if b >= start {
                        assert(b + cnt > end);
                    }
                }
            }
            return None;
        }
        proof {
            assert(window_free(bits, start as int, cnt as int));
            assert(is_first_window(bits, from as int, cnt as int, start as int));
        }
        Some(start)
    }

    /// Allocates `cnt` frames that lie next to each other and returns the
    /// physical address of the first. The search begins at the hint and takes
    /// the lowest run from there; if there is none up to the end of the
    /// bitmap, it takes the lowest run of all. So it fails only when no such
    /// run exists. A request for no frame at all is answered with `None`.
    pub fn allocate_frames(&mut self, cnt: usize) -> (base: Option<u64>)
        requires
            old(self).wf(),
        ensures
            final(self).wf(),
            base is Some <==> (cnt > 0 && has_window(old(self).frames(), 0, cnt as int)),
            base is None ==> {
                &&& final(self).frames() == old(self).frames()
                &&& final(self).usable() == old(self).usable()
                &&& final(self).hint() == old(self).hint()
            },
            base matches Some(address) ==> {
                &&& address % FRAME_SIZE == 0
                &&& is_chosen_window(
                    old(self).frames(),
                    old(self).hint(),
                    cnt as int,
                    (address / FRAME_SIZE) as int,
                )
                &&& final(self).frames() == clear_range(
                    old(self).frames(),
                    (address / FRAME_SIZE) as int,
                    cnt as int,
                )
                &&& final(self).usable() == old(self).usable() - cnt
                &&& final(self).hint() == if address / FRAME_SIZE == old(self).hint() {
                    old(self).hint() + cnt
                } else {
                    old(self).hint()
                }
            },
    {
        if cnt == 0 {
            return None;
        }
        let ghost bits = self.bitmap@;
        let start = match self.find_window(self.next_frame, cnt) {
            Some(start) => start,
            None => {
                match self.find_window(0, cnt) {
                    Some(start) => start,
                    None => {
                        return None;
                    },
                }
            },
        };
        proof {
            lemma_window_counts(bits, start as int, cnt as int);
            if has_window(bits, self.next_frame as int, cnt as int) {
                let b = choose|b: int| self.next_frame <= b && window_free(bits, b, cnt as int);
                assert(0 <= b && window_free(bits, b, cnt as int));
            }
        }
        self.take_range(start, cnt);
        if start == self.next_frame {
            self.next_frame = start + cnt;
        }
        let address = (start as u64) * FRAME_SIZE;
        proof {
            assert(start < MAX_FRAMES);
            assert(address / FRAME_SIZE == start);
            assert(address % FRAME_SIZE == 0);
        }
        Some(address)
    }

    /// The lowest free frame at or after `from`, or the number of frames.
    fn find_free(&self, from: usize) -> (found: usize)
        requires
            self.wf(),
            from <= self.frames().len(),
        ensures
            found == next_free(self.frames(), from as int),
    {
        let end = self.bitmap.len() * 8;
        let mut index = from;
        while index < end && !self.bitmap.get(index)
            invariant
                self.wf(),
                end == self.bitmap@.len(),
                from <= index <= end,
                next_free(self.bitmap@, index as int) == next_free(self.bitmap@, from as int),
            decreases end - index,
        {
            index += 1;
        }
        index
    }

    /// Allocates one frame and returns its physical address, or `None` when no
    /// frame is free. The hint moves to the next free frame after the one taken.
    pub fn allocate_frame(&mut self) -> (frame: Option<u64>)
        requires
            old(self).wf(),
        ensures
            final(self).wf(),
            frame is Some <==> old(self).usable() > 0,
            frame is None ==> {
                &&& final(self).frames() == old(self).frames()
                &&& final(self).usable() == old(self).usable()
                &&& final(self).hint() == old(self).hint()
            },
            frame matches Some(address) ==> {
                &&& address % FRAME_SIZE == 0
                &&& address / FRAME_SIZE == old(self).state().chosen()
                &&& final(self).state() == old(self).state().after_one()
                &&& address / FRAME_SIZE < old(self).frames().len()
                &&& old(self).frames()[(address / FRAME_SIZE) as int]
                &&& final(self).frames() == old(self).frames().update(
                    (address / FRAME_SIZE) as int,
                    false,
                )
                &&& final(self).usable() == old(self).usable() - 1
                &&& final(self).hint() == next_hint(
                    final(self).frames(),
                    (address / FRAME_SIZE) as int,
                )
                &&& final(self).usable() > 0 ==> final(self).hint() < final(self).frames().len()
                    && final(self).frames()[final(self).hint()]
            },
    {
        if self.usable_frames == 0 {
            return None;
        }
        let ghost bits = self.bitmap@;
        let end = self.bitmap.len() * 8;
        let mut index = self.find_free(self.next_frame);
        proof {
            lemma_next_free(bits, self.next_frame as int);
        }
        if index >= end {
            index = self.find_free(0);
            proof {
                lemma_next_free(bits, 0);
                lemma_count_zero(bits);
            }
        }
        proof {
            lemma_count_update(bits, index as int, false);
            lemma_next_free(bits, index + 1);
        }
        self.bitmap.set(index, false);
        self.usable_frames = self.usable_frames - 1;
        self.next_frame = index + 1;
        let mut after = self.find_free(index + 1);
        proof {
            lemma_next_free(self.bitmap@, index + 1);
        }
        if after >= end {
            self.next_frame = 0;
            after = self.find_free(0);
            proof {
                lemma_next_free(self.bitmap@, 0);
                lemma_count_zero(self.bitmap@);
            }
        }
        self.next_frame = after;
        let address = (index as u64) * FRAME_SIZE;
        proof {
            assert(address / FRAME_SIZE == index);
            assert(address % FRAME_SIZE == 0);
        }
        Some(address)
    }

    /// Allocates `n` frames one after the other and returns their physical
    /// addresses in the order of allocation; `None`, with nothing changed, if
    /// fewer than `n` frames are free.
    pub fn allocate_many(&mut self, n: usize) -> (frames: Option<Vec<u64>>)
        requires
            old(self).wf(),
        ensures
            final(self).wf(),
            frames is Some <==> n <= old(self).usable(),
            frames is None ==> final(self).state() == old(self).state(),
            frames matches Some(list) ==> {
                &&& list@.len() == n
                &&& final(self).state() == old(self).state().after(n as nat)
                &&& final(self).usable() == old(self).usable() - n
                &&& forall|k: int|
                    0 <= k < n ==> #[trigger] list@[k] == old(self).state().nth(k as nat)
                        * FRAME_SIZE
            },
    {
        if n > self.usable_frames {
            return None;
        }
        let ghost start = self.state();
        let mut list: Vec<u64> = Vec::new();
        let mut k: usize = 0;
        while k < n
            invariant
                k <= n,
                n <= old(self).usable(),
                start == old(self).state(),
                old(self).wf(),
                self.wf(),
                self.state() == start.after(k as nat),
                self.usable() == old(self).usable() - k,
                list@.len() == k,
                forall|j: int| 0 <= j < k ==> #[trigger] list@[j] == start.nth(j as nat) * FRAME_SIZE,
            decreases n - k,
        {
            let frame = self.allocate_frame();
            match frame {
                Some(address) => {
                    proof {
                        assert(address == start.nth(k as nat) * FRAME_SIZE);
                    }
                    list.push(address);
                },
                None => unreached(),
            }
            k += 1;
        }
        Some(list)
    }

    /// Gives the frame that holds physical address `address` back. A frame
    /// that is free already stays free.
    pub fn deallocate_frame(&mut self, address: u64)
        requires
            old(self).wf(),
            address / FRAME_SIZE < old(self).frames().len(),
        ensures
            final(self).wf(),
            final(self).frames() == old(self).frames().update(
                (address / FRAME_SIZE) as int,
                true,
            ),
            final(self).usable() == count_free(final(self).frames()),
            final(self).hint() == old(self).hint(),
    {
        let index = (address / FRAME_SIZE) as usize;
        proof {
            lemma_count_update(self.bitmap@, index as int, true);
            lemma_count_bound(self.bitmap@.update(index as int, true));
        }
        if !self.bitmap.get(index) {
            self.bitmap.set(index, true);
            self.usable_frames = self.usable_frames + 1;
        } else {
            assert(self.bitmap@ =~= self.bitmap@.update(index as int, true));
        }
    }
}

} // verus!
