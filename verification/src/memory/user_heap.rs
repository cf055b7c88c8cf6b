//! The heap of a user process: a range of virtual addresses at a fixed place
//! that grows page by page. The book-keeping of the arena inside that range
//! is another's; this module says which pages the range has, which frames
//! back them, and when the range must grow.

use crate::memory::address::{page_containing, user_page_flags, PAGE_SIZE, USER_PAGE_FLAGS};
use crate::memory::frame::{release_all, AllocatorView, BitmapFrameAllocator, FRAME_SIZE};
use vstd::prelude::*;

verus! {

/// The virtual address at which every user heap begins: 20 TiB.
pub const HEAP_START: u64 = 0x1400_0000_0000;

/// The size that a user heap begins with: 128 KiB.
pub const USER_HEAP_INIT_SIZE: usize = 131072;

/// The size beyond which a heap does not grow, so that it stays in the lower
/// half of the address space.
pub const HEAP_LIMIT: u64 = 0x6c00_0000_0000;

/// Whose heap it is.
#[derive(Debug, Clone, Copy, PartialEq, Eq)]
pub enum HeapType {
    /// The kernel's process, which has no heap of this kind.
    Kernel,
    /// A user process.
    User,
}

/// A page to be mapped: its virtual address, the physical address of the
/// frame behind it, and the flags of the entry.
#[derive(Debug, Clone, Copy, PartialEq, Eq)]
pub struct PageMapping {
    pub page: u64,
    pub frame: u64,
    pub flags: u64,
}

/// What a growth of the heap asks of the caller: the arena, which held
/// `old_size` bytes from `HEAP_START` on, gets `bytes` more, and the pages of
/// `mappings` are to be mapped.
#[derive(Debug, PartialEq, Eq)]
pub struct Growth {
    pub old_size: usize,
    pub bytes: usize,
    pub mappings: Vec<PageMapping>,
}

/// What follows an attempt to allocate from the arena.
#[derive(Debug, PartialEq, Eq)]
pub enum HeapStep {
    /// The arena had room: the allocation lies at this address, inside the heap.
    Done(u64),
    /// The arena was full, and the heap has grown, once, by the pages that
    /// twice the size asked for takes: the arena is to be extended and the
    /// pages mapped as the growth says, and the attempt is to be made once
    /// more.
    Grown(Growth),
    /// The arena was full and the heap could not grow.
    Exhausted,
    /// The arena answered with this address, at which the bytes asked for do
    /// not lie inside the heap.
    Misplaced(u64),
}

/// Whether `size` bytes at `address` lie inside a heap of `heap_size` bytes.
pub open spec fn lies_in_heap(address: u64, size: usize, heap_size: usize) -> bool {
    HEAP_START <= address && address + size <= HEAP_START + heap_size
}

/// The number of pages that `bytes` bytes take.
pub open spec fn pages_for(bytes: int) -> int {
    (bytes + PAGE_SIZE as int - 1) / PAGE_SIZE as int
}

/// The mappings of the heap pages from byte `from` of the heap on, one for
/// each of `frames`.
pub open spec fn heap_mappings(from: int, frames: Seq<u64>) -> Seq<PageMapping> {
    Seq::new(
        frames.len(),
        |i: int|
            PageMapping {
                page: (HEAP_START + from + i * PAGE_SIZE) as u64,
                frame: frames[i],
                flags: USER_PAGE_FLAGS,
            },
    )
}

/// The physical addresses of the frames that `n` requests for one frame take.
pub open spec fn frames_taken(view: AllocatorView, n: nat) -> Seq<u64> {
    Seq::new(n, |k: int| (view.nth(k as nat) * FRAME_SIZE) as u64)
}

/// The frame numbers of physical addresses.
pub open spec fn frame_numbers(addresses: Seq<u64>) -> Seq<int> {
    Seq::new(addresses.len(), |i: int| (addresses[i] / FRAME_SIZE) as int)
}

/// `a - b`, or 0 where that is negative.
pub open spec fn minus(a: usize, b: usize) -> usize {
    if a >= b {
        (a - b) as usize
    } else {
        0
    }
}

/// `a + b`, or the highest number where that is beyond it.
pub open spec fn plus(a: usize, b: usize) -> usize {
    if a + b <= usize::MAX {
        (a + b) as usize
    } else {
        usize::MAX
    }
}

/// The heap of one process.
pub struct ProcessHeap {
    heap_type: HeapType,
    size: usize,
    usable_size: usize,
}

impl ProcessHeap {
    /// Whose heap it is.
    pub closed spec fn kind(&self) -> HeapType {
        self.heap_type
    }

    /// The bytes of address space that the heap has.
    pub closed spec fn size(&self) -> usize {
        self.size
    }

    /// The bytes of the heap that are not handed out.
    pub closed spec fn usable_size(&self) -> usize {
        self.usable_size
    }

    /// The heap is made of whole pages and ends in the lower half of the
    /// address space.
    pub open spec fn wf(&self) -> bool {
        &&& self.size() % 4096 == 0
        &&& self.size() <= HEAP_LIMIT
    }

    /// The heap of a new process: 128 KiB for a user process, nothing for the
    /// kernel's.
    pub fn new(heap_type: HeapType) -> (heap: Self)
        ensures
            heap.wf(),
            heap.kind() == heap_type,
            heap.size() == match heap_type {
                HeapType::Kernel => 0usize,
                HeapType::User => USER_HEAP_INIT_SIZE,
            },
            heap.usable_size() == heap.size(),
    {
        let size = match heap_type {
            HeapType::Kernel => 0,
            HeapType::User => USER_HEAP_INIT_SIZE,
        };
        Self { heap_type, size, usable_size: size }
    }

    /// The bytes of address space that the heap has.
    pub fn len(&self) -> (size: usize)
        ensures
            size == self.size(),
    {
        self.size
    }

    /// The bytes of the heap that are not handed out.
    pub fn usable(&self) -> (size: usize)
        ensures
            size == self.usable_size(),
    {
        self.usable_size
    }

    /// Whether the heap is a user process's.
    pub fn is_user(&self) -> (user: bool)
        ensures
            user == (self.kind() is User),
    {
        match self.heap_type {
            HeapType::User => true,
            HeapType::Kernel => false,
        }
    }

    /// Turns frames into the mappings of the heap pages from byte `from` on.
    fn mappings_from(from: usize, frames: &Vec<u64>) -> (mappings: Vec<PageMapping>)
        requires
            HEAP_START + from + frames@.len() * PAGE_SIZE <= 0x8000_0000_0000,
            from % 4096 == 0,
        ensures
            mappings@ == heap_mappings(from as int, frames@),
    {
        let n = frames.len();
        let mut mappings: Vec<PageMapping> = Vec::new();
        let mut i: usize = 0;
        while i < n
            invariant
                i <= n,
                n == frames@.len(),
                HEAP_START + from + n * PAGE_SIZE <= 0x8000_0000_0000,
                from % 4096 == 0,
                mappings@ == heap_mappings(from as int, frames@.take(i as int)),
            decreases n - i,
        {
            let address = HEAP_START + from as u64 + (i as u64) * PAGE_SIZE;
            let page = page_containing(address);
            assert(page == address);
            mappings.push(PageMapping { page, frame: frames[i], flags: user_page_flags() });
            i += 1;
            assert(mappings@ =~= heap_mappings(from as int, frames@.take(i as int)));
        }
        assert(frames@.take(n as int) =~= frames@);
        mappings
    }

    /// The pages that a new heap begins with: for a user process one page for
    /// each 4 KiB of the initial size, each backed by a newly allocated frame;
    /// for the kernel's process none. `None`, with nothing allocated, if the
    /// frames are not to be had.
    pub fn init(&self, allocator: &mut BitmapFrameAllocator) -> (mappings: Option<Vec<PageMapping>>)
        requires
            old(allocator).wf(),
        ensures
            final(allocator).wf(),
            self.kind() is Kernel ==> final(allocator).state() == old(allocator).state() && (
            mappings matches Some(list) && list@.len() == 0),
            self.kind() is User ==> {
                &&& mappings is Some <==> old(allocator).usable() >= USER_HEAP_INIT_SIZE
                    / 4096
                &&& mappings is None ==> final(allocator).state() == old(allocator).state()
                &&& mappings matches Some(list) ==> {
                    &&& final(allocator).state() == old(allocator).state().after(
                        (USER_HEAP_INIT_SIZE / 4096) as nat,
                    )
                    &&& final(allocator).usable() == old(allocator).usable() - USER_HEAP_INIT_SIZE
                        / 4096
                    &&& list@ == heap_mappings(
                        0,
                        frames_taken(old(allocator).state(), (USER_HEAP_INIT_SIZE / 4096) as nat),
                    )
                }
            },
    {
        match self.heap_type {
            HeapType::User => {
                match allocator.allocate_many(USER_HEAP_INIT_SIZE / 4096) {
                    Some(frames) => {
                        assert(frames@ =~= frames_taken(
                            old(allocator).state(),
                            (USER_HEAP_INIT_SIZE / 4096) as nat,
                        ));
                        Some(Self::mappings_from(0, &frames))
                    },
                    None => None,
                }
            },
            HeapType::Kernel => Some(Vec::new()),
        }
    }

    /// Whether the heap can grow by `bytes` bytes with the frames that
    /// `allocator` has: the pages fit below the heap's limit and there is a
    /// free frame for each.
    pub open spec fn can_grow(&self, bytes: usize, allocator: AllocatorView, usable: nat) -> bool {
        &&& self.size() + pages_for(bytes as int) * PAGE_SIZE <= HEAP_LIMIT
        &&& self.size() + pages_for(bytes as int) * PAGE_SIZE <= usize::MAX
        &&& pages_for(bytes as int) <= usable
    }

    /// Grows the heap by the pages that `bytes` bytes take: each gets a newly
    /// allocated frame and is to be mapped at the end of the heap, writable and
    /// open to user mode. `None`, with nothing changed, if the heap cannot grow
    /// so far.
    pub fn sbrk(&mut self, bytes: usize, allocator: &mut BitmapFrameAllocator) -> (growth: Option<
        Growth,
    >)
        requires
            old(self).wf(),
            old(allocator).wf(),
        ensures
            final(self).wf(),
            final(allocator).wf(),
            final(self).kind() == old(self).kind(),
            growth is Some <==> old(self).can_grow(
                bytes,
                old(allocator).state(),
                old(allocator).usable(),
            ),
            growth is None ==> {
                &&& final(self).size() == old(self).size()
                &&& final(self).usable_size() == old(self).usable_size()
                &&& final(allocator).state() == old(allocator).state()
            },
            growth matches Some(grown) ==> {
                &&& grown.old_size == old(self).size()
                &&& grown.bytes == bytes
                &&& grown.mappings@ == heap_mappings(
                    old(self).size() as int,
                    frames_taken(old(allocator).state(), pages_for(bytes as int) as nat),
                )
                &&& final(self).size() == old(self).size() + pages_for(bytes as int) * PAGE_SIZE
                &&& final(self).usable_size() == plus(
                    old(self).usable_size(),
                    (pages_for(bytes as int) * PAGE_SIZE) as usize,
                )
                &&& final(allocator).state() == old(allocator).state().after(
                    pages_for(bytes as int) as nat,
                )
                &&& final(allocator).usable() == old(allocator).usable() - pages_for(bytes as int)
            },
    {
        if bytes > usize::MAX - 4095 {
            return None;
        }
        let page_cnt = (bytes + 4095) / 4096;
        let added = page_cnt * 4096;
        if added > usize::MAX - self.size || (self.size + added) as u64 > HEAP_LIMIT {
            return None;
        }
        match allocator.allocate_many(page_cnt) {
            Some(frames) => {
                assert(frames@ =~= frames_taken(old(allocator).state(), page_cnt as nat));
                let mappings = Self::mappings_from(self.size, &frames);
                let old_size = self.size;
                self.size = self.size + added;
                self.usable_size = if self.usable_size <= usize::MAX - added {
                    self.usable_size + added
                } else {
                    usize::MAX
                };
                Some(Growth { old_size, bytes, mappings })
            },
            None => None,
        }
    }

    /// Whether `size` bytes at `address` lie inside the heap.
    pub fn holds(&self, address: u64, size: usize) -> (inside: bool)
        ensures
            inside == lies_in_heap(address, size, self.size()),
    {
        address >= HEAP_START && address - HEAP_START <= self.size as u64 && size as u64
            <= self.size as u64 - (address - HEAP_START)
    }

    /// What follows the first attempt to allocate `size` bytes from the
    /// arena. `attempt` is what the arena answered. If it had room, the bytes
    /// are booked as handed out. If not, the heap grows by the pages that
    /// twice the size asked for takes, exactly once, which is room for the
    /// bytes asked for; the attempt is then to be repeated.
    pub fn allocate(
        &mut self,
        size: usize,
        attempt: Option<u64>,
        allocator: &mut BitmapFrameAllocator,
    ) -> (step: HeapStep)
        requires
            old(self).wf(),
            old(self).kind() is User,
            size <= isize::MAX,
            old(allocator).wf(),
        ensures
            final(self).wf(),
            final(allocator).wf(),
            final(self).kind() == old(self).kind(),
            attempt matches Some(address) ==> {
                &&& final(self).size() == old(self).size()
                &&& final(allocator).state() == old(allocator).state()
                &&& step == if lies_in_heap(address, size, old(self).size()) {
                    HeapStep::Done(address)
                } else {
                    HeapStep::Misplaced(address)
                }
                &&& final(self).usable_size() == if lies_in_heap(
                    address,
                    size,
                    old(self).size(),
                ) {
                    minus(old(self).usable_size(), size)
                } else {
                    old(self).usable_size()
                }
            },
            attempt is None && !old(self).can_grow(
                (2 * size) as usize,
                old(allocator).state(),
                old(allocator).usable(),
            ) ==> {
                &&& step == HeapStep::Exhausted
                &&& final(self).size() == old(self).size()
                &&& final(self).usable_size() == old(self).usable_size()
                &&& final(allocator).state() == old(allocator).state()
            },
            attempt is None && old(self).can_grow(
                (2 * size) as usize,
                old(allocator).state(),
                old(allocator).usable(),
            ) ==> {
                &&& step matches HeapStep::Grown(grown)
                &&& grown.old_size == old(self).size()
                &&& grown.bytes == 2 * size
                &&& grown.mappings@ == heap_mappings(
                    old(self).size() as int,
                    frames_taken(old(allocator).state(), pages_for(2 * size) as nat),
                )
                &&& final(self).size() == old(self).size() + pages_for(2 * size) * PAGE_SIZE
                &&& final(self).size() >= old(self).size() + 2 * size
                &&& lies_in_heap((HEAP_START + old(self).size()) as u64, size, final(self).size())
                &&& final(self).usable_size() == plus(
                    old(self).usable_size(),
                    (pages_for(2 * size) * PAGE_SIZE) as usize,
                )
                &&& final(allocator).state() == old(allocator).state().after(
                    pages_for(2 * size) as nat,
                )
            },
    {
        match attempt {
            Some(address) => {
                if self.holds(address, size) {
                    self.book(size);
                    HeapStep::Done(address)
                } else {
                    HeapStep::Misplaced(address)
                }
            },
            None => {
                match self.sbrk(size * 2, allocator) {
                    Some(growth) => HeapStep::Grown(growth),
                    None => HeapStep::Exhausted,
                }
            },
        }
    }

    /// Books `size` bytes as handed out.
    fn book(&mut self, size: usize)
        ensures
            final(self).kind() == old(self).kind(),
            final(self).size() == old(self).size(),
            final(self).usable_size() == minus(old(self).usable_size(), size),
    {
        self.usable_size = if self.usable_size >= size {
            self.usable_size - size
        } else {
            0
        };
    }

    /// Ends an allocation of `size` bytes that had to wait for the heap to
    /// grow: the arena has now answered with `address`. If the bytes lie
    /// inside the heap, they are booked as handed out and the address is the
    /// result; if not, nothing is booked.
    pub fn allocate_after_growth(&mut self, size: usize, address: u64) -> (allocated: Option<u64>)
        requires
            old(self).kind() is User,
        ensures
            allocated == if lies_in_heap(address, size, old(self).size()) {
                Some(address)
            } else {
                None
            },
            final(self).kind() == old(self).kind(),
            final(self).size() == old(self).size(),
            final(self).usable_size() == if lies_in_heap(address, size, old(self).size()) {
                minus(old(self).usable_size(), size)
            } else {
                old(self).usable_size()
            },
    {
        if self.holds(address, size) {
            self.book(size);
            Some(address)
        } else {
            None
        }
    }

    /// Books `size` bytes at `address` as given back to the arena. The pages
    /// stay mapped.
    pub fn deallocate(&mut self, address: u64, size: usize)
        requires
            old(self).kind() is User,
            address != 0,
        ensures
            final(self).kind() == old(self).kind(),
            final(self).size() == old(self).size(),
            final(self).usable_size() == plus(old(self).usable_size(), size),
    {
        self.usable_size = if self.usable_size <= usize::MAX - size {
            self.usable_size + size
        } else {
            usize::MAX
        };
    }

    /// The virtual addresses of the heap's pages, lowest first.
    pub fn pages(&self) -> (pages: Vec<u64>)
        requires
            self.wf(),
        ensures
            pages@ == Seq::new(
                (self.size() / 4096) as nat,
                |i: int| (HEAP_START + i * PAGE_SIZE) as u64,
            ),
    {
        let n = self.size / 4096;
        let mut pages: Vec<u64> = Vec::new();
        let mut i: usize = 0;
        while i < n
            invariant
                i <= n,
                n == self.size() / 4096,
                self.wf(),
                pages@ == Seq::new(i as nat, |k: int| (HEAP_START + k * PAGE_SIZE) as u64),
            decreases n - i,
        {
            let address = HEAP_START + (i as u64) * PAGE_SIZE;
            let page = page_containing(address);
            assert(page == address);
            pages.push(page);
            i += 1;
            assert(pages@ =~= Seq::new(i as nat, |k: int| (HEAP_START + k * PAGE_SIZE) as u64));
        }
        pages
    }

    /// Empties the heap when its process ends. `frames` holds the physical
    /// addresses of the frames that unmapping the heap's pages gave back; each
    /// is handed to the allocator again, and the heap is left with no size.
    pub fn clear(&mut self, frames: &Vec<u64>, allocator: &mut BitmapFrameAllocator)
        requires
            old(allocator).wf(),
            forall|i: int|
                0 <= i < frames@.len() ==> (#[trigger] frames@[i]) / FRAME_SIZE < old(allocator).frames().len(),
        ensures
            final(self).wf(),
            final(self).kind() == old(self).kind(),
            final(self).size() == 0,
            final(self).usable_size() == 0,
            final(allocator).wf(),
            final(allocator).frames() == release_all(
                old(allocator).frames(),
                frame_numbers(frames@),
            ),
            final(allocator).hint() == old(allocator).hint(),
    {
        let n = frames.len();
        let mut i: usize = 0;
        while i < n
            invariant
                i <= n,
                n == frames@.len(),
                allocator.wf(),
                allocator.frames().len() == old(allocator).frames().len(),
                allocator.hint() == old(allocator).hint(),
                forall|k: int|
                    0 <= k < frames@.len() ==> (#[trigger] frames@[k]) / FRAME_SIZE < old(allocator).frames().len(),
                allocator.frames() == release_all(
                    old(allocator).frames(),
                    frame_numbers(frames@).take(i as int),
                ),
            decreases n - i,
        {
            proof {
                assert(frame_numbers(frames@).take(i + 1).drop_last() =~= frame_numbers(
                    frames@,
                ).take(i as int));
            }
            allocator.deallocate_frame(frames[i]);
            i += 1;
        }
        proof {
            assert(frame_numbers(frames@).take(n as int) =~= frame_numbers(frames@));
        }
        self.size = 0;
        self.usable_size = 0;
    }
}

} // verus!
