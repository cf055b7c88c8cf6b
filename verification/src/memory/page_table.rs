//! Page tables: the tables themselves as the kernel sees them through the
//! direct map, the copy that every process gets of the kernel's tables, and
//! the decisions around mapping and around copying bytes between address
//! spaces.

use crate::memory::address::{
    convert_physical_to_virtual, flags_huge, is_canonical, HUGE_PAGE, PRESENT,
};
use crate::memory::frame::{lemma_after_adds, AllocatorView, BitmapFrameAllocator, FRAME_SIZE};
use vstd::pervasive::unreached;
use vstd::prelude::*;

verus! {

/// The number of entries in a page table.
pub const ENTRY_COUNT: usize = 512;

/// The number of levels of page tables.
pub const LEVELS: u8 = 4;

/// One entry of a page table: the physical address it points to and its flags.
#[derive(Debug, Clone, Copy, PartialEq, Eq)]
pub struct PageTableEntry {
    pub addr: u64,
    pub flags: u64,
}

impl PageTableEntry {
    /// Whether the entry is all zero.
    pub open spec fn unused(self) -> bool {
        self.addr == 0 && self.flags == 0
    }

    /// Whether the entry maps a huge page.
    pub open spec fn huge(self) -> bool {
        self.flags & HUGE_PAGE != 0
    }

    /// Whether a copy of the table that holds the entry, at level `level`,
    /// takes the entry over as it is: it is an entry of a level-1 table, or
    /// unused, or maps a huge page. Every other entry points to a table of the
    /// next level, which the copy gets a table of its own for.
    pub open spec fn shared(self, level: nat) -> bool {
        level <= 1 || self.unused() || self.huge()
    }

    /// Whether the entry is all zero.
    pub fn is_unused(&self) -> (unused: bool)
        ensures
            unused == self.unused(),
    {
        self.addr == 0 && self.flags == 0
    }

    /// Whether a copy of the table that holds the entry, at level `level`,
    /// takes the entry over as it is.
    pub fn is_shared(&self, level: u8) -> (shared: bool)
        ensures
            shared == self.shared(level as nat),
    {
        level <= 1 || self.is_unused() || flags_huge(self.flags)
    }
}

/// The handle of an address space: the physical address of its level-4 table.
#[derive(Debug, Clone, Copy, PartialEq, Eq)]
pub struct GeneralPageTable {
    pub physical_address: u64,
}

/// Why an address space could not be copied.
#[derive(Debug, Clone, Copy, PartialEq, Eq)]
pub enum CloneError {
    /// A table that the copy would have to read is not among the tables known.
    MissingTable,
    /// A known table lies in a frame that the allocator holds to be free.
    TableInFreeFrame,
    /// There are not enough free frames for the tables of the copy.
    OutOfMemory,
}

/// The tables below the table at `s`: whether each one that the entries point
/// to, level by level, is among the tables of `tables` and has all its entries.
pub open spec fn complete(tables: Map<u64, Seq<PageTableEntry>>, s: u64, level: nat) -> bool
    decreases level,
{
    &&& tables.contains_key(s)
    &&& tables[s].len() == ENTRY_COUNT
    &&& level > 1 ==> forall|i: int|
        0 <= i < ENTRY_COUNT && !(#[trigger] tables[s][i]).shared(level) ==> complete(
            tables,
            tables[s][i].addr,
            (level - 1) as nat,
        )
}

/// The number of tables that the first `upto` entries of the table at `s`
/// lead to, directly or through further tables.
pub open spec fn below(tables: Map<u64, Seq<PageTableEntry>>, s: u64, level: nat, upto: nat) -> nat
    decreases level, upto,
{
    if upto == 0 || level <= 1 {
        0
    } else {
        below(tables, s, level, (upto - 1) as nat) + if tables[s][upto - 1].shared(level) {
            0
        } else {
            1 + below(tables, tables[s][upto - 1].addr, (level - 1) as nat, ENTRY_COUNT as nat)
        }
    }
}

/// The most tables that one entry of a table of level `level` can lead to.
pub open spec fn fan(level: nat) -> nat
    decreases level,
{
    if level <= 1 {
        0
    } else {
        1 + ENTRY_COUNT as nat * fan((level - 1) as nat)
    }
}

/// A table leads to no more tables than its entries allow.
pub proof fn lemma_below_bound(
    tables: Map<u64, Seq<PageTableEntry>>,
    s: u64,
    level: nat,
    upto: nat,
)
    ensures
        below(tables, s, level, upto) <= upto * fan(level),
    decreases level, upto,
{
    if upto == 0 || level <= 1 {
    } else {
        lemma_below_bound(tables, s, level, (upto - 1) as nat);
        lemma_below_bound(
            tables,
            tables[s][upto - 1].addr,
            (level - 1) as nat,
            ENTRY_COUNT as nat,
        );
        assert((upto - 1) * fan(level) + fan(level) == upto * fan(level)) by (nonlinear_arith);
    }
}

/// More entries lead to no fewer tables.
pub proof fn lemma_below_rises(
    tables: Map<u64, Seq<PageTableEntry>>,
    s: u64,
    level: nat,
    a: nat,
    b: nat,
)
    requires
        a <= b,
    ensures
        below(tables, s, level, a) <= below(tables, s, level, b),
    decreases b,
{
    if a < b && level > 1 {
        lemma_below_rises(tables, s, level, a, (b - 1) as nat);
    }
}

/// Whether the table at `t` in `copy` is a copy of the table at `s` in
/// `tables`, made when the allocator was `view`: an entry that is shared is
/// the same in both; any other has the same flags and points to a table in
/// the frame that the allocator handed out for it, which in turn is a copy of
/// the table that the source's entry points to. The frames are handed out in
/// the order in which the entries stand, each table's own before those of the
/// tables below it.
pub open spec fn is_copy(
    tables: Map<u64, Seq<PageTableEntry>>,
    s: u64,
    copy: Map<u64, Seq<PageTableEntry>>,
    t: u64,
    level: nat,
    view: AllocatorView,
) -> bool
    decreases level,
{
    &&& copy.contains_key(t)
    &&& copy[t].len() == ENTRY_COUNT
    &&& forall|i: int|
        0 <= i < ENTRY_COUNT ==> entry_copied(tables, s, copy, #[trigger] copy[t][i], i, level, view)
}

/// Whether `made` is what a copy has in the place of entry `i` of the table at
/// `s`; see `is_copy`.
pub open spec fn entry_copied(
    tables: Map<u64, Seq<PageTableEntry>>,
    s: u64,
    copy: Map<u64, Seq<PageTableEntry>>,
    made: PageTableEntry,
    i: int,
    level: nat,
    view: AllocatorView,
) -> bool
    decreases level, 0nat,
{
    let entry = tables[s][i];
    if entry.shared(level) {
        made == entry
    } else {
        &&& made.flags == entry.flags
        &&& made.addr == view.nth(below(tables, s, level, i as nat)) * FRAME_SIZE
        &&& is_copy(
            tables,
            entry.addr,
            copy,
            made.addr,
            (level - 1) as nat,
            view.after(below(tables, s, level, i as nat) + 1),
        )
    }
}

/// A copy stays a copy when more tables become known.
pub proof fn lemma_copy_extends(
    tables: Map<u64, Seq<PageTableEntry>>,
    s: u64,
    copy: Map<u64, Seq<PageTableEntry>>,
    more: Map<u64, Seq<PageTableEntry>>,
    t: u64,
    level: nat,
    view: AllocatorView,
)
    requires
        is_copy(tables, s, copy, t, level, view),
        extends(copy, more),
    ensures
        is_copy(tables, s, more, t, level, view),
    decreases level,
{
    assert forall|i: int| 0 <= i < ENTRY_COUNT implies entry_copied(
        tables,
        s,
        more,
        #[trigger] more[t][i],
        i,
        level,
        view,
    ) by {
        assert(entry_copied(tables, s, copy, copy[t][i], i, level, view));
        let entry = tables[s][i];
        if !entry.shared(level) {
            lemma_copy_extends(
                tables,
                entry.addr,
                copy,
                more,
                copy[t][i].addr,
                (level - 1) as nat,
                view.after(below(tables, s, level, i as nat) + 1),
            );
        }
    }
}

/// What a copy has in the place of an entry stays right when more tables
/// become known.
pub proof fn lemma_entry_extends(
    tables: Map<u64, Seq<PageTableEntry>>,
    s: u64,
    copy: Map<u64, Seq<PageTableEntry>>,
    more: Map<u64, Seq<PageTableEntry>>,
    made: PageTableEntry,
    i: int,
    level: nat,
    view: AllocatorView,
)
    requires
        entry_copied(tables, s, copy, made, i, level, view),
        extends(copy, more),
    ensures
        entry_copied(tables, s, more, made, i, level, view),
{
    let entry = tables[s][i];
    if !entry.shared(level) {
        lemma_copy_extends(
            tables,
            entry.addr,
            copy,
            more,
            made.addr,
            (level - 1) as nat,
            view.after(below(tables, s, level, i as nat) + 1),
        );
    }
}

/// Whether `more` has every table of `tables`, with the same entries.
pub open spec fn extends(
    tables: Map<u64, Seq<PageTableEntry>>,
    more: Map<u64, Seq<PageTableEntry>>,
) -> bool {
    forall|k: u64| #[trigger] tables.contains_key(k) ==> more.contains_key(k) && more[k] == tables[k]
}

/// Whether frame address `k` names a frame that exists and is not free.
pub open spec fn taken(frames: Seq<bool>, k: u64) -> bool {
    k % FRAME_SIZE == 0 && k / FRAME_SIZE < frames.len() && !frames[(k / FRAME_SIZE) as int]
}

/// Whether frame address `k` names a frame that exists and is free.
pub open spec fn free_at(frames: Seq<bool>, k: u64) -> bool {
    k % FRAME_SIZE == 0 && k / FRAME_SIZE < frames.len() && frames[(k / FRAME_SIZE) as int]
}

/// The values of `fan` for the levels that exist.
pub proof fn lemma_fan()
    ensures
        fan(1) == 0,
        fan(2) == 1,
        fan(3) == 513,
        fan(4) == 262657,
{
    assert(fan(1) == 0);
    assert(fan(2) == 1 + 512 * fan(1));
    assert(fan(3) == 1 + 512 * fan(2));
    assert(fan(4) == 1 + 512 * fan(3));
}

/// The page tables that the kernel knows, each under the physical address of
/// the frame that holds it.
pub struct TableMemory {
    frames: Vec<u64>,
    tables: Vec<Vec<PageTableEntry>>,
}

/// The position of the first of `frames` from `from` on that equals `frame`,
/// or the number of frames.
pub open spec fn frame_position(frames: Seq<u64>, frame: u64, from: int) -> int
    decreases frames.len() - from,
{
    if from < 0 || from >= frames.len() {
        frames.len() as int
    } else if frames[from] == frame {
        from
    } else {
        frame_position(frames, frame, from + 1)
    }
}

/// What `frame_position` finds.
pub proof fn lemma_frame_position(frames: Seq<u64>, frame: u64, from: int)
    requires
        0 <= from <= frames.len(),
    ensures
        from <= frame_position(frames, frame, from) <= frames.len(),
        frame_position(frames, frame, from) < frames.len() ==> frames[frame_position(
            frames,
            frame,
            from,
        )] == frame,
        forall|j: int| from <= j < frame_position(frames, frame, from) ==> frames[j] != frame,
    decreases frames.len() - from,
{
    if from < frames.len() && frames[from] != frame {
        lemma_frame_position(frames, frame, from + 1);
    }
}

/// Where a frame stands in two lists put together: where it stands in the
/// first, or, if it is not there, behind the first where it stands in the second.
pub proof fn lemma_position_joined(a: Seq<u64>, b: Seq<u64>, frame: u64, from: int)
    requires
        0 <= from <= a.len() + b.len(),
    ensures
        frame_position(a + b, frame, from) == if from <= a.len() && frame_position(a, frame, from)
            < a.len() {
            frame_position(a, frame, from)
        } else if from <= a.len() {
            a.len() + frame_position(b, frame, 0)
        } else {
            a.len() + frame_position(b, frame, from - a.len())
        },
    decreases a.len() + b.len() - from,
{
    let joined = a + b;
    if from < joined.len() {
        if from < a.len() {
            assert(joined[from] == a[from]);
        } else {
            assert(joined[from] == b[from - a.len()]);
        }
        if joined[from] != frame {
            lemma_position_joined(a, b, frame, from + 1);
        }
    }
}

impl View for TableMemory {
    type V = Map<u64, Seq<PageTableEntry>>;

    closed spec fn view(&self) -> Map<u64, Seq<PageTableEntry>> {
        Map::new(
            |frame: u64| frame_position(self.frames@, frame, 0) < self.frames@.len(),
            |frame: u64| self.tables@[frame_position(self.frames@, frame, 0)]@,
        )
    }
}

/// Whether every table lies in a frame that exists, begins at a frame's
/// start, and is not free.
pub open spec fn reserved(tables: Map<u64, Seq<PageTableEntry>>, frames: Seq<bool>) -> bool {
    forall|k: u64| #[trigger]
        tables.contains_key(k) ==> k % FRAME_SIZE == 0 && k / FRAME_SIZE < frames.len()
            && !frames[(k / FRAME_SIZE) as int]
}

impl TableMemory {
    /// Every table has its 512 entries, and no frame holds two tables.
    pub closed spec fn wf(&self) -> bool {
        &&& self.frames@.len() == self.tables@.len()
        &&& forall|i: int, j: int|
            0 <= i < j < self.frames@.len() ==> self.frames@[i] != self.frames@[j]
        &&& forall|i: int| 0 <= i < self.tables@.len() ==> (#[trigger] self.tables@[i])@.len()
            == ENTRY_COUNT
    }

    /// In a well-formed memory every table has 512 entries.
    pub proof fn lemma_wf(&self)
        requires
            self.wf(),
        ensures
            forall|k: u64| #[trigger] self@.contains_key(k) ==> self@[k].len() == ENTRY_COUNT,
    {
        assert forall|k: u64| #[trigger] self@.contains_key(k) implies self@[k].len()
            == ENTRY_COUNT by {
            lemma_frame_position(self.frames@, k, 0);
        }
    }

    /// A memory without a table.
    pub fn new() -> (memory: Self)
        ensures
            memory.wf(),
            memory@ == Map::<u64, Seq<PageTableEntry>>::empty(),
            memory.spec_len() == 0,
    {
        let memory = TableMemory { frames: Vec::new(), tables: Vec::new() };
        assert(memory@ =~= Map::<u64, Seq<PageTableEntry>>::empty());
        memory
    }

    /// The position of the table in frame `frame`, or the number of tables.
    fn find(&self, frame: u64) -> (position: usize)
        requires
            self.wf(),
        ensures
            position == frame_position(self.frames@, frame, 0),
            position <= self.frames@.len(),
            self@.contains_key(frame) <==> position < self.frames@.len(),
            position < self.frames@.len() ==> self.frames@[position as int] == frame
                && self@[frame] == self.tables@[position as int]@,
    {
        let n = self.frames.len();
        let mut position: usize = 0;
        while position < n && self.frames[position] != frame
            invariant
                position <= n,
                n == self.frames@.len(),
                frame_position(self.frames@, frame, position as int) == frame_position(
                    self.frames@,
                    frame,
                    0,
                ),
            decreases n - position,
        {
            position += 1;
        }
        position
    }

    /// Whether a table in frame `frame` is known.
    pub fn contains(&self, frame: u64) -> (known: bool)
        requires
            self.wf(),
        ensures
            known == self@.contains_key(frame),
    {
        self.find(frame) < self.frames.len()
    }

    /// The number of tables.
    pub fn len(&self) -> (n: usize)
        ensures
            n == self.spec_len(),
    {
        self.frames.len()
    }

    /// The number of tables.
    pub closed spec fn spec_len(&self) -> nat {
        self.frames@.len()
    }

    /// Entry `index` of the table in frame `frame`.
    pub fn entry(&self, frame: u64, index: usize) -> (entry: Option<PageTableEntry>)
        requires
            self.wf(),
        ensures
            entry == if self@.contains_key(frame) && index < ENTRY_COUNT {
                Some(self@[frame][index as int])
            } else {
                None
            },
    {
        let position = self.find(frame);
        if position < self.frames.len() && index < ENTRY_COUNT {
            Some(self.tables[position][index])
        } else {
            None
        }
    }

    /// Makes the table in frame `frame` known, with the entries `entries`.
    /// The result says whether that was done: it is not if a table in that
    /// frame is known already or the entries are not 512.
    pub fn load(&mut self, frame: u64, entries: Vec<PageTableEntry>) -> (done: bool)
        requires
            old(self).wf(),
        ensures
            final(self).wf(),
            done == (!old(self)@.contains_key(frame) && entries@.len() == ENTRY_COUNT),
            done ==> final(self)@ == old(self)@.insert(frame, entries@),
            done ==> final(self).spec_len() == old(self).spec_len() + 1,
            !done ==> final(self)@ == old(self)@ && final(self).spec_len() == old(self).spec_len(),
    {
        if entries.len() != ENTRY_COUNT || self.find(frame) < self.frames.len() {
            return false;
        }
        proof {
            lemma_frame_position(self.frames@, frame, 0);
        }
        self.frames.push(frame);
        self.tables.push(entries);
        proof {
            let before = old(self).frames@;
            let after = self.frames@;
            assert forall|k: u64| #[trigger] self@.contains_key(k) <==> old(self)@.insert(
                frame,
                entries@,
            ).contains_key(k) by {
                lemma_frame_position(before, k, 0);
                lemma_frame_position(after, k, 0);
                assert(after[before.len() as int] == frame);
                if frame_position(before, k, 0) < before.len() {
                    assert(after[frame_position(before, k, 0)] == k);
                }
                if frame_position(after, k, 0) < after.len() && k != frame {
                    assert(frame_position(after, k, 0) < before.len());
                    assert(before[frame_position(after, k, 0)] == k);
                }
            }
            assert forall|k: u64| #[trigger] self@.contains_key(k) implies self@[k] == old(
                self,
            )@.insert(frame, entries@)[k] by {
                lemma_frame_position(before, k, 0);
                lemma_frame_position(after, k, 0);
                assert(after[before.len() as int] == frame);
                if k != frame {
                    assert(frame_position(after, k, 0) < before.len());
                    assert(before[frame_position(after, k, 0)] == k);
                    assert(after[frame_position(before, k, 0)] == k);
                    assert(frame_position(before, k, 0) == frame_position(after, k, 0));
                } else {
                    assert(frame_position(after, k, 0) == before.len());
                }
            }
            assert(self@ =~= old(self)@.insert(frame, entries@));
        }
        true
    }

    /// Writes entry `index` of the table in frame `frame`. The result says
    /// whether that was done: it is not if no such table is known or the table
    /// has no such entry.
    pub fn set_entry(&mut self, frame: u64, index: usize, entry: PageTableEntry) -> (done: bool)
        requires
            old(self).wf(),
        ensures
            final(self).wf(),
            done == (old(self)@.contains_key(frame) && index < ENTRY_COUNT),
            done ==> final(self)@ == old(self)@.insert(
                frame,
                old(self)@[frame].update(index as int, entry),
            ),
            !done ==> final(self)@ == old(self)@,
            final(self).spec_len() == old(self).spec_len(),
    {
        let position = self.find(frame);
        if position >= self.frames.len() || index >= ENTRY_COUNT {
            return false;
        }
        let mut table = self.tables[position].clone();
        table.set(index, entry);
        self.tables.set(position, table);
        proof {
            let frames = self.frames@;
            assert forall|k: u64| #[trigger] self@.contains_key(k) implies self@[k] == old(
                self,
            )@.insert(frame, old(self)@[frame].update(index as int, entry))[k] by {
                lemma_frame_position(frames, k, 0);
                lemma_frame_position(frames, frame, 0);
            }
            assert(self@ =~= old(self)@.insert(
                frame,
                old(self)@[frame].update(index as int, entry),
            ));
        }
        true
    }

    /// Whether every table below the one in frame `s`, which is of level
    /// `level`, is known, and if so, how many they are.
    fn survey(&self, s: u64, level: u8) -> (count: Option<usize>)
        requires
            self.wf(),
            1 <= level <= LEVELS,
        ensures
            count is Some <==> complete(self@, s, level as nat),
            count matches Some(n) ==> n == below(self@, s, level as nat, ENTRY_COUNT as nat),
        decreases level,
    {
        let position = self.find(s);
        if position >= self.frames.len() {
            return None;
        }
        if level == 1 {
            return Some(0);
        }
        let mut total: usize = 0;
        let mut i: usize = 0;
        while i < ENTRY_COUNT
            invariant
                i <= ENTRY_COUNT,
                self.wf(),
                2 <= level <= LEVELS,
                position < self.frames@.len(),
                self.frames@[position as int] == s,
                self@.contains_key(s),
                self@[s] == self.tables@[position as int]@,
                self@[s].len() == ENTRY_COUNT,
                total == below(self@, s, level as nat, i as nat),
                forall|j: int|
                    0 <= j < i && !(#[trigger] self@[s][j]).shared(level as nat) ==> complete(
                        self@,
                        self@[s][j].addr,
                        (level - 1) as nat,
                    ),
            decreases ENTRY_COUNT - i,
        {
            let entry = self.tables[position][i];
            proof {
                lemma_below_bound(self@, s, level as nat, (i + 1) as nat);
                lemma_fan();
                assert((i + 1) * fan(level as nat) <= 512 * 262657) by (nonlinear_arith)
                    requires
                        i + 1 <= 512,
                        fan(level as nat) <= 262657,
                ;
            }
            if !entry.is_shared(level) {
                match self.survey(entry.addr, level - 1) {
                    None => {
                        return None;
                    },
                    Some(n) => {
                        total = total + 1 + n;
                    },
                }
            }
            i += 1;
        }
        Some(total)
    }

    /// Copies the table in frame `s` of `source`, which is of level `level`,
    /// and the tables below it. The copy of the table itself goes to frame
    /// `target`; each table below gets a newly allocated frame. The new tables
    /// are added to `self`.
    fn new_from_recursion(
        &mut self,
        allocator: &mut BitmapFrameAllocator,
        source: &TableMemory,
        s: u64,
        target: u64,
        level: u8,
    )
        requires
            old(self).wf(),
            old(allocator).wf(),
            source.wf(),
            1 <= level <= LEVELS,
            complete(source@, s, level as nat),
            below(source@, s, level as nat, ENTRY_COUNT as nat) <= old(allocator).usable(),
            !old(self)@.contains_key(target),
            taken(old(allocator).frames(), target),
            reserved(old(self)@, old(allocator).frames()),
        ensures
            final(self).wf(),
            final(allocator).wf(),
            final(allocator).state() == old(allocator).state().after(
                below(source@, s, level as nat, ENTRY_COUNT as nat),
            ),
            final(allocator).usable() == old(allocator).usable() - below(
                source@,
                s,
                level as nat,
                ENTRY_COUNT as nat,
            ),
            final(allocator).frames().len() == old(allocator).frames().len(),
            forall|x: int|
                0 <= x < final(allocator).frames().len() && final(allocator).frames()[x] ==> old(
                    allocator,
                ).frames()[x],
            extends(old(self)@, final(self)@),
            is_copy(source@, s, final(self)@, target, level as nat, old(allocator).state()),
            reserved(final(self)@, final(allocator).frames()),
            forall|k: u64| #[trigger]
                final(self)@.contains_key(k) && !old(self)@.contains_key(k) ==> k == target
                    || free_at(old(allocator).frames(), k),
            final(self).spec_len() == old(self).spec_len() + 1 + below(
                source@,
                s,
                level as nat,
                ENTRY_COUNT as nat,
            ),
        decreases level,
    {
        let ghost v0 = allocator.state();
        let ghost src = source@;
        let ghost lv = level as nat;
        let mut entries: Vec<PageTableEntry> = Vec::new();
        let mut i: usize = 0;
        proof {
            source.lemma_wf();
        }
        while i < ENTRY_COUNT
            invariant
                i <= ENTRY_COUNT,
                1 <= level <= LEVELS,
                lv == level as nat,
                src == source@,
                v0 == old(allocator).state(),
                source.wf(),
                self.wf(),
                allocator.wf(),
                old(allocator).wf(),
                complete(src, s, lv),
                below(src, s, lv, ENTRY_COUNT as nat) <= old(allocator).usable(),
                entries@.len() == i,
                allocator.state() == v0.after(below(src, s, lv, i as nat)),
                allocator.usable() == old(allocator).usable() - below(src, s, lv, i as nat),
                allocator.frames().len() == old(allocator).frames().len(),
                forall|x: int|
                    0 <= x < allocator.frames().len() && allocator.frames()[x] ==> old(
                        allocator,
                    ).frames()[x],
                extends(old(self)@, self@),
                reserved(self@, allocator.frames()),
                !self@.contains_key(target),
                taken(allocator.frames(), target),
                forall|j: int|
                    0 <= j < i ==> entry_copied(src, s, self@, #[trigger] entries@[j], j, lv, v0),
                forall|k: u64| #[trigger]
                    self@.contains_key(k) && !old(self)@.contains_key(k) ==> free_at(
                        old(allocator).frames(),
                        k,
                    ),
                self.spec_len() == old(self).spec_len() + below(src, s, lv, i as nat),
            decreases ENTRY_COUNT - i,
        {
            let entry = match source.entry(s, i) {
                Some(entry) => entry,
                None => unreached(),
            };
            proof {
                lemma_below_rises(src, s, lv, (i + 1) as nat, ENTRY_COUNT as nat);
            }
            if entry.is_shared(level) {
                entries.push(entry);
                assert(entry.shared(lv));
            } else {
                let ghost before = self@;
                let ghost state = allocator.state();
                let ghost bits = allocator.frames();
                assert(!entry.shared(lv));
                assert(complete(src, entry.addr, (lv - 1) as nat));
                let child = match allocator.allocate_frame() {
                    Some(child) => child,
                    None => unreached(),
                };
                proof {
                    assert(child == v0.nth(below(src, s, lv, i as nat)) * FRAME_SIZE);
                    assert(free_at(bits, child));
                    assert(!self@.contains_key(child));
                    assert(taken(allocator.frames(), child));
                    assert(child != target);
                    lemma_after_adds(v0, below(src, s, lv, i as nat), 1);
                    assert(allocator.state() == v0.after(below(src, s, lv, i as nat) + 1));
                }
                let ghost entered = allocator.state();
                let ghost entered_bits = allocator.frames();
                self.new_from_recursion(allocator, source, entry.addr, child, level - 1);
                let made = PageTableEntry { addr: child, flags: entry.flags };
                proof {
                    let inner = below(src, entry.addr, (lv - 1) as nat, ENTRY_COUNT as nat);
                    lemma_after_adds(v0, below(src, s, lv, i as nat) + 1, inner);
                    assert(below(src, s, lv, (i + 1) as nat) == below(src, s, lv, i as nat) + 1
                        + inner);
                    assert forall|j: int| 0 <= j < i implies entry_copied(
                        src,
                        s,
                        self@,
                        #[trigger] entries@[j],
                        j,
                        lv,
                        v0,
                    ) by {
                        lemma_entry_extends(src, s, before, self@, entries@[j], j, lv, v0);
                    }
                    assert(entry_copied(src, s, self@, made, i as int, lv, v0));
                    assert forall|k: u64| #[trigger]
                        self@.contains_key(k) && !old(self)@.contains_key(k) implies free_at(
                        old(allocator).frames(),
                        k,
                    ) by {
                        if !before.contains_key(k) {
                            if k != child {
                                assert(free_at(entered_bits, k));
                            }
                        }
                    }
                    assert(!self@.contains_key(target)) by {
                        if self@.contains_key(target) {
                            assert(!before.contains_key(target));
                            assert(free_at(entered_bits, target));
                        }
                    }
                }
                entries.push(made);
            }
            i += 1;
        }
        let ghost before = self@;
        let done = self.load(target, entries);
        proof {
            assert(done);
            assert forall|j: int| 0 <= j < ENTRY_COUNT implies entry_copied(
                src,
                s,
                self@,
                #[trigger] self@[target][j],
                j,
                lv,
                v0,
            ) by {
                assert(self@[target][j] == entries@[j]);
                lemma_entry_extends(src, s, before, self@, entries@[j], j, lv, v0);
            }
        }
    }

    /// Takes over the tables of `other`, none of which lies in a frame that
    /// holds a table of `self`.
    fn absorb(&mut self, other: TableMemory)
        requires
            old(self).wf(),
            other.wf(),
            forall|k: u64| #[trigger] other@.contains_key(k) ==> !old(self)@.contains_key(k),
        ensures
            final(self).wf(),
            extends(old(self)@, final(self)@),
            extends(other@, final(self)@),
            forall|k: u64| #[trigger]
                final(self)@.contains_key(k) ==> old(self)@.contains_key(k) || other@.contains_key(
                    k,
                ),
            final(self).spec_len() == old(self).spec_len() + other.spec_len(),
    {
        let mut other = other;
        let ghost a = self.frames@;
        let ghost b = other.frames@;
        let ghost ta = self.tables@;
        let ghost tb = other.tables@;
        let ghost theirs = other@;
        self.frames.append(&mut other.frames);
        self.tables.append(&mut other.tables);
        proof {
            assert(self.frames@ == a + b);
            assert(self.tables@ == ta + tb);
            assert forall|k: u64|
                (#[trigger] self@.contains_key(k) <==> old(self)@.contains_key(k)
                    || theirs.contains_key(k)) && (old(self)@.contains_key(k) ==> self@[k] == old(
                    self,
                )@[k]) && (theirs.contains_key(k) ==> self@[k] == theirs[k]) by {
                lemma_position_joined(a, b, k, 0);
                lemma_frame_position(a, k, 0);
                lemma_frame_position(b, k, 0);
            }
            assert forall|i: int, j: int| 0 <= i < j < self.frames@.len() implies self.frames@[i]
                != self.frames@[j] by {
                if i < a.len() && j >= a.len() {
                    let k = b[j - a.len()];
                    lemma_frame_position(b, k, 0);
                    lemma_frame_position(a, k, 0);
                    assert(theirs.contains_key(k));
                    if a[i] == k {
                        assert(old(self)@.contains_key(k));
                    }
                } else if i >= a.len() {
                    assert(b[i - a.len()] != b[j - a.len()]);
                }
            }
        }
    }

    /// Whether every table lies in a frame that `allocator` holds to be taken.
    pub fn is_reserved(&self, allocator: &BitmapFrameAllocator) -> (held: bool)
        requires
            self.wf(),
            allocator.wf(),
        ensures
            held == reserved(self@, allocator.frames()),
    {
        let n = self.frames.len();
        let count = allocator.frame_count();
        let mut i: usize = 0;
        while i < n
            invariant
                i <= n,
                n == self.frames@.len(),
                self.wf(),
                allocator.wf(),
                count == allocator.frames().len(),
                forall|j: int|
                    0 <= j < i ==> (#[trigger] self.frames@[j]) % FRAME_SIZE == 0
                        && self.frames@[j] / FRAME_SIZE < allocator.frames().len()
                        && !allocator.frames()[(self.frames@[j] / FRAME_SIZE) as int],
            decreases n - i,
        {
            let frame = self.frames[i];
            if frame % FRAME_SIZE != 0 || frame / FRAME_SIZE >= count as u64 || allocator.is_free(
                frame,
            ) {
                proof {
                    lemma_frame_position(self.frames@, frame, 0);
                    assert(self@.contains_key(frame));
                }
                return false;
            }
            i += 1;
        }
        proof {
            assert forall|k: u64| #[trigger] self@.contains_key(k) implies k % FRAME_SIZE == 0 && k
                / FRAME_SIZE < allocator.frames().len() && !allocator.frames()[(k
                / FRAME_SIZE) as int] by {
                lemma_frame_position(self.frames@, k, 0);
                let j = frame_position(self.frames@, k, 0);
                assert(self.frames@[j] == k);
            }
        }
        true
    }
}

/// Whether the byte `i` bytes after `address` has a canonical address.
pub open spec fn byte_exists(address: u64, i: int) -> bool {
    address + i <= u64::MAX && is_canonical((address + i) as u64)
}

/// A table without a used entry.
pub open spec fn empty_table() -> Seq<PageTableEntry> {
    Seq::new(ENTRY_COUNT as nat, |i: int| PageTableEntry { addr: 0, flags: 0 })
}

/// Why a page was not mapped, as the mapper reports it.
#[derive(Debug, Clone, Copy, PartialEq, Eq)]
pub enum MapToError {
    /// No frame was to be had for a table that the mapping needs.
    FrameAllocationFailed,
    /// The page lies in a huge page that is mapped already.
    ParentEntryHugePage,
    /// The page is mapped already, to the frame at this physical address.
    PageAlreadyMapped(u64),
}

/// What is to be done after a first attempt to map a page.
#[derive(Debug, Clone, Copy, PartialEq, Eq)]
pub enum MapAction {
    /// The page is mapped: its entry in the translation cache is flushed.
    Flush,
    /// The page lies in a huge page: nothing is done.
    Nothing,
    /// The page was mapped before: it is unmapped and flushed, then mapped to
    /// the new frame and flushed once more. The caller's mapping wins.
    Remap,
    /// The kernel is out of frames, which it does not survive.
    OutOfMemory,
}

impl GeneralPageTable {
    /// Makes an address space with one table, the level-4 table, in a newly
    /// allocated frame, with no entry used.
    pub fn new(allocator: &mut BitmapFrameAllocator, memory: &mut TableMemory) -> (made: Result<
        Self,
        CloneError,
    >)
        requires
            old(allocator).wf(),
            old(memory).wf(),
        ensures
            final(allocator).wf(),
            final(memory).wf(),
            made != Err::<Self, CloneError>(CloneError::MissingTable),
            made == Err::<Self, CloneError>(CloneError::TableInFreeFrame) <==> !reserved(
                old(memory)@,
                old(allocator).frames(),
            ),
            made == Err::<Self, CloneError>(CloneError::OutOfMemory) <==> reserved(
                old(memory)@,
                old(allocator).frames(),
            ) && old(allocator).usable() == 0,
            made is Err ==> final(memory)@ == old(memory)@ && final(allocator).state() == old(
                allocator,
            ).state(),
            made matches Ok(table) ==> {
                &&& table.physical_address == old(allocator).state().chosen() * FRAME_SIZE
                &&& !old(memory)@.contains_key(table.physical_address)
                &&& final(memory)@ == old(memory)@.insert(table.physical_address, empty_table())
                &&& final(allocator).state() == old(allocator).state().after_one()
                &&& reserved(final(memory)@, final(allocator).frames())
            },
    {
        if !memory.is_reserved(allocator) {
            return Err(CloneError::TableInFreeFrame);
        }
        match allocator.allocate_frame() {
            Some(frame) => {
                let entries = vec![PageTableEntry { addr: 0, flags: 0 }; ENTRY_COUNT];
                assert(entries@ =~= empty_table());
                assert(free_at(old(allocator).frames(), frame));
                let done = memory.load(frame, entries);
                assert(done);
                Ok(GeneralPageTable { physical_address: frame })
            },
            None => Err(CloneError::OutOfMemory),
        }
    }

    /// Makes a copy of the address space whose level-4 table lies at
    /// `physical_address`. The copy has tables of its own at every level, in
    /// newly allocated frames; what the tables map, the frames of pages, it
    /// shares with the source. Nothing is changed unless the copy is made.
    pub fn new_from_address(
        allocator: &mut BitmapFrameAllocator,
        memory: &mut TableMemory,
        physical_address: u64,
    ) -> (made: Result<Self, CloneError>)
        requires
            old(allocator).wf(),
            old(memory).wf(),
        ensures
            final(allocator).wf(),
            final(memory).wf(),
            made == Err::<Self, CloneError>(CloneError::TableInFreeFrame) <==> !reserved(
                old(memory)@,
                old(allocator).frames(),
            ),
            made == Err::<Self, CloneError>(CloneError::MissingTable) <==> reserved(
                old(memory)@,
                old(allocator).frames(),
            ) && !complete(old(memory)@, physical_address, LEVELS as nat),
            made == Err::<Self, CloneError>(CloneError::OutOfMemory) <==> reserved(
                old(memory)@,
                old(allocator).frames(),
            ) && complete(old(memory)@, physical_address, LEVELS as nat) && old(
                allocator,
            ).usable() < 1 + below(
                old(memory)@,
                physical_address,
                LEVELS as nat,
                ENTRY_COUNT as nat,
            ),
            made is Err ==> final(memory)@ == old(memory)@ && final(allocator).state() == old(
                allocator,
            ).state(),
            made matches Ok(table) ==> {
                &&& table.physical_address == old(allocator).state().nth(0) * FRAME_SIZE
                &&& !old(memory)@.contains_key(table.physical_address)
                &&& extends(old(memory)@, final(memory)@)
                &&& is_copy(
                    old(memory)@,
                    physical_address,
                    final(memory)@,
                    table.physical_address,
                    LEVELS as nat,
                    old(allocator).state().after(1),
                )
                &&& final(allocator).state() == old(allocator).state().after(
                    1 + below(old(memory)@, physical_address, LEVELS as nat, ENTRY_COUNT as nat),
                )
                &&& forall|k: u64| #[trigger]
                    final(memory)@.contains_key(k) && !old(memory)@.contains_key(k) ==> free_at(
                        old(allocator).frames(),
                        k,
                    )
                &&& final(memory).spec_len() == old(memory).spec_len() + 1 + below(
                    old(memory)@,
                    physical_address,
                    LEVELS as nat,
                    ENTRY_COUNT as nat,
                )
                &&& reserved(final(memory)@, final(allocator).frames())
            },
    {
        if !memory.is_reserved(allocator) {
            return Err(CloneError::TableInFreeFrame);
        }
        let count = match memory.survey(physical_address, LEVELS) {
            Some(count) => count,
            None => {
                return Err(CloneError::MissingTable);
            },
        };
        if allocator.usable_frames() <= count {
            return Err(CloneError::OutOfMemory);
        }
        let ghost v0 = allocator.state();
        let ghost tables = memory@;
        let root = match allocator.allocate_frame() {
            Some(root) => root,
            None => unreached(),
        };
        proof {
            assert(free_at(old(allocator).frames(), root));
            assert(v0.after(1) == v0.after(0).after_one());
            lemma_after_adds(v0, 1, count as nat);
        }
        let mut created = TableMemory::new();
        created.new_from_recursion(allocator, &*memory, physical_address, root, LEVELS);
        let ghost made = created@;
        proof {
            assert forall|k: u64| #[trigger] made.contains_key(k) implies !tables.contains_key(
                k,
            ) by {
                if k != root {
                    assert(free_at(old(allocator).frames(), k));
                }
            }
        }
        memory.absorb(created);
        proof {
            lemma_copy_extends(
                tables,
                physical_address,
                made,
                memory@,
                root,
                LEVELS as nat,
                v0.after(1),
            );
            assert(root == v0.nth(0) * FRAME_SIZE);
            assert(!tables.contains_key(root));
            assert forall|k: u64| #[trigger]
                memory@.contains_key(k) && !tables.contains_key(k) implies free_at(
                old(allocator).frames(),
                k,
            ) by {
                assert(made.contains_key(k));
            }
            assert(reserved(memory@, allocator.frames())) by {
                assert forall|k: u64| #[trigger] memory@.contains_key(k) implies taken(
                    allocator.frames(),
                    k,
                ) by {
                    if tables.contains_key(k) {
                        assert(taken(old(allocator).frames(), k));
                    } else {
                        assert(made.contains_key(k));
                    }
                }
            }
        }
        Ok(GeneralPageTable { physical_address: root })
    }

    /// What follows the first attempt to map a page: see `MapAction`.
    pub fn map_to_with_table_flags_general(result: Result<(), MapToError>) -> (action: MapAction)
        ensures
            action == match result {
                Ok(_) => MapAction::Flush,
                Err(MapToError::ParentEntryHugePage) => MapAction::Nothing,
                Err(MapToError::PageAlreadyMapped(_)) => MapAction::Remap,
                Err(MapToError::FrameAllocationFailed) => MapAction::OutOfMemory,
            },
    {
        match result {
            Ok(_) => MapAction::Flush,
            Err(MapToError::ParentEntryHugePage) => MapAction::Nothing,
            Err(MapToError::PageAlreadyMapped(_)) => MapAction::Remap,
            Err(MapToError::FrameAllocationFailed) => MapAction::OutOfMemory,
        }
    }

    /// The virtual addresses of `len` bytes from `address` on, or `None` if
    /// they do not all exist or are not all canonical.
    pub fn byte_addresses(address: u64, len: usize) -> (addresses: Option<Vec<u64>>)
        ensures
            addresses is Some <==> forall|i: int| 0 <= i < len ==> #[trigger] byte_exists(address, i),
            addresses matches Some(list) ==> list@ == Seq::new(
                len as nat,
                |i: int| (address + i) as u64,
            ),
    {
        let mut list: Vec<u64> = Vec::new();
        let mut i: usize = 0;
        while i < len
            invariant
                i <= len,
                forall|j: int| 0 <= j < i ==> #[trigger] byte_exists(address, j),
                list@ == Seq::new(i as nat, |j: int| (address + j) as u64),
            decreases len - i,
        {
            if i as u64 > u64::MAX - address {
                assert(!byte_exists(address, i as int));
                return None;
            }
            let byte = address + i as u64;
            if !crate::memory::address::check_virtual(byte) {
                assert(!byte_exists(address, i as int));
                return None;
            }
            assert(byte_exists(address, i as int));
            list.push(byte);
            i += 1;
            assert(list@ =~= Seq::new(i as nat, |j: int| (address + j) as u64));
        }
        Some(list)
    }

    /// Whether each of the translations succeeded and gave a physical address
    /// that the direct map shows.
    pub open spec fn all_translate(translated: Seq<Option<u64>>, offset: u64) -> bool {
        forall|i: int|
            0 <= i < translated.len() ==> (#[trigger] translated[i]) is Some
                && translated[i]->0 + offset <= u64::MAX && is_canonical(
                (translated[i]->0 + offset) as u64,
            )
    }

    /// The addresses in the direct map at which the translated bytes lie.
    pub open spec fn direct_addresses(translated: Seq<Option<u64>>, offset: u64) -> Seq<u64> {
        Seq::new(translated.len(), |i: int| (translated[i]->0 + offset) as u64)
    }

    /// Where the bytes lie, in the direct map, whose virtual addresses in this
    /// address space were translated to `translated`.
    fn through_direct_map(translated: &Vec<Option<u64>>, offset: u64) -> (addresses: Result<
        Vec<u64>,
        (),
    >)
        ensures
            addresses is Ok <==> Self::all_translate(translated@, offset),
            addresses matches Ok(list) ==> list@ == Self::direct_addresses(translated@, offset),
    {
        let n = translated.len();
        let mut list: Vec<u64> = Vec::new();
        let mut i: usize = 0;
        while i < n
            invariant
                i <= n,
                n == translated@.len(),
                Self::all_translate(translated@.take(i as int), offset),
                list@ == Self::direct_addresses(translated@.take(i as int), offset),
            decreases n - i,
        {
            let physical = match translated[i] {
                Some(physical) => physical,
                None => {
                    return Err(());
                },
            };
            let direct = match convert_physical_to_virtual(physical, offset) {
                Some(direct) => direct,
                None => {
                    return Err(());
                },
            };
            list.push(direct);
            i += 1;
            proof {
                assert forall|j: int| 0 <= j < i implies (#[trigger] translated@.take(
                    i as int,
                )[j]) is Some && translated@.take(i as int)[j]->0 + offset <= u64::MAX
                    && is_canonical((translated@.take(i as int)[j]->0 + offset) as u64) by {
                    if j < i - 1 {
                        assert(translated@.take(i - 1)[j] == translated@.take(i as int)[j]);
                    }
                }
                assert(list@ =~= Self::direct_addresses(translated@.take(i as int), offset));
            }
        }
        assert(translated@.take(n as int) =~= translated@);
        Ok(list)
    }

    /// Where to read the bytes of another address space from. `translated`
    /// holds, for each byte, the physical address that its virtual address
    /// translates to there, or `None`; `offset` is where the direct map of
    /// physical memory begins. The read fails if any byte does not translate.
    pub fn read(translated: &Vec<Option<u64>>, offset: u64) -> (addresses: Result<Vec<u64>, ()>)
        ensures
            addresses is Ok <==> Self::all_translate(translated@, offset),
            addresses matches Ok(list) ==> list@ == Self::direct_addresses(translated@, offset),
    {
        Self::through_direct_map(translated, offset)
    }

    /// Where to write the bytes for another address space to; see `read`. The
    /// write fails, before any byte is written, if any byte does not translate.
    pub fn write(translated: &Vec<Option<u64>>, offset: u64) -> (addresses: Result<Vec<u64>, ()>)
        ensures
            addresses is Ok <==> Self::all_translate(translated@, offset),
            addresses matches Ok(list) ==> list@ == Self::direct_addresses(translated@, offset),
    {
        Self::through_direct_map(translated, offset)
    }
}

/// The number of pages that one entry of a table of level `level` covers.
pub open spec fn reach(level: nat) -> nat
    decreases level,
{
    if level <= 1 {
        1
    } else {
        ENTRY_COUNT as nat * reach((level - 1) as nat)
    }
}

/// The index, in a table of level `level`, of the entry that covers page
/// number `page`.
pub open spec fn index_in(page: nat, level: nat) -> int {
    ((page / reach(level)) % ENTRY_COUNT as nat) as int
}

/// The entry that decides what page number `page` is mapped to, found by
/// going down from the table at `t`, which is of level `level`: the entry of
/// a level-1 table, or one that maps a huge page. `None` if an entry on the
/// way is not present.
pub open spec fn walk(
    tables: Map<u64, Seq<PageTableEntry>>,
    t: u64,
    level: nat,
    page: nat,
) -> Option<PageTableEntry>
    decreases level,
{
    let entry = tables[t][index_in(page, level)];
    if level == 0 || entry.flags & PRESENT == 0 {
        None
    } else if level == 1 || entry.huge() {
        Some(entry)
    } else {
        walk(tables, entry.addr, (level - 1) as nat, page)
    }
}

/// Law: a copy of an address space maps every page as the source does.
pub proof fn law_copy_maps_the_same(
    tables: Map<u64, Seq<PageTableEntry>>,
    s: u64,
    copy: Map<u64, Seq<PageTableEntry>>,
    t: u64,
    level: nat,
    view: AllocatorView,
    page: nat,
)
    requires
        is_copy(tables, s, copy, t, level, view),
    ensures
        walk(copy, t, level, page) == walk(tables, s, level, page),
    decreases level,
{
    let i = index_in(page, level);
    assert(0 <= i < ENTRY_COUNT);
    let entry = tables[s][i];
    let made = copy[t][i];
    assert(entry_copied(tables, s, copy, made, i, level, view));
    assert(0u64 & PRESENT == 0) by (bit_vector);
    if level > 0 && !entry.shared(level) && entry.flags & PRESENT != 0 {
        law_copy_maps_the_same(
            tables,
            entry.addr,
            copy,
            made.addr,
            (level - 1) as nat,
            view.after(below(tables, s, level, i as nat) + 1),
            page,
        );
    }
}

/// Law: a copy of an address space has its level-4 table in a frame of its
/// own, so writing an entry of the copy's level-4 table leaves the source's
/// level-4 table, and every other table that was there before the copy was
/// made, as it was.
pub proof fn law_copy_is_apart(
    before: Map<u64, Seq<PageTableEntry>>,
    after: Map<u64, Seq<PageTableEntry>>,
    source: u64,
    copy: u64,
    index: int,
    entry: PageTableEntry,
)
    requires
        extends(before, after),
        before.contains_key(source),
        !before.contains_key(copy),
        after.contains_key(copy),
    ensures
        copy != source,
        after.insert(copy, after[copy].update(index, entry))[source] == before[source],
        extends(before, after.insert(copy, after[copy].update(index, entry))),
{
}

} // verus!
