//! The CPUs of the machine and the steps by which they come up.

use std::collections::BTreeMap;
use vstd::pervasive::unreached;
use vstd::prelude::*;
use vstd::std_specs::iter::IteratorSpec;

verus! {

broadcast use vstd::std_specs::btree::group_btree_axioms;

/// What the kernel keeps for one CPU: whether its descriptor tables are
/// built and loaded, and the stack that a trap from user mode lands on.
#[derive(Debug, Clone, Copy, PartialEq, Eq)]
pub struct CpuInfo {
    pub initialised: bool,
    pub loaded: bool,
    pub ring0_rsp: u64,
}

impl CpuInfo {
    /// The record of a CPU of which nothing is set up.
    pub open spec fn blank() -> CpuInfo {
        CpuInfo { initialised: false, loaded: false, ring0_rsp: 0 }
    }

    /// The record of a CPU of which nothing is set up.
    pub fn new() -> (info: Self)
        ensures
            info == Self::blank(),
    {
        CpuInfo { initialised: false, loaded: false, ring0_rsp: 0 }
    }

    /// Notes that the descriptor tables are built.
    pub fn init(&mut self)
        ensures
            *final(self) == (CpuInfo { initialised: true, ..*old(self) }),
    {
        self.initialised = true;
    }

    /// Notes that the CPU has loaded its descriptor tables.
    pub fn load(&mut self)
        ensures
            *final(self) == (CpuInfo { loaded: true, ..*old(self) }),
    {
        self.loaded = true;
    }

    /// Sets the stack for traps from user mode.
    pub fn set_ring0_rsp(&mut self, address: u64)
        ensures
            *final(self) == (CpuInfo { ring0_rsp: address, ..*old(self) }),
    {
        self.ring0_rsp = address;
    }
}

/// A CPU as the bootloader reports it.
#[derive(Debug, Clone, Copy, PartialEq, Eq)]
pub struct SmpCpu {
    /// The number that the firmware gave the CPU.
    pub id: u32,
    /// The id of the CPU's local APIC.
    pub lapic_id: u32,
}

/// The flags by which the bootstrap CPU tells the others how far it has come.
/// A flag that is set stays set.
#[derive(Debug, Clone, Copy, PartialEq, Eq)]
pub struct SyncFlags {
    /// The HPET can be read.
    pub hpet_init: bool,
    /// The scheduler exists.
    pub scheduler_init: bool,
    /// Scheduling has begun.
    pub start_schedule: bool,
}

impl SyncFlags {
    /// The flags at boot: none is set.
    pub fn new() -> (flags: Self)
        ensures
            flags == (SyncFlags { hpet_init: false, scheduler_init: false, start_schedule: false }),
    {
        SyncFlags { hpet_init: false, scheduler_init: false, start_schedule: false }
    }

    /// Notes that the HPET can be read.
    pub fn set_hpet_init(&mut self)
        ensures
            *final(self) == (SyncFlags { hpet_init: true, ..*old(self) }),
    {
        self.hpet_init = true;
    }
}

/// How far a CPU other than the bootstrap CPU has come.
#[derive(Debug, Clone, Copy, PartialEq, Eq)]
pub enum ApStage {
    /// It has just been started.
    Started,
    /// It has loaded its tables and waits for the HPET.
    WaitingForHpet,
    /// Its timer runs, and it waits for the scheduler.
    WaitingForScheduler,
    /// It is set up for user mode and waits for scheduling to begin, with
    /// interrupts off.
    WaitingForStart,
    /// It takes interrupts and sleeps between them; from here on it runs what
    /// the scheduler gives it at each tick.
    Idle,
}

/// What such a CPU does next.
#[derive(Debug, Clone, Copy, PartialEq, Eq)]
pub enum ApAction {
    /// Load its descriptor tables and the interrupt table.
    LoadTables,
    /// Look at the flags again.
    Spin,
    /// Enable its local APIC, calibrate the timer and start it.
    StartTimer,
    /// Set the CPU up for user mode.
    InitUser,
    /// Enable interrupts.
    EnableInterrupts,
    /// Halt until the next interrupt.
    Halt,
}

/// One step of a CPU other than the bootstrap CPU on its way up: what it does
/// at stage `stage` when the flags are `flags`, and the stage it is at after.
pub fn ap_entry(stage: ApStage, flags: &SyncFlags) -> (step: (ApStage, ApAction))
    ensures
        step == match stage {
            ApStage::Started => (ApStage::WaitingForHpet, ApAction::LoadTables),
            ApStage::WaitingForHpet => if flags.hpet_init {
                (ApStage::WaitingForScheduler, ApAction::StartTimer)
            } else {
                (ApStage::WaitingForHpet, ApAction::Spin)
            },
            ApStage::WaitingForScheduler => if flags.scheduler_init {
                (ApStage::WaitingForStart, ApAction::InitUser)
            } else {
                (ApStage::WaitingForScheduler, ApAction::Spin)
            },
            ApStage::WaitingForStart => if flags.start_schedule {
                (ApStage::Idle, ApAction::EnableInterrupts)
            } else {
                (ApStage::WaitingForStart, ApAction::Spin)
            },
            ApStage::Idle => (ApStage::Idle, ApAction::Halt),
        },
{
    match stage {
        ApStage::Started => (ApStage::WaitingForHpet, ApAction::LoadTables),
        ApStage::WaitingForHpet => if flags.hpet_init {
            (ApStage::WaitingForScheduler, ApAction::StartTimer)
        } else {
            (ApStage::WaitingForHpet, ApAction::Spin)
        },
        ApStage::WaitingForScheduler => if flags.scheduler_init {
            (ApStage::WaitingForStart, ApAction::InitUser)
        } else {
            (ApStage::WaitingForScheduler, ApAction::Spin)
        },
        ApStage::WaitingForStart => if flags.start_schedule {
            (ApStage::Idle, ApAction::EnableInterrupts)
        } else {
            (ApStage::WaitingForStart, ApAction::Spin)
        },
        ApStage::Idle => (ApStage::Idle, ApAction::Halt),
    }
}

/// The record of a CPU whose tables are built and not yet loaded.
pub open spec fn started_record() -> CpuInfo {
    CpuInfo { initialised: true, loaded: false, ring0_rsp: 0 }
}

/// The records after the first `upto` of the CPUs that the bootloader
/// reports were entered: each whose local APIC is not the bootstrap CPU's gets
/// a record with its tables built; the bootstrap CPU's record stays.
pub open spec fn with_aps(
    records: Map<u32, CpuInfo>,
    cpus: Seq<SmpCpu>,
    bsp_lapic_id: u32,
    upto: int,
) -> Map<u32, CpuInfo>
    decreases upto,
{
    if upto <= 0 {
        records
    } else if cpus[upto - 1].lapic_id == bsp_lapic_id {
        with_aps(records, cpus, bsp_lapic_id, upto - 1)
    } else {
        with_aps(records, cpus, bsp_lapic_id, upto - 1).insert(
            cpus[upto - 1].lapic_id,
            started_record(),
        )
    }
}

/// The local APIC ids of those of the first `upto` CPUs that are to be started.
pub open spec fn aps_to_start(cpus: Seq<SmpCpu>, bsp_lapic_id: u32, upto: int) -> Seq<u32>
    decreases upto,
{
    if upto <= 0 {
        Seq::empty()
    } else if cpus[upto - 1].lapic_id == bsp_lapic_id {
        aps_to_start(cpus, bsp_lapic_id, upto - 1)
    } else {
        aps_to_start(cpus, bsp_lapic_id, upto - 1).push(cpus[upto - 1].lapic_id)
    }
}

/// Whether one of the first `upto` reported CPUs has local APIC id `lapic_id`.
pub open spec fn reported(cpus: Seq<SmpCpu>, lapic_id: u32, upto: int) -> bool {
    exists|k: int| 0 <= k < upto && (#[trigger] cpus[k]).lapic_id == lapic_id
}

/// Law: after the reported CPUs were entered, every reported CPU other than
/// the bootstrap CPU has a record with its tables built, the bootstrap CPU's
/// record is what it was, and so is every record of a CPU that was not
/// reported.
pub proof fn law_every_ap_has_a_record(
    records: Map<u32, CpuInfo>,
    cpus: Seq<SmpCpu>,
    bsp_lapic_id: u32,
    upto: int,
)
    requires
        0 <= upto <= cpus.len(),
    ensures
        forall|id: u32|
            id != bsp_lapic_id && reported(cpus, id, upto) ==> #[trigger] with_aps(
                records,
                cpus,
                bsp_lapic_id,
                upto,
            ).contains_key(id) && with_aps(records, cpus, bsp_lapic_id, upto)[id]
                == started_record(),
        forall|id: u32|
            id == bsp_lapic_id || !reported(cpus, id, upto) ==> (#[trigger] with_aps(
                records,
                cpus,
                bsp_lapic_id,
                upto,
            ).contains_key(id) == records.contains_key(id)) && (records.contains_key(id)
                ==> with_aps(records, cpus, bsp_lapic_id, upto)[id] == records[id]),
    decreases upto,
{
    if upto > 0 {
        law_every_ap_has_a_record(records, cpus, bsp_lapic_id, upto - 1);
        let before = with_aps(records, cpus, bsp_lapic_id, upto - 1);
        let after = with_aps(records, cpus, bsp_lapic_id, upto);
        assert forall|id: u32| id != bsp_lapic_id && reported(cpus, id, upto) implies #[trigger] after.contains_key(
            id,
        ) && after[id] == started_record() by {
            let k = choose|k: int| 0 <= k < upto && (#[trigger] cpus[k]).lapic_id == id;
            if k < upto - 1 {
                assert(reported(cpus, id, upto - 1));
                assert(before.contains_key(id));
            }
        }
        assert forall|id: u32| id == bsp_lapic_id || !reported(cpus, id, upto) implies (#[trigger] after.contains_key(
            id,
        ) == records.contains_key(id)) && (records.contains_key(id) ==> after[id]
            == records[id]) by {
            if !reported(cpus, id, upto) {
                assert(cpus[upto - 1].lapic_id != id);
                if reported(cpus, id, upto - 1) {
                    let k = choose|k: int| 0 <= k < upto - 1 && (#[trigger] cpus[k]).lapic_id == id;
                    assert(0 <= k < upto && cpus[k].lapic_id == id);
                }
            }
            assert(before.contains_key(id) == records.contains_key(id));
        }
    }
}

/// The position of the first id from `from` on that is not below `lapic_id`,
/// or the number of ids.
pub open spec fn lower_bound(ids: Seq<u32>, lapic_id: u32, from: int) -> int
    decreases ids.len() - from,
{
    if from < 0 || from >= ids.len() {
        ids.len() as int
    } else if ids[from] >= lapic_id {
        from
    } else {
        lower_bound(ids, lapic_id, from + 1)
    }
}

/// The ids rise strictly.
pub open spec fn rising(ids: Seq<u32>) -> bool {
    forall|a: int, b: int| 0 <= a < b < ids.len() ==> ids[a] < ids[b]
}

/// What `lower_bound` finds.
pub proof fn lemma_lower_bound(ids: Seq<u32>, lapic_id: u32, from: int)
    requires
        0 <= from <= ids.len(),
    ensures
        from <= lower_bound(ids, lapic_id, from) <= ids.len(),
        forall|k: int| from <= k < lower_bound(ids, lapic_id, from) ==> ids[k] < lapic_id,
        lower_bound(ids, lapic_id, from) < ids.len() ==> ids[lower_bound(ids, lapic_id, from)]
            >= lapic_id,
    decreases ids.len() - from,
{
    if from < ids.len() && ids[from] < lapic_id {
        lemma_lower_bound(ids, lapic_id, from + 1);
    }
}

/// The keys of the records are ordered as numbers are.
proof fn lemma_keys_ordered()
    ensures
        vstd::laws_cmp::obeys_cmp::<u32>(),
{
    broadcast use vstd::laws_cmp::group_laws_cmp;

}

/// Calls `BTreeMap::get_mut` of std, which vstd does not specify. As std's
/// documentation says, it gives a mutable reference to the value under the
/// key, or `None` if the map has no such key; what is written through the
/// reference is the value under that key afterwards, and nothing else of the
/// map changes.
#[verifier::external_body]
fn record_mut(records: &mut BTreeMap<u32, CpuInfo>, lapic_id: u32) -> (found: Option<
    &mut CpuInfo,
>)
    ensures
        match found {
            Some(info) => old(records)@.contains_key(lapic_id) && *info == old(records)@[lapic_id]
                && final(records)@ == old(records)@.insert(lapic_id, *final(info)),
            None => !old(records)@.contains_key(lapic_id) && final(records)@ == old(records)@,
        },
{
    records.get_mut(&lapic_id)
}

/// Puts `id`, which is not among `ids`, at its place among them.
fn insert_rising(ids: &mut Vec<u32>, id: u32)
    requires
        rising(old(ids)@),
        !old(ids)@.contains(id),
    ensures
        rising(final(ids)@),
        forall|x: u32| final(ids)@.contains(x) <==> old(ids)@.contains(x) || x == id,
{
    let n = ids.len();
    let mut position: usize = 0;
    while position < n && ids[position] < id
        invariant
            position <= n,
            n == ids@.len(),
            ids@ == old(ids)@,
            lower_bound(ids@, id, position as int) == lower_bound(ids@, id, 0),
        decreases n - position,
    {
        position += 1;
    }
    proof {
        lemma_lower_bound(ids@, id, 0);
    }
    let ghost before = ids@;
    ids.insert(position, id);
    proof {
        let after = ids@;
        assert forall|a: int, b: int| 0 <= a < b < after.len() implies after[a] < after[b] by {
            let a0 = if a < position {
                a
            } else {
                a - 1
            };
            let b0 = if b < position {
                b
            } else {
                b - 1
            };
            if a != position && b != position {
                assert(before[a0] < before[b0]);
            } else if a == position {
                assert(before[b0] >= id);
                assert(before.contains(before[b0]));
            }
        }
        assert forall|x: u32| after.contains(x) <==> before.contains(x) || x == id by {
            if after.contains(x) {
                let k = choose|k: int| 0 <= k < after.len() && after[k] == x;
                if k < position {
                    assert(before[k] == x);
                } else if k > position {
                    assert(before[k - 1] == x);
                }
            }
            if before.contains(x) {
                let k = choose|k: int| 0 <= k < before.len() && before[k] == x;
                if k < position {
                    assert(after[k] == x);
                } else {
                    assert(after[k + 1] == x);
                }
            }
            if x == id {
                assert(after[position as int] == x);
            }
        }
    }
}

/// The records of the CPUs, by local APIC id.
pub struct Cpus {
    records: BTreeMap<u32, CpuInfo>,
}

impl View for Cpus {
    type V = Map<u32, CpuInfo>;

    closed spec fn view(&self) -> Map<u32, CpuInfo> {
        self.records@
    }
}

impl Cpus {
    /// The records with only the bootstrap CPU in them, of which nothing is
    /// set up yet.
    pub fn new(bsp_lapic_id: u32) -> (cpus: Self)
        ensures
            cpus@ == Map::<u32, CpuInfo>::empty().insert(bsp_lapic_id, CpuInfo::blank()),
    {
        proof {
            lemma_keys_ordered();
        }
        let mut records = BTreeMap::new();
        records.insert(bsp_lapic_id, CpuInfo::new());
        Cpus { records }
    }

    /// The number of CPUs.
    pub fn len(&self) -> (n: usize)
        ensures
            n == self@.len(),
    {
        proof {
            lemma_keys_ordered();
        }
        self.records.len()
    }

    /// Whether the CPU with local APIC id `lapic_id` has a record.
    pub fn contains(&self, lapic_id: u32) -> (known: bool)
        ensures
            known == self@.contains_key(lapic_id),
    {
        proof {
            lemma_keys_ordered();
        }
        self.records.contains_key(&lapic_id)
    }

    /// The record of the CPU with local APIC id `lapic_id`.
    pub fn get(&self, lapic_id: u32) -> (info: &CpuInfo)
        requires
            self@.contains_key(lapic_id),
        ensures
            *info == self@[lapic_id],
    {
        proof {
            lemma_keys_ordered();
        }
        match self.records.get(&lapic_id) {
            Some(info) => info,
            None => unreached(),
        }
    }

    /// The record of the CPU with local APIC id `lapic_id`, to be changed in
    /// place: what is written to it is the CPU's record afterwards.
    pub fn get_mut(&mut self, lapic_id: u32) -> (info: &mut CpuInfo)
        requires
            old(self)@.contains_key(lapic_id),
        ensures
            *info == old(self)@[lapic_id],
            final(self)@ == old(self)@.insert(lapic_id, *final(info)),
    {
        match record_mut(&mut self.records, lapic_id) {
            Some(info) => info,
            None => unreached(),
        }
    }

    /// Puts `info` in the place of the record of the CPU with local APIC id
    /// `lapic_id`, or adds it if the CPU has none.
    pub fn insert(&mut self, lapic_id: u32, info: CpuInfo)
        ensures
            final(self)@ == old(self)@.insert(lapic_id, info),
    {
        proof {
            lemma_keys_ordered();
        }
        self.records.insert(lapic_id, info);
    }

    /// Enters the CPUs that the bootloader reports, but for the bootstrap
    /// CPU, each with a record whose tables are built. The bootstrap CPU is
    /// known by its local APIC id, and its record stays as it is. The result
    /// names the CPUs entered by their local APIC ids, in the order of the
    /// report: they are the CPUs to be pointed at the common entry.
    pub fn init_ap(&mut self, cpus: &Vec<SmpCpu>, bsp_lapic_id: u32) -> (started: Vec<u32>)
        ensures
            final(self)@ == with_aps(old(self)@, cpus@, bsp_lapic_id, cpus@.len() as int),
            started@ == aps_to_start(cpus@, bsp_lapic_id, cpus@.len() as int),
            forall|id: u32|
                id != bsp_lapic_id && reported(cpus@, id, cpus@.len() as int) ==> #[trigger] final(self)@.contains_key(id) && final(self)@[id] == started_record(),
            old(self)@.contains_key(bsp_lapic_id) ==> final(self)@.contains_key(bsp_lapic_id)
                && final(self)@[bsp_lapic_id] == old(self)@[bsp_lapic_id],
    {
        let n = cpus.len();
        let mut started: Vec<u32> = Vec::new();
        let mut i: usize = 0;
        while i < n
            invariant
                i <= n,
                n == cpus@.len(),
                self@ == with_aps(old(self)@, cpus@, bsp_lapic_id, i as int),
                started@ == aps_to_start(cpus@, bsp_lapic_id, i as int),
            decreases n - i,
        {
            let cpu = cpus[i];
            if cpu.lapic_id != bsp_lapic_id {
                let mut info = CpuInfo::new();
                info.init();
                self.insert(cpu.lapic_id, info);
                started.push(cpu.lapic_id);
            }
            i += 1;
        }
        proof {
            law_every_ap_has_a_record(old(self)@, cpus@, bsp_lapic_id, n as int);
        }
        started
    }

    /// The local APIC ids of the CPUs, in rising order.
    pub fn iter_id(&self) -> (ids: Vec<u32>)
        ensures
            rising(ids@),
            forall|id: u32| ids@.contains(id) <==> self@.contains_key(id),
    {
        proof {
            lemma_keys_ordered();
        }
        let mut ids: Vec<u32> = Vec::new();
        let keys = self.records.keys();
        let ghost all = keys.remaining();
        assert(all.unref().to_set() == self.records@.dom());
        assert(all.unref().no_duplicates());
        for key in iter: keys
            invariant
                iter.seq() == all,
                all.unref().no_duplicates(),
                rising(ids@),
                forall|x: u32|
                    ids@.contains(x) <==> exists|j: int|
                        0 <= j < iter.index() && #[trigger] all.unref()[j] == x,
        {
            let ghost done = iter.index();
            proof {
                if ids@.contains(*key) {
                    let j = choose|j: int| 0 <= j < done && #[trigger] all.unref()[j] == *key;
                    assert(all.unref()[done] == *key);
                }
            }
            let ghost before = ids@;
            insert_rising(&mut ids, *key);
            proof {
                assert forall|x: u32|
                    ids@.contains(x) <==> exists|j: int|
                        0 <= j < done + 1 && #[trigger] all.unref()[j] == x by {
                    if before.contains(x) {
                        let j = choose|j: int| 0 <= j < done && #[trigger] all.unref()[j] == x;
                        assert(0 <= j < done + 1 && all.unref()[j] == x);
                    }
                    if x == *key {
                        assert(all.unref()[done] == x);
                    }
                }
            }
        }
        proof {
            assert forall|id: u32| ids@.contains(id) <==> self@.contains_key(id) by {
                assert(all.unref().to_set().contains(id) == self.records@.dom().contains(id));
                if all.unref().contains(id) {
                    let j = choose|j: int| 0 <= j < all.unref().len() && all.unref()[j] == id;
                    assert(0 <= j < all.len() && all.unref()[j] == id);
                }
            }
        }
        ids
    }

    /// Brings the bootstrap CPU's record up: its tables are built and loaded.
    pub fn init_bsp(&mut self, bsp_lapic_id: u32)
        requires
            old(self)@.contains_key(bsp_lapic_id),
        ensures
            final(self)@ == old(self)@.insert(
                bsp_lapic_id,
                CpuInfo { initialised: true, loaded: true, ..old(self)@[bsp_lapic_id] },
            ),
    {
        let bsp_info = self.get_mut(bsp_lapic_id);
        bsp_info.init();
        bsp_info.load();
    }
}

} // verus!
