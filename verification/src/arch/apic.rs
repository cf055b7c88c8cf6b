//! Interrupt routing through the I/O APIC and the calibration of the local
//! APIC timer against the HPET.

use crate::arch::interrupts::InterruptIndex;
use vstd::prelude::*;

verus! {

/// The rate of the scheduler's tick.
pub const TIMER_FREQUENCY_HZ: u32 = 200;

/// The number of rounds that a calibration measures.
pub const TIMER_CALIBRATION_ITERATION: u32 = 100;

/// The vector that interrupt line 0 of the I/O APIC is delivered at.
pub const IOAPIC_INTERRUPT_INDEX_OFFSET: u8 = 32;

/// The femtoseconds in a millisecond.
pub const FEMTOSECONDS_PER_MS: u64 = 1_000_000_000_000;

/// The lines of the I/O APIC that the kernel routes.
#[derive(Debug, Clone, Copy, PartialEq, Eq)]
pub enum IrqVector {
    Keyboard,
    Mouse,
}

impl IrqVector {
    /// The number of the line.
    pub open spec fn spec_line(self) -> u8 {
        match self {
            IrqVector::Keyboard => 1,
            IrqVector::Mouse => 12,
        }
    }

    /// The number of the line.
    #[verifier::when_used_as_spec(spec_line)]
    pub fn line(self) -> (line: u8)
        ensures
            line == self.spec_line(),
    {
        match self {
            IrqVector::Keyboard => 1,
            IrqVector::Mouse => 12,
        }
    }

    /// The interrupt vector that the line is routed to.
    pub fn vector(self) -> (vector: InterruptIndex)
        ensures
            vector == match self {
                IrqVector::Keyboard => InterruptIndex::Keyboard,
                IrqVector::Mouse => InterruptIndex::Mouse,
            },
    {
        match self {
            IrqVector::Keyboard => InterruptIndex::Keyboard,
            IrqVector::Mouse => InterruptIndex::Mouse,
        }
    }
}

/// One entry of the I/O APIC's redirection table, as the kernel programs it:
/// fixed delivery of `vector` to the CPU with local APIC id `dest`.
#[derive(Debug, Clone, Copy, PartialEq, Eq)]
pub struct Redirection {
    pub line: u8,
    pub vector: u8,
    pub dest: u8,
}

/// The entry that routes `irq` to the CPU with local APIC id `lapic_id`. The
/// destination field of an entry has eight bits, so it holds the low eight
/// bits of the id.
pub fn ioapic_entry(irq: IrqVector, lapic_id: u32) -> (entry: Redirection)
    ensures
        entry.line == irq.spec_line(),
        entry.vector == match irq {
            IrqVector::Keyboard => InterruptIndex::Keyboard.spec_vector(),
            IrqVector::Mouse => InterruptIndex::Mouse.spec_vector(),
        },
        entry.dest == lapic_id % 256,
{
    let vector = match irq {
        IrqVector::Keyboard => InterruptIndex::Keyboard.vector(),
        IrqVector::Mouse => InterruptIndex::Mouse.vector(),
    };
    Redirection { line: irq.line(), vector, dest: (lapic_id % 256) as u8 }
}

/// The HPET ticks in a millisecond, for a counter whose tick lasts
/// `clock_speed` femtoseconds.
pub fn hpet_ticks_per_ms(clock_speed: u64) -> (ticks: u64)
    requires
        clock_speed > 0,
    ensures
        ticks == FEMTOSECONDS_PER_MS / clock_speed,
{
    FEMTOSECONDS_PER_MS / clock_speed
}

/// The HPET counter value at which a round that begins at `counter` ends, or
/// `None` if the counter cannot reach it.
pub fn round_deadline(counter: u64, ticks_per_ms: u64) -> (deadline: Option<u64>)
    ensures
        deadline == if counter + ticks_per_ms <= u64::MAX {
            Some((counter + ticks_per_ms) as u64)
        } else {
            None
        },
{
    if ticks_per_ms <= u64::MAX - counter {
        Some(counter + ticks_per_ms)
    } else {
        None
    }
}

/// The timer ticks that passed in the rounds of `readings`: each round starts
/// the timer at the highest count and reads what is left of it after one
/// millisecond.
pub open spec fn elapsed(readings: Seq<u32>) -> int
    decreases readings.len(),
{
    if readings.len() == 0 {
        0
    } else {
        elapsed(readings.drop_last()) + (u32::MAX - readings.last())
    }
}

/// The elapsed ticks of `n` rounds are at most `n` times the highest count.
pub proof fn lemma_elapsed_bound(readings: Seq<u32>)
    ensures
        0 <= elapsed(readings) <= readings.len() * u32::MAX,
    decreases readings.len(),
{
    if readings.len() > 0 {
        lemma_elapsed_bound(readings.drop_last());
        assert((readings.len() - 1) * u32::MAX + u32::MAX == readings.len() * u32::MAX)
            by (nonlinear_arith);
    }
}

/// The timer ticks in a millisecond: the mean over the rounds of a calibration.
pub open spec fn ticks_per_ms(readings: Seq<u32>) -> int {
    elapsed(readings) / TIMER_CALIBRATION_ITERATION as int
}

/// The initial count that makes the timer fire `TIMER_FREQUENCY_HZ` times a second.
pub open spec fn periodic_count(per_ms: int) -> int {
    per_ms * 1000 / TIMER_FREQUENCY_HZ as int
}

/// The mean number of timer ticks in a millisecond, from the counts read at
/// the ends of the calibration's rounds.
pub fn average_ticks_per_ms(readings: &Vec<u32>) -> (per_ms: u32)
    requires
        readings@.len() == TIMER_CALIBRATION_ITERATION,
    ensures
        per_ms == ticks_per_ms(readings@),
{
    let n = readings.len();
    let mut total: u64 = 0;
    let mut round: usize = 0;
    while round < n
        invariant
            round <= n,
            n == readings@.len(),
            n == TIMER_CALIBRATION_ITERATION,
            total == elapsed(readings@.take(round as int)),
            total <= round * u32::MAX,
        decreases n - round,
    {
        proof {
            assert(readings@.take(round + 1).drop_last() =~= readings@.take(round as int));
            lemma_elapsed_bound(readings@.take(round + 1));
        }
        total = total + (u32::MAX - readings[round]) as u64;
        round += 1;
    }
    proof {
        assert(readings@.take(n as int) =~= readings@);
    }
    assert(total / 100 == ticks_per_ms(readings@));
    (total / (TIMER_CALIBRATION_ITERATION as u64)) as u32
}

/// The initial count for the periodic timer, from the timer ticks in a
/// millisecond; `None` if the count does not fit the timer's 32 bits.
pub fn periodic_initial_count(per_ms: u32) -> (count: Option<u32>)
    ensures
        count == if periodic_count(per_ms as int) <= u32::MAX {
            Some(periodic_count(per_ms as int) as u32)
        } else {
            None
        },
{
    let count: u64 = (per_ms as u64) * 1000 / (TIMER_FREQUENCY_HZ as u64);
    if count <= u32::MAX as u64 {
        Some(count as u32)
    } else {
        None
    }
}

/// The whole calibration: from the counts read at the ends of its rounds to
/// the initial count of the periodic timer.
pub fn calibrate_timer(readings: &Vec<u32>) -> (count: Option<u32>)
    requires
        readings@.len() == TIMER_CALIBRATION_ITERATION,
    ensures
        count == if periodic_count(ticks_per_ms(readings@)) <= u32::MAX {
            Some(periodic_count(ticks_per_ms(readings@)) as u32)
        } else {
            None
        },
{
    periodic_initial_count(average_ticks_per_ms(readings))
}

} // verus!
