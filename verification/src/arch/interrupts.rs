//! Interrupt vectors, the table of their handlers, and what each exception
//! does to the CPU that raised it.

use std::collections::BTreeMap;
use vstd::prelude::*;

verus! {

broadcast use vstd::std_specs::btree::group_btree_axioms;

/// The first vector that is not an exception.
pub const INTERRUPT_INDEX_OFFSET: u8 = 32;

/// The vectors that the kernel itself uses.
#[derive(Debug, Clone, Copy, PartialEq, Eq)]
pub enum InterruptIndex {
    Timer,
    ApicError,
    ApicSpurious,
    Keyboard,
    Mouse,
}

impl InterruptIndex {
    /// The number of the vector.
    pub open spec fn spec_vector(self) -> u8 {
        match self {
            InterruptIndex::Timer => 32,
            InterruptIndex::ApicError => 33,
            InterruptIndex::ApicSpurious => 34,
            InterruptIndex::Keyboard => 35,
            InterruptIndex::Mouse => 36,
        }
    }

    /// The number of the vector.
    #[verifier::when_used_as_spec(spec_vector)]
    pub fn vector(self) -> (vector: u8)
        ensures
            vector == self.spec_vector(),
    {
        match self {
            InterruptIndex::Timer => INTERRUPT_INDEX_OFFSET,
            InterruptIndex::ApicError => INTERRUPT_INDEX_OFFSET + 1,
            InterruptIndex::ApicSpurious => INTERRUPT_INDEX_OFFSET + 2,
            InterruptIndex::Keyboard => INTERRUPT_INDEX_OFFSET + 3,
            InterruptIndex::Mouse => INTERRUPT_INDEX_OFFSET + 4,
        }
    }
}

/// What becomes of a CPU that raised an exception.
#[derive(Debug, Clone, Copy, PartialEq, Eq)]
pub enum FaultAction {
    /// The exception is noted and the interrupted code goes on.
    Resume,
    /// The fault is logged and this CPU halts; the others go on.
    Halt,
    /// The fault cannot be survived: the kernel panics.
    Panic,
}

/// The vector of the breakpoint exception.
pub const BREAKPOINT: u8 = 3;

/// The vector of the invalid-opcode exception.
pub const INVALID_OPCODE: u8 = 6;

/// The vector of the double fault.
pub const DOUBLE_FAULT: u8 = 8;

/// The vector of the segment-not-present exception.
pub const SEGMENT_NOT_PRESENT: u8 = 11;

/// The vector of the general protection fault.
pub const GENERAL_PROTECTION_FAULT: u8 = 13;

/// The vector of the page fault.
pub const PAGE_FAULT: u8 = 14;

/// What the handler of exception `vector` does; `None` for a vector that the
/// kernel installs no exception handler for.
pub fn fault_action(vector: u8) -> (action: Option<FaultAction>)
    ensures
        action == if vector == BREAKPOINT {
            Some(FaultAction::Resume)
        } else if vector == INVALID_OPCODE || vector == GENERAL_PROTECTION_FAULT || vector
            == PAGE_FAULT {
            Some(FaultAction::Halt)
        } else if vector == DOUBLE_FAULT || vector == SEGMENT_NOT_PRESENT {
            Some(FaultAction::Panic)
        } else {
            None
        },
{
    if vector == BREAKPOINT {
        Some(FaultAction::Resume)
    } else if vector == INVALID_OPCODE || vector == GENERAL_PROTECTION_FAULT || vector
        == PAGE_FAULT {
        Some(FaultAction::Halt)
    } else if vector == DOUBLE_FAULT || vector == SEGMENT_NOT_PRESENT {
        Some(FaultAction::Panic)
    } else {
        None
    }
}

/// What the generic dispatch does for one interrupt.
#[derive(Debug, Clone, Copy, PartialEq, Eq)]
pub struct IrqDispatch {
    /// The registered handler to call, or `None` for the default one, which
    /// only warns.
    pub handler: Option<u64>,
    /// Whether the local APIC is told that the interrupt has ended.
    pub end_of_interrupt: bool,
}

/// The vectors are ordered as numbers are.
proof fn lemma_vectors_ordered()
    ensures
        vstd::laws_cmp::obeys_cmp::<u8>(),
{
    broadcast use vstd::laws_cmp::group_laws_cmp;

}

/// The handlers that are registered, by vector. A handler is named by a
/// number that the caller chooses, such as the address of its code. A vector
/// without an entry has the default handler, which only warns.
pub struct IrqTable {
    handlers: BTreeMap<u8, u64>,
}

impl View for IrqTable {
    type V = Map<u8, u64>;

    closed spec fn view(&self) -> Map<u8, u64> {
        self.handlers@
    }
}

/// A table in which every vector has the default handler.
pub fn irq_manager_init() -> (table: IrqTable)
    ensures
        table@ == Map::<u8, u64>::empty(),
{
    IrqTable { handlers: BTreeMap::new() }
}

/// Registers `handler` for vector `irq`, in place of what was there.
pub fn irq_register(table: &mut IrqTable, irq: u8, handler: u64)
    ensures
        final(table)@ == old(table)@.insert(irq, handler),
{
    proof {
        lemma_vectors_ordered();
    }
    table.handlers.insert(irq, handler);
}

/// Gives vector `irq` the default handler back.
pub fn irq_unregister(table: &mut IrqTable, irq: u8)
    ensures
        final(table)@ == old(table)@.remove(irq),
{
    proof {
        lemma_vectors_ordered();
    }
    table.handlers.remove(&irq);
}

/// The generic dispatch for vector `irq`: the handler registered for it, or
/// the default one, is called, and after it has returned the local APIC gets
/// its end-of-interrupt.
pub fn do_irq(table: &IrqTable, irq: u8) -> (dispatch: IrqDispatch)
    ensures
        dispatch.handler == if table@.contains_key(irq) {
            Some(table@[irq])
        } else {
            None
        },
        dispatch.end_of_interrupt,
{
    proof {
        lemma_vectors_ordered();
    }
    let handler = match table.handlers.get(&irq) {
        Some(handler) => Some(*handler),
        None => None,
    };
    IrqDispatch { handler, end_of_interrupt: true }
}

} // verus!
