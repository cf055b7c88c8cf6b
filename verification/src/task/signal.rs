//! The signals of one process: which types are present, the signals in the
//! order in which they came, and the type that the process waits for.

use crate::data::bitmap::Bitmap;
use crate::task::process::ProcessId;
use vstd::prelude::*;

verus! {

/// A signal: its type and eight words of data.
#[derive(Debug, Clone, Copy)]
pub struct Signal {
    pub ty: usize,
    pub data: [u64; 8],
}

/// The earliest signal of type `ty` among those from position `from` on.
pub open spec fn first_of_type(signals: Seq<Signal>, ty: usize, from: int) -> Option<Signal>
    decreases signals.len() - from,
{
    if from < 0 || from >= signals.len() {
        None
    } else if signals[from].ty == ty {
        Some(signals[from])
    } else {
        first_of_type(signals, ty, from + 1)
    }
}

/// The signals that are not of type `ty`, in their order.
pub open spec fn without_type(signals: Seq<Signal>, ty: usize) -> Seq<Signal>
    decreases signals.len(),
{
    if signals.len() == 0 {
        Seq::empty()
    } else if signals.last().ty == ty {
        without_type(signals.drop_last(), ty)
    } else {
        without_type(signals.drop_last(), ty).push(signals.last())
    }
}

/// The signal manager of one process.
pub struct SignalManager {
    signal_bitmap: Bitmap,
    signals: Vec<Signal>,
    waiting_for: usize,
    pid: ProcessId,
}

impl SignalManager {
    /// For each signal type, whether a signal of it is registered.
    pub closed spec fn present(&self) -> Seq<bool> {
        self.signal_bitmap@
    }

    /// The registered signals, earliest first.
    pub closed spec fn signals(&self) -> Seq<Signal> {
        self.signals@
    }

    /// The type that the process waits for; 0 when it waits for none.
    pub closed spec fn waiting(&self) -> usize {
        self.waiting_for
    }

    /// The process that the signals belong to.
    pub closed spec fn owner(&self) -> ProcessId {
        self.pid
    }

    /// A manager for process `pid` with a presence bitmap of `signal_type_num`
    /// bytes, so for eight times as many signal types. Nothing is registered
    /// and the process waits for nothing.
    pub fn new(signal_type_num: usize, pid: ProcessId) -> (manager: Self)
        ensures
            manager.present().len() == signal_type_num * 8,
            forall|t: int| 0 <= t < manager.present().len() ==> !manager.present()[t],
            manager.signals() == Seq::<Signal>::empty(),
            manager.waiting() == 0,
            manager.owner() == pid,
    {
        Self {
            signal_bitmap: Bitmap::new(vec![0u8; signal_type_num]),
            signals: Vec::new(),
            waiting_for: 0,
            pid,
        }
    }

    /// The number of signal types that the manager can tell apart, or the
    /// highest number there is if they are more.
    pub fn capacity(&self) -> (n: usize)
        ensures
            n == if self.present().len() <= usize::MAX {
                self.present().len() as usize
            } else {
                usize::MAX
            },
    {
        let bytes = self.signal_bitmap.len();
        if bytes <= usize::MAX / 8 {
            bytes * 8
        } else {
            usize::MAX
        }
    }

    /// Whether a signal of type `signal_type` is registered.
    pub fn has_signal(&self, signal_type: usize) -> (present: bool)
        requires
            signal_type < self.present().len(),
        ensures
            present == self.present()[signal_type as int],
    {
        self.signal_bitmap.get(signal_type)
    }

    /// Registers a signal under type `signal_type`. If the process waits for
    /// that type, it stops waiting and the result names it: its threads are to
    /// be woken.
    pub fn register_signal(&mut self, signal_type: usize, signal: Signal) -> (wake: Option<
        ProcessId,
    >)
        requires
            signal_type != 0,
            signal_type < old(self).present().len(),
        ensures
            final(self).present() == old(self).present().update(signal_type as int, true),
            final(self).signals() == old(self).signals().push(signal),
            final(self).owner() == old(self).owner(),
            wake == if signal_type == old(self).waiting() {
                Some(old(self).owner())
            } else {
                None
            },
            final(self).waiting() == if signal_type == old(self).waiting() {
                0
            } else {
                old(self).waiting()
            },
    {
        self.signal_bitmap.set(signal_type, true);
        self.signals.push(signal);
        if signal_type == self.waiting_for {
            self.waiting_for = 0;
            Some(self.pid)
        } else {
            None
        }
    }

    /// Notes that the process waits for a signal of type `signal_type`.
    pub fn register_wait_for(&mut self, signal_type: usize)
        ensures
            final(self).waiting() == signal_type,
            final(self).present() == old(self).present(),
            final(self).signals() == old(self).signals(),
            final(self).owner() == old(self).owner(),
    {
        self.waiting_for = signal_type;
    }

    /// The earliest signal of type `signal_type`, which stays registered; `None`
    /// if the type is not marked present or no signal carries it.
    pub fn get_signal(&self, signal_type: usize) -> (signal: Option<Signal>)
        requires
            signal_type < self.present().len(),
        ensures
            signal == if self.present()[signal_type as int] {
                first_of_type(self.signals(), signal_type, 0)
            } else {
                None
            },
    {
        if self.signal_bitmap.get(signal_type) {
            let n = self.signals.len();
            let mut idx: usize = 0;
            while idx < n
                invariant
                    idx <= n,
                    n == self.signals@.len(),
                    signal_type < self.present().len(),
                    self.present()[signal_type as int],
                    first_of_type(self.signals@, signal_type, idx as int) == first_of_type(
                        self.signals@,
                        signal_type,
                        0,
                    ),
                decreases n - idx,
            {
                if self.signals[idx].ty == signal_type {
                    return Some(self.signals[idx]);
                }
                idx += 1;
            }
            None
        } else {
            None
        }
    }

    /// Removes every signal of type `signal_type` and marks the type absent.
    /// Nothing happens if the type is not marked present.
    pub fn delete_signal(&mut self, signal_type: usize)
        requires
            signal_type < old(self).present().len(),
        ensures
            final(self).waiting() == old(self).waiting(),
            final(self).owner() == old(self).owner(),
            old(self).present()[signal_type as int] ==> {
                &&& final(self).present() == old(self).present().update(signal_type as int, false)
                &&& final(self).signals() == without_type(old(self).signals(), signal_type)
            },
            !old(self).present()[signal_type as int] ==> {
                &&& final(self).present() == old(self).present()
                &&& final(self).signals() == old(self).signals()
            },
    {
        if self.signal_bitmap.get(signal_type) {
            self.signal_bitmap.set(signal_type, false);
            let n = self.signals.len();
            let mut kept: Vec<Signal> = Vec::new();
            let mut idx: usize = 0;
            while idx < n
                invariant
                    idx <= n,
                    n == self.signals@.len(),
                    self.signals@ == old(self).signals@,
                    kept@ == without_type(self.signals@.take(idx as int), signal_type),
                decreases n - idx,
            {
                let signal = self.signals[idx];
                proof {
                    assert(self.signals@.take(idx + 1).drop_last() =~= self.signals@.take(
                        idx as int,
                    ));
                }
                if signal.ty != signal_type {
                    kept.push(signal);
                }
                idx += 1;
            }
            proof {
                assert(self.signals@.take(n as int) =~= self.signals@);
            }
            self.signals = kept;
        }
    }
}

} // verus!
