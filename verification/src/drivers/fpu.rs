//! The floating-point state of a thread, in the layout that `fxsave64` writes.

use vstd::prelude::*;

verus! {

/// The control word that the x87 unit is initialised with.
pub const INITIAL_FCW: u16 = 0x037f;

/// The control and status word that the SSE unit is initialised with.
pub const INITIAL_MXCSR: u32 = 0x1f80;

/// The 512 bytes of floating-point state, field by field.
#[derive(Debug, Copy, Clone)]
pub struct FpState {
    pub fcw: u16,
    pub fsw: u16,
    pub ftw: u16,
    pub fop: u16,
    pub word2: u64,
    pub word3: u64,
    pub mxcsr: u32,
    pub mxcsr_mask: u32,
    pub mm: [u64; 16],
    pub xmm: [u64; 32],
    pub rest: [u64; 12],
}

impl FpState {
    /// Whether every field but the two control words is zero.
    pub open spec fn cleared(self) -> bool {
        &&& self.fsw == 0
        &&& self.ftw == 0
        &&& self.fop == 0
        &&& self.word2 == 0
        &&& self.word3 == 0
        &&& self.mxcsr_mask == 0
        &&& forall|i: int| 0 <= i < 16 ==> self.mm@[i] == 0
        &&& forall|i: int| 0 <= i < 32 ==> self.xmm@[i] == 0
        &&& forall|i: int| 0 <= i < 12 ==> self.rest@[i] == 0
    }

    /// The state that a new thread starts with: the two control words at
    /// their initial values and everything else zero.
    pub fn new() -> (state: Self)
        ensures
            state.fcw == INITIAL_FCW,
            state.mxcsr == INITIAL_MXCSR,
            state.cleared(),
    {
        FpState {
            fcw: INITIAL_FCW,
            fsw: 0,
            ftw: 0,
            fop: 0,
            word2: 0,
            word3: 0,
            mxcsr: INITIAL_MXCSR,
            mxcsr_mask: 0,
            mm: [0u64; 16],
            xmm: [0u64; 32],
            rest: [0u64; 12],
        }
    }
}

} // verus!
