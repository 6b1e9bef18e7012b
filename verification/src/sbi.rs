//! SBI call marshalling: which extension, function and arguments each
//! supervisor request puts into the call registers. The `ecall` instruction
//! that performs a call lives outside the library.

use vstd::prelude::*;

verus! {

/// Extension id of the Hart State Management extension.
pub const EID_HSM: usize = 0x48534D;

/// Extension id of the Timer extension.
pub const EID_TIME: usize = 0x54494D45;

/// Extension id of the Debug Console extension.
pub const EID_DBCN: usize = 0x4442434E;

/// Extension id of the System Reset extension.
pub const EID_SRST: usize = 0x53525354;

/// One SBI request, ready for the call registers: the extension id for a7,
/// the function id for a6, and the three leading arguments. The remaining
/// argument registers are always zero in this kernel.
#[derive(Debug, Clone, Copy, PartialEq, Eq, Structural)]
pub struct SbiCall {
    pub eid: usize,
    pub fid: usize,
    pub a0: usize,
    pub a1: usize,
    pub a2: usize,
}

/// Ask the SBI to start `hartid` at the entry point `ra` with `a2` in its
/// argument register (this kernel passes the new hart's stack there).
pub fn start(hartid: usize, ra: usize, a2: usize) -> (r: SbiCall)
    ensures
        r == (SbiCall { eid: EID_HSM, fid: 0, a0: hartid, a1: ra, a2 }),
{
    SbiCall { eid: EID_HSM, fid: 0, a0: hartid, a1: ra, a2 }
}

/// Ask the SBI to raise a timer interrupt at absolute time `cycles`.
pub fn set_timer(cycles: usize) -> (r: SbiCall)
    ensures
        r == (SbiCall { eid: EID_TIME, fid: 0, a0: cycles, a1: 0, a2: 0 }),
{
    SbiCall { eid: EID_TIME, fid: 0, a0: cycles, a1: 0, a2: 0 }
}

/// Ask the SBI to print a buffer on the debug console, given by its length
/// and physical address.
pub fn write(string_len: usize, string_addr: usize) -> (r: SbiCall)
    ensures
        r == (SbiCall { eid: EID_DBCN, fid: 0, a0: string_len, a1: string_addr, a2: 0 }),
{
    SbiCall { eid: EID_DBCN, fid: 0, a0: string_len, a1: string_addr, a2: 0 }
}

/// How the machine should be reset.
#[derive(Debug, Clone, Copy, PartialEq, Eq, Structural)]
pub enum ResetType {
    Shutdown,
    ColdReboot,
    WarnReboot,
}

impl ResetType {
    /// The reset type code the SBI expects.
    pub open spec fn spec_code(self) -> u32 {
        match self {
            ResetType::Shutdown => 0,
            ResetType::ColdReboot => 1,
            ResetType::WarnReboot => 2,
        }
    }

    /// The reset type code the SBI expects.
    pub fn code(self) -> (r: u32)
        ensures
            r == self.spec_code(),
    {
        match self {
            ResetType::Shutdown => 0,
            ResetType::ColdReboot => 1,
            ResetType::WarnReboot => 2,
        }
    }
}

/// Why the machine is being reset.
#[derive(Debug, Clone, Copy, PartialEq, Eq, Structural)]
pub enum ResetReason {
    NoReason,
    Failure,
}

impl ResetReason {
    /// The reset reason code the SBI expects.
    pub open spec fn spec_code(self) -> u32 {
        match self {
            ResetReason::NoReason => 0,
            ResetReason::Failure => 1,
        }
    }

    /// The reset reason code the SBI expects.
    pub fn code(self) -> (r: u32)
        ensures
            r == self.spec_code(),
    {
        match self {
            ResetReason::NoReason => 0,
            ResetReason::Failure => 1,
        }
    }
}

/// Ask the SBI to reset the system.
pub fn system_reset(reset_type: ResetType, reason: ResetReason) -> (r: SbiCall)
    ensures
        r == (SbiCall {
            eid: EID_SRST,
            fid: 0,
            a0: reset_type.spec_code() as usize,
            a1: reason.spec_code() as usize,
            a2: 0,
        }),
{
    SbiCall {
        eid: EID_SRST,
        fid: 0,
        a0: reset_type.code() as usize,
        a1: reason.code() as usize,
        a2: 0,
    }
}

} // verus!
