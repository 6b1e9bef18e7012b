//! RISC-V state as data: the saved register frame of a trap and the decoding
//! of the trap-cause register. Reading the CSRs and the fence, pause and
//! wait instructions are single instructions outside the library.

use vstd::prelude::*;

verus! {

/// The registers a trap entry saves, in the order the calling convention
/// lists them.
#[derive(Debug, Clone, Copy, PartialEq, Eq, Structural)]
pub struct Frame {
    pub ra: usize,
    pub sp: usize,
    pub gp: usize,
    pub tp: usize,
    pub t0: usize,
    pub t1: usize,
    pub t2: usize,
    pub fp: usize,
    pub s1: usize,
    pub a0: usize,
    pub a1: usize,
    pub a2: usize,
    pub a3: usize,
    pub a4: usize,
    pub a5: usize,
    pub a6: usize,
    pub a7: usize,
    pub s2: usize,
    pub s3: usize,
    pub s4: usize,
    pub s5: usize,
    pub s6: usize,
    pub s7: usize,
    pub s8: usize,
    pub s9: usize,
    pub s10: usize,
    pub s11: usize,
    pub t3: usize,
    pub t4: usize,
    pub t5: usize,
    pub t6: usize,
}

/// What stopped the hart: an interrupt or an exception.
#[derive(Debug, Clone, Copy, PartialEq, Eq, Structural)]
pub enum Trap {
    Interrupt(Interrupt),
    Exception(Exception),
}

/// The interrupts a supervisor-mode kernel sees.
#[derive(Debug, Clone, Copy, PartialEq, Eq, Structural)]
pub enum Interrupt {
    SupervisorSoft,
    SupervisorTimer,
    SupervisorExternal,
}

impl Interrupt {
    /// The cause number of the interrupt.
    pub open spec fn spec_code(self) -> u64 {
        match self {
            Interrupt::SupervisorSoft => 1,
            Interrupt::SupervisorTimer => 5,
            Interrupt::SupervisorExternal => 9,
        }
    }
}

/// The exceptions a supervisor-mode kernel sees.
#[derive(Debug, Clone, Copy, PartialEq, Eq, Structural)]
pub enum Exception {
    InstructionMisaligned,
    InstructionFault,
    IllegalInstruction,
    Breakpoint,
    LoadMisaligned,
    LoadFault,
    StoreMisaligned,
    StoreFault,
    UserEnvCall,
    SupervisorEnvCall,
    InstructionPageFault,
    LoadPageFault,
    StorePageFault,
}

impl Exception {
    /// The cause number of the exception.
    pub open spec fn spec_code(self) -> u64 {
        match self {
            Exception::InstructionMisaligned => 0,
            Exception::InstructionFault => 1,
            Exception::IllegalInstruction => 2,
            Exception::Breakpoint => 3,
            Exception::LoadMisaligned => 4,
            Exception::LoadFault => 5,
            Exception::StoreMisaligned => 6,
            Exception::StoreFault => 7,
            Exception::UserEnvCall => 8,
            Exception::SupervisorEnvCall => 9,
            Exception::InstructionPageFault => 12,
            Exception::LoadPageFault => 13,
            Exception::StorePageFault => 15,
        }
    }
}

/// What a trap-cause register value means: bit 63 separates interrupts from
/// exceptions and the remaining bits carry the cause number.
pub open spec fn spec_decode_scause(scause: u64) -> Option<Trap> {
    let is_int = (scause >> 63) & 1 == 1;
    let cause = scause & 0x7fff_ffff_ffff_ffff;
    if is_int {
        if cause == 1 {
            Some(Trap::Interrupt(Interrupt::SupervisorSoft))
        } else if cause == 5 {
            Some(Trap::Interrupt(Interrupt::SupervisorTimer))
        } else if cause == 9 {
            Some(Trap::Interrupt(Interrupt::SupervisorExternal))
        } else {
            None
        }
    } else {
        if cause == 0 {
            Some(Trap::Exception(Exception::InstructionMisaligned))
        } else if cause == 1 {
            Some(Trap::Exception(Exception::InstructionFault))
        } else if cause == 2 {
            Some(Trap::Exception(Exception::IllegalInstruction))
        } else if cause == 3 {
            Some(Trap::Exception(Exception::Breakpoint))
        } else if cause == 4 {
            Some(Trap::Exception(Exception::LoadMisaligned))
        } else if cause == 5 {
            Some(Trap::Exception(Exception::LoadFault))
        } else if cause == 6 {
            Some(Trap::Exception(Exception::StoreMisaligned))
        } else if cause == 7 {
            Some(Trap::Exception(Exception::StoreFault))
        } else if cause == 8 {
            Some(Trap::Exception(Exception::UserEnvCall))
        } else if cause == 9 {
            Some(Trap::Exception(Exception::SupervisorEnvCall))
        } else if cause == 12 {
            Some(Trap::Exception(Exception::InstructionPageFault))
        } else if cause == 13 {
            Some(Trap::Exception(Exception::LoadPageFault))
        } else if cause == 15 {
            Some(Trap::Exception(Exception::StorePageFault))
        } else {
            None
        }
    }
}

/// Decode the trap-cause register; `None` for a cause number this kernel
/// does not know, which it treats as fatal.
pub fn decode_scause(scause: u64) -> (r: Option<Trap>)
    ensures
        r == spec_decode_scause(scause),
{
    let is_int = ((scause >> 63) & 1) == 1;
    let cause = scause & 0x7fff_ffff_ffff_ffff;

    if is_int {
        match cause {
            1 => Some(Trap::Interrupt(Interrupt::SupervisorSoft)),
            5 => Some(Trap::Interrupt(Interrupt::SupervisorTimer)),
            9 => Some(Trap::Interrupt(Interrupt::SupervisorExternal)),
            _ => None,
        }
    } else {
        match cause {
            0 => Some(Trap::Exception(Exception::InstructionMisaligned)),
            1 => Some(Trap::Exception(Exception::InstructionFault)),
            2 => Some(Trap::Exception(Exception::IllegalInstruction)),
            3 => Some(Trap::Exception(Exception::Breakpoint)),
            4 => Some(Trap::Exception(Exception::LoadMisaligned)),
            5 => Some(Trap::Exception(Exception::LoadFault)),
            6 => Some(Trap::Exception(Exception::StoreMisaligned)),
            7 => Some(Trap::Exception(Exception::StoreFault)),
            8 => Some(Trap::Exception(Exception::UserEnvCall)),
            9 => Some(Trap::Exception(Exception::SupervisorEnvCall)),
            12 => Some(Trap::Exception(Exception::InstructionPageFault)),
            13 => Some(Trap::Exception(Exception::LoadPageFault)),
            15 => Some(Trap::Exception(Exception::StorePageFault)),
            _ => None,
        }
    }
}

} // verus!
