//! One step of the platform-service trap for the services that need only
//! guest memory, registers and the random state; every other slot is
//! returned unhandled, as `Host`, for `runtime_dispatch` to take up.
use crate::cpu::ArmCpu;
use crate::cpu_model::CpuView;
use crate::error::{is_arm_fault, Error};
use crate::guest_strings::{c_string_from, fault_matches, read_c_string};
use crate::libc_services::{libc_matches, libc_service};
use crate::md5_service::{
    md5_append, md5_append_matches, md5_finish, md5_finish_matches, md5_init, md5_init_matches,
};
use crate::memory::{Access, GuestAddr, GuestMemory, MemView};
use vstd::prelude::*;

verus! {

/// What follows a service trap.
#[derive(Clone, Copy, Debug, PartialEq, Eq, Structural)]
pub enum DispatchAction {
    /// The service ran; the guest resumes at its return address.
    Resume,
    /// The slot is not one of these services; nothing was changed.
    Host { slot: u32 },
}

/// The longest format string the format-length service reads.
pub const FORMAT_LIMIT: usize = 0x1_0000;

/// The unit result of a step, for the services' own contracts.
pub open spec fn unit_of(r: Result<DispatchAction, Error>) -> Result<(), Error> {
    match r {
        Ok(_) => Ok(()),
        Err(e) => Err(e),
    }
}

/// Slots the library runs: the C library (3 to 20), the format length
/// (26), the datagram sockets it refuses (88, 90) and MD5 (113 to 115).
pub open spec fn library_slot(slot: u32) -> bool {
    (3 <= slot <= 20) || slot == 26 || slot == 88 || slot == 90 || (113 <= slot <= 115)
}

/// What one step does on slot `slot`, from the registers and memory before
/// it to those after it.
pub open spec fn dispatch_matches(
    r: Result<DispatchAction, Error>,
    slot: u32,
    c0: CpuView,
    c1: CpuView,
    m0: MemView,
    m1: MemView,
    random0: u32,
    random1: u32,
) -> bool {
    &&& (r matches Ok(a) ==> a == (if library_slot(slot) {
        DispatchAction::Resume
    } else {
        DispatchAction::Host { slot }
    }))
    &&& if 3 <= slot <= 20 {
        libc_matches(unit_of(r), slot, c0, c1, m0, m1, random0, random1)
    } else if slot == 26 {
        &&& m1 == m0
        &&& random1 == random0
        &&& match c_string_from(m0, c0.regs[0], 0, FORMAT_LIMIT as int) {
            Ok(s) => r is Ok && c1 == c0.set_reg(0, s.len() as u32),
            Err(f) => fault_matches(r, f) && c1 == c0,
        }
    } else if slot == 88 || slot == 90 {
        r is Ok && c1 == c0.set_reg(0, u32::MAX) && m1 == m0 && random1 == random0
    } else if slot == 113 {
        &&& random1 == random0
        &&& md5_init_matches(unit_of(r), m0, m1, c0.regs[0])
        &&& (r is Ok ==> c1 == c0.set_reg(0, 0))
        &&& (r is Err ==> c1 == c0)
    } else if slot == 114 {
        &&& random1 == random0
        &&& match m0.load(c0.regs[1], c0.regs[2] as nat, Access::Read) {
            Err(t) => is_arm_fault(unit_of(r), t) && m1 == m0 && c1 == c0,
            Ok(input) => {
                &&& md5_append_matches(unit_of(r), m0, m1, c0.regs[0], input)
                &&& (r is Ok ==> c1 == c0.set_reg(0, 0))
                &&& (r is Err ==> c1 == c0)
            },
        }
    } else if slot == 115 {
        &&& random1 == random0
        &&& md5_finish_matches(unit_of(r), m0, m1, c0.regs[0], c0.regs[1])
        &&& (r is Ok ==> c1 == c0.set_reg(0, 0))
        &&& (r is Err ==> c1 == c0)
    } else {
        r is Ok && c1 == c0 && m1 == m0 && random1 == random0
    }
}

/// Runs one service trap on slot `slot`: the services above change
/// registers, memory and the random state as their contracts say and
/// resume the guest; every other slot is returned unhandled, unchanged.
pub fn dispatch_step(
    slot: u32,
    memory: &mut GuestMemory,
    cpu: &mut ArmCpu,
    random_state: &mut u32,
) -> (r: Result<DispatchAction, Error>)
    requires
        old(memory).wf(),
    ensures
        final(memory).wf(),
        dispatch_matches(
            r,
            slot,
            old(cpu)@,
            final(cpu)@,
            old(memory)@,
            final(memory)@,
            *old(random_state),
            *final(random_state),
        ),
{
    if 3 <= slot && slot <= 20 {
        return match libc_service(slot, memory, cpu, random_state) {
            Ok(()) => Ok(DispatchAction::Resume),
            Err(e) => Err(e),
        };
    }
    if slot == 26 {
        let format = match read_c_string(memory, GuestAddr(cpu.register(0)), FORMAT_LIMIT) {
            Ok(f) => f,
            Err(e) => return Err(e),
        };
        cpu.set_register(0, format.len() as u32);
        return Ok(DispatchAction::Resume);
    }
    if slot == 88 || slot == 90 {
        cpu.set_register(0, u32::MAX);
        return Ok(DispatchAction::Resume);
    }
    if slot == 113 {
        return match md5_init(memory, GuestAddr(cpu.register(0))) {
            Ok(()) => {
                cpu.set_register(0, 0);
                Ok(DispatchAction::Resume)
            },
            Err(e) => Err(e),
        };
    }
    if slot == 114 {
        let input = match memory.read(GuestAddr(cpu.register(1)), cpu.register(2) as usize) {
            Ok(v) => v,
            Err(e) => return Err(e),
        };
        return match md5_append(memory, GuestAddr(cpu.register(0)), input.as_slice()) {
            Ok(()) => {
                cpu.set_register(0, 0);
                Ok(DispatchAction::Resume)
            },
            Err(e) => Err(e),
        };
    }
    if slot == 115 {
        return match md5_finish(memory, GuestAddr(cpu.register(0)), GuestAddr(cpu.register(1))) {
            Ok(()) => {
                cpu.set_register(0, 0);
                Ok(DispatchAction::Resume)
            },
            Err(e) => Err(e),
        };
    }
    Ok(DispatchAction::Host { slot })
}

} // verus!
