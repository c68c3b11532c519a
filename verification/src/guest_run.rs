//! Running guest code: instructions execute until the guest returns, reaches
//! a platform service trap, calls a function, exits, faults or uses up its
//! instruction budget.  The caller performs the service or the call
//! bookkeeping and resumes.
use vstd::prelude::*;
use crate::cpu::ArmCpu;
use crate::cpu_model::CpuView;
use crate::error::{is_arm_fault, Error};
use crate::memory::{Access, GuestAddr, GuestMemory, MemView};
use crate::slots::{trap_slot, trap_slot_spec};
use crate::text::{dec_text, decimal, hex32, hex32_text, hex_digits, hex_digits_string};

verus! {

/// The return address planted in `lr` for a call into the guest: reaching
/// it ends the call.
pub const RETURN_SENTINEL: u32 = 0xffff_ff00;

/// The most instructions one guest execution may run.
pub const INSTRUCTION_BUDGET: u64 = 200_000_000;

/// Why a run of guest instructions stopped.
#[derive(Clone, Copy, Debug, PartialEq, Eq, Structural)]
pub enum RunStop {
    /// The guest returned to the sentinel with this value in `r0`.
    Returned(u32),
    /// The PC reached the trap of this platform slot.
    Service(u32),
    /// The last instruction entered a function: it changed `lr` and left the
    /// sequential path.  `target_executable` tells whether the target can be
    /// fetched.
    CallEntered { return_to_thumb: bool, target_executable: bool },
    /// The guest asked to exit through semihosting.
    Exited,
}

/// The core, memory and instruction count where a run stopped, and why.
pub struct RunEnd {
    pub cpu: CpuView,
    pub mem: MemView,
    pub count: nat,
    pub stop: Result<RunStop, Seq<char>>,
}

/// Two lowercase hexadecimal digits per byte.
pub open spec fn bytes_hex(bytes: Seq<u8>) -> Seq<char>
    decreases bytes.len(),
{
    if bytes.len() == 0 {
        Seq::empty()
    } else {
        bytes_hex(bytes.drop_last()) + hex_digits(bytes.last() as nat, 2)
    }
}

/// The `n` instruction bytes at `pc` in hexadecimal, or `unavailable`.
pub open spec fn instruction_text(m: MemView, pc: u32, n: nat) -> Seq<char> {
    match m.load(pc, n, Access::Read) {
        Ok(b) => bytes_hex(b),
        Err(_) => "unavailable"@,
    }
}

pub open spec fn register_name(i: nat) -> Seq<char> {
    if i == 13 {
        "sp"@
    } else if i == 14 {
        "lr"@
    } else {
        "r"@ + dec_text(i)
    }
}

/// `, r0=...` through register `n - 1`.
pub open spec fn register_list(c: CpuView, n: nat) -> Seq<char>
    decreases n,
{
    if n == 0 {
        Seq::empty()
    } else {
        register_list(c, (n - 1) as nat) + ", "@ + register_name((n - 1) as nat) + "="@
            + hex32_text(c.regs[n - 1])
    }
}

/// The status word and `r0` to `lr`, as fault reports print them.
pub open spec fn registers_text(c: CpuView) -> Seq<char> {
    "cpsr="@ + hex32_text(c.cpsr()) + register_list(c, 15)
}

pub open spec fn step_fault_text(t: Seq<char>, c: CpuView, m: MemView, pc: u32, module: nat) -> Seq<
    char,
> {
    t + " while executing module "@ + dec_text(module) + " at PC "@ + hex32_text(pc) + " (insn="@
        + instruction_text(m, pc, 4) + ", "@ + registers_text(c) + ")"@
}

pub open spec fn budget_text(c: CpuView, m: MemView, module: nat) -> Seq<char> {
    "instruction budget "@ + dec_text(INSTRUCTION_BUDGET as nat) + " exhausted in module "@
        + dec_text(module) + " at PC "@ + hex32_text(c.regs[15]) + " (insn="@ + instruction_text(
        m,
        c.regs[15],
        if c.thumb {
            2
        } else {
            4
        },
    ) + ", "@ + registers_text(c) + ")"@
}

/// The run from core `c`, memory `m` and `count` instructions so far, in
/// guest module `module`.
pub open spec fn run_from(c: CpuView, m: MemView, count: nat, module: nat) -> RunEnd
    decreases INSTRUCTION_BUDGET - count,
{
    if count >= INSTRUCTION_BUDGET {
        RunEnd { cpu: c, mem: m, count, stop: Err(budget_text(c, m, module)) }
    } else {
        let pc = c.regs[15];
        if pc == RETURN_SENTINEL {
            RunEnd { cpu: c, mem: m, count, stop: Ok(RunStop::Returned(c.regs[0])) }
        } else if trap_slot_spec(pc) is Some {
            RunEnd { cpu: c, mem: m, count, stop: Ok(RunStop::Service(trap_slot_spec(pc)->Some_0)) }
        } else {
            let o = c.step(m);
            match o.fault {
                Some(t) => RunEnd {
                    cpu: o.cpu,
                    mem: o.mem,
                    count,
                    stop: Err(step_fault_text(t, o.cpu, o.mem, pc, module)),
                },
                None => if o.cpu.exit is Some {
                    RunEnd {
                        cpu: CpuView { exit: None, ..o.cpu },
                        mem: o.mem,
                        count,
                        stop: Ok(RunStop::Exited),
                    }
                } else if o.cpu.regs[14] != c.regs[14] && o.cpu.regs[15] != pc.wrapping_add(
                    if c.thumb {
                        2u32
                    } else {
                        4u32
                    },
                ) {
                    RunEnd {
                        cpu: o.cpu,
                        mem: o.mem,
                        count: count + 1,
                        stop: Ok(
                            RunStop::CallEntered {
                                return_to_thumb: c.thumb,
                                target_executable: o.mem.accessible(
                                    o.cpu.regs[15] as int,
                                    if o.cpu.thumb {
                                        2
                                    } else {
                                        4
                                    },
                                    Access::Fetch,
                                ),
                            },
                        ),
                    }
                } else {
                    run_from(o.cpu, o.mem, count + 1, module)
                },
            }
        }
    }
}

fn instruction_string(memory: &GuestMemory, pc: u32, n: usize) -> (s: String)
    requires
        memory.wf(),
    ensures
        s@ == instruction_text(memory@, pc, n as nat),
{
    match memory.read(GuestAddr(pc), n) {
        Ok(bytes) => {
            let mut s = String::new();
            let mut i: usize = 0;
            while i < bytes.len()
                invariant
                    0 <= i <= bytes@.len(),
                    s@ == bytes_hex(bytes@.take(i as int)),
                decreases bytes@.len() - i,
            {
                proof {
                    assert(bytes@.take(i + 1).drop_last() =~= bytes@.take(i as int));
                }
                s = s.concat(hex_digits_string(bytes[i] as u32, 2).as_str());
                i += 1;
            }
            assert(bytes@.take(bytes@.len() as int) =~= bytes@);
            s
        },
        Err(_) => {
            proof {
                reveal_strlit("unavailable");
            }
            String::from_str("unavailable")
        },
    }
}

fn register_name_string(i: usize) -> (s: String)
    requires
        i < 15,
    ensures
        s@ == register_name(i as nat),
{
    proof {
        reveal_strlit("sp");
        reveal_strlit("lr");
        reveal_strlit("r");
    }
    if i == 13 {
        String::from_str("sp")
    } else if i == 14 {
        String::from_str("lr")
    } else {
        String::from_str("r").concat(decimal(i as u64).as_str())
    }
}

fn registers_string(cpu: &ArmCpu) -> (s: String)
    ensures
        s@ == registers_text(cpu@),
{
    proof {
        cpu.lemma_wf();
        reveal_strlit("cpsr=");
        reveal_strlit(", ");
        reveal_strlit("=");
    }
    let mut s = String::from_str("cpsr=").concat(hex32(cpu.cpsr()).as_str());
    let mut i: usize = 0;
    while i < 15
        invariant
            0 <= i <= 15,
            cpu@.wf(),
            s@ == "cpsr="@ + hex32_text(cpu@.cpsr()) + register_list(cpu@, i as nat),
        decreases 15 - i,
    {
        s = s.concat(", ").concat(register_name_string(i).as_str()).concat("=").concat(
            hex32(cpu.register(i)).as_str(),
        );
        i += 1;
    }
    s
}

fn report(lead: String, cpu: &ArmCpu, memory: &GuestMemory, pc: u32, module: usize, n: usize) -> (s: String)
    requires
        memory.wf(),
    ensures
        s@ == lead@ + " while executing module "@ + dec_text(module as nat) + " at PC "@ + hex32_text(pc)
            + " (insn="@ + instruction_text(memory@, pc, n as nat) + ", "@ + registers_text(cpu@)
            + ")"@,
{
    proof {
        reveal_strlit(" while executing module ");
        reveal_strlit(" at PC ");
        reveal_strlit(" (insn=");
        reveal_strlit(", ");
        reveal_strlit(")");
    }
    lead.concat(" while executing module ").concat(decimal(module as u64).as_str()).concat(
        " at PC ",
    ).concat(hex32(pc).as_str()).concat(" (insn=").concat(
        instruction_string(memory, pc, n).as_str(),
    ).concat(", ").concat(registers_string(cpu).as_str()).concat(")")
}

/// Runs guest instructions of module `module` from the core's state until
/// the guest returns to `RETURN_SENTINEL`, reaches a service trap, enters a
/// function, exits, faults or has run `INSTRUCTION_BUDGET` instructions in
/// all; `count` holds the instructions run so far and is advanced.  A fault
/// is reported with the PC, the instruction bytes and the registers.
pub fn run_guest(cpu: &mut ArmCpu, memory: &mut GuestMemory, module: usize, count: &mut u64) -> (r:
    Result<RunStop, Error>)
    requires
        old(memory).wf(),
    ensures
        final(memory).wf(),
        ({
            let e = run_from(old(cpu)@, old(memory)@, *old(count) as nat, module as nat);
            &&& final(cpu)@ == e.cpu
            &&& final(memory)@ == e.mem
            &&& *final(count) == e.count
            &&& match e.stop {
                Ok(s) => r == Ok::<RunStop, Error>(s),
                Err(t) => is_arm_fault(r, t),
            }
        }),
{
    let ghost c0 = cpu@;
    let ghost m0 = memory@;
    let ghost n0 = *count as nat;
    loop
        invariant
            memory.wf(),
            c0 == old(cpu)@,
            m0 == old(memory)@,
            n0 == *old(count) as nat,
            run_from(c0, m0, n0, module as nat) == run_from(cpu@, memory@, *count as nat, module as nat),
        decreases INSTRUCTION_BUDGET - *count,
    {
        proof {
            cpu.lemma_wf();
        }
        if *count >= INSTRUCTION_BUDGET {
            proof {
                reveal_strlit("instruction budget ");
                reveal_strlit(" exhausted in module ");
                reveal_strlit(" at PC ");
                reveal_strlit(" (insn=");
                reveal_strlit(", ");
                reveal_strlit(")");
            }
            let pc = cpu.pc().0;
            let n: usize = if cpu.is_thumb() {
                2
            } else {
                4
            };
            let m = String::from_str("instruction budget ").concat(
                decimal(INSTRUCTION_BUDGET).as_str(),
            ).concat(" exhausted in module ").concat(decimal(module as u64).as_str()).concat(
                " at PC ",
            ).concat(hex32(pc).as_str()).concat(" (insn=").concat(
                instruction_string(memory, pc, n).as_str(),
            ).concat(", ").concat(registers_string(cpu).as_str()).concat(")");
            return Err(Error::ArmFault(m));
        }
        let pc = cpu.pc().0;
        if pc == RETURN_SENTINEL {
            return Ok(RunStop::Returned(cpu.register(0)));
        }
        match trap_slot(pc) {
            Some(slot) => return Ok(RunStop::Service(slot)),
            None => {},
        }
        let previous_lr = cpu.register(14);
        let previous_thumb = cpu.is_thumb();
        let sequential_pc = pc.wrapping_add(
            if previous_thumb {
                2
            } else {
                4
            },
        );
        match cpu.step(memory) {
            Ok(()) => {},
            Err(e) => {
                return Err(
                    match e {
                        Error::ArmFault(message) => Error::ArmFault(
                            report(message, cpu, memory, pc, module, 4),
                        ),
                        other => other,
                    },
                );
            },
        }
        if cpu.take_semihosting_exit_reason().is_some() {
            return Ok(RunStop::Exited);
        }
        proof {
            cpu.lemma_wf();
        }
        if cpu.register(14) != previous_lr && cpu.pc().0 != sequential_pc {
            let n: usize = if cpu.is_thumb() {
                2
            } else {
                4
            };
            let target_executable = memory.check_access(cpu.pc().0, n, Access::Fetch);
            *count = *count + 1;
            return Ok(RunStop::CallEntered { return_to_thumb: previous_thumb, target_executable });
        }
        *count = *count + 1;
    }
}

pub open spec fn service_context_text(module: nat, slot: u32, c: CpuView) -> Seq<char> {
    " while dispatching module "@ + dec_text(module) + " slot "@ + dec_text(slot as nat)
        + " at LR "@ + hex32_text(c.regs[14]) + " (r0="@ + hex32_text(c.regs[0]) + ", r1="@
        + hex32_text(c.regs[1]) + ", r2="@ + hex32_text(c.regs[2]) + ", r3="@ + hex32_text(c.regs[3])
        + ", sp="@ + hex32_text(c.regs[13]) + ")"@
}

/// Adds where a failed platform service was called from to its error: the
/// module, the slot, `lr` and the argument registers.  Guest faults and
/// interface errors get the context; other errors pass unchanged.
pub fn annotate_service_error(error: Error, module: usize, slot: u32, cpu: &ArmCpu) -> (r: Error)
    ensures
        match error {
            Error::ArmFault(m) => r matches Error::ArmFault(n) && n@ == m@ + service_context_text(
                module as nat,
                slot,
                cpu@,
            ),
            Error::Abi(m) => r matches Error::Abi(n) && n@ == m@ + service_context_text(
                module as nat,
                slot,
                cpu@,
            ),
            _ => r == error,
        },
{
    proof {
        cpu.lemma_wf();
        reveal_strlit(" while dispatching module ");
        reveal_strlit(" slot ");
        reveal_strlit(" at LR ");
        reveal_strlit(" (r0=");
        reveal_strlit(", r1=");
        reveal_strlit(", r2=");
        reveal_strlit(", r3=");
        reveal_strlit(", sp=");
        reveal_strlit(")");
    }
    let context = String::from_str(" while dispatching module ").concat(
        decimal(module as u64).as_str(),
    ).concat(" slot ").concat(decimal(slot as u64).as_str()).concat(" at LR ").concat(
        hex32(cpu.register(14)).as_str(),
    ).concat(" (r0=").concat(hex32(cpu.register(0)).as_str()).concat(", r1=").concat(
        hex32(cpu.register(1)).as_str(),
    ).concat(", r2=").concat(hex32(cpu.register(2)).as_str()).concat(", r3=").concat(
        hex32(cpu.register(3)).as_str(),
    ).concat(", sp=").concat(hex32(cpu.register(13)).as_str()).concat(")");
    match error {
        Error::ArmFault(m) => Error::ArmFault(m.concat(context.as_str())),
        Error::Abi(m) => Error::Abi(m.concat(context.as_str())),
        other => other,
    }
}

} // verus!
