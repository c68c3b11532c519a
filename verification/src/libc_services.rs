//! The C library services a guest calls through the platform table: memory
//! and string copies, comparisons, searches, number parsing and `rand`.
//! Arguments arrive in `r0`..`r2`; the result goes to `r0`.
use vstd::prelude::*;
use crate::cpu::ArmCpu;
use crate::cpu_model::CpuView;
use crate::error::Error;
use crate::guest_strings::{
    before_nul, c_string_from, fault_matches, read_c_string, read_c_string_bounded, GuestFault,
};
use crate::libc::{compare_bytes, compare_bytes_spec, parse_integer, parse_integer_spec};
use crate::memory::{address_overflow_text, Access, GuestAddr, GuestMemory, MemView};
use crate::parse::{bytes_equal, find_byte, position_from};
use crate::printf::{sprintf, sprintf_spec};

verus! {

/// The longest string a service scans for its terminator.
pub const C_STRING_LIMIT: usize = 1048576;

/// What a service leaves: guest memory, and the value for `r0` or the fault
/// that stopped it.
pub struct ServiceOutcome {
    pub mem: MemView,
    pub result: Result<u32, GuestFault>,
}

/// The call returned `r`, left the core `after` and memory `mem_after`, as
/// `o` describes: `r0` is set on success, the core is untouched on a fault.
pub open spec fn service_matches(
    r: Result<(), Error>,
    before: CpuView,
    after: CpuView,
    mem_after: MemView,
    o: ServiceOutcome,
) -> bool {
    &&& mem_after == o.mem
    &&& match o.result {
        Ok(v) => r is Ok && after == before.set_reg(0, v),
        Err(f) => fault_matches(r, f) && after == before,
    }
}

pub open spec fn done_with(m: MemView, v: u32) -> ServiceOutcome {
    ServiceOutcome { mem: m, result: Ok(v) }
}

pub open spec fn failed_with(m: MemView, f: GuestFault) -> ServiceOutcome {
    ServiceOutcome { mem: m, result: Err(f) }
}

/// Stores `bytes` at `a` and a zero after them; the memory left, and the
/// fault that stopped the stores, if any.
pub open spec fn store_terminated(m: MemView, a: u32, bytes: Seq<u8>) -> (MemView, Option<GuestFault>) {
    match m.store(a, bytes) {
        Err(t) => (m, Some(GuestFault::Arm(t))),
        Ok(m1) => if a + (bytes.len() as u32) > u32::MAX {
            (m1, Some(GuestFault::Arm(address_overflow_text(a, bytes.len() as u32))))
        } else {
            match m1.write_u8((a + (bytes.len() as u32)) as u32, 0) {
                Err(t) => (m1, Some(GuestFault::Arm(t))),
                Ok(m2) => (m2, None),
            }
        },
    }
}

/// The outcome of storing a terminated string and answering `v`.
pub open spec fn terminated_outcome(m: MemView, a: u32, bytes: Seq<u8>, v: u32) -> ServiceOutcome {
    let (m2, fault) = store_terminated(m, a, bytes);
    match fault {
        None => done_with(m2, v),
        Some(f) => failed_with(m2, f),
    }
}

/// A bounded string read: nothing for a zero limit, else the bytes before
/// the first zero among `limit` bytes.
pub open spec fn bounded_string(m: MemView, a: u32, limit: nat) -> Result<Seq<u8>, GuestFault> {
    if limit == 0 {
        Ok(Seq::empty())
    } else {
        match m.load(a, limit, Access::Read) {
            Err(t) => Err(GuestFault::Arm(t)),
            Ok(b) => Ok(before_nul(b)),
        }
    }
}

pub open spec fn c_string(m: MemView, a: u32) -> Result<Seq<u8>, GuestFault> {
    c_string_from(m, a, 0, C_STRING_LIMIT as int)
}

/// The first index from `i` on where `needle` occurs in `haystack`.
pub open spec fn find_window(haystack: Seq<u8>, needle: Seq<u8>, i: int) -> Option<int>
    decreases haystack.len() + 1 - i,
{
    if i < 0 || i > haystack.len() || i + needle.len() > haystack.len() {
        None
    } else if haystack.subrange(i, i + needle.len()) == needle {
        Some(i)
    } else {
        find_window(haystack, needle, i + 1)
    }
}

/// The next state of the guest `rand` generator.
pub open spec fn next_random(state: u32) -> u32 {
    state.wrapping_mul(1103515245).wrapping_add(12345)
}

/// What library service `slot` (3 to 19) does with the core `c` and
/// memory `m`.
pub open spec fn libc_spec(slot: u32, c: CpuView, m: MemView) -> ServiceOutcome {
    let r0 = c.regs[0];
    let r1 = c.regs[1];
    let r2 = c.regs[2];
    if slot == 3 || slot == 4 {
        match m.load(r1, r2 as nat, Access::Read) {
            Err(t) => failed_with(m, GuestFault::Arm(t)),
            Ok(b) => match m.store(r0, b) {
                Err(t) => failed_with(m, GuestFault::Arm(t)),
                Ok(m2) => done_with(m2, r0),
            },
        }
    } else if slot == 5 {
        match c_string(m, r1) {
            Err(f) => failed_with(m, f),
            Ok(s) => terminated_outcome(m, r0, s, r0),
        }
    } else if slot == 6 {
        match bounded_string(m, r1, r2 as nat) {
            Err(f) => failed_with(m, f),
            Ok(s) => {
                let bytes = s + Seq::new((r2 - s.len()) as nat, |i: int| 0u8);
                match m.store(r0, bytes) {
                    Err(t) => failed_with(m, GuestFault::Arm(t)),
                    Ok(m2) => done_with(m2, r0),
                }
            },
        }
    } else if slot == 7 || slot == 8 {
        match c_string(m, r0) {
            Err(f) => failed_with(m, f),
            Ok(d) => {
                let source = if slot == 8 {
                    bounded_string(m, r1, r2 as nat)
                } else {
                    c_string(m, r1)
                };
                match source {
                    Err(f) => failed_with(m, f),
                    Ok(s) => if r0 + (d.len() as u32) > u32::MAX {
                        failed_with(m, GuestFault::Arm(address_overflow_text(r0, d.len() as u32)))
                    } else {
                        terminated_outcome(m, (r0 + (d.len() as u32)) as u32, s, r0)
                    },
                }
            },
        }
    } else if slot == 9 {
        match m.load(r0, r2 as nat, Access::Read) {
            Err(t) => failed_with(m, GuestFault::Arm(t)),
            Ok(left) => match m.load(r1, r2 as nat, Access::Read) {
                Err(t) => failed_with(m, GuestFault::Arm(t)),
                Ok(right) => done_with(m, compare_bytes_spec(left, right) as u32),
            },
        }
    } else if slot == 10 || slot == 12 || slot == 11 {
        let left = if slot == 11 {
            bounded_string(m, r0, r2 as nat)
        } else {
            c_string(m, r0)
        };
        match left {
            Err(f) => failed_with(m, f),
            Ok(l) => {
                let right = if slot == 11 {
                    bounded_string(m, r1, r2 as nat)
                } else {
                    c_string(m, r1)
                };
                match right {
                    Err(f) => failed_with(m, f),
                    Ok(rt) => done_with(m, compare_bytes_spec(l, rt) as u32),
                }
            },
        }
    } else if slot == 13 {
        match m.load(r0, r2 as nat, Access::Read) {
            Err(t) => failed_with(m, GuestFault::Arm(t)),
            Ok(b) => match position_from(b, r1 as u8, 0) {
                Some(i) => done_with(m, (r0 + i) as u32),
                None => done_with(m, 0),
            },
        }
    } else if slot == 14 {
        match m.store(r0, Seq::new(r2 as nat, |i: int| r1 as u8)) {
            Err(t) => failed_with(m, GuestFault::Arm(t)),
            Ok(m2) => done_with(m2, r0),
        }
    } else if slot == 15 {
        match c_string(m, r0) {
            Err(f) => failed_with(m, f),
            Ok(s) => done_with(m, s.len() as u32),
        }
    } else if slot == 16 {
        match c_string(m, r0) {
            Err(f) => failed_with(m, f),
            Ok(h) => match c_string(m, r1) {
                Err(f) => failed_with(m, f),
                Ok(n) => {
                    let found = if n.len() == 0 {
                        Some(0int)
                    } else {
                        find_window(h, n, 0)
                    };
                    match found {
                        Some(i) => done_with(m, (r0 + i) as u32),
                        None => done_with(m, 0),
                    }
                },
            },
        }
    } else if slot == 17 {
        sprintf_spec(c, m)
    } else if slot == 18 {
        match c_string_from(m, r0, 0, 1024) {
            Err(f) => failed_with(m, f),
            Ok(text) => done_with(m, parse_integer_spec(text, 10).0 as u32),
        }
    } else {
        match c_string_from(m, r0, 0, 1024) {
            Err(f) => failed_with(m, f),
            Ok(text) => {
                let (value, consumed) = parse_integer_spec(text, r2);
                if r1 != 0 {
                    match m.write_u32(r1, r0.wrapping_add(consumed as u32)) {
                        Err(t) => failed_with(m, GuestFault::Arm(t)),
                        Ok(m2) => done_with(m2, value as u32),
                    }
                } else {
                    done_with(m, value as u32)
                }
            },
        }
    }
}

pub(crate) fn write_terminated(memory: &mut GuestMemory, a: GuestAddr, bytes: &[u8]) -> (r: Result<(), Error>)
    requires
        old(memory).wf(),
    ensures
        final(memory).wf(),
        final(memory)@ == store_terminated(old(memory)@, a.0, bytes@).0,
        match store_terminated(old(memory)@, a.0, bytes@).1 {
            None => r is Ok,
            Some(f) => fault_matches(r, f),
        },
{
    match memory.write(a, bytes) {
        Ok(()) => {},
        Err(e) => return Err(e),
    }
    let end = match a.checked_add(bytes.len() as u32) {
        Ok(e) => e,
        Err(e) => return Err(e),
    };
    memory.write_u8(end, 0)
}

fn read_bounded(memory: &GuestMemory, a: GuestAddr, limit: usize) -> (r: Result<Vec<u8>, Error>)
    requires
        memory.wf(),
    ensures
        match bounded_string(memory@, a.0, limit as nat) {
            Ok(s) => r matches Ok(v) && v@ == s,
            Err(f) => fault_matches(r, f),
        },
{
    read_c_string_bounded(memory, a, limit)
}

fn find_window_exec(haystack: &[u8], needle: &[u8]) -> (r: Option<usize>)
    ensures
        match r {
            Some(k) => find_window(haystack@, needle@, 0) == Some(k as int)
                && k + needle@.len() <= haystack@.len(),
            None => find_window(haystack@, needle@, 0) is None,
        },
{
    let n = needle.len();
    let total = haystack.len();
    if n > total {
        return None;
    }
    let last = total - n;
    let mut i: usize = 0;
    loop
        invariant
            n == needle@.len(),
            total == haystack@.len(),
            last + n == total,
            i <= last,
            find_window(haystack@, needle@, 0) == find_window(haystack@, needle@, i as int),
        decreases last - i,
    {
        let window = &haystack[i..i + n];
        if bytes_equal(window, needle) {
            return Some(i);
        }
        if i == last {
            assert(find_window(haystack@, needle@, i + 1) is None);
            return None;
        }
        i += 1;
    }
}

/// The outcome `libc_spec` gives, for the call that is being answered.
pub open spec fn answers(
    r: Result<(), Error>,
    before: CpuView,
    after: CpuView,
    mem_before: MemView,
    mem_after: MemView,
    slot: u32,
) -> bool {
    service_matches(r, before, after, mem_after, libc_spec(slot, before, mem_before))
}

fn finish(cpu: &mut ArmCpu, value: u32) -> (r: Result<(), Error>)
    ensures
        r is Ok,
        final(cpu)@ == old(cpu)@.set_reg(0, value),
{
    cpu.set_register(0, value);
    Ok(())
}

fn service_copy(slot: u32, memory: &mut GuestMemory, cpu: &mut ArmCpu) -> (r: Result<(), Error>)
    requires
        old(memory).wf(),
        slot == 3 || slot == 4 || slot == 5 || slot == 6 || slot == 14,
    ensures
        final(memory).wf(),
        answers(r, old(cpu)@, final(cpu)@, old(memory)@, final(memory)@, slot),
{
    proof {
        cpu.lemma_wf();
    }
    let r0 = cpu.register(0);
    let r1 = cpu.register(1);
    let r2 = cpu.register(2);
    let bytes: Vec<u8> = if slot == 3 || slot == 4 {
        match memory.read(GuestAddr(r1), r2 as usize) {
            Ok(b) => b,
            Err(e) => return Err(e),
        }
    } else if slot == 5 {
        let source = match read_c_string(memory, GuestAddr(r1), C_STRING_LIMIT) {
            Ok(b) => b,
            Err(e) => return Err(e),
        };
        match write_terminated(memory, GuestAddr(r0), source.as_slice()) {
            Ok(()) => {},
            Err(e) => return Err(e),
        }
        return finish(cpu, r0);
    } else if slot == 6 {
        let source = match read_bounded(memory, GuestAddr(r1), r2 as usize) {
            Ok(b) => b,
            Err(e) => return Err(e),
        };
        let mut bytes = source.clone();
        let ghost s = source@;
        proof {
            if r2 > 0 {
                lemma_before_nul_len(memory@.load(r1, r2 as nat, Access::Read)->Ok_0);
            }
        }
        while bytes.len() < r2 as usize
            invariant
                s.len() <= r2,
                s.len() <= bytes@.len() <= r2,
                bytes@ == s + Seq::new((bytes@.len() - s.len()) as nat, |i: int| 0u8),
            decreases r2 - bytes@.len(),
        {
            bytes.push(0);
            proof {
                assert(bytes@ =~= s + Seq::new((bytes@.len() - s.len()) as nat, |i: int| 0u8));
            }
        }
        bytes
    } else {
        let fill = r1 as u8;
        let mut bytes: Vec<u8> = Vec::new();
        while bytes.len() < r2 as usize
            invariant
                bytes@.len() <= r2,
                bytes@ == Seq::new(bytes@.len(), |i: int| fill),
            decreases r2 - bytes@.len(),
        {
            bytes.push(fill);
            proof {
                assert(bytes@ =~= Seq::new(bytes@.len(), |i: int| fill));
            }
        }
        bytes
    };
    match memory.write(GuestAddr(r0), bytes.as_slice()) {
        Ok(()) => {},
        Err(e) => return Err(e),
    }
    finish(cpu, r0)
}

fn service_concat(slot: u32, memory: &mut GuestMemory, cpu: &mut ArmCpu) -> (r: Result<(), Error>)
    requires
        old(memory).wf(),
        slot == 7 || slot == 8,
    ensures
        final(memory).wf(),
        answers(r, old(cpu)@, final(cpu)@, old(memory)@, final(memory)@, slot),
{
    proof {
        cpu.lemma_wf();
    }
    let r0 = cpu.register(0);
    let r1 = cpu.register(1);
    let r2 = cpu.register(2);
    let destination = match read_c_string(memory, GuestAddr(r0), C_STRING_LIMIT) {
        Ok(b) => b,
        Err(e) => return Err(e),
    };
    let source = if slot == 8 {
        read_bounded(memory, GuestAddr(r1), r2 as usize)
    } else {
        read_c_string(memory, GuestAddr(r1), C_STRING_LIMIT)
    };
    let source = match source {
        Ok(b) => b,
        Err(e) => return Err(e),
    };
    let append_at = match GuestAddr(r0).checked_add(destination.len() as u32) {
        Ok(a) => a,
        Err(e) => return Err(e),
    };
    match write_terminated(memory, append_at, source.as_slice()) {
        Ok(()) => {},
        Err(e) => return Err(e),
    }
    finish(cpu, r0)
}

fn service_compare(slot: u32, memory: &GuestMemory, cpu: &mut ArmCpu) -> (r: Result<(), Error>)
    requires
        memory.wf(),
        9 <= slot <= 12,
    ensures
        answers(r, old(cpu)@, final(cpu)@, memory@, memory@, slot),
{
    proof {
        cpu.lemma_wf();
    }
    let r0 = cpu.register(0);
    let r1 = cpu.register(1);
    let r2 = cpu.register(2);
    let left = if slot == 9 {
        memory.read(GuestAddr(r0), r2 as usize)
    } else if slot == 11 {
        read_bounded(memory, GuestAddr(r0), r2 as usize)
    } else {
        read_c_string(memory, GuestAddr(r0), C_STRING_LIMIT)
    };
    let left = match left {
        Ok(b) => b,
        Err(e) => return Err(e),
    };
    let right = if slot == 9 {
        memory.read(GuestAddr(r1), r2 as usize)
    } else if slot == 11 {
        read_bounded(memory, GuestAddr(r1), r2 as usize)
    } else {
        read_c_string(memory, GuestAddr(r1), C_STRING_LIMIT)
    };
    let right = match right {
        Ok(b) => b,
        Err(e) => return Err(e),
    };
    finish(cpu, compare_bytes(left.as_slice(), right.as_slice()) as u32)
}

fn service_search(slot: u32, memory: &GuestMemory, cpu: &mut ArmCpu) -> (r: Result<(), Error>)
    requires
        memory.wf(),
        slot == 13 || slot == 15 || slot == 16,
    ensures
        answers(r, old(cpu)@, final(cpu)@, memory@, memory@, slot),
{
    proof {
        cpu.lemma_wf();
    }
    let r0 = cpu.register(0);
    let r1 = cpu.register(1);
    let r2 = cpu.register(2);
    if slot == 13 {
        let bytes = match memory.read(GuestAddr(r0), r2 as usize) {
            Ok(b) => b,
            Err(e) => return Err(e),
        };
        proof {
            lemma_load_in_space(memory@, r0, r2 as nat);
            assert(memory@.load(r0, r2 as nat, Access::Read) == Ok::<Seq<u8>, Seq<char>>(bytes@));
        }
        let value = match find_byte(bytes.as_slice(), r1 as u8, 0) {
            Some(offset) => {
                assert(r0 + offset < 0x1_0000_0000);
                r0 + offset as u32
            },
            None => 0,
        };
        return finish(cpu, value);
    }
    let haystack = match read_c_string(memory, GuestAddr(r0), C_STRING_LIMIT) {
        Ok(b) => b,
        Err(e) => return Err(e),
    };
    if slot == 15 {
        return finish(cpu, haystack.len() as u32);
    }
    let needle = match read_c_string(memory, GuestAddr(r1), C_STRING_LIMIT) {
        Ok(b) => b,
        Err(e) => return Err(e),
    };
    proof {
        lemma_c_string_in_space(memory@, r0, 0, C_STRING_LIMIT as int);
        assert(c_string(memory@, r0) == Ok::<Seq<u8>, GuestFault>(haystack@));
        assert(c_string(memory@, r1) == Ok::<Seq<u8>, GuestFault>(needle@));
    }
    let found = if needle.len() == 0 {
        Some(0usize)
    } else {
        find_window_exec(haystack.as_slice(), needle.as_slice())
    };
    let value = match found {
        Some(offset) => {
            assert(offset <= haystack@.len());
            r0 + offset as u32
        },
        None => 0,
    };
    finish(cpu, value)
}

fn service_number(slot: u32, memory: &mut GuestMemory, cpu: &mut ArmCpu) -> (r: Result<(), Error>)
    requires
        old(memory).wf(),
        slot == 18 || slot == 19,
    ensures
        final(memory).wf(),
        answers(r, old(cpu)@, final(cpu)@, old(memory)@, final(memory)@, slot),
{
    proof {
        cpu.lemma_wf();
    }
    let r0 = cpu.register(0);
    let r1 = cpu.register(1);
    let r2 = cpu.register(2);
    let text = match read_c_string(memory, GuestAddr(r0), 1024) {
        Ok(b) => b,
        Err(e) => return Err(e),
    };
    if slot == 18 {
        return finish(cpu, parse_integer(text.as_slice(), 10).0 as u32);
    }
    let (value, consumed) = parse_integer(text.as_slice(), r2);
    if r1 != 0 {
        match memory.write_u32(GuestAddr(r1), r0.wrapping_add(consumed as u32)) {
            Ok(()) => {},
            Err(e) => return Err(e),
        }
    }
    finish(cpu, value as u32)
}

/// What library service `slot` does: `rand` (20) advances the random state
/// and answers its high bits; the others answer as `answers` says and leave
/// the random state alone.
pub open spec fn libc_matches(
    r: Result<(), Error>,
    slot: u32,
    cpu_before: CpuView,
    cpu_after: CpuView,
    before: MemView,
    after: MemView,
    random_before: u32,
    random_after: u32,
) -> bool {
    if slot == 20 {
        &&& r is Ok
        &&& random_after == next_random(random_before)
        &&& cpu_after == cpu_before.set_reg(0, (next_random(random_before) >> 16u32) & 0x7fff)
        &&& after == before
    } else {
        random_after == random_before && answers(r, cpu_before, cpu_after, before, after, slot)
    }
}

/// Runs library service `slot` (3 to 20) for the guest: `r0`..`r3` and the
/// stack hold the arguments and `r0` receives the result; `rand` (20)
/// advances `random_state`.
pub fn libc_service(
    slot: u32,
    memory: &mut GuestMemory,
    cpu: &mut ArmCpu,
    random_state: &mut u32,
) -> (r: Result<(), Error>)
    requires
        old(memory).wf(),
        3 <= slot <= 20,
    ensures
        final(memory).wf(),
        libc_matches(
            r,
            slot,
            old(cpu)@,
            final(cpu)@,
            old(memory)@,
            final(memory)@,
            *old(random_state),
            *final(random_state),
        ),
{
    if slot == 20 {
        *random_state = random_state.wrapping_mul(1_103_515_245).wrapping_add(12_345);
        return finish(cpu, (*random_state >> 16u32) & 0x7fff);
    }
    if slot == 3 || slot == 4 || slot == 5 || slot == 6 || slot == 14 {
        service_copy(slot, memory, cpu)
    } else if slot == 7 || slot == 8 {
        service_concat(slot, memory, cpu)
    } else if slot <= 12 {
        service_compare(slot, memory, cpu)
    } else if slot == 13 || slot == 15 || slot == 16 {
        service_search(slot, memory, cpu)
    } else if slot == 17 {
        sprintf(memory, cpu)
    } else {
        service_number(slot, memory, cpu)
    }
}

proof fn lemma_before_nul_len(s: Seq<u8>)
    ensures
        before_nul(s).len() <= s.len(),
    decreases s.len(),
{
    if s.len() > 0 && s[0] != 0 {
        lemma_before_nul_len(s.drop_first());
    }
}

/// A range that loads lies inside the address space.
proof fn lemma_load_in_space(m: MemView, a: u32, n: nat)
    ensures
        m.load(a, n, Access::Read) is Ok ==> a + n <= 0x1_0000_0000,
{
}

/// The string a read finds lies inside the address space.
proof fn lemma_c_string_in_space(m: MemView, a: u32, offset: int, limit: int)
    requires
        0 <= offset,
        limit <= u32::MAX,
    ensures
        c_string_from(m, a, offset, limit) matches Ok(s) ==> a + offset + s.len() <= u32::MAX,
    decreases limit - offset,
{
    if offset < limit && a + (offset as u32) <= u32::MAX {
        lemma_c_string_in_space(m, a, offset + 1, limit);
    }
}

} // verus!
