//! The ARM/Thumb core.
use crate::cpu_model::{CpuView, Outcome, add_with_carry, arm_alu, bit_count, pc_fault_text, rotr32, shift_immediate, shift_register, sign_extend, signed_halfword};
use crate::error::{Error, is_arm_fault};
use crate::memory::{GuestAddr, GuestMemory, MemView, u16_bytes, u32_bytes};
use crate::text::{hex16, hex32};
use vstd::prelude::*;
use vstd::string::*;

verus! {

/// The register file, the condition flags and the execution state of an
/// ARMv5-style core with Thumb-1 support.
#[derive(Clone, Debug)]
pub struct ArmCpu {
    registers: [u32; 16],
    negative: bool,
    zero: bool,
    carry: bool,
    overflow: bool,
    thumb: bool,
    semihosting_exit_reason: Option<u32>,
    legacy_null_data: Option<[u8; 8]>,
}

impl View for ArmCpu {
    type V = CpuView;

    closed spec fn view(&self) -> CpuView {
        CpuView {
            regs: self.registers@,
            n: self.negative,
            z: self.zero,
            c: self.carry,
            v: self.overflow,
            thumb: self.thumb,
            exit: self.semihosting_exit_reason,
            null_data: match self.legacy_null_data {
                Some(d) => Some(d@),
                None => None,
            },
        }
    }
}

/// The instruction outcome `o` describes the final core `cpu`, the final
/// memory `mem` and the result `r`.
pub open spec fn outcome_matches(r: Result<(), Error>, cpu: CpuView, mem: MemView, o: Outcome) -> bool {
    &&& cpu == o.cpu
    &&& mem == o.mem
    &&& match o.fault {
        None => r is Ok,
        Some(t) => is_arm_fault(r, t),
    }
}

/// A data store either succeeds with the core and memory `s` names or fails
/// with its message and changes nothing.
pub open spec fn data_write_matches(
    r: Result<(), Error>,
    cpu0: CpuView,
    cpu1: CpuView,
    mem0: MemView,
    mem1: MemView,
    s: Result<(CpuView, MemView), Seq<char>>,
) -> bool {
    match s {
        Ok((c, m)) => r is Ok && cpu1 == c && mem1 == m,
        Err(t) => is_arm_fault(r, t) && cpu1 == cpu0 && mem1 == mem0,
    }
}

/// A register-only instruction either succeeds with the state `s` names or
/// fails with its message and changes nothing.
pub open spec fn cpu_result_matches(
    r: Result<(), Error>,
    before: CpuView,
    after: CpuView,
    s: Result<CpuView, Seq<char>>,
) -> bool {
    match s {
        Ok(c) => r is Ok && after == c,
        Err(t) => is_arm_fault(r, t) && after == before,
    }
}

fn field4(instruction: u32, shift: u32) -> (r: usize)
    requires
        shift < 32,
    ensures
        r < 16,
        r as int == ((instruction >> shift) & 0xf) as int,
        shift == 0 ==> r as int == (instruction & 0xf) as int,
{
    assert((instruction >> shift) & 0xf < 16) by (bit_vector);
    assert(instruction >> 0u32 == instruction) by (bit_vector);
    ((instruction >> shift) & 0xf) as usize
}

fn field3(instruction: u16, shift: u16) -> (r: usize)
    requires
        shift < 16,
    ensures
        r < 8,
        r as int == ((instruction >> shift) & 7) as int,
        shift == 0 ==> r as int == (instruction & 7) as int,
{
    assert((instruction >> shift) & 7 < 8) by (bit_vector);
    assert(instruction >> 0u16 == instruction) by (bit_vector);
    ((instruction >> shift) & 7) as usize
}

fn fault_at(prefix: &str, address: u32) -> (e: Error)
    ensures
        e matches Error::ArmFault(m) && m@ == pc_fault_text(prefix@, address),
{
    Error::ArmFault(String::from_str(prefix).concat(hex32(address).as_str()))
}

/// The sum `left + right + carry` together with its carry out and its signed
/// overflow.
pub fn add_with_carry_exec(left: u32, right: u32, carry: bool) -> (r: (u32, bool, bool))
    ensures
        r == add_with_carry(left, right, carry),
{
    let cv: u64 = if carry {
        1
    } else {
        0
    };
    let unsigned = left as u64 + right as u64 + cv;
    let signed = (left as i32) as i64 + (right as i32) as i64 + cv as i64;
    let result = (unsigned % 0x1_0000_0000) as u32;
    (result, unsigned > u32::MAX as u64, signed < i32::MIN as i64 || signed > i32::MAX as i64)
}

fn rotate_right(value: u32, amount: u32) -> (r: u32)
    requires
        amount < 32,
    ensures
        r == rotr32(value, amount),
{
    if amount == 0 {
        value
    } else {
        (value >> amount) | (value << (32 - amount))
    }
}

fn signed_halfword_exec(value: u32, top: bool) -> (r: i16)
    ensures
        r == signed_halfword(value, top),
{
    let halfword = if top {
        value >> 16
    } else {
        value
    };
    halfword as u16 as i16
}

fn sign_extend_exec(value: u32, bits: u32) -> (r: i32)
    requires
        0 < bits <= 32,
    ensures
        r == sign_extend(value, bits),
{
    ((value << (32 - bits)) as i32) >> (32 - bits)
}

/// The immediate-amount barrel shifter.
pub fn shift_immediate_exec(value: u32, shift_type: u8, amount: u32, carry: bool) -> (r: (u32, bool))
    requires
        amount < 32,
    ensures
        r == shift_immediate(value, shift_type, amount, carry),
{
    reveal(shift_immediate);
    if shift_type == 0 {
        if amount == 0 {
            (value, carry)
        } else {
            (value << amount, value & (1u32 << (32 - amount)) != 0)
        }
    } else if shift_type == 1 {
        if amount == 0 {
            (0, value & 0x8000_0000 != 0)
        } else {
            (value >> amount, value & (1u32 << (amount - 1)) != 0)
        }
    } else if shift_type == 2 {
        if amount == 0 {
            let sign = value & 0x8000_0000 != 0;
            (
                if sign {
                    u32::MAX
                } else {
                    0
                },
                sign,
            )
        } else {
            (((value as i32) >> amount) as u32, value & (1u32 << (amount - 1)) != 0)
        }
    } else {
        if amount == 0 {
            let c: u32 = if carry {
                1
            } else {
                0
            };
            ((c << 31u32) | (value >> 1u32), value & 1 != 0)
        } else {
            let result = rotate_right(value, amount);
            (result, result & 0x8000_0000 != 0)
        }
    }
}

/// The register-amount barrel shifter.
pub fn shift_register_exec(value: u32, shift_type: u8, amount: u32, carry: bool) -> (r: (u32, bool))
    ensures
        r == shift_register(value, shift_type, amount, carry),
{
    reveal(shift_register);
    if amount == 0 {
        (value, carry)
    } else if shift_type == 0 {
        if amount < 32 {
            (value << amount, value & (1u32 << (32 - amount)) != 0)
        } else if amount == 32 {
            (0, value & 1 != 0)
        } else {
            (0, false)
        }
    } else if shift_type == 1 {
        if amount < 32 {
            (value >> amount, value & (1u32 << (amount - 1)) != 0)
        } else if amount == 32 {
            (0, value & 0x8000_0000 != 0)
        } else {
            (0, false)
        }
    } else if shift_type == 2 {
        if amount < 32 {
            (((value as i32) >> amount) as u32, value & (1u32 << (amount - 1)) != 0)
        } else {
            let sign = value & 0x8000_0000 != 0;
            (
                if sign {
                    u32::MAX
                } else {
                    0
                },
                sign,
            )
        }
    } else {
        let rotate = amount & 31;
        assert(amount & 31 < 32) by (bit_vector);
        if rotate == 0 {
            (value, value & 0x8000_0000 != 0)
        } else {
            let result = rotate_right(value, rotate);
            (result, result & 0x8000_0000 != 0)
        }
    }
}

/// The number of set bits among the `width` low bits of `x`.
pub fn count_bits(x: u32, width: u32) -> (r: u32)
    requires
        width <= 32,
    ensures
        r == bit_count(x, width as nat),
        r <= width,
{
    let mut count: u32 = 0;
    let mut i: u32 = 0;
    while i < width
        invariant
            0 <= i <= width <= 32,
            count == bit_count(x, i as nat),
            count <= i,
        decreases width - i,
    {
        if (x >> i) & 1 == 1 {
            count = count + 1;
        }
        i = i + 1;
    }
    count
}


impl ArmCpu {
    /// A core in A32 state with all registers and flags clear.
    pub fn new() -> (cpu: Self)
        ensures
            cpu@.regs == Seq::new(16, |i: int| 0u32),
            !cpu@.n && !cpu@.z && !cpu@.c && !cpu@.v && !cpu@.thumb,
            cpu@.exit is None,
            cpu@.null_data is None,
    {
        let cpu = ArmCpu {
            registers: [0; 16],
            negative: false,
            zero: false,
            carry: false,
            overflow: false,
            thumb: false,
            semihosting_exit_reason: None,
            legacy_null_data: None,
        };
        assert(cpu@.regs =~= Seq::new(16, |i: int| 0u32));
        cpu
    }

    /// The register file always holds sixteen registers and eight scratch bytes.
    pub proof fn lemma_wf(&self)
        ensures
            self@.wf(),
    {
    }

    /// The value of register `index`.
    pub fn register(&self, index: usize) -> (r: u32)
        requires
            index < 16,
        ensures
            r == self@.regs[index as int],
    {
        self.registers[index]
    }

    /// Sets register `index` without changing the execution state.
    pub fn set_register(&mut self, index: usize, value: u32)
        requires
            index < 16,
        ensures
            final(self)@ == old(self)@.set_reg(index as int, value),
    {
        self.registers[index] = value;
    }

    /// The address of the next instruction.
    pub fn pc(&self) -> (r: GuestAddr)
        ensures
            r == GuestAddr(self@.regs[15]),
    {
        GuestAddr(self.registers[15])
    }

    pub fn is_thumb(&self) -> (r: bool)
        ensures
            r == self@.thumb,
    {
        self.thumb
    }

    /// Branches to `address`; bit 0 selects Thumb state.
    pub fn set_pc(&mut self, address: u32)
        ensures
            final(self)@ == old(self)@.set_pc(address),
    {
        self.thumb = address & 1 != 0;
        self.registers[15] = if self.thumb {
            address & !1u32
        } else {
            address & !3u32
        };
    }

    /// Takes the exit reason of the last A32 semihosting exit call.
    pub fn take_semihosting_exit_reason(&mut self) -> (r: Option<u32>)
        ensures
            r == old(self)@.exit,
            final(self)@ == (CpuView { exit: None, ..old(self)@ }),
    {
        let r = self.semihosting_exit_reason;
        self.semihosting_exit_reason = None;
        r
    }

    /// Lets data accesses to unmapped addresses below eight use zeroed scratch
    /// bytes held by the core, so NULL stays unmapped for fetches and services.
    pub fn allow_legacy_null_data_accesses(&mut self)
        ensures
            final(self)@ == (CpuView { null_data: Some(Seq::new(8, |i: int| 0u8)), ..old(self)@ }),
    {
        self.legacy_null_data = Some([0; 8]);
        assert(self@.null_data.unwrap() =~= Seq::new(8, |i: int| 0u8));
    }

    /// The program status word: N, Z, C, V in bits 31..28 and T in bit 5.
    pub fn cpsr(&self) -> (r: u32)
        ensures
            r == self@.cpsr(),
    {
        let n: u32 = if self.negative { 1 } else { 0 };
        let z: u32 = if self.zero { 1 } else { 0 };
        let c: u32 = if self.carry { 1 } else { 0 };
        let v: u32 = if self.overflow { 1 } else { 0 };
        let t: u32 = if self.thumb { 1 } else { 0 };
        (n << 31u32) | (z << 30u32) | (c << 29u32) | (v << 28u32) | (t << 5u32)
    }

    /// Executes one instruction in the current state.
    pub fn step(&mut self, memory: &mut GuestMemory) -> (r: Result<(), Error>)
        requires
            old(memory).wf(),
        ensures
            final(memory).wf(),
            outcome_matches(r, final(self)@, final(memory)@, old(self)@.step(old(memory)@)),
    {
        proof {
            reveal(CpuView::step);
        }
        if self.thumb {
            self.step_thumb(memory)
        } else {
            self.step_arm(memory)
        }
    }

    fn set_nz(&mut self, result: u32)
        ensures
            final(self)@ == old(self)@.set_nz(result),
    {
        self.negative = result & 0x8000_0000 != 0;
        self.zero = result == 0;
    }

    fn set_arithmetic_flags(&mut self, flags: (u32, bool, bool))
        ensures
            final(self)@ == old(self)@.set_arithmetic_flags(flags),
    {
        self.set_nz(flags.0);
        self.carry = flags.1;
        self.overflow = flags.2;
    }

    fn condition_passed(&self, condition: u8) -> (r: bool)
        ensures
            r == self@.condition_passed(condition),
    {
        match condition {
            0x0 => self.zero,
            0x1 => !self.zero,
            0x2 => self.carry,
            0x3 => !self.carry,
            0x4 => self.negative,
            0x5 => !self.negative,
            0x6 => self.overflow,
            0x7 => !self.overflow,
            0x8 => self.carry && !self.zero,
            0x9 => !self.carry || self.zero,
            0xa => self.negative == self.overflow,
            0xb => self.negative != self.overflow,
            0xc => !self.zero && self.negative == self.overflow,
            0xd => self.zero || self.negative != self.overflow,
            0xe => true,
            _ => false,
        }
    }

    fn read_arm_register(&self, index: usize, address: u32) -> (r: u32)
        requires
            index < 16,
        ensures
            r == self@.read_arm_register(index as int, address),
    {
        if index == 15 {
            address.wrapping_add(8)
        } else {
            self.registers[index]
        }
    }

    fn write_arm_register(&mut self, index: usize, value: u32)
        requires
            index < 16,
        ensures
            final(self)@ == old(self)@.write_arm_register(index as int, value),
    {
        if index == 15 {
            self.registers[15] = value & !3u32;
        } else {
            self.registers[index] = value;
        }
    }

    fn read_thumb_register(&self, index: usize, address: u32) -> (r: u32)
        requires
            index < 16,
        ensures
            r == self@.read_thumb_register(index as int, address),
    {
        if index == 15 {
            address.wrapping_add(4)
        } else {
            self.registers[index]
        }
    }

    fn write_thumb_register(&mut self, index: usize, value: u32)
        requires
            index < 16,
        ensures
            final(self)@ == old(self)@.write_thumb_register(index as int, value),
    {
        if index == 15 {
            self.thumb = true;
            self.registers[15] = value & !1u32;
        } else {
            self.registers[index] = value;
        }
    }

    fn unsupported_arm(&self, instruction: u32, address: u32) -> (e: Error)
        ensures
            e matches Error::ArmFault(m) && m@ == self@.unsupported_arm_text(instruction, address),
    {
        let m = String::from_str("unsupported A32 instruction ").concat(
            hex32(instruction).as_str(),
        ).concat(" at PC ").concat(hex32(address).as_str()).concat("; cpsr=").concat(
            hex32(self.cpsr()).as_str(),
        );
        Error::ArmFault(m)
    }

    fn unsupported_thumb(&self, instruction: u16, address: u32) -> (e: Error)
        ensures
            e matches Error::ArmFault(m) && m@ == self@.unsupported_thumb_text(instruction, address),
    {
        let m = String::from_str("unsupported Thumb-1 instruction ").concat(
            hex16(instruction).as_str(),
        ).concat(" at PC ").concat(hex32(address).as_str()).concat("; cpsr=").concat(
            hex32(self.cpsr()).as_str(),
        );
        Error::ArmFault(m)
    }

    // -----------------------------------------------------------------
    // Data accesses
    // -----------------------------------------------------------------
    fn legacy_null_data_offset(&self, memory: &GuestMemory, address: GuestAddr, len: u32) -> (r:
        Option<usize>)
        ensures
            match r {
                Some(o) => self@.null_offset(memory@, address.0, len) == Some(o as int) && o < 8,
                None => self@.null_offset(memory@, address.0, len) is None,
            },
    {
        if self.legacy_null_data.is_none() {
            return None;
        }
        match address.0.checked_add(len) {
            None => None,
            Some(end) => {
                if end > 8 {
                    None
                } else if memory.is_mapped(address, len as usize) {
                    None
                } else {
                    Some(address.0 as usize)
                }
            },
        }
    }

    fn read_data_byte(&self, memory: &GuestMemory, address: GuestAddr) -> (r: Result<u8, Error>)
        requires
            memory.wf(),
        ensures
            crate::memory::matches_spec(r, self@.read_data_byte(memory@, address.0)),
    {
        match self.legacy_null_data_offset(memory, address, 1) {
            Some(offset) => {
                let data = self.legacy_null_data.unwrap();
                Ok(data[offset])
            },
            None => memory.read_u8(address),
        }
    }

    fn read_data_halfword(&self, memory: &GuestMemory, address: GuestAddr) -> (r: Result<u16, Error>)
        requires
            memory.wf(),
        ensures
            crate::memory::matches_spec(r, self@.read_data_halfword(memory@, address.0)),
    {
        match self.legacy_null_data_offset(memory, address, 2) {
            Some(offset) => {
                let data = self.legacy_null_data.unwrap();
                Ok((data[offset] as u16) | ((data[offset + 1] as u16) << 8u16))
            },
            None => memory.read_u16(address),
        }
    }

    fn read_data_word(&self, memory: &GuestMemory, address: GuestAddr) -> (r: Result<u32, Error>)
        requires
            memory.wf(),
        ensures
            crate::memory::matches_spec(r, self@.read_data_word(memory@, address.0)),
    {
        match self.legacy_null_data_offset(memory, address, 4) {
            Some(offset) => {
                let data = self.legacy_null_data.unwrap();
                Ok(
                    (data[offset] as u32) | ((data[offset + 1] as u32) << 8u32) | ((data[offset
                        + 2] as u32) << 16u32) | ((data[offset + 3] as u32) << 24u32),
                )
            },
            None => memory.read_u32(address),
        }
    }

    fn read_signed_halfword(&self, memory: &GuestMemory, address: GuestAddr) -> (r: Result<u32, Error>)
        requires
            memory.wf(),
        ensures
            crate::memory::matches_spec(r, self@.read_signed_halfword(memory@, address.0)),
    {
        match self.read_data_halfword(memory, address) {
            Ok(h) => Ok(h as i16 as i32 as u32),
            Err(e) => Err(e),
        }
    }

    fn write_data_byte(&mut self, memory: &mut GuestMemory, address: GuestAddr, value: u8) -> (r:
        Result<(), Error>)
        requires
            old(memory).wf(),
        ensures
            final(memory).wf(),
            data_write_matches(
                r,
                old(self)@,
                final(self)@,
                old(memory)@,
                final(memory)@,
                old(self)@.write_data(old(memory)@, address.0, seq![value]),
            ),
    {
        match self.legacy_null_data_offset(memory, address, 1) {
            Some(offset) => {
                let mut data = self.legacy_null_data.unwrap();
                data[offset] = value;
                self.legacy_null_data = Some(data);
                assert(self@.null_data.unwrap() =~= old(self)@.with_null_bytes(
                    offset as int,
                    seq![value],
                ).null_data.unwrap());
                Ok(())
            },
            None => memory.write_u8(address, value),
        }
    }

    fn write_data_halfword(&mut self, memory: &mut GuestMemory, address: GuestAddr, value: u16) -> (r:
        Result<(), Error>)
        requires
            old(memory).wf(),
        ensures
            final(memory).wf(),
            data_write_matches(
                r,
                old(self)@,
                final(self)@,
                old(memory)@,
                final(memory)@,
                old(self)@.write_data(old(memory)@, address.0, u16_bytes(value)),
            ),
    {
        match self.legacy_null_data_offset(memory, address, 2) {
            Some(offset) => {
                let mut data = self.legacy_null_data.unwrap();
                data[offset] = (value & 0xff) as u8;
                data[offset + 1] = ((value >> 8u16) & 0xff) as u8;
                self.legacy_null_data = Some(data);
                assert(self@.null_data.unwrap() =~= old(self)@.with_null_bytes(
                    offset as int,
                    u16_bytes(value),
                ).null_data.unwrap());
                Ok(())
            },
            None => memory.write_u16(address, value),
        }
    }

    fn write_data_word(&mut self, memory: &mut GuestMemory, address: GuestAddr, value: u32) -> (r:
        Result<(), Error>)
        requires
            old(memory).wf(),
        ensures
            final(memory).wf(),
            data_write_matches(
                r,
                old(self)@,
                final(self)@,
                old(memory)@,
                final(memory)@,
                old(self)@.write_data(old(memory)@, address.0, u32_bytes(value)),
            ),
    {
        match self.legacy_null_data_offset(memory, address, 4) {
            Some(offset) => {
                let mut data = self.legacy_null_data.unwrap();
                data[offset] = (value & 0xff) as u8;
                data[offset + 1] = ((value >> 8u32) & 0xff) as u8;
                data[offset + 2] = ((value >> 16u32) & 0xff) as u8;
                data[offset + 3] = ((value >> 24u32) & 0xff) as u8;
                self.legacy_null_data = Some(data);
                assert(self@.null_data.unwrap() =~= old(self)@.with_null_bytes(
                    offset as int,
                    u32_bytes(value),
                ).null_data.unwrap());
                Ok(())
            },
            None => memory.write_u32(address, value),
        }
    }


    // -----------------------------------------------------------------
    // A32
    // -----------------------------------------------------------------
    fn step_arm(&mut self, memory: &mut GuestMemory) -> (r: Result<(), Error>)
        requires
            old(memory).wf(),
        ensures
            final(memory).wf(),
            outcome_matches(r, final(self)@, final(memory)@, old(self)@.step_arm(old(memory)@)),
    {
        proof {
            reveal(CpuView::step_arm);
        }
        let address = self.registers[15];
        if address & 3 != 0 {
            return Err(fault_at("unaligned A32 PC ", address));
        }
        let instruction = match memory.fetch_u32(GuestAddr(address)) {
            Ok(i) => i,
            Err(e) => return Err(e),
        };
        self.registers[15] = address.wrapping_add(4);
        self.execute_arm(memory, instruction, address)
    }

    fn execute_arm(&mut self, memory: &mut GuestMemory, instruction: u32, address: u32) -> (r:
        Result<(), Error>)
        requires
            old(memory).wf(),
        ensures
            final(memory).wf(),
            outcome_matches(
                r,
                final(self)@,
                final(memory)@,
                old(self)@.execute_arm(old(memory)@, instruction, address),
            ),
    {
        proof {
            reveal(CpuView::execute_arm);
        }
        let condition = (instruction >> 28u32) as u8;
        if condition == 0xf {
            return self.execute_unconditional_arm(instruction, address);
        }
        if !self.condition_passed(condition) {
            return Ok(());
        }
        if instruction == 0xef12_3456 && self.registers[0] == 0x18 {
            self.semihosting_exit_reason = Some(self.registers[1]);
            return Ok(());
        }
        if instruction & 0x0fff_fff0 == 0x012f_ff10 {
            let target = self.read_arm_register(field4(instruction, 0), address);
            self.set_pc(target);
            return Ok(());
        }
        if instruction & 0x0fff_fff0 == 0x012f_ff30 {
            let target = self.read_arm_register(field4(instruction, 0), address);
            self.registers[14] = address.wrapping_add(4);
            self.set_pc(target);
            return Ok(());
        }
        if instruction & 0x0ff0_0090 == 0x0100_0080 {
            return self.signed_halfword_multiply(instruction, address, true);
        }
        if instruction & 0x0ff0_f090 == 0x0160_0080 {
            return self.signed_halfword_multiply(instruction, address, false);
        }
        if instruction & 0x0fc0_00f0 == 0x0000_0090 {
            return self.multiply(instruction, address);
        }
        if instruction & 0x0f80_00f0 == 0x0080_0090 {
            return self.multiply_long(instruction, address);
        }
        if instruction & 0x0e00_0090 == 0x0000_0090 {
            return self.halfword_transfer(memory, instruction, address);
        }
        if instruction & 0x0e00_0000 == 0x0a00_0000 {
            self.branch(instruction, address);
            Ok(())
        } else if instruction & 0x0e00_0000 == 0x0800_0000 {
            self.block_transfer(memory, instruction, address)
        } else if instruction & 0x0c00_0000 == 0x0400_0000 {
            self.single_transfer(memory, instruction, address)
        } else if instruction & 0x0c00_0000 == 0 {
            self.data_processing(instruction, address)
        } else {
            Err(self.unsupported_arm(instruction, address))
        }
    }

    fn execute_unconditional_arm(&mut self, instruction: u32, address: u32) -> (r: Result<(), Error>)
        ensures
            cpu_result_matches(
                r,
                old(self)@,
                final(self)@,
                old(self)@.execute_unconditional_arm(instruction, address),
            ),
    {
        proof {
            reveal(CpuView::execute_unconditional_arm);
        }
        if instruction & 0x0e00_0000 == 0x0a00_0000 {
            let high = (instruction >> 23u32) & 2;
            let immediate = ((instruction & 0x00ff_ffff) << 2u32) | high;
            let offset = sign_extend_exec(immediate, 26);
            self.registers[14] = address.wrapping_add(4);
            self.thumb = true;
            self.registers[15] = address.wrapping_add(8).wrapping_add_signed(offset) & !1u32;
            return Ok(());
        }
        Err(self.unsupported_arm(instruction, address))
    }

    fn branch(&mut self, instruction: u32, address: u32)
        ensures
            final(self)@ == old(self)@.branch(instruction, address),
    {
        proof {
            reveal(CpuView::branch);
        }
        let link = instruction & (1u32 << 24u32) != 0;
        let offset = sign_extend_exec((instruction & 0x00ff_ffff) << 2u32, 26);
        if link {
            self.registers[14] = address.wrapping_add(4);
        }
        self.registers[15] = address.wrapping_add(8).wrapping_add_signed(offset) & !3u32;
    }

    fn decode_operand2(&self, instruction: u32, immediate: bool, address: u32) -> (r: Result<
        (u32, bool),
        Error,
    >)
        ensures
            crate::memory::matches_spec(r, self@.decode_operand2(instruction, immediate, address)),
    {
        proof {
            reveal(CpuView::decode_operand2);
        }
        if immediate {
            let value = instruction & 0xff;
            assert(((instruction >> 8u32) & 0xf) <= 15) by (bit_vector);
            let rotate = ((instruction >> 8u32) & 0xf) * 2;
            let result = rotate_right(value, rotate);
            return Ok(
                (
                    result,
                    if rotate == 0 {
                        self.carry
                    } else {
                        result & 0x8000_0000 != 0
                    },
                ),
            );
        }
        let value = self.read_arm_register(field4(instruction, 0), address);
        let shift_type = ((instruction >> 5u32) & 3) as u8;
        if instruction & (1u32 << 4u32) == 0 {
            let amount = (instruction >> 7u32) & 0x1f;
            assert((instruction >> 7u32) & 0x1f < 32) by (bit_vector);
            Ok(shift_immediate_exec(value, shift_type, amount, self.carry))
        } else {
            if instruction & (1u32 << 7u32) != 0 {
                return Err(self.unsupported_arm(instruction, address));
            }
            let amount = self.read_arm_register(field4(instruction, 8), address) & 0xff;
            Ok(shift_register_exec(value, shift_type, amount, self.carry))
        }
    }

    fn data_processing(&mut self, instruction: u32, address: u32) -> (r: Result<(), Error>)
        ensures
            cpu_result_matches(
                r,
                old(self)@,
                final(self)@,
                old(self)@.data_processing(instruction, address),
            ),
    {
        proof {
            reveal(CpuView::data_processing);
            reveal(arm_alu);
        }
        let immediate = instruction & (1u32 << 25u32) != 0;
        let opcode = ((instruction >> 21u32) & 0xf) as u8;
        let set_flags = instruction & (1u32 << 20u32) != 0;
        let rn = field4(instruction, 16);
        let rd = field4(instruction, 12);
        let left = self.read_arm_register(rn, address);
        let (right, shifter_carry) = match self.decode_operand2(instruction, immediate, address) {
            Ok(v) => v,
            Err(e) => return Err(e),
        };
        let (result, arithmetic) = if opcode == 0 || opcode == 8 {
            (left & right, None)
        } else if opcode == 1 || opcode == 9 {
            (left ^ right, None)
        } else if opcode == 2 || opcode == 10 {
            let f = add_with_carry_exec(left, !right, true);
            (f.0, Some(f))
        } else if opcode == 3 {
            let f = add_with_carry_exec(right, !left, true);
            (f.0, Some(f))
        } else if opcode == 4 || opcode == 11 {
            let f = add_with_carry_exec(left, right, false);
            (f.0, Some(f))
        } else if opcode == 5 {
            let f = add_with_carry_exec(left, right, self.carry);
            (f.0, Some(f))
        } else if opcode == 6 {
            let f = add_with_carry_exec(left, !right, self.carry);
            (f.0, Some(f))
        } else if opcode == 7 {
            let f = add_with_carry_exec(right, !left, self.carry);
            (f.0, Some(f))
        } else if opcode == 12 {
            (left | right, None)
        } else if opcode == 13 {
            (right, None)
        } else if opcode == 14 {
            (left & !right, None)
        } else {
            (!right, None)
        };
        let test_only = 8 <= opcode && opcode <= 11;
        if !test_only {
            self.write_arm_register(rd, result);
        }
        if set_flags || test_only {
            self.set_nz(result);
            match arithmetic {
                Some(f) => {
                    self.carry = f.1;
                    self.overflow = f.2;
                },
                None => {
                    self.carry = shifter_carry;
                },
            }
        }
        Ok(())
    }

    fn multiply(&mut self, instruction: u32, address: u32) -> (r: Result<(), Error>)
        ensures
            cpu_result_matches(r, old(self)@, final(self)@, old(self)@.multiply(instruction, address)),
    {
        proof {
            reveal(CpuView::multiply);
        }
        if instruction & (1u32 << 23u32) != 0 {
            return Err(self.unsupported_arm(instruction, address));
        }
        let accumulate = instruction & (1u32 << 21u32) != 0;
        let set_flags = instruction & (1u32 << 20u32) != 0;
        let rd = field4(instruction, 16);
        let rn = field4(instruction, 12);
        let rs = field4(instruction, 8);
        let rm = field4(instruction, 0);
        if rd == 15 || rn == 15 || rs == 15 || rm == 15 {
            return Err(fault_at("multiply uses PC at ", address));
        }
        let mut result = self.registers[rm].wrapping_mul(self.registers[rs]);
        if accumulate {
            result = result.wrapping_add(self.registers[rn]);
        }
        self.registers[rd] = result;
        if set_flags {
            self.set_nz(result);
        }
        Ok(())
    }

    fn signed_halfword_multiply(&mut self, instruction: u32, address: u32, accumulate: bool) -> (r:
        Result<(), Error>)
        ensures
            cpu_result_matches(
                r,
                old(self)@,
                final(self)@,
                old(self)@.signed_halfword_multiply(instruction, address, accumulate),
            ),
    {
        proof {
            reveal(CpuView::signed_halfword_multiply);
        }
        let rd = field4(instruction, 16);
        let rn = field4(instruction, 12);
        let rs = field4(instruction, 8);
        let rm = field4(instruction, 0);
        if rd == 15 || rs == 15 || rm == 15 || (accumulate && rn == 15) {
            return Err(fault_at("signed halfword multiply uses PC at ", address));
        }
        let first = signed_halfword_exec(self.registers[rm], instruction & (1u32 << 5u32) != 0);
        let second = signed_halfword_exec(self.registers[rs], instruction & (1u32 << 6u32) != 0);
        let product = (first as i32).wrapping_mul(second as i32) as u32;
        self.registers[rd] = if accumulate {
            product.wrapping_add(self.registers[rn])
        } else {
            product
        };
        Ok(())
    }

    fn multiply_long(&mut self, instruction: u32, address: u32) -> (r: Result<(), Error>)
        ensures
            cpu_result_matches(
                r,
                old(self)@,
                final(self)@,
                old(self)@.multiply_long(instruction, address),
            ),
    {
        proof {
            reveal(CpuView::multiply_long);
        }
        let signed = instruction & (1u32 << 22u32) != 0;
        let accumulate = instruction & (1u32 << 21u32) != 0;
        let set_flags = instruction & (1u32 << 20u32) != 0;
        let rd_hi = field4(instruction, 16);
        let rd_lo = field4(instruction, 12);
        let rs = field4(instruction, 8);
        let rm = field4(instruction, 0);
        if rd_hi == 15 || rd_lo == 15 || rs == 15 || rm == 15 || rd_hi == rd_lo {
            return Err(fault_at("long multiply has invalid registers at ", address));
        }
        let mut result: u64 = if signed {
            ((self.registers[rm] as i32) as i64).wrapping_mul((self.registers[rs] as i32) as i64) as u64
        } else {
            (self.registers[rm] as u64).wrapping_mul(self.registers[rs] as u64)
        };
        if accumulate {
            let accumulator = ((self.registers[rd_hi] as u64) << 32u64) | (self.registers[rd_lo] as u64);
            result = result.wrapping_add(accumulator);
        }
        self.registers[rd_lo] = result as u32;
        self.registers[rd_hi] = (result >> 32u64) as u32;
        if set_flags {
            self.negative = result & (1u64 << 63u64) != 0;
            self.zero = result == 0;
        }
        Ok(())
    }


    fn single_transfer(&mut self, memory: &mut GuestMemory, instruction: u32, address: u32) -> (r:
        Result<(), Error>)
        requires
            old(memory).wf(),
        ensures
            final(memory).wf(),
            outcome_matches(
                r,
                final(self)@,
                final(memory)@,
                old(self)@.single_transfer(old(memory)@, instruction, address),
            ),
    {
        proof {
            reveal(CpuView::single_transfer);
        }
        let register_offset = instruction & (1u32 << 25u32) != 0;
        let pre_index = instruction & (1u32 << 24u32) != 0;
        let add = instruction & (1u32 << 23u32) != 0;
        let byte = instruction & (1u32 << 22u32) != 0;
        let write_back = instruction & (1u32 << 21u32) != 0;
        let load = instruction & (1u32 << 20u32) != 0;
        let rn = field4(instruction, 16);
        let rd = field4(instruction, 12);
        let base = self.read_arm_register(rn, address);
        let offset = if register_offset {
            if instruction & (1u32 << 4u32) != 0 {
                return Err(self.unsupported_arm(instruction, address));
            }
            let value = self.read_arm_register(field4(instruction, 0), address);
            let shift_type = ((instruction >> 5u32) & 3) as u8;
            let amount = (instruction >> 7u32) & 0x1f;
            assert((instruction >> 7u32) & 0x1f < 32) by (bit_vector);
            shift_immediate_exec(value, shift_type, amount, self.carry).0
        } else {
            instruction & 0xfff
        };
        let adjusted = if add {
            base.wrapping_add(offset)
        } else {
            base.wrapping_sub(offset)
        };
        let transfer_address = if pre_index {
            adjusted
        } else {
            base
        };
        if load {
            let value = if byte {
                match self.read_data_byte(memory, GuestAddr(transfer_address)) {
                    Ok(b) => b as u32,
                    Err(e) => return Err(e),
                }
            } else {
                match self.read_data_word(memory, GuestAddr(transfer_address)) {
                    Ok(w) => w,
                    Err(e) => return Err(e),
                }
            };
            if rd == 15 {
                self.set_pc(value);
            } else {
                self.registers[rd] = value;
            }
        } else {
            let value = if rd == 15 {
                address.wrapping_add(12)
            } else {
                self.registers[rd]
            };
            let w = if byte {
                self.write_data_byte(memory, GuestAddr(transfer_address), value as u8)
            } else {
                self.write_data_word(memory, GuestAddr(transfer_address), value)
            };
            match w {
                Ok(()) => {},
                Err(e) => return Err(e),
            }
        }
        if !pre_index || write_back {
            if rn == 15 {
                return Err(fault_at("load/store writes back PC at ", address));
            }
            self.registers[rn] = adjusted;
        }
        Ok(())
    }

    fn halfword_transfer(&mut self, memory: &mut GuestMemory, instruction: u32, address: u32) -> (r:
        Result<(), Error>)
        requires
            old(memory).wf(),
        ensures
            final(memory).wf(),
            outcome_matches(
                r,
                final(self)@,
                final(memory)@,
                old(self)@.halfword_transfer(old(memory)@, instruction, address),
            ),
    {
        proof {
            reveal(CpuView::halfword_transfer);
        }
        let pre_index = instruction & (1u32 << 24u32) != 0;
        let add = instruction & (1u32 << 23u32) != 0;
        let immediate = instruction & (1u32 << 22u32) != 0;
        let write_back = instruction & (1u32 << 21u32) != 0;
        let load = instruction & (1u32 << 20u32) != 0;
        let rn = field4(instruction, 16);
        let rd = field4(instruction, 12);
        let operation = ((instruction >> 5u32) & 3) as u8;
        let base = self.read_arm_register(rn, address);
        let offset = if immediate {
            ((instruction >> 4u32) & 0xf0) | (instruction & 0xf)
        } else {
            self.read_arm_register(field4(instruction, 0), address)
        };
        let adjusted = if add {
            base.wrapping_add(offset)
        } else {
            base.wrapping_sub(offset)
        };
        let transfer_address = if pre_index {
            adjusted
        } else {
            base
        };
        if load {
            let value = if operation == 1 {
                match self.read_data_halfword(memory, GuestAddr(transfer_address)) {
                    Ok(h) => h as u32,
                    Err(e) => return Err(e),
                }
            } else if operation == 2 {
                match self.read_data_byte(memory, GuestAddr(transfer_address)) {
                    Ok(b) => b as i8 as i32 as u32,
                    Err(e) => return Err(e),
                }
            } else if operation == 3 {
                match self.read_signed_halfword(memory, GuestAddr(transfer_address)) {
                    Ok(v) => v,
                    Err(e) => return Err(e),
                }
            } else {
                return Err(self.unsupported_arm(instruction, address));
            };
            if rd == 15 {
                self.set_pc(value);
            } else {
                self.registers[rd] = value;
            }
        } else if operation == 1 {
            let value = self.registers[rd] as u16;
            match self.write_data_halfword(memory, GuestAddr(transfer_address), value) {
                Ok(()) => {},
                Err(e) => return Err(e),
            }
        } else {
            return Err(self.unsupported_arm(instruction, address));
        }
        if !pre_index || write_back {
            self.registers[rn] = adjusted;
        }
        Ok(())
    }

    #[verifier::loop_isolation(false)]
    fn block_transfer(&mut self, memory: &mut GuestMemory, instruction: u32, address: u32) -> (r:
        Result<(), Error>)
        requires
            old(memory).wf(),
        ensures
            final(memory).wf(),
            outcome_matches(
                r,
                final(self)@,
                final(memory)@,
                old(self)@.block_transfer(old(memory)@, instruction, address),
            ),
    {
        proof {
            reveal(CpuView::block_transfer);
        }
        let pre_index = instruction & (1u32 << 24u32) != 0;
        let add = instruction & (1u32 << 23u32) != 0;
        let user_mode = instruction & (1u32 << 22u32) != 0;
        let write_back = instruction & (1u32 << 21u32) != 0;
        let load = instruction & (1u32 << 20u32) != 0;
        let rn = field4(instruction, 16);
        let list = instruction & 0xffff;
        if user_mode || list == 0 || rn == 15 {
            return Err(self.unsupported_arm(instruction, address));
        }
        let count = count_bits(list, 16);
        let base = self.registers[rn];
        let start = if add {
            base.wrapping_add(
                if pre_index {
                    4
                } else {
                    0
                },
            )
        } else {
            base.wrapping_sub(4 * count).wrapping_add(
                if pre_index {
                    0
                } else {
                    4
                },
            )
        };
        let ghost c0 = self@;
        let ghost m0 = memory@;
        let mut transfer_address = start;
        let mut loaded_pc: Option<u32> = None;
        let mut register: usize = 0;
        while register < 16
            invariant
                register <= 16,
                memory.wf(),
                c0.block_loop(m0, address, list, load, 0, start, None) == self@.block_loop(
                    memory@,
                    address,
                    list,
                    load,
                    register as int,
                    transfer_address,
                    loaded_pc,
                ),
            decreases 16 - register,
        {
            if list & (1u32 << register as u32) == 0 {
                register += 1;
                continue;
            }
            if load {
                let value = match memory.read_u32(GuestAddr(transfer_address)) {
                    Ok(v) => v,
                    Err(e) => return Err(e),
                };
                if register == 15 {
                    loaded_pc = Some(value);
                } else {
                    self.registers[register] = value;
                }
            } else {
                let value = if register == 15 {
                    address.wrapping_add(12)
                } else {
                    self.registers[register]
                };
                match memory.write_u32(GuestAddr(transfer_address), value) {
                    Ok(()) => {},
                    Err(e) => return Err(e),
                }
            }
            transfer_address = transfer_address.wrapping_add(4);
            register += 1;
        }
        if write_back {
            self.registers[rn] = if add {
                base.wrapping_add(4 * count)
            } else {
                base.wrapping_sub(4 * count)
            };
        }
        if let Some(pc) = loaded_pc {
            self.set_pc(pc);
        }
        Ok(())
    }


    // -----------------------------------------------------------------
    // Thumb-1
    // -----------------------------------------------------------------
    fn step_thumb(&mut self, memory: &mut GuestMemory) -> (r: Result<(), Error>)
        requires
            old(memory).wf(),
        ensures
            final(memory).wf(),
            outcome_matches(r, final(self)@, final(memory)@, old(self)@.step_thumb(old(memory)@)),
    {
        proof {
            reveal(CpuView::step_thumb);
        }
        let address = self.registers[15];
        if address & 1 != 0 {
            return Err(fault_at("unaligned Thumb PC ", address));
        }
        let instruction = match memory.fetch_u16(GuestAddr(address)) {
            Ok(i) => i,
            Err(e) => return Err(e),
        };
        self.registers[15] = address.wrapping_add(2);
        self.execute_thumb(memory, instruction, address)
    }

    fn execute_thumb(&mut self, memory: &mut GuestMemory, instruction: u16, address: u32) -> (r:
        Result<(), Error>)
        requires
            old(memory).wf(),
        ensures
            final(memory).wf(),
            outcome_matches(
                r,
                final(self)@,
                final(memory)@,
                old(self)@.execute_thumb(old(memory)@, instruction, address),
            ),
    {
        proof {
            reveal(CpuView::execute_thumb);
        }
        let top5 = instruction & 0xf800;
        if top5 == 0x0000 || top5 == 0x0800 || top5 == 0x1000 {
            let operation = ((instruction >> 11u16) & 3) as u8;
            let amount = ((instruction >> 6u16) & 0x1f) as u32;
            assert((instruction >> 6u16) & 0x1f < 32) by (bit_vector);
            let source = field3(instruction, 3);
            let destination = field3(instruction, 0);
            let (result, carry) = shift_immediate_exec(
                self.registers[source],
                operation,
                amount,
                self.carry,
            );
            self.registers[destination] = result;
            self.set_nz(result);
            self.carry = carry;
            Ok(())
        } else if top5 == 0x1800 {
            self.thumb_add_sub(instruction);
            Ok(())
        } else if top5 == 0x2000 || top5 == 0x2800 || top5 == 0x3000 || top5 == 0x3800 {
            self.thumb_immediate(instruction);
            Ok(())
        } else if top5 == 0x4800 {
            let destination = field3(instruction, 8);
            assert(instruction & 0xff <= 0xff) by (bit_vector);
            let offset = ((instruction & 0xff) as u32) * 4;
            let base = address.wrapping_add(4) & !3u32;
            let value = match memory.read_u32(GuestAddr(base.wrapping_add(offset))) {
                Ok(v) => v,
                Err(e) => return Err(e),
            };
            self.registers[destination] = value;
            Ok(())
        } else if top5 == 0x6000 || top5 == 0x6800 || top5 == 0x7000 || top5 == 0x7800 {
            self.thumb_immediate_transfer(memory, instruction)
        } else if top5 == 0x8000 || top5 == 0x8800 {
            self.thumb_halfword_transfer(memory, instruction)
        } else if top5 == 0x9000 || top5 == 0x9800 {
            self.thumb_sp_transfer(memory, instruction)
        } else if top5 == 0xa000 || top5 == 0xa800 {
            let destination = field3(instruction, 8);
            let base = if instruction & (1u16 << 11u16) != 0 {
                self.registers[13]
            } else {
                address.wrapping_add(4) & !3u32
            };
            assert(instruction & 0xff <= 0xff) by (bit_vector);
            self.registers[destination] = base.wrapping_add(((instruction & 0xff) as u32) * 4);
            Ok(())
        } else if top5 == 0xc000 || top5 == 0xc800 {
            self.thumb_multiple_transfer(memory, instruction)
        } else if top5 == 0xe000 {
            assert(instruction & 0x7ff <= 0x7ff) by (bit_vector);
            let offset = sign_extend_exec(((instruction & 0x7ff) as u32) << 1u32, 12);
            self.registers[15] = address.wrapping_add(4).wrapping_add_signed(offset) & !1u32;
            Ok(())
        } else if top5 == 0xe800 {
            self.thumb_bl_suffix(instruction, address, false);
            Ok(())
        } else if top5 == 0xf000 {
            let offset = sign_extend_exec(((instruction & 0x7ff) as u32) << 12u32, 23);
            self.registers[14] = address.wrapping_add(4).wrapping_add_signed(offset);
            Ok(())
        } else if top5 == 0xf800 {
            self.thumb_bl_suffix(instruction, address, true);
            Ok(())
        } else {
            let top6 = instruction & 0xfc00;
            if top6 == 0x4000 {
                self.thumb_alu(instruction);
                Ok(())
            } else if top6 == 0x4400 {
                self.thumb_high_register(instruction, address);
                Ok(())
            } else if top6 == 0x5000 || top6 == 0x5400 || top6 == 0x5800 || top6 == 0x5c00 {
                self.thumb_register_transfer(memory, instruction)
            } else {
                let top8 = instruction & 0xff00;
                if top8 == 0xb000 {
                    assert(instruction & 0x7f <= 0x7f) by (bit_vector);
                    let offset = ((instruction & 0x7f) as u32) * 4;
                    self.registers[13] = if instruction & (1u16 << 7u16) != 0 {
                        self.registers[13].wrapping_sub(offset)
                    } else {
                        self.registers[13].wrapping_add(offset)
                    };
                    Ok(())
                } else if top8 == 0xb400 || top8 == 0xb500 || top8 == 0xbc00 || top8 == 0xbd00 {
                    self.thumb_push_pop(memory, instruction)
                } else if 0xd000 <= top8 && top8 <= 0xde00 {
                    let condition = ((instruction >> 8u16) & 0xf) as u8;
                    if self.condition_passed(condition) {
                        let offset = sign_extend_exec(((instruction & 0xff) as u32) << 1u32, 9);
                        self.registers[15] = address.wrapping_add(4).wrapping_add_signed(offset)
                            & !1u32;
                    }
                    Ok(())
                } else if top8 == 0xdf00 && instruction == 0xdfab && self.registers[0] == 3 {
                    // The Thumb semihosting character-write form uses operation 3 with
                    // r1 pointing at the byte to consume.
                    match memory.read_u8(GuestAddr(self.registers[1])) {
                        Ok(_) => Ok(()),
                        Err(e) => Err(e),
                    }
                } else {
                    Err(self.unsupported_thumb(instruction, address))
                }
            }
        }
    }

    fn thumb_add_sub(&mut self, instruction: u16)
        ensures
            final(self)@ == old(self)@.thumb_add_sub(instruction),
    {
        proof {
            reveal(CpuView::thumb_add_sub);
        }
        let immediate = instruction & (1u16 << 10u16) != 0;
        let subtract = instruction & (1u16 << 9u16) != 0;
        let operand = field3(instruction, 6);
        let source = field3(instruction, 3);
        let destination = field3(instruction, 0);
        let right = if immediate {
            operand as u32
        } else {
            self.registers[operand]
        };
        let flags = if subtract {
            add_with_carry_exec(self.registers[source], !right, true)
        } else {
            add_with_carry_exec(self.registers[source], right, false)
        };
        self.registers[destination] = flags.0;
        self.set_arithmetic_flags(flags);
    }

    fn thumb_immediate(&mut self, instruction: u16)
        ensures
            final(self)@ == old(self)@.thumb_immediate(instruction),
    {
        proof {
            reveal(CpuView::thumb_immediate);
        }
        let operation = ((instruction >> 11u16) & 3) as u8;
        let destination = field3(instruction, 8);
        let immediate = (instruction & 0xff) as u32;
        if operation == 0 {
            self.registers[destination] = immediate;
            self.set_nz(immediate);
        } else if operation == 1 {
            let flags = add_with_carry_exec(self.registers[destination], !immediate, true);
            self.set_arithmetic_flags(flags);
        } else if operation == 2 {
            let flags = add_with_carry_exec(self.registers[destination], immediate, false);
            self.registers[destination] = flags.0;
            self.set_arithmetic_flags(flags);
        } else {
            let flags = add_with_carry_exec(self.registers[destination], !immediate, true);
            self.registers[destination] = flags.0;
            self.set_arithmetic_flags(flags);
        }
    }

    fn thumb_alu(&mut self, instruction: u16)
        ensures
            final(self)@ == old(self)@.thumb_alu(instruction),
    {
        proof {
            reveal(CpuView::thumb_alu);
        }
        let operation = ((instruction >> 6u16) & 0xf) as u8;
        let source = field3(instruction, 3);
        let destination = field3(instruction, 0);
        let left = self.registers[destination];
        let right = self.registers[source];
        if (2 <= operation && operation <= 4) || operation == 7 {
            let shift_type: u8 = if operation == 2 {
                0
            } else if operation == 3 {
                1
            } else if operation == 4 {
                2
            } else {
                3
            };
            let (result, carry) = shift_register_exec(left, shift_type, right & 0xff, self.carry);
            self.registers[destination] = result;
            self.set_nz(result);
            self.carry = carry;
        } else if operation == 5 || operation == 6 || (9 <= operation && operation <= 11) {
            let flags = if operation == 5 {
                add_with_carry_exec(left, right, self.carry)
            } else if operation == 6 {
                add_with_carry_exec(left, !right, self.carry)
            } else if operation == 9 {
                add_with_carry_exec(0, !right, true)
            } else if operation == 10 {
                add_with_carry_exec(left, !right, true)
            } else {
                add_with_carry_exec(left, right, false)
            };
            if !(operation == 10 || operation == 11) {
                self.registers[destination] = flags.0;
            }
            self.set_arithmetic_flags(flags);
        } else {
            let result = if operation == 0 || operation == 8 {
                left & right
            } else if operation == 1 {
                left ^ right
            } else if operation == 12 {
                left | right
            } else if operation == 13 {
                left.wrapping_mul(right)
            } else if operation == 14 {
                left & !right
            } else {
                !right
            };
            if operation != 8 {
                self.registers[destination] = result;
            }
            self.set_nz(result);
        }
    }

    fn thumb_high_register(&mut self, instruction: u16, address: u32)
        ensures
            final(self)@ == old(self)@.thumb_high_register(instruction, address),
    {
        proof {
            reveal(CpuView::thumb_high_register);
        }
        let operation = ((instruction >> 8u16) & 3) as u8;
        let source = field3(instruction, 3) + if instruction & (1u16 << 6u16) != 0 {
            8
        } else {
            0
        };
        let destination = field3(instruction, 0) + if instruction & (1u16 << 7u16) != 0 {
            8
        } else {
            0
        };
        let right = self.read_thumb_register(source, address);
        if operation == 0 {
            let result = self.read_thumb_register(destination, address).wrapping_add(right);
            self.write_thumb_register(destination, result);
        } else if operation == 1 {
            let flags = add_with_carry_exec(
                self.read_thumb_register(destination, address),
                !right,
                true,
            );
            self.set_arithmetic_flags(flags);
        } else if operation == 2 {
            self.write_thumb_register(destination, right);
        } else {
            if instruction & (1u16 << 7u16) != 0 {
                self.registers[14] = address.wrapping_add(2) | 1;
            }
            self.set_pc(right);
        }
    }

    fn thumb_register_transfer(&mut self, memory: &mut GuestMemory, instruction: u16) -> (r: Result<
        (),
        Error,
    >)
        requires
            old(memory).wf(),
        ensures
            final(memory).wf(),
            outcome_matches(
                r,
                final(self)@,
                final(memory)@,
                old(self)@.thumb_register_transfer(old(memory)@, instruction),
            ),
    {
        proof {
            reveal(CpuView::thumb_register_transfer);
        }
        let operation = ((instruction >> 9u16) & 7) as u8;
        let offset = self.registers[field3(instruction, 6)];
        let base = self.registers[field3(instruction, 3)];
        let destination = field3(instruction, 0);
        let a = GuestAddr(base.wrapping_add(offset));
        let value = self.registers[destination];
        if operation == 0 {
            self.write_data_word(memory, a, value)
        } else if operation == 1 {
            self.write_data_halfword(memory, a, value as u16)
        } else if operation == 2 {
            self.write_data_byte(memory, a, value as u8)
        } else {
            let loaded = if operation == 3 {
                match self.read_data_byte(memory, a) {
                    Ok(b) => b as i8 as i32 as u32,
                    Err(e) => return Err(e),
                }
            } else if operation == 4 {
                match self.read_data_word(memory, a) {
                    Ok(w) => w,
                    Err(e) => return Err(e),
                }
            } else if operation == 5 {
                match self.read_data_halfword(memory, a) {
                    Ok(h) => h as u32,
                    Err(e) => return Err(e),
                }
            } else if operation == 6 {
                match self.read_data_byte(memory, a) {
                    Ok(b) => b as u32,
                    Err(e) => return Err(e),
                }
            } else {
                match self.read_signed_halfword(memory, a) {
                    Ok(v) => v,
                    Err(e) => return Err(e),
                }
            };
            self.registers[destination] = loaded;
            Ok(())
        }
    }

    fn thumb_immediate_transfer(&mut self, memory: &mut GuestMemory, instruction: u16) -> (r:
        Result<(), Error>)
        requires
            old(memory).wf(),
        ensures
            final(memory).wf(),
            outcome_matches(
                r,
                final(self)@,
                final(memory)@,
                old(self)@.thumb_immediate_transfer(old(memory)@, instruction),
            ),
    {
        proof {
            reveal(CpuView::thumb_immediate_transfer);
        }
        let byte = instruction & (1u16 << 12u16) != 0;
        let load = instruction & (1u16 << 11u16) != 0;
        assert((instruction >> 6u16) & 0x1f <= 0x1f) by (bit_vector);
        let immediate = ((instruction >> 6u16) & 0x1f) as u32;
        let base = self.registers[field3(instruction, 3)];
        let destination = field3(instruction, 0);
        let offset = if byte {
            immediate
        } else {
            immediate * 4
        };
        let a = GuestAddr(base.wrapping_add(offset));
        let value = self.registers[destination];
        if !load && !byte {
            self.write_data_word(memory, a, value)
        } else if !load && byte {
            self.write_data_byte(memory, a, value as u8)
        } else if load && !byte {
            let w = match self.read_data_word(memory, a) {
                Ok(w) => w,
                Err(e) => return Err(e),
            };
            self.registers[destination] = w;
            Ok(())
        } else {
            let b = match self.read_data_byte(memory, a) {
                Ok(b) => b,
                Err(e) => return Err(e),
            };
            self.registers[destination] = b as u32;
            Ok(())
        }
    }

    fn thumb_halfword_transfer(&mut self, memory: &mut GuestMemory, instruction: u16) -> (r: Result<
        (),
        Error,
    >)
        requires
            old(memory).wf(),
        ensures
            final(memory).wf(),
            outcome_matches(
                r,
                final(self)@,
                final(memory)@,
                old(self)@.thumb_halfword_transfer(old(memory)@, instruction),
            ),
    {
        proof {
            reveal(CpuView::thumb_halfword_transfer);
        }
        let load = instruction & (1u16 << 11u16) != 0;
        assert((instruction >> 6u16) & 0x1f <= 0x1f) by (bit_vector);
        let offset = (((instruction >> 6u16) & 0x1f) as u32) * 2;
        let base = self.registers[field3(instruction, 3)];
        let destination = field3(instruction, 0);
        let a = GuestAddr(base.wrapping_add(offset));
        if load {
            let h = match self.read_data_halfword(memory, a) {
                Ok(h) => h,
                Err(e) => return Err(e),
            };
            self.registers[destination] = h as u32;
            Ok(())
        } else {
            let value = self.registers[destination] as u16;
            self.write_data_halfword(memory, a, value)
        }
    }

    fn thumb_sp_transfer(&mut self, memory: &mut GuestMemory, instruction: u16) -> (r: Result<
        (),
        Error,
    >)
        requires
            old(memory).wf(),
        ensures
            final(memory).wf(),
            outcome_matches(
                r,
                final(self)@,
                final(memory)@,
                old(self)@.thumb_sp_transfer(old(memory)@, instruction),
            ),
    {
        proof {
            reveal(CpuView::thumb_sp_transfer);
        }
        let load = instruction & (1u16 << 11u16) != 0;
        let destination = field3(instruction, 8);
        assert(instruction & 0xff <= 0xff) by (bit_vector);
        let a = GuestAddr(self.registers[13].wrapping_add(((instruction & 0xff) as u32) * 4));
        if load {
            let v = match memory.read_u32(a) {
                Ok(v) => v,
                Err(e) => return Err(e),
            };
            self.registers[destination] = v;
            Ok(())
        } else {
            memory.write_u32(a, self.registers[destination])
        }
    }

    #[verifier::loop_isolation(false)]
    fn thumb_push_pop(&mut self, memory: &mut GuestMemory, instruction: u16) -> (r: Result<
        (),
        Error,
    >)
        requires
            old(memory).wf(),
        ensures
            final(memory).wf(),
            outcome_matches(
                r,
                final(self)@,
                final(memory)@,
                old(self)@.thumb_push_pop(old(memory)@, instruction),
            ),
    {
        proof {
            reveal(CpuView::thumb_push_pop);
        }
        let pop = instruction & (1u16 << 11u16) != 0;
        let extra = instruction & (1u16 << 8u16) != 0;
        let list = (instruction & 0xff) as u32;
        let count = count_bits(list, 8) + if extra {
            1
        } else {
            0
        };
        if count == 0 {
            return Err(Error::ArmFault(String::from_str("empty Thumb push/pop register list")));
        }
        let ghost c0 = self@;
        let ghost m0 = memory@;
        if pop {
            let mut address = self.registers[13];
            let mut register: usize = 0;
            while register < 8
                invariant
                    register <= 8,
                    memory.wf(),
                    memory@ == m0,
                    c0.pop_loop(m0, list, 0, c0.regs[13]) == self@.pop_loop(
                        memory@,
                        list,
                        register as int,
                        address,
                    ),
                decreases 8 - register,
            {
                if list & (1u32 << register as u32) != 0 {
                    let v = match memory.read_u32(GuestAddr(address)) {
                        Ok(v) => v,
                        Err(e) => return Err(e),
                    };
                    self.registers[register] = v;
                    address = address.wrapping_add(4);
                }
                register += 1;
            }
            let loaded_pc = if extra {
                let value = match memory.read_u32(GuestAddr(address)) {
                    Ok(v) => v,
                    Err(e) => return Err(e),
                };
                address = address.wrapping_add(4);
                Some(value)
            } else {
                None
            };
            self.registers[13] = address;
            if let Some(pc) = loaded_pc {
                self.set_pc(pc);
            }
        } else {
            let start = self.registers[13].wrapping_sub(count * 4);
            let mut address = start;
            let mut register: usize = 0;
            while register < 8
                invariant
                    register <= 8,
                    memory.wf(),
                    self@ == c0,
                    c0.push_loop(m0, list, 0, start) == self@.push_loop(
                        memory@,
                        list,
                        register as int,
                        address,
                    ),
                decreases 8 - register,
            {
                if list & (1u32 << register as u32) != 0 {
                    match memory.write_u32(GuestAddr(address), self.registers[register]) {
                        Ok(()) => {},
                        Err(e) => return Err(e),
                    }
                    address = address.wrapping_add(4);
                }
                register += 1;
            }
            if extra {
                match memory.write_u32(GuestAddr(address), self.registers[14]) {
                    Ok(()) => {},
                    Err(e) => return Err(e),
                }
            }
            self.registers[13] = start;
        }
        Ok(())
    }

    #[verifier::loop_isolation(false)]
    fn thumb_multiple_transfer(&mut self, memory: &mut GuestMemory, instruction: u16) -> (r: Result<
        (),
        Error,
    >)
        requires
            old(memory).wf(),
        ensures
            final(memory).wf(),
            outcome_matches(
                r,
                final(self)@,
                final(memory)@,
                old(self)@.thumb_multiple_transfer(old(memory)@, instruction),
            ),
    {
        proof {
            reveal(CpuView::thumb_multiple_transfer);
        }
        let load = instruction & (1u16 << 11u16) != 0;
        let base_register = field3(instruction, 8);
        let list = (instruction & 0xff) as u32;
        if list == 0 {
            return Err(
                Error::ArmFault(String::from_str("empty Thumb multiple-transfer register list")),
            );
        }
        let base = self.registers[base_register];
        let ghost c0 = self@;
        let ghost m0 = memory@;
        let mut address = base;
        let mut register: usize = 0;
        while register < 8
            invariant
                register <= 8,
                memory.wf(),
                c0.multiple_loop(m0, list, load, 0, base) == self@.multiple_loop(
                    memory@,
                    list,
                    load,
                    register as int,
                    address,
                ),
            decreases 8 - register,
        {
            if list & (1u32 << register as u32) != 0 {
                if load {
                    let v = match memory.read_u32(GuestAddr(address)) {
                        Ok(v) => v,
                        Err(e) => return Err(e),
                    };
                    self.registers[register] = v;
                } else {
                    match memory.write_u32(GuestAddr(address), self.registers[register]) {
                        Ok(()) => {},
                        Err(e) => return Err(e),
                    }
                }
                address = address.wrapping_add(4);
            }
            register += 1;
        }
        // Thumb LDMIA suppresses writeback when the base register is also in the
        // load list; the loaded value stays visible.
        if !load || list & (1u32 << base_register as u32) == 0 {
            let count = count_bits(list, 8);
            self.registers[base_register] = base.wrapping_add(count * 4);
        }
        Ok(())
    }

    fn thumb_bl_suffix(&mut self, instruction: u16, address: u32, stay_thumb: bool)
        ensures
            final(self)@ == old(self)@.thumb_bl_suffix(instruction, address, stay_thumb),
    {
        proof {
            reveal(CpuView::thumb_bl_suffix);
        }
        assert(instruction & 0x7ff <= 0x7ff) by (bit_vector);
        let target = self.registers[14].wrapping_add(((instruction & 0x7ff) as u32) << 1u32);
        self.registers[14] = address.wrapping_add(2) | 1;
        if stay_thumb {
            self.thumb = true;
            self.registers[15] = target & !1u32;
        } else {
            self.thumb = false;
            self.registers[15] = target & !3u32;
        }
    }

}

} // verus!
