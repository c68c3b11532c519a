//! The instruction-set model: what one step of the ARM/Thumb core does to the
//! register file, the flags and guest memory.
use crate::memory::{
    Access, MemView, le_u16, le_u32, lemma_same_layout_facts, lemma_store_keeps_layout, same_layout,
};
use crate::text::{hex16_text, hex32_text};
use vstd::prelude::*;

verus! {

/// Abstract state of the core.
#[verifier::ext_equal]
pub struct CpuView {
    pub regs: Seq<u32>,
    pub n: bool,
    pub z: bool,
    pub c: bool,
    pub v: bool,
    pub thumb: bool,
    /// The exit reason of an A32 semihosting exit call not yet taken by the host.
    pub exit: Option<u32>,
    /// Scratch bytes that stand in for unmapped low addresses, when enabled.
    pub null_data: Option<Seq<u8>>,
}

/// The state after executing some instructions, and the fault that stopped
/// them, if any.
#[verifier::ext_equal]
pub struct Outcome {
    pub cpu: CpuView,
    pub mem: MemView,
    pub fault: Option<Seq<char>>,
}

pub open spec fn done(cpu: CpuView, mem: MemView) -> Outcome {
    Outcome { cpu, mem, fault: None }
}

pub open spec fn failed(cpu: CpuView, mem: MemView, text: Seq<char>) -> Outcome {
    Outcome { cpu, mem, fault: Some(text) }
}

/// The number of set bits among the `width` low bits of `x`.
pub open spec fn bit_count(x: u32, width: nat) -> nat
    decreases width,
{
    if width == 0 {
        0
    } else {
        bit_count(x, (width - 1) as nat) + (if (x >> ((width - 1) as u32)) & 1 == 1 {
            1nat
        } else {
            0nat
        })
    }
}

/// `value` rotated right by `amount` (`amount < 32`).
pub open spec fn rotr32(value: u32, amount: u32) -> u32 {
    if amount == 0 {
        value
    } else {
        (value >> amount) | (value << ((32 - amount) as u32))
    }
}

/// The sum `left + right + carry` together with its carry out and its
/// signed overflow.
pub open spec fn add_with_carry(left: u32, right: u32, carry: bool) -> (u32, bool, bool) {
    let cv: int = if carry {
        1
    } else {
        0
    };
    let unsigned = left + right + cv;
    let signed = (left as i32) + (right as i32) + cv;
    ((unsigned % 0x1_0000_0000) as u32, unsigned > u32::MAX, signed < i32::MIN || signed
        > i32::MAX)
}

/// The low (`top == false`) or high halfword of `value`, read as signed.
pub open spec fn signed_halfword(value: u32, top: bool) -> i16 {
    let h = if top {
        value >> 16u32
    } else {
        value
    };
    h as u16 as i16
}

/// The `bits`-wide two's-complement number held in the low bits of `value`.
pub open spec fn sign_extend(value: u32, bits: u32) -> i32 {
    ((value << ((32 - bits) as u32)) as i32) >> ((32 - bits) as u32)
}

/// The barrel shifter for an immediate shift amount (`amount < 32`); an amount
/// of zero encodes LSR #32, ASR #32 and RRX for the shift types 1, 2 and 3.
#[verifier::opaque]
pub open spec fn shift_immediate(value: u32, shift_type: u8, amount: u32, carry: bool) -> (
    u32,
    bool,
) {
    if shift_type == 0 {
        if amount == 0 {
            (value, carry)
        } else {
            (value << amount, value & (1u32 << ((32 - amount) as u32)) != 0)
        }
    } else if shift_type == 1 {
        if amount == 0 {
            (0, value & 0x8000_0000 != 0)
        } else {
            (value >> amount, value & (1u32 << ((amount - 1) as u32)) != 0)
        }
    } else if shift_type == 2 {
        if amount == 0 {
            let sign = value & 0x8000_0000 != 0;
            (
                if sign {
                    u32::MAX
                } else {
                    0
                },
                sign,
            )
        } else {
            (((value as i32) >> amount) as u32, value & (1u32 << ((amount - 1) as u32)) != 0)
        }
    } else {
        if amount == 0 {
            (
                ((if carry {
                    1u32
                } else {
                    0u32
                }) << 31u32) | (value >> 1u32),
                value & 1 != 0,
            )
        } else {
            let result = rotr32(value, amount);
            (result, result & 0x8000_0000 != 0)
        }
    }
}

/// The barrel shifter for a register-specified shift amount (`amount < 256`).
#[verifier::opaque]
pub open spec fn shift_register(value: u32, shift_type: u8, amount: u32, carry: bool) -> (
    u32,
    bool,
) {
    if amount == 0 {
        (value, carry)
    } else if shift_type == 0 {
        if amount < 32 {
            (value << amount, value & (1u32 << ((32 - amount) as u32)) != 0)
        } else if amount == 32 {
            (0, value & 1 != 0)
        } else {
            (0, false)
        }
    } else if shift_type == 1 {
        if amount < 32 {
            (value >> amount, value & (1u32 << ((amount - 1) as u32)) != 0)
        } else if amount == 32 {
            (0, value & 0x8000_0000 != 0)
        } else {
            (0, false)
        }
    } else if shift_type == 2 {
        if amount < 32 {
            (((value as i32) >> amount) as u32, value & (1u32 << ((amount - 1) as u32)) != 0)
        } else {
            let sign = value & 0x8000_0000 != 0;
            (
                if sign {
                    u32::MAX
                } else {
                    0
                },
                sign,
            )
        }
    } else {
        let rotate = amount & 31;
        if rotate == 0 {
            (value, value & 0x8000_0000 != 0)
        } else {
            let result = rotr32(value, rotate);
            (result, result & 0x8000_0000 != 0)
        }
    }
}

/// The A32 data-processing ALU: the result and, for arithmetic opcodes, the
/// flags `add_with_carry` produced.
#[verifier::opaque]
pub open spec fn arm_alu(opcode: u8, left: u32, right: u32, carry: bool) -> (
    u32,
    Option<(u32, bool, bool)>,
) {
    if opcode == 0 || opcode == 8 {
        (left & right, None)
    } else if opcode == 1 || opcode == 9 {
        (left ^ right, None)
    } else if opcode == 2 || opcode == 10 {
        let f = add_with_carry(left, !right, true);
        (f.0, Some(f))
    } else if opcode == 3 {
        let f = add_with_carry(right, !left, true);
        (f.0, Some(f))
    } else if opcode == 4 || opcode == 11 {
        let f = add_with_carry(left, right, false);
        (f.0, Some(f))
    } else if opcode == 5 {
        let f = add_with_carry(left, right, carry);
        (f.0, Some(f))
    } else if opcode == 6 {
        let f = add_with_carry(left, !right, carry);
        (f.0, Some(f))
    } else if opcode == 7 {
        let f = add_with_carry(right, !left, carry);
        (f.0, Some(f))
    } else if opcode == 12 {
        (left | right, None)
    } else if opcode == 13 {
        (right, None)
    } else if opcode == 14 {
        (left & !right, None)
    } else {
        (!right, None)
    }
}

pub open spec fn pc_fault_text(prefix: Seq<char>, address: u32) -> Seq<char> {
    prefix + hex32_text(address)
}

impl CpuView {
    /// Register file of sixteen registers and, when enabled, eight scratch bytes.
    pub open spec fn wf(self) -> bool {
        &&& self.regs.len() == 16
        &&& self.null_data matches Some(d) ==> d.len() == 8
    }

    pub open spec fn set_reg(self, i: int, value: u32) -> CpuView {
        CpuView { regs: self.regs.update(i, value), ..self }
    }

    /// Branch with interworking: bit 0 selects Thumb state.
    pub open spec fn set_pc(self, address: u32) -> CpuView {
        let thumb = address & 1 != 0;
        CpuView {
            thumb,
            regs: self.regs.update(
                15,
                if thumb {
                    address & !1u32
                } else {
                    address & !3u32
                },
            ),
            ..self
        }
    }

    pub open spec fn cpsr(self) -> u32 {
        ((if self.n {
            1u32
        } else {
            0u32
        }) << 31u32) | ((if self.z {
            1u32
        } else {
            0u32
        }) << 30u32) | ((if self.c {
            1u32
        } else {
            0u32
        }) << 29u32) | ((if self.v {
            1u32
        } else {
            0u32
        }) << 28u32) | ((if self.thumb {
            1u32
        } else {
            0u32
        }) << 5u32)
    }

    pub open spec fn set_nz(self, result: u32) -> CpuView {
        CpuView { n: result & 0x8000_0000 != 0, z: result == 0, ..self }
    }

    pub open spec fn set_arithmetic_flags(self, flags: (u32, bool, bool)) -> CpuView {
        CpuView { c: flags.1, v: flags.2, ..self.set_nz(flags.0) }
    }

    pub open spec fn condition_passed(self, condition: u8) -> bool {
        if condition == 0 {
            self.z
        } else if condition == 1 {
            !self.z
        } else if condition == 2 {
            self.c
        } else if condition == 3 {
            !self.c
        } else if condition == 4 {
            self.n
        } else if condition == 5 {
            !self.n
        } else if condition == 6 {
            self.v
        } else if condition == 7 {
            !self.v
        } else if condition == 8 {
            self.c && !self.z
        } else if condition == 9 {
            !self.c || self.z
        } else if condition == 10 {
            self.n == self.v
        } else if condition == 11 {
            self.n != self.v
        } else if condition == 12 {
            !self.z && self.n == self.v
        } else if condition == 13 {
            self.z || self.n != self.v
        } else {
            condition == 14
        }
    }

    /// A32 reads of the PC see the instruction address plus eight.
    pub open spec fn read_arm_register(self, index: int, address: u32) -> u32 {
        if index == 15 {
            address.wrapping_add(8)
        } else {
            self.regs[index]
        }
    }

    /// A32 writes of the PC keep the core in A32 state and word-align it.
    pub open spec fn write_arm_register(self, index: int, value: u32) -> CpuView {
        if index == 15 {
            self.set_reg(15, value & !3u32)
        } else {
            self.set_reg(index, value)
        }
    }

    /// Thumb reads of the PC see the instruction address plus four.
    pub open spec fn read_thumb_register(self, index: int, address: u32) -> u32 {
        if index == 15 {
            address.wrapping_add(4)
        } else {
            self.regs[index]
        }
    }

    pub open spec fn write_thumb_register(self, index: int, value: u32) -> CpuView {
        if index == 15 {
            CpuView { thumb: true, ..self.set_reg(15, value & !1u32) }
        } else {
            self.set_reg(index, value)
        }
    }

    pub open spec fn unsupported_arm_text(self, instruction: u32, address: u32) -> Seq<char> {
        "unsupported A32 instruction "@ + hex32_text(instruction) + " at PC "@ + hex32_text(
            address,
        ) + "; cpsr="@ + hex32_text(self.cpsr())
    }

    pub open spec fn unsupported_thumb_text(self, instruction: u16, address: u32) -> Seq<char> {
        "unsupported Thumb-1 instruction "@ + hex16_text(instruction) + " at PC "@ + hex32_text(
            address,
        ) + "; cpsr="@ + hex32_text(self.cpsr())
    }

    // ---------------------------------------------------------------------
    // Data accesses: the scratch bytes answer for unmapped low addresses.
    // ---------------------------------------------------------------------
    /// The scratch-byte offset that serves an access of `len` bytes at `address`.
    pub open spec fn null_offset(self, mem: MemView, address: u32, len: u32) -> Option<int> {
        if self.null_data is Some && address + len <= 8 && !mem.all_mapped(
            address as int,
            len as int,
        ) {
            Some(address as int)
        } else {
            None
        }
    }

    pub open spec fn read_data_byte(self, mem: MemView, address: u32) -> Result<u8, Seq<char>> {
        match self.null_offset(mem, address, 1) {
            Some(o) => Ok(self.null_data.unwrap()[o]),
            None => mem.read_u8(address),
        }
    }

    pub open spec fn read_data_halfword(self, mem: MemView, address: u32) -> Result<
        u16,
        Seq<char>,
    > {
        match self.null_offset(mem, address, 2) {
            Some(o) => Ok(le_u16(self.null_data.unwrap().subrange(o, o + 2))),
            None => mem.read_u16(address),
        }
    }

    pub open spec fn read_data_word(self, mem: MemView, address: u32) -> Result<u32, Seq<char>> {
        match self.null_offset(mem, address, 4) {
            Some(o) => Ok(le_u32(self.null_data.unwrap().subrange(o, o + 4))),
            None => mem.read_u32(address),
        }
    }

    pub open spec fn read_signed_halfword(self, mem: MemView, address: u32) -> Result<
        u32,
        Seq<char>,
    > {
        match self.read_data_halfword(mem, address) {
            Ok(h) => Ok(h as i16 as i32 as u32),
            Err(t) => Err(t),
        }
    }

    pub open spec fn with_null_bytes(self, o: int, bytes: Seq<u8>) -> CpuView {
        CpuView {
            null_data: Some(
                Seq::new(
                    8,
                    |i: int|
                        if o <= i < o + bytes.len() {
                            bytes[i - o]
                        } else {
                            self.null_data.unwrap()[i]
                        },
                ),
            ),
            ..self
        }
    }

    pub open spec fn write_data(self, mem: MemView, address: u32, bytes: Seq<u8>) -> Result<
        (CpuView, MemView),
        Seq<char>,
    > {
        match self.null_offset(mem, address, bytes.len() as u32) {
            Some(o) => Ok((self.with_null_bytes(o, bytes), mem)),
            None => match mem.store(address, bytes) {
                Ok(m) => Ok((self, m)),
                Err(t) => Err(t),
            },
        }
    }

    // ---------------------------------------------------------------------
    // A32
    // ---------------------------------------------------------------------
    #[verifier::opaque]
    pub open spec fn step_arm(self, mem: MemView) -> Outcome {
        let address = self.regs[15];
        if address & 3 != 0 {
            failed(self, mem, pc_fault_text("unaligned A32 PC "@, address))
        } else {
            match mem.fetch_u32(address) {
                Err(t) => failed(self, mem, t),
                Ok(instruction) => self.set_reg(15, address.wrapping_add(4)).execute_arm(
                    mem,
                    instruction,
                    address,
                ),
            }
        }
    }

    /// A fault that leaves the state as it is, or the new register state.
    pub open spec fn lift(self, mem: MemView, r: Result<CpuView, Seq<char>>) -> Outcome {
        match r {
            Ok(c) => done(c, mem),
            Err(t) => failed(self, mem, t),
        }
    }

    #[verifier::opaque]
    pub open spec fn execute_arm(self, mem: MemView, instruction: u32, address: u32) -> Outcome {
        let condition = (instruction >> 28u32) as u8;
        if condition == 0xf {
            self.lift(mem, self.execute_unconditional_arm(instruction, address))
        } else if !self.condition_passed(condition) {
            done(self, mem)
        } else if instruction == 0xef12_3456 && self.regs[0] == 0x18 {
            done(CpuView { exit: Some(self.regs[1]), ..self }, mem)
        } else if instruction & 0x0fff_fff0 == 0x012f_ff10 {
            done(self.set_pc(self.read_arm_register((instruction & 0xf) as int, address)), mem)
        } else if instruction & 0x0fff_fff0 == 0x012f_ff30 {
            let target = self.read_arm_register((instruction & 0xf) as int, address);
            done(self.set_reg(14, address.wrapping_add(4)).set_pc(target), mem)
        } else if instruction & 0x0ff0_0090 == 0x0100_0080 {
            self.lift(mem, self.signed_halfword_multiply(instruction, address, true))
        } else if instruction & 0x0ff0_f090 == 0x0160_0080 {
            self.lift(mem, self.signed_halfword_multiply(instruction, address, false))
        } else if instruction & 0x0fc0_00f0 == 0x0000_0090 {
            self.lift(mem, self.multiply(instruction, address))
        } else if instruction & 0x0f80_00f0 == 0x0080_0090 {
            self.lift(mem, self.multiply_long(instruction, address))
        } else if instruction & 0x0e00_0090 == 0x0000_0090 {
            self.halfword_transfer(mem, instruction, address)
        } else if instruction & 0x0e00_0000 == 0x0a00_0000 {
            done(self.branch(instruction, address), mem)
        } else if instruction & 0x0e00_0000 == 0x0800_0000 {
            self.block_transfer(mem, instruction, address)
        } else if instruction & 0x0c00_0000 == 0x0400_0000 {
            self.single_transfer(mem, instruction, address)
        } else if instruction & 0x0c00_0000 == 0 {
            self.lift(mem, self.data_processing(instruction, address))
        } else {
            failed(self, mem, self.unsupported_arm_text(instruction, address))
        }
    }

    /// BLX with an immediate offset; other unconditional encodings are refused.
    #[verifier::opaque]
    pub open spec fn execute_unconditional_arm(self, instruction: u32, address: u32) -> Result<
        CpuView,
        Seq<char>,
    > {
        if instruction & 0x0e00_0000 == 0x0a00_0000 {
            let high = (instruction >> 23u32) & 2;
            let immediate = ((instruction & 0x00ff_ffff) << 2u32) | high;
            let offset = sign_extend(immediate, 26);
            Ok(
                CpuView {
                    thumb: true,
                    ..self.set_reg(14, address.wrapping_add(4)).set_reg(
                        15,
                        address.wrapping_add(8).wrapping_add_signed(offset) & !1u32,
                    )
                },
            )
        } else {
            Err(self.unsupported_arm_text(instruction, address))
        }
    }

    #[verifier::opaque]
    pub open spec fn branch(self, instruction: u32, address: u32) -> CpuView {
        let link = instruction & (1u32 << 24u32) != 0;
        let offset = sign_extend((instruction & 0x00ff_ffff) << 2u32, 26);
        let c = if link {
            self.set_reg(14, address.wrapping_add(4))
        } else {
            self
        };
        c.set_reg(15, address.wrapping_add(8).wrapping_add_signed(offset) & !3u32)
    }

    #[verifier::opaque]
    pub open spec fn decode_operand2(self, instruction: u32, immediate: bool, address: u32) -> Result<
        (u32, bool),
        Seq<char>,
    > {
        if immediate {
            let value = instruction & 0xff;
            let rotate = ((instruction >> 8u32) & 0xf) * 2;
            let result = rotr32(value, rotate as u32);
            Ok(
                (
                    result,
                    if rotate == 0 {
                        self.c
                    } else {
                        result & 0x8000_0000 != 0
                    },
                ),
            )
        } else {
            let value = self.read_arm_register((instruction & 0xf) as int, address);
            let shift_type = ((instruction >> 5u32) & 3) as u8;
            if instruction & (1u32 << 4u32) == 0 {
                let amount = (instruction >> 7u32) & 0x1f;
                Ok(shift_immediate(value, shift_type, amount, self.c))
            } else if instruction & (1u32 << 7u32) != 0 {
                Err(self.unsupported_arm_text(instruction, address))
            } else {
                let amount = self.read_arm_register(((instruction >> 8u32) & 0xf) as int, address)
                    & 0xff;
                Ok(shift_register(value, shift_type, amount, self.c))
            }
        }
    }

    #[verifier::opaque]
    pub open spec fn data_processing(self, instruction: u32, address: u32) -> Result<
        CpuView,
        Seq<char>,
    > {
        let immediate = instruction & (1u32 << 25u32) != 0;
        let opcode = ((instruction >> 21u32) & 0xf) as u8;
        let set_flags = instruction & (1u32 << 20u32) != 0;
        let rn = ((instruction >> 16u32) & 0xf) as int;
        let rd = ((instruction >> 12u32) & 0xf) as int;
        let left = self.read_arm_register(rn, address);
        match self.decode_operand2(instruction, immediate, address) {
            Err(t) => Err(t),
            Ok((right, shifter_carry)) => {
                let (result, arithmetic) = arm_alu(opcode, left, right, self.c);
                let test_only = 8 <= opcode <= 11;
                let c1 = if test_only {
                    self
                } else {
                    self.write_arm_register(rd, result)
                };
                if set_flags || test_only {
                    let c2 = c1.set_nz(result);
                    Ok(
                        match arithmetic {
                            Some(f) => CpuView { c: f.1, v: f.2, ..c2 },
                            None => CpuView { c: shifter_carry, ..c2 },
                        },
                    )
                } else {
                    Ok(c1)
                }
            },
        }
    }

    #[verifier::opaque]
    pub open spec fn multiply(self, instruction: u32, address: u32) -> Result<CpuView, Seq<char>> {
        let accumulate = instruction & (1u32 << 21u32) != 0;
        let set_flags = instruction & (1u32 << 20u32) != 0;
        let rd = ((instruction >> 16u32) & 0xf) as int;
        let rn = ((instruction >> 12u32) & 0xf) as int;
        let rs = ((instruction >> 8u32) & 0xf) as int;
        let rm = (instruction & 0xf) as int;
        if instruction & (1u32 << 23u32) != 0 {
            Err(self.unsupported_arm_text(instruction, address))
        } else if rd == 15 || rn == 15 || rs == 15 || rm == 15 {
            Err(pc_fault_text("multiply uses PC at "@, address))
        } else {
            let product = self.regs[rm].wrapping_mul(self.regs[rs]);
            let result = if accumulate {
                product.wrapping_add(self.regs[rn])
            } else {
                product
            };
            let c = self.set_reg(rd, result);
            Ok(
                if set_flags {
                    c.set_nz(result)
                } else {
                    c
                },
            )
        }
    }

    #[verifier::opaque]
    pub open spec fn signed_halfword_multiply(
        self,
        instruction: u32,
        address: u32,
        accumulate: bool,
    ) -> Result<CpuView, Seq<char>> {
        let rd = ((instruction >> 16u32) & 0xf) as int;
        let rn = ((instruction >> 12u32) & 0xf) as int;
        let rs = ((instruction >> 8u32) & 0xf) as int;
        let rm = (instruction & 0xf) as int;
        if rd == 15 || rs == 15 || rm == 15 || (accumulate && rn == 15) {
            Err(pc_fault_text("signed halfword multiply uses PC at "@, address))
        } else {
            let first = signed_halfword(self.regs[rm], instruction & (1u32 << 5u32) != 0);
            let second = signed_halfword(self.regs[rs], instruction & (1u32 << 6u32) != 0);
            let product = (first as i32).wrapping_mul(second as i32) as u32;
            Ok(
                self.set_reg(
                    rd,
                    if accumulate {
                        product.wrapping_add(self.regs[rn])
                    } else {
                        product
                    },
                ),
            )
        }
    }

    #[verifier::opaque]
    pub open spec fn multiply_long(self, instruction: u32, address: u32) -> Result<
        CpuView,
        Seq<char>,
    > {
        let signed = instruction & (1u32 << 22u32) != 0;
        let accumulate = instruction & (1u32 << 21u32) != 0;
        let set_flags = instruction & (1u32 << 20u32) != 0;
        let rd_hi = ((instruction >> 16u32) & 0xf) as int;
        let rd_lo = ((instruction >> 12u32) & 0xf) as int;
        let rs = ((instruction >> 8u32) & 0xf) as int;
        let rm = (instruction & 0xf) as int;
        if rd_hi == 15 || rd_lo == 15 || rs == 15 || rm == 15 || rd_hi == rd_lo {
            Err(pc_fault_text("long multiply has invalid registers at "@, address))
        } else {
            let product: u64 = if signed {
                ((self.regs[rm] as i32) as i64).wrapping_mul((self.regs[rs] as i32) as i64) as u64
            } else {
                (self.regs[rm] as u64).wrapping_mul(self.regs[rs] as u64)
            };
            let result: u64 = if accumulate {
                product.wrapping_add(((self.regs[rd_hi] as u64) << 32u64) | (self.regs[rd_lo] as u64))
            } else {
                product
            };
            let c = self.set_reg(rd_lo, result as u32).set_reg(rd_hi, (result >> 32u64) as u32);
            Ok(
                if set_flags {
                    CpuView { n: result & (1u64 << 63u64) != 0, z: result == 0, ..c }
                } else {
                    c
                },
            )
        }
    }

    /// Writes back `adjusted` to the base register unless an earlier part failed.
    #[verifier::opaque]
    pub open spec fn single_transfer(self, mem: MemView, instruction: u32, address: u32) -> Outcome {
        let register_offset = instruction & (1u32 << 25u32) != 0;
        let pre_index = instruction & (1u32 << 24u32) != 0;
        let add = instruction & (1u32 << 23u32) != 0;
        let byte = instruction & (1u32 << 22u32) != 0;
        let write_back = instruction & (1u32 << 21u32) != 0;
        let load = instruction & (1u32 << 20u32) != 0;
        let rn = ((instruction >> 16u32) & 0xf) as int;
        let rd = ((instruction >> 12u32) & 0xf) as int;
        if register_offset && instruction & (1u32 << 4u32) != 0 {
            failed(self, mem, self.unsupported_arm_text(instruction, address))
        } else {
            let base = self.read_arm_register(rn, address);
            let offset = if register_offset {
                shift_immediate(
                    self.read_arm_register((instruction & 0xf) as int, address),
                    ((instruction >> 5u32) & 3) as u8,
                    (instruction >> 7u32) & 0x1f,
                    self.c,
                ).0
            } else {
                instruction & 0xfff
            };
            let adjusted = if add {
                base.wrapping_add(offset)
            } else {
                base.wrapping_sub(offset)
            };
            let transfer = if pre_index {
                adjusted
            } else {
                base
            };
            let mid = if load {
                let value = if byte {
                    match self.read_data_byte(mem, transfer) {
                        Ok(b) => Ok(b as u32),
                        Err(t) => Err(t),
                    }
                } else {
                    self.read_data_word(mem, transfer)
                };
                match value {
                    Err(t) => failed(self, mem, t),
                    Ok(v) => done(
                        if rd == 15 {
                            self.set_pc(v)
                        } else {
                            self.set_reg(rd, v)
                        },
                        mem,
                    ),
                }
            } else {
                let value = if rd == 15 {
                    address.wrapping_add(12)
                } else {
                    self.regs[rd]
                };
                let w = if byte {
                    self.write_data(mem, transfer, seq![value as u8])
                } else {
                    self.write_data(mem, transfer, crate::memory::u32_bytes(value))
                };
                match w {
                    Err(t) => failed(self, mem, t),
                    Ok((c, m)) => done(c, m),
                }
            };
            if mid.fault is Some {
                mid
            } else if !pre_index || write_back {
                if rn == 15 {
                    failed(mid.cpu, mid.mem, pc_fault_text("load/store writes back PC at "@, address))
                } else {
                    done(mid.cpu.set_reg(rn, adjusted), mid.mem)
                }
            } else {
                mid
            }
        }
    }

    #[verifier::opaque]
    pub open spec fn halfword_transfer(self, mem: MemView, instruction: u32, address: u32) -> Outcome {
        let pre_index = instruction & (1u32 << 24u32) != 0;
        let add = instruction & (1u32 << 23u32) != 0;
        let immediate = instruction & (1u32 << 22u32) != 0;
        let write_back = instruction & (1u32 << 21u32) != 0;
        let load = instruction & (1u32 << 20u32) != 0;
        let rn = ((instruction >> 16u32) & 0xf) as int;
        let rd = ((instruction >> 12u32) & 0xf) as int;
        let operation = ((instruction >> 5u32) & 3) as u8;
        let base = self.read_arm_register(rn, address);
        let offset = if immediate {
            ((instruction >> 4u32) & 0xf0) | (instruction & 0xf)
        } else {
            self.read_arm_register((instruction & 0xf) as int, address)
        };
        let adjusted = if add {
            base.wrapping_add(offset)
        } else {
            base.wrapping_sub(offset)
        };
        let transfer = if pre_index {
            adjusted
        } else {
            base
        };
        let mid = if load {
            let value = if operation == 1 {
                match self.read_data_halfword(mem, transfer) {
                    Ok(h) => Ok(h as u32),
                    Err(t) => Err(t),
                }
            } else if operation == 2 {
                match self.read_data_byte(mem, transfer) {
                    Ok(b) => Ok(b as i8 as i32 as u32),
                    Err(t) => Err(t),
                }
            } else if operation == 3 {
                self.read_signed_halfword(mem, transfer)
            } else {
                Err(self.unsupported_arm_text(instruction, address))
            };
            match value {
                Err(t) => failed(self, mem, t),
                Ok(v) => done(
                    if rd == 15 {
                        self.set_pc(v)
                    } else {
                        self.set_reg(rd, v)
                    },
                    mem,
                ),
            }
        } else if operation == 1 {
            match self.write_data(
                mem,
                transfer,
                crate::memory::u16_bytes(self.regs[rd] as u16),
            ) {
                Err(t) => failed(self, mem, t),
                Ok((c, m)) => done(c, m),
            }
        } else {
            failed(self, mem, self.unsupported_arm_text(instruction, address))
        };
        if mid.fault is Some {
            mid
        } else if !pre_index || write_back {
            done(mid.cpu.set_reg(rn, adjusted), mid.mem)
        } else {
            mid
        }
    }

    /// LDM/STM over registers `register ..= 15` of `list`, starting at `transfer`;
    /// also returns the PC value a load collected.
    pub open spec fn block_loop(
        self,
        mem: MemView,
        address: u32,
        list: u32,
        load: bool,
        register: int,
        transfer: u32,
        loaded_pc: Option<u32>,
    ) -> (Outcome, Option<u32>)
        decreases 16 - register,
    {
        if register < 0 || register >= 16 {
            (done(self, mem), loaded_pc)
        } else if list & (1u32 << (register as u32)) == 0 {
            self.block_loop(mem, address, list, load, register + 1, transfer, loaded_pc)
        } else if load {
            match mem.read_u32(transfer) {
                Err(t) => (failed(self, mem, t), loaded_pc),
                Ok(v) => if register == 15 {
                    self.block_loop(
                        mem,
                        address,
                        list,
                        load,
                        register + 1,
                        transfer.wrapping_add(4),
                        Some(v),
                    )
                } else {
                    self.set_reg(register, v).block_loop(
                        mem,
                        address,
                        list,
                        load,
                        register + 1,
                        transfer.wrapping_add(4),
                        loaded_pc,
                    )
                },
            }
        } else {
            let value = if register == 15 {
                address.wrapping_add(12)
            } else {
                self.regs[register]
            };
            match mem.write_u32(transfer, value) {
                Err(t) => (failed(self, mem, t), loaded_pc),
                Ok(m) => self.block_loop(
                    m,
                    address,
                    list,
                    load,
                    register + 1,
                    transfer.wrapping_add(4),
                    loaded_pc,
                ),
            }
        }
    }

    #[verifier::opaque]
    pub open spec fn block_transfer(self, mem: MemView, instruction: u32, address: u32) -> Outcome {
        let pre_index = instruction & (1u32 << 24u32) != 0;
        let add = instruction & (1u32 << 23u32) != 0;
        let user_mode = instruction & (1u32 << 22u32) != 0;
        let write_back = instruction & (1u32 << 21u32) != 0;
        let load = instruction & (1u32 << 20u32) != 0;
        let rn = ((instruction >> 16u32) & 0xf) as int;
        let list = instruction & 0xffff;
        if user_mode || list == 0 || rn == 15 {
            failed(self, mem, self.unsupported_arm_text(instruction, address))
        } else {
            let count = bit_count(list, 16) as u32;
            let base = self.regs[rn];
            let start = if add {
                base.wrapping_add(
                    if pre_index {
                        4
                    } else {
                        0
                    },
                )
            } else {
                base.wrapping_sub((4 * count) as u32).wrapping_add(
                    if pre_index {
                        0
                    } else {
                        4
                    },
                )
            };
            let (o, loaded_pc) = self.block_loop(mem, address, list, load, 0, start, None);
            if o.fault is Some {
                o
            } else {
                let c1 = if write_back {
                    o.cpu.set_reg(
                        rn,
                        if add {
                            base.wrapping_add((4 * count) as u32)
                        } else {
                            base.wrapping_sub((4 * count) as u32)
                        },
                    )
                } else {
                    o.cpu
                };
                done(
                    match loaded_pc {
                        Some(pc) => c1.set_pc(pc),
                        None => c1,
                    },
                    o.mem,
                )
            }
        }
    }

    // ---------------------------------------------------------------------
    // Thumb-1
    // ---------------------------------------------------------------------
    #[verifier::opaque]
    pub open spec fn step_thumb(self, mem: MemView) -> Outcome {
        let address = self.regs[15];
        if address & 1 != 0 {
            failed(self, mem, pc_fault_text("unaligned Thumb PC "@, address))
        } else {
            match mem.fetch_u16(address) {
                Err(t) => failed(self, mem, t),
                Ok(instruction) => self.set_reg(15, address.wrapping_add(2)).execute_thumb(
                    mem,
                    instruction,
                    address,
                ),
            }
        }
    }

    #[verifier::opaque]
    pub open spec fn execute_thumb(self, mem: MemView, instruction: u16, address: u32) -> Outcome {
        let top5 = instruction & 0xf800;
        if top5 == 0x0000 || top5 == 0x0800 || top5 == 0x1000 {
            let operation = ((instruction >> 11u16) & 3) as u8;
            let amount = ((instruction >> 6u16) & 0x1f) as u32;
            let source = ((instruction >> 3u16) & 7) as int;
            let destination = (instruction & 7) as int;
            let (result, carry) = shift_immediate(self.regs[source], operation, amount, self.c);
            done(CpuView { c: carry, ..self.set_reg(destination, result).set_nz(result) }, mem)
        } else if top5 == 0x1800 {
            done(self.thumb_add_sub(instruction), mem)
        } else if top5 == 0x2000 || top5 == 0x2800 || top5 == 0x3000 || top5 == 0x3800 {
            done(self.thumb_immediate(instruction), mem)
        } else if top5 == 0x4800 {
            let destination = ((instruction >> 8u16) & 7) as int;
            let offset = ((instruction & 0xff) as u32) * 4;
            let base = address.wrapping_add(4) & !3u32;
            match mem.read_u32(base.wrapping_add(offset as u32)) {
                Err(t) => failed(self, mem, t),
                Ok(v) => done(self.set_reg(destination, v), mem),
            }
        } else if top5 == 0x6000 || top5 == 0x6800 || top5 == 0x7000 || top5 == 0x7800 {
            self.thumb_immediate_transfer(mem, instruction)
        } else if top5 == 0x8000 || top5 == 0x8800 {
            self.thumb_halfword_transfer(mem, instruction)
        } else if top5 == 0x9000 || top5 == 0x9800 {
            self.thumb_sp_transfer(mem, instruction)
        } else if top5 == 0xa000 || top5 == 0xa800 {
            let destination = ((instruction >> 8u16) & 7) as int;
            let base = if instruction & (1u16 << 11u16) != 0 {
                self.regs[13]
            } else {
                address.wrapping_add(4) & !3u32
            };
            done(
                self.set_reg(destination, base.wrapping_add((((instruction & 0xff) as u32) * 4) as u32)),
                mem,
            )
        } else if top5 == 0xc000 || top5 == 0xc800 {
            self.thumb_multiple_transfer(mem, instruction)
        } else if top5 == 0xe000 {
            let offset = sign_extend(((instruction & 0x7ff) as u32) << 1u32, 12);
            done(self.set_reg(15, address.wrapping_add(4).wrapping_add_signed(offset) & !1u32), mem)
        } else if top5 == 0xe800 {
            done(self.thumb_bl_suffix(instruction, address, false), mem)
        } else if top5 == 0xf000 {
            let offset = sign_extend(((instruction & 0x7ff) as u32) << 12u32, 23);
            done(self.set_reg(14, address.wrapping_add(4).wrapping_add_signed(offset)), mem)
        } else if top5 == 0xf800 {
            done(self.thumb_bl_suffix(instruction, address, true), mem)
        } else {
            let top6 = instruction & 0xfc00;
            if top6 == 0x4000 {
                done(self.thumb_alu(instruction), mem)
            } else if top6 == 0x4400 {
                done(self.thumb_high_register(instruction, address), mem)
            } else if top6 == 0x5000 || top6 == 0x5400 || top6 == 0x5800 || top6 == 0x5c00 {
                self.thumb_register_transfer(mem, instruction)
            } else {
                let top8 = instruction & 0xff00;
                if top8 == 0xb000 {
                    let offset = ((instruction & 0x7f) as u32) * 4;
                    done(
                        self.set_reg(
                            13,
                            if instruction & (1u16 << 7u16) != 0 {
                                self.regs[13].wrapping_sub(offset as u32)
                            } else {
                                self.regs[13].wrapping_add(offset as u32)
                            },
                        ),
                        mem,
                    )
                } else if top8 == 0xb400 || top8 == 0xb500 || top8 == 0xbc00 || top8 == 0xbd00 {
                    self.thumb_push_pop(mem, instruction)
                } else if 0xd000 <= top8 <= 0xde00 {
                    let condition = ((instruction >> 8u16) & 0xf) as u8;
                    if self.condition_passed(condition) {
                        let offset = sign_extend(((instruction & 0xff) as u32) << 1u32, 9);
                        done(
                            self.set_reg(
                                15,
                                address.wrapping_add(4).wrapping_add_signed(offset) & !1u32,
                            ),
                            mem,
                        )
                    } else {
                        done(self, mem)
                    }
                } else if top8 == 0xdf00 && instruction == 0xdfab && self.regs[0] == 3 {
                    match mem.read_u8(self.regs[1]) {
                        Err(t) => failed(self, mem, t),
                        Ok(_) => done(self, mem),
                    }
                } else {
                    failed(self, mem, self.unsupported_thumb_text(instruction, address))
                }
            }
        }
    }

    #[verifier::opaque]
    pub open spec fn thumb_add_sub(self, instruction: u16) -> CpuView {
        let immediate = instruction & (1u16 << 10u16) != 0;
        let subtract = instruction & (1u16 << 9u16) != 0;
        let operand = ((instruction >> 6u16) & 7) as int;
        let source = ((instruction >> 3u16) & 7) as int;
        let destination = (instruction & 7) as int;
        let right = if immediate {
            operand as u32
        } else {
            self.regs[operand]
        };
        let flags = if subtract {
            add_with_carry(self.regs[source], !right, true)
        } else {
            add_with_carry(self.regs[source], right, false)
        };
        self.set_reg(destination, flags.0).set_arithmetic_flags(flags)
    }

    #[verifier::opaque]
    pub open spec fn thumb_immediate(self, instruction: u16) -> CpuView {
        let operation = ((instruction >> 11u16) & 3) as u8;
        let destination = ((instruction >> 8u16) & 7) as int;
        let immediate = (instruction & 0xff) as u32;
        if operation == 0 {
            self.set_reg(destination, immediate).set_nz(immediate)
        } else if operation == 1 {
            self.set_arithmetic_flags(add_with_carry(self.regs[destination], !immediate, true))
        } else if operation == 2 {
            let flags = add_with_carry(self.regs[destination], immediate, false);
            self.set_reg(destination, flags.0).set_arithmetic_flags(flags)
        } else {
            let flags = add_with_carry(self.regs[destination], !immediate, true);
            self.set_reg(destination, flags.0).set_arithmetic_flags(flags)
        }
    }

    #[verifier::opaque]
    pub open spec fn thumb_alu(self, instruction: u16) -> CpuView {
        let operation = ((instruction >> 6u16) & 0xf) as u8;
        let source = ((instruction >> 3u16) & 7) as int;
        let destination = (instruction & 7) as int;
        let left = self.regs[destination];
        let right = self.regs[source];
        if 2 <= operation <= 4 || operation == 7 {
            let shift_type: u8 = if operation == 2 {
                0
            } else if operation == 3 {
                1
            } else if operation == 4 {
                2
            } else {
                3
            };
            let (result, carry) = shift_register(left, shift_type, right & 0xff, self.c);
            CpuView { c: carry, ..self.set_reg(destination, result).set_nz(result) }
        } else if operation == 5 || operation == 6 || 9 <= operation <= 11 {
            let flags = if operation == 5 {
                add_with_carry(left, right, self.c)
            } else if operation == 6 {
                add_with_carry(left, !right, self.c)
            } else if operation == 9 {
                add_with_carry(0, !right, true)
            } else if operation == 10 {
                add_with_carry(left, !right, true)
            } else {
                add_with_carry(left, right, false)
            };
            let c = if operation == 10 || operation == 11 {
                self
            } else {
                self.set_reg(destination, flags.0)
            };
            c.set_arithmetic_flags(flags)
        } else {
            let result = if operation == 0 || operation == 8 {
                left & right
            } else if operation == 1 {
                left ^ right
            } else if operation == 12 {
                left | right
            } else if operation == 13 {
                left.wrapping_mul(right)
            } else if operation == 14 {
                left & !right
            } else {
                !right
            };
            let c = if operation == 8 {
                self
            } else {
                self.set_reg(destination, result)
            };
            c.set_nz(result)
        }
    }

    #[verifier::opaque]
    pub open spec fn thumb_high_register(self, instruction: u16, address: u32) -> CpuView {
        let operation = ((instruction >> 8u16) & 3) as u8;
        let source = ((instruction >> 3u16) & 7) as int + (if instruction & (1u16 << 6u16) != 0 {
            8int
        } else {
            0int
        });
        let destination = (instruction & 7) as int + (if instruction & (1u16 << 7u16) != 0 {
            8int
        } else {
            0int
        });
        let right = self.read_thumb_register(source, address);
        if operation == 0 {
            self.write_thumb_register(
                destination,
                self.read_thumb_register(destination, address).wrapping_add(right),
            )
        } else if operation == 1 {
            self.set_arithmetic_flags(
                add_with_carry(self.read_thumb_register(destination, address), !right, true),
            )
        } else if operation == 2 {
            self.write_thumb_register(destination, right)
        } else {
            let c = if instruction & (1u16 << 7u16) != 0 {
                self.set_reg(14, address.wrapping_add(2) | 1)
            } else {
                self
            };
            c.set_pc(right)
        }
    }

    /// Applies a data load to `destination`, or reports its fault.
    pub open spec fn load_into(self, mem: MemView, destination: int, value: Result<u32, Seq<char>>) -> Outcome {
        match value {
            Err(t) => failed(self, mem, t),
            Ok(v) => done(self.set_reg(destination, v), mem),
        }
    }

    /// Applies a data store, or reports its fault.
    pub open spec fn store_from(self, mem: MemView, r: Result<(CpuView, MemView), Seq<char>>) -> Outcome {
        match r {
            Err(t) => failed(self, mem, t),
            Ok((c, m)) => done(c, m),
        }
    }

    pub open spec fn byte_as_u32(r: Result<u8, Seq<char>>, signed: bool) -> Result<u32, Seq<char>> {
        match r {
            Ok(b) => Ok(
                if signed {
                    b as i8 as i32 as u32
                } else {
                    b as u32
                },
            ),
            Err(t) => Err(t),
        }
    }

    pub open spec fn halfword_as_u32(r: Result<u16, Seq<char>>) -> Result<u32, Seq<char>> {
        match r {
            Ok(h) => Ok(h as u32),
            Err(t) => Err(t),
        }
    }

    #[verifier::opaque]
    pub open spec fn thumb_register_transfer(self, mem: MemView, instruction: u16) -> Outcome {
        let operation = ((instruction >> 9u16) & 7) as u8;
        let offset = self.regs[((instruction >> 6u16) & 7) as int];
        let base = self.regs[((instruction >> 3u16) & 7) as int];
        let destination = (instruction & 7) as int;
        let a = base.wrapping_add(offset);
        let value = self.regs[destination];
        if operation == 0 {
            self.store_from(mem, self.write_data(mem, a, crate::memory::u32_bytes(value)))
        } else if operation == 1 {
            self.store_from(mem, self.write_data(mem, a, crate::memory::u16_bytes(value as u16)))
        } else if operation == 2 {
            self.store_from(mem, self.write_data(mem, a, seq![value as u8]))
        } else if operation == 3 {
            self.load_into(mem, destination, Self::byte_as_u32(self.read_data_byte(mem, a), true))
        } else if operation == 4 {
            self.load_into(mem, destination, self.read_data_word(mem, a))
        } else if operation == 5 {
            self.load_into(mem, destination, Self::halfword_as_u32(self.read_data_halfword(mem, a)))
        } else if operation == 6 {
            self.load_into(mem, destination, Self::byte_as_u32(self.read_data_byte(mem, a), false))
        } else {
            self.load_into(mem, destination, self.read_signed_halfword(mem, a))
        }
    }

    #[verifier::opaque]
    pub open spec fn thumb_immediate_transfer(self, mem: MemView, instruction: u16) -> Outcome {
        let byte = instruction & (1u16 << 12u16) != 0;
        let load = instruction & (1u16 << 11u16) != 0;
        let immediate = ((instruction >> 6u16) & 0x1f) as u32;
        let base = self.regs[((instruction >> 3u16) & 7) as int];
        let destination = (instruction & 7) as int;
        let offset = if byte {
            immediate
        } else {
            (immediate * 4) as u32
        };
        let a = base.wrapping_add(offset);
        let value = self.regs[destination];
        if !load && !byte {
            self.store_from(mem, self.write_data(mem, a, crate::memory::u32_bytes(value)))
        } else if !load && byte {
            self.store_from(mem, self.write_data(mem, a, seq![value as u8]))
        } else if load && !byte {
            self.load_into(mem, destination, self.read_data_word(mem, a))
        } else {
            self.load_into(mem, destination, Self::byte_as_u32(self.read_data_byte(mem, a), false))
        }
    }

    #[verifier::opaque]
    pub open spec fn thumb_halfword_transfer(self, mem: MemView, instruction: u16) -> Outcome {
        let load = instruction & (1u16 << 11u16) != 0;
        let offset = (((instruction >> 6u16) & 0x1f) as u32) * 2;
        let base = self.regs[((instruction >> 3u16) & 7) as int];
        let destination = (instruction & 7) as int;
        let a = base.wrapping_add(offset as u32);
        if load {
            self.load_into(mem, destination, Self::halfword_as_u32(self.read_data_halfword(mem, a)))
        } else {
            self.store_from(
                mem,
                self.write_data(mem, a, crate::memory::u16_bytes(self.regs[destination] as u16)),
            )
        }
    }

    #[verifier::opaque]
    pub open spec fn thumb_sp_transfer(self, mem: MemView, instruction: u16) -> Outcome {
        let load = instruction & (1u16 << 11u16) != 0;
        let destination = ((instruction >> 8u16) & 7) as int;
        let a = self.regs[13].wrapping_add((((instruction & 0xff) as u32) * 4) as u32);
        if load {
            self.load_into(mem, destination, mem.read_u32(a))
        } else {
            match mem.write_u32(a, self.regs[destination]) {
                Err(t) => failed(self, mem, t),
                Ok(m) => done(self, m),
            }
        }
    }

    /// POP of the registers `register .. 8` of `list`, reading from `a`.
    pub open spec fn pop_loop(self, mem: MemView, list: u32, register: int, a: u32) -> (Outcome, u32)
        decreases 8 - register,
    {
        if register < 0 || register >= 8 {
            (done(self, mem), a)
        } else if list & (1u32 << (register as u32)) == 0 {
            self.pop_loop(mem, list, register + 1, a)
        } else {
            match mem.read_u32(a) {
                Err(t) => (failed(self, mem, t), a),
                Ok(v) => self.set_reg(register, v).pop_loop(mem, list, register + 1, a.wrapping_add(4)),
            }
        }
    }

    /// PUSH of the registers `register .. 8` of `list`, writing from `a`.
    pub open spec fn push_loop(self, mem: MemView, list: u32, register: int, a: u32) -> (Outcome, u32)
        decreases 8 - register,
    {
        if register < 0 || register >= 8 {
            (done(self, mem), a)
        } else if list & (1u32 << (register as u32)) == 0 {
            self.push_loop(mem, list, register + 1, a)
        } else {
            match mem.write_u32(a, self.regs[register]) {
                Err(t) => (failed(self, mem, t), a),
                Ok(m) => self.push_loop(m, list, register + 1, a.wrapping_add(4)),
            }
        }
    }

    #[verifier::opaque]
    pub open spec fn thumb_push_pop(self, mem: MemView, instruction: u16) -> Outcome {
        let pop = instruction & (1u16 << 11u16) != 0;
        let extra = instruction & (1u16 << 8u16) != 0;
        let list = (instruction & 0xff) as u32;
        let count = bit_count(list, 8) + (if extra {
            1nat
        } else {
            0nat
        });
        if count == 0 {
            failed(self, mem, "empty Thumb push/pop register list"@)
        } else if pop {
            let (o, a) = self.pop_loop(mem, list, 0, self.regs[13]);
            if o.fault is Some {
                o
            } else if extra {
                match o.mem.read_u32(a) {
                    Err(t) => failed(o.cpu, o.mem, t),
                    Ok(v) => done(o.cpu.set_reg(13, a.wrapping_add(4)).set_pc(v), o.mem),
                }
            } else {
                done(o.cpu.set_reg(13, a), o.mem)
            }
        } else {
            let start = self.regs[13].wrapping_sub((count * 4) as u32);
            let (o, a) = self.push_loop(mem, list, 0, start);
            if o.fault is Some {
                o
            } else if extra {
                match o.mem.write_u32(a, self.regs[14]) {
                    Err(t) => failed(o.cpu, o.mem, t),
                    Ok(m) => done(o.cpu.set_reg(13, start), m),
                }
            } else {
                done(o.cpu.set_reg(13, start), o.mem)
            }
        }
    }

    /// LDMIA/STMIA over the registers `register .. 8` of `list` from `a`.
    pub open spec fn multiple_loop(self, mem: MemView, list: u32, load: bool, register: int, a: u32) -> Outcome
        decreases 8 - register,
    {
        if register < 0 || register >= 8 {
            done(self, mem)
        } else if list & (1u32 << (register as u32)) == 0 {
            self.multiple_loop(mem, list, load, register + 1, a)
        } else if load {
            match mem.read_u32(a) {
                Err(t) => failed(self, mem, t),
                Ok(v) => self.set_reg(register, v).multiple_loop(mem, list, load, register + 1, a.wrapping_add(4)),
            }
        } else {
            match mem.write_u32(a, self.regs[register]) {
                Err(t) => failed(self, mem, t),
                Ok(m) => self.multiple_loop(m, list, load, register + 1, a.wrapping_add(4)),
            }
        }
    }

    /// Thumb LDMIA keeps a loaded base register instead of writing it back.
    #[verifier::opaque]
    pub open spec fn thumb_multiple_transfer(self, mem: MemView, instruction: u16) -> Outcome {
        let load = instruction & (1u16 << 11u16) != 0;
        let base_register = ((instruction >> 8u16) & 7) as int;
        let list = (instruction & 0xff) as u32;
        if list == 0 {
            failed(self, mem, "empty Thumb multiple-transfer register list"@)
        } else {
            let base = self.regs[base_register];
            let o = self.multiple_loop(mem, list, load, 0, base);
            if o.fault is Some {
                o
            } else if !load || list & (1u32 << (base_register as u32)) == 0 {
                done(
                    o.cpu.set_reg(base_register, base.wrapping_add((bit_count(list, 8) * 4) as u32)),
                    o.mem,
                )
            } else {
                o
            }
        }
    }

    #[verifier::opaque]
    pub open spec fn thumb_bl_suffix(self, instruction: u16, address: u32, stay_thumb: bool) -> CpuView {
        let target = self.regs[14].wrapping_add(((instruction & 0x7ff) as u32) << 1u32);
        let c = self.set_reg(14, address.wrapping_add(2) | 1);
        if stay_thumb {
            CpuView { thumb: true, ..c.set_reg(15, target & !1u32) }
        } else {
            CpuView { thumb: false, ..c.set_reg(15, target & !3u32) }
        }
    }

    /// One instruction in the current state.
    #[verifier::opaque]
    pub open spec fn step(self, mem: MemView) -> Outcome {
        if self.thumb {
            self.step_thumb(mem)
        } else {
            self.step_arm(mem)
        }
    }
}

/// An instruction that cannot be fetched, or a misaligned PC, stops the step
/// with a fault before anything changes: the core and memory stay as they were.
pub proof fn lemma_fetch_fault_changes_nothing(c: CpuView, mem: MemView)
    requires
        c.wf(),
        c.thumb ==> (c.regs[15] & 1 != 0 || mem.fetch_u16(c.regs[15]) is Err),
        !c.thumb ==> (c.regs[15] & 3 != 0 || mem.fetch_u32(c.regs[15]) is Err),
    ensures
        c.step(mem).cpu == c,
        c.step(mem).mem == mem,
        c.step(mem).fault is Some,
{
    reveal(CpuView::step);
    reveal(CpuView::step_arm);
    reveal(CpuView::step_thumb);
}

/// The scratch bytes never answer an instruction fetch: with nothing mapped
/// at address zero, a step from PC zero faults and changes nothing.
pub proof fn lemma_null_page_never_executes(c: CpuView, mem: MemView)
    requires
        c.wf(),
        c.regs[15] == 0,
        !mem.mapped(0),
    ensures
        c.step(mem).cpu == c,
        c.step(mem).mem == mem,
        c.step(mem).fault is Some,
{
    assert(!mem.accessible(0, 2, Access::Fetch)) by {
        assert(!mem.mapped(0int + 0int));
    }
    assert(!mem.accessible(0, 4, Access::Fetch)) by {
        assert(!mem.mapped(0int + 0int));
    }
    lemma_fetch_fault_changes_nothing(c, mem);
}

/// A data write that the scratch bytes serve leaves guest memory untouched.
pub proof fn lemma_scratch_write_keeps_memory(c: CpuView, mem: MemView, address: u32, bytes: Seq<u8>)
    requires
        c.null_offset(mem, address, bytes.len() as u32) is Some,
    ensures
        c.write_data(mem, address, bytes) matches Ok(p) && p.1 == mem,
{
}

/// An A32 instruction whose condition fails only moves the PC to the next
/// instruction.
pub proof fn lemma_failed_condition_skips(c: CpuView, mem: MemView, instruction: u32)
    requires
        c.wf(),
        !c.thumb,
        c.regs[15] & 3 == 0,
        mem.fetch_u32(c.regs[15]) == Ok::<u32, Seq<char>>(instruction),
        (instruction >> 28u32) != 0xf,
        !c.condition_passed((instruction >> 28u32) as u8),
    ensures
        c.step(mem) == done(c.set_reg(15, c.regs[15].wrapping_add(4)), mem),
{
    reveal(CpuView::step);
    reveal(CpuView::step_arm);
    reveal(CpuView::execute_arm);
    let next = c.set_reg(15, c.regs[15].wrapping_add(4));
    assert((instruction >> 28u32) < 16) by (bit_vector);
    assert(((instruction >> 28u32) as u8) != 0xf);
    assert(next.condition_passed((instruction >> 28u32) as u8) == c.condition_passed(
        (instruction >> 28u32) as u8,
    ));
}

/// Condition codes come in complementary pairs (EQ/NE, CS/CC, ..., GT/LE);
/// AL always passes and the unconditional space never passes as a condition.
pub proof fn lemma_conditions_complementary(c: CpuView, condition: u8)
    requires
        condition < 14,
        condition % 2 == 0,
    ensures
        c.condition_passed(condition) == !c.condition_passed((condition + 1) as u8),
        c.condition_passed(14),
        !c.condition_passed(15),
{
}

/// Subtraction is addition of the complement with carry in: the result is
/// `a - b` modulo 2^32, the carry is set exactly when no borrow occurs, and
/// the overflow flag reports a signed result outside the 32-bit range.
pub proof fn lemma_subtraction_flags(a: u32, b: u32)
    ensures
        add_with_carry(a, !b, true).0 == a.wrapping_sub(b),
        add_with_carry(a, !b, true).1 == (a >= b),
        add_with_carry(a, !b, true).2 == ((a as i32) - (b as i32) < i32::MIN || (a as i32) - (
        b as i32) > i32::MAX),
{
    assert(!b == 0xffff_ffffu32 - b && (!b) as i32 == -(b as i32) - 1) by (bit_vector);
    assert(((a + (!b) + 1) % 0x1_0000_0000) as u32 == a.wrapping_sub(b)) by (bit_vector);
}

// ---------------------------------------------------------------------------
// Executing instructions never changes the mappings
proof fn lemma_write_data_keeps_layout()
    ensures
        forall|c: CpuView, mem: MemView, a: u32, bytes: Seq<u8>|
            #[trigger] c.write_data(mem, a, bytes) is Ok ==> same_layout(
                mem,
                c.write_data(mem, a, bytes)->Ok_0.1,
            ),
{
    lemma_store_keeps_layout();
    lemma_same_layout_facts();
}

proof fn lemma_block_loop_keeps_layout(
    c: CpuView,
    mem: MemView,
    address: u32,
    list: u32,
    load: bool,
    register: int,
    transfer: u32,
    loaded_pc: Option<u32>,
)
    ensures
        same_layout(mem, c.block_loop(mem, address, list, load, register, transfer, loaded_pc).0.mem),
    decreases 16 - register,
{
    lemma_store_keeps_layout();
    lemma_same_layout_facts();
    if 0 <= register < 16 {
        if list & (1u32 << (register as u32)) == 0 {
            lemma_block_loop_keeps_layout(c, mem, address, list, load, register + 1, transfer, loaded_pc);
        } else if load {
            if let Ok(v) = mem.read_u32(transfer) {
                if register == 15 {
                    lemma_block_loop_keeps_layout(c, mem, address, list, load, register + 1,
                        transfer.wrapping_add(4), Some(v));
                } else {
                    lemma_block_loop_keeps_layout(c.set_reg(register, v), mem, address, list, load,
                        register + 1, transfer.wrapping_add(4), loaded_pc);
                }
            }
        } else {
            let value = if register == 15 {
                address.wrapping_add(12)
            } else {
                c.regs[register]
            };
            if let Ok(m) = mem.write_u32(transfer, value) {
                lemma_block_loop_keeps_layout(c, m, address, list, load, register + 1,
                    transfer.wrapping_add(4), loaded_pc);
            }
        }
    }
}

proof fn lemma_push_pop_loops_keep_layout(c: CpuView, mem: MemView, list: u32, register: int, a: u32)
    ensures
        same_layout(mem, c.push_loop(mem, list, register, a).0.mem),
        same_layout(mem, c.pop_loop(mem, list, register, a).0.mem),
    decreases 8 - register,
{
    lemma_store_keeps_layout();
    lemma_same_layout_facts();
    if 0 <= register < 8 {
        if list & (1u32 << (register as u32)) == 0 {
            lemma_push_pop_loops_keep_layout(c, mem, list, register + 1, a);
        } else {
            if let Ok(m) = mem.write_u32(a, c.regs[register]) {
                lemma_push_pop_loops_keep_layout(c, m, list, register + 1, a.wrapping_add(4));
            }
            if let Ok(v) = mem.read_u32(a) {
                lemma_push_pop_loops_keep_layout(c.set_reg(register, v), mem, list, register + 1,
                    a.wrapping_add(4));
            }
        }
    }
}

proof fn lemma_multiple_loop_keeps_layout(c: CpuView, mem: MemView, list: u32, load: bool, register: int, a: u32)
    ensures
        same_layout(mem, c.multiple_loop(mem, list, load, register, a).mem),
    decreases 8 - register,
{
    lemma_store_keeps_layout();
    lemma_same_layout_facts();
    if 0 <= register < 8 {
        if list & (1u32 << (register as u32)) == 0 {
            lemma_multiple_loop_keeps_layout(c, mem, list, load, register + 1, a);
        } else if load {
            if let Ok(v) = mem.read_u32(a) {
                lemma_multiple_loop_keeps_layout(c.set_reg(register, v), mem, list, load,
                    register + 1, a.wrapping_add(4));
            }
        } else {
            if let Ok(m) = mem.write_u32(a, c.regs[register]) {
                lemma_multiple_loop_keeps_layout(c, m, list, load, register + 1, a.wrapping_add(4));
            }
        }
    }
}

proof fn lemma_arm_transfers_keep_layout(c: CpuView, mem: MemView, instruction: u32, address: u32)
    ensures
        same_layout(mem, c.single_transfer(mem, instruction, address).mem),
        same_layout(mem, c.halfword_transfer(mem, instruction, address).mem),
        same_layout(mem, c.block_transfer(mem, instruction, address).mem),
{
    lemma_write_data_keeps_layout();
    lemma_same_layout_facts();
    reveal(CpuView::single_transfer);
    reveal(CpuView::halfword_transfer);
    reveal(CpuView::block_transfer);
    let list = instruction & 0xffff;
    let rn = ((instruction >> 16u32) & 0xf) as int;
    let base = c.regs[rn];
    let add = instruction & (1u32 << 23u32) != 0;
    let pre_index = instruction & (1u32 << 24u32) != 0;
    let load = instruction & (1u32 << 20u32) != 0;
    let count = bit_count(list, 16) as u32;
    let start = if add {
        base.wrapping_add(
            if pre_index {
                4
            } else {
                0
            },
        )
    } else {
        base.wrapping_sub((4 * count) as u32).wrapping_add(
            if pre_index {
                0
            } else {
                4
            },
        )
    };
    lemma_block_loop_keeps_layout(c, mem, address, list, load, 0, start, None);
}

proof fn lemma_thumb_transfers_keep_layout(c: CpuView, mem: MemView, instruction: u16)
    ensures
        same_layout(mem, c.thumb_register_transfer(mem, instruction).mem),
        same_layout(mem, c.thumb_immediate_transfer(mem, instruction).mem),
        same_layout(mem, c.thumb_halfword_transfer(mem, instruction).mem),
        same_layout(mem, c.thumb_sp_transfer(mem, instruction).mem),
        same_layout(mem, c.thumb_push_pop(mem, instruction).mem),
        same_layout(mem, c.thumb_multiple_transfer(mem, instruction).mem),
{
    lemma_write_data_keeps_layout();
    lemma_store_keeps_layout();
    lemma_same_layout_facts();
    reveal(CpuView::thumb_register_transfer);
    reveal(CpuView::thumb_immediate_transfer);
    reveal(CpuView::thumb_halfword_transfer);
    reveal(CpuView::thumb_sp_transfer);
    reveal(CpuView::thumb_push_pop);
    reveal(CpuView::thumb_multiple_transfer);
    let list = (instruction & 0xff) as u32;
    let extra = instruction & (1u16 << 8u16) != 0;
    let count = bit_count(list, 8) + (if extra {
        1nat
    } else {
        0nat
    });
    lemma_push_pop_loops_keep_layout(c, mem, list, 0, c.regs[13]);
    lemma_push_pop_loops_keep_layout(c, mem, list, 0, c.regs[13].wrapping_sub((count * 4) as u32));
    let load = instruction & (1u16 << 11u16) != 0;
    let base_register = ((instruction >> 8u16) & 7) as int;
    lemma_multiple_loop_keeps_layout(c, mem, list, load, 0, c.regs[base_register]);
}

/// Executing an instruction never maps, unmaps or re-protects guest memory:
/// the mappings after a step are those before it, with their rights and
/// names, and every address is found in the same mapping.
pub proof fn lemma_step_keeps_layout(c: CpuView, mem: MemView)
    ensures
        same_layout(mem, c.step(mem).mem),
        mem.wf() ==> c.step(mem).mem.wf(),
        forall|x: int| #[trigger] c.step(mem).mem.find(x) == mem.find(x),
{
    lemma_same_layout_facts();
    reveal(CpuView::step);
    reveal(CpuView::step_arm);
    reveal(CpuView::step_thumb);
    reveal(CpuView::execute_arm);
    reveal(CpuView::execute_thumb);
    let address = c.regs[15];
    if !c.thumb {
        if let Ok(instruction) = mem.fetch_u32(address) {
            lemma_arm_transfers_keep_layout(c.set_reg(15, address.wrapping_add(4)), mem, instruction,
                address);
        }
    } else {
        if let Ok(instruction) = mem.fetch_u16(address) {
            lemma_thumb_transfers_keep_layout(c.set_reg(15, address.wrapping_add(2)), mem, instruction);
        }
    }
    assert forall|x: int| #[trigger] c.step(mem).mem.find(x) == mem.find(x) by {
        assert(same_layout(mem, c.step(mem).mem));
    }
}


/// `x` modulo 2^32, for `x` above `-2^33`.
pub open spec fn wrap32(x: int) -> int {
    (x + 0x2_0000_0000) % 0x1_0000_0000
}

/// `wrap32(x)` is `x` shifted up by 2^32 when negative, taken modulo 2^32.
proof fn lemma_wrap32(x: int)
    requires
        -0x1_0000_0000 <= x,
    ensures
        wrap32(x) == (x + 0x1_0000_0000) % 0x1_0000_0000,
        x >= 0 ==> wrap32(x) == x % 0x1_0000_0000,
        0 <= x < 0x1_0000_0000 ==> wrap32(x) == x,
        x < 0 ==> wrap32(x) == x + 0x1_0000_0000,
{
    vstd::arithmetic::div_mod::lemma_mod_add_multiples_vanish(x + 0x1_0000_0000, 0x1_0000_0000);
    if x >= 0 {
        vstd::arithmetic::div_mod::lemma_mod_add_multiples_vanish(x, 0x1_0000_0000);
        if x < 0x1_0000_0000 {
            vstd::arithmetic::div_mod::lemma_small_mod(x as nat, 0x1_0000_0000);
        }
    } else {
        vstd::arithmetic::div_mod::lemma_small_mod((x + 0x1_0000_0000) as nat, 0x1_0000_0000);
    }
}

/// What an A32 data-processing instruction writes to its destination, over
/// the first operand register `left` and the shifter operand `right`, as
/// integers modulo 2^32: AND, EOR, SUB (`left - right`), RSB (`right -
/// left`, so `RSB r0, r1, #0` leaves `r0 == 0 - r1`), ADD, ADC, SBC and RSC
/// (with the borrow `1 - C`), ORR, MOV, BIC and MVN; the comparisons
/// (opcodes 8 to 11) leave every register as it was.
#[verifier::rlimit(40)]
pub proof fn lemma_data_processing_results(cpu: CpuView, instruction: u32, address: u32)
    requires
        cpu.wf(),
        ((instruction >> 12u32) & 0xf) != 15,
        cpu.decode_operand2(instruction, instruction & (1u32 << 25u32) != 0, address) is Ok,
    ensures
        ({
            let opcode = (instruction >> 21u32) & 0xf;
            let rn = ((instruction >> 16u32) & 0xf) as int;
            let rd = ((instruction >> 12u32) & 0xf) as int;
            let l = cpu.read_arm_register(rn, address);
            let r = cpu.decode_operand2(instruction, instruction & (1u32 << 25u32) != 0, address)->Ok_0.0;
            let left = l as int;
            let right = r as int;
            let carry: int = if cpu.c { 1 } else { 0 };
            let after = cpu.data_processing(instruction, address)->Ok_0;
            let written = after.regs[rd] as int;
            &&& cpu.data_processing(instruction, address) is Ok
            &&& opcode == 0 ==> after.regs[rd] == l & r
            &&& opcode == 1 ==> after.regs[rd] == l ^ r
            &&& opcode == 2 ==> written == wrap32(left - right)
            &&& opcode == 3 ==> written == wrap32(right - left)
            &&& opcode == 4 ==> written == wrap32(left + right)
            &&& opcode == 5 ==> written == wrap32(left + right + carry)
            &&& opcode == 6 ==> written == wrap32(left - right - (1 - carry))
            &&& opcode == 7 ==> written == wrap32(right - left - (1 - carry))
            &&& (8 <= opcode <= 11 ==> after.regs == cpu.regs)
            &&& opcode == 12 ==> after.regs[rd] == l | r
            &&& opcode == 13 ==> after.regs[rd] == r
            &&& opcode == 14 ==> after.regs[rd] == l & !r
            &&& opcode == 15 ==> after.regs[rd] == !r
        }),
{
    reveal(CpuView::data_processing);
    let opcode = (instruction >> 21u32) & 0xf;
    let l = cpu.read_arm_register(((instruction >> 16u32) & 0xf) as int, address);
    let r = cpu.decode_operand2(instruction, instruction & (1u32 << 25u32) != 0, address)->Ok_0.0;
    assert((instruction >> 12u32) & 0xf < 15 && opcode < 16) by (bit_vector)
        requires
            ((instruction >> 12u32) & 0xf) != 15,
            opcode == (instruction >> 21u32) & 0xf,
    ;
    assert(((opcode as u8) as u32) == opcode);
    lemma_alu_values(opcode as u8, l, r, cpu.c);
}

#[verifier::rlimit(40)]
proof fn lemma_alu_values(opcode: u8, l: u32, r: u32, c: bool)
    ensures
        ({
            let v = arm_alu(opcode, l, r, c).0;
            let carry: int = if c { 1 } else { 0 };
            &&& opcode == 0 ==> v == l & r
            &&& opcode == 1 ==> v == l ^ r
            &&& opcode == 2 ==> v as int == wrap32(l - r)
            &&& opcode == 3 ==> v as int == wrap32(r - l)
            &&& opcode == 4 ==> v as int == wrap32(l + r)
            &&& opcode == 5 ==> v as int == wrap32(l + r + carry)
            &&& opcode == 6 ==> v as int == wrap32(l - r - (1 - carry))
            &&& opcode == 7 ==> v as int == wrap32(r - l - (1 - carry))
            &&& opcode == 12 ==> v == l | r
            &&& opcode == 13 ==> v == r
            &&& opcode == 14 ==> v == l & !r
            &&& opcode == 15 ==> v == !r
        }),
{
    reveal(arm_alu);
    assert(!l as int == 0xffff_ffff - l) by (bit_vector);
    assert(!r as int == 0xffff_ffff - r) by (bit_vector);
    let carry: int = if c { 1 } else { 0 };
    lemma_wrap32(l - r);
    lemma_wrap32(r - l);
    lemma_wrap32(l + r);
    lemma_wrap32(l + r + carry);
    lemma_wrap32(l - r - (1 - carry));
    lemma_wrap32(r - l - (1 - carry));
}


/// What a Thumb ALU-format instruction writes to its destination `rd` from
/// `rd` itself (`left`) and the source `rs` (`right`), modulo 2^32: AND,
/// EOR, ADC, SBC (borrow `1 - C`), NEG (`0 - right`), ORR, MUL, BIC, MVN;
/// TST, CMP and CMN leave the registers alone, and CMP sets Z exactly when
/// the two are equal and C exactly when `left >= right`.
#[verifier::rlimit(30)]
pub proof fn lemma_thumb_alu_results(cpu: CpuView, instruction: u16)
    requires
        cpu.wf(),
    ensures
        ({
            let op = (instruction >> 6u16) & 0xf;
            let rd = (instruction & 7) as int;
            let l = cpu.regs[rd];
            let r = cpu.regs[((instruction >> 3u16) & 7) as int];
            let after = cpu.thumb_alu(instruction);
            let written = after.regs[rd] as int;
            let carry: int = if cpu.c { 1 } else { 0 };
            &&& op == 0 ==> after.regs[rd] == l & r
            &&& op == 1 ==> after.regs[rd] == l ^ r
            &&& op == 5 ==> written == wrap32(l + r + carry)
            &&& op == 6 ==> written == wrap32(l - r - (1 - carry))
            &&& op == 9 ==> written == wrap32(0 - r)
            &&& op == 12 ==> after.regs[rd] == l | r
            &&& op == 13 ==> written == (l * r) % 0x1_0000_0000
            &&& op == 14 ==> after.regs[rd] == l & !r
            &&& op == 15 ==> after.regs[rd] == !r
            &&& (op == 8 || op == 10 || op == 11) ==> after.regs == cpu.regs
            &&& op == 10 ==> after.z == (l == r) && after.c == (l >= r)
        }),
{
    reveal(CpuView::thumb_alu);
    let op = (instruction >> 6u16) & 0xf;
    let l = cpu.regs[(instruction & 7) as int];
    let r = cpu.regs[((instruction >> 3u16) & 7) as int];
    assert(op < 16 && (instruction & 7) < 8 && ((instruction >> 3u16) & 7) < 8 && !r as int == 0xffff_ffff - r)
        by (bit_vector)
        requires
            op == (instruction >> 6u16) & 0xf,
    ;
    assert(((op as u8) as u16) == op);
    lemma_subtraction_flags(l, r);
    lemma_subtraction_flags(0, r);
    let carry: int = if cpu.c { 1 } else { 0 };
    lemma_wrap32(0 - r);
    lemma_wrap32(l + r + carry);
    lemma_wrap32(l - r - (1 - carry));
}

/// The Thumb add/subtract format writes `rs + operand` or `rs - operand`
/// (the operand a register or a 3-bit immediate), and the 8-bit immediate
/// format writes the immediate (MOV), `rd + imm` (ADD) or `rd - imm` (SUB)
/// and leaves the registers alone for CMP; all modulo 2^32.
#[verifier::rlimit(30)]
pub proof fn lemma_thumb_add_sub_results(cpu: CpuView, instruction: u16)
    requires
        cpu.wf(),
    ensures
        ({
            let operand = ((instruction >> 6u16) & 7) as int;
            let right = if instruction & (1u16 << 10u16) != 0 {
                operand
            } else {
                cpu.regs[operand] as int
            };
            let source = cpu.regs[((instruction >> 3u16) & 7) as int] as int;
            let written = cpu.thumb_add_sub(instruction).regs[(instruction & 7) as int] as int;
            if instruction & (1u16 << 9u16) != 0 {
                written == wrap32(source - right)
            } else {
                written == wrap32(source + right)
            }
        }),
        ({
            let operation = (instruction >> 11u16) & 3;
            let rd = ((instruction >> 8u16) & 7) as int;
            let imm = (instruction & 0xff) as int;
            let before = cpu.regs[rd] as int;
            let after = cpu.thumb_immediate(instruction);
            &&& operation == 0 ==> after.regs[rd] == imm
            &&& operation == 1 ==> after.regs == cpu.regs
            &&& operation == 2 ==> after.regs[rd] as int == wrap32(before + imm)
            &&& operation == 3 ==> after.regs[rd] as int == wrap32(before - imm)
        }),
{
    reveal(CpuView::thumb_add_sub);
    reveal(CpuView::thumb_immediate);
    let operand = ((instruction >> 6u16) & 7) as int;
    assert(((instruction >> 6u16) & 7) < 8 && ((instruction >> 3u16) & 7) < 8 && (instruction & 7) < 8 && (
    (instruction >> 8u16) & 7) < 8 && ((instruction >> 11u16) & 3) < 4) by (bit_vector);
    let right: u32 = if instruction & (1u16 << 10u16) != 0 {
        operand as u32
    } else {
        cpu.regs[operand]
    };
    let source = cpu.regs[((instruction >> 3u16) & 7) as int];
    lemma_subtraction_flags(source, right);
    lemma_wrap32(source - right);
    lemma_wrap32(source + right);
    let imm = (instruction & 0xff) as u32;
    let before = cpu.regs[((instruction >> 8u16) & 7) as int];
    lemma_subtraction_flags(before, imm);
    lemma_wrap32(before - imm);
    lemma_wrap32(before + imm);
    let op = (instruction >> 11u16) & 3;
    assert(((op as u8) as u16) == op);
}


/// The flags an A32 subtraction, reverse subtraction or addition sets (with
/// the S bit, or always for CMP and CMN), over the first operand `left` and
/// the shifter operand `right`: for SUB and CMP, Z exactly when the two are
/// equal, C exactly when no borrow occurs (`left >= right`), N the sign bit
/// of the difference and V exactly when the signed difference leaves the
/// 32-bit range; RSB likewise with the operands swapped; for ADD and CMN,
/// C exactly when the sum exceeds 32 bits, Z when it wraps to zero, N its
/// sign bit and V a signed overflow.
#[verifier::rlimit(30)]
pub proof fn lemma_data_processing_flags(cpu: CpuView, instruction: u32, address: u32)
    requires
        cpu.wf(),
        ((instruction >> 12u32) & 0xf) != 15,
        cpu.decode_operand2(instruction, instruction & (1u32 << 25u32) != 0, address) is Ok,
        instruction & (1u32 << 20u32) != 0 || 8 <= (instruction >> 21u32) & 0xf <= 11,
    ensures
        ({
            let opcode = (instruction >> 21u32) & 0xf;
            let l = cpu.read_arm_register(((instruction >> 16u32) & 0xf) as int, address);
            let r = cpu.decode_operand2(instruction, instruction & (1u32 << 25u32) != 0, address)->Ok_0.0;
            let after = cpu.data_processing(instruction, address)->Ok_0;
            &&& (opcode == 2 || opcode == 10) ==> {
                &&& after.z == (l == r)
                &&& after.c == (l >= r)
                &&& after.n == (wrap32(l - r) >= 0x8000_0000)
                &&& after.v == ((l as i32) - (r as i32) < i32::MIN || (l as i32) - (r as i32) > i32::MAX)
            }
            &&& opcode == 3 ==> {
                &&& after.z == (l == r)
                &&& after.c == (r >= l)
                &&& after.n == (wrap32(r - l) >= 0x8000_0000)
                &&& after.v == ((r as i32) - (l as i32) < i32::MIN || (r as i32) - (l as i32) > i32::MAX)
            }
            &&& (opcode == 4 || opcode == 11) ==> {
                &&& after.z == (wrap32(l + r) == 0)
                &&& after.c == (l + r > u32::MAX)
                &&& after.n == (wrap32(l + r) >= 0x8000_0000)
                &&& after.v == ((l as i32) + (r as i32) < i32::MIN || (l as i32) + (r as i32) > i32::MAX)
            }
        }),
{
    reveal(CpuView::data_processing);
    reveal(arm_alu);
    let opcode = (instruction >> 21u32) & 0xf;
    let l = cpu.read_arm_register(((instruction >> 16u32) & 0xf) as int, address);
    let r = cpu.decode_operand2(instruction, instruction & (1u32 << 25u32) != 0, address)->Ok_0.0;
    assert((instruction >> 12u32) & 0xf < 15 && opcode < 16) by (bit_vector)
        requires
            ((instruction >> 12u32) & 0xf) != 15,
            opcode == (instruction >> 21u32) & 0xf,
    ;
    assert(((opcode as u8) as u32) == opcode);
    lemma_alu_values(opcode as u8, l, r, cpu.c);
    lemma_subtraction_flags(l, r);
    lemma_subtraction_flags(r, l);
    lemma_wrap32(l - r);
    lemma_wrap32(r - l);
    lemma_wrap32(l + r);
    let result = arm_alu(opcode as u8, l, r, cpu.c).0;
    assert((result & 0x8000_0000 != 0) == (result >= 0x8000_0000)) by (bit_vector);
}

} // verus!
