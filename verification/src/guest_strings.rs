//! Strings and slot variables that native services read from and write to
//! guest memory.
use vstd::prelude::*;
use crate::error::{Error, is_arm_fault};
use crate::memory::{address_overflow_text, Access, GuestAddr, GuestMemory, MemView};
use crate::slots::{table_slot_address, PLATFORM_SLOT_COUNT, PLATFORM_TABLE};
use crate::text::{dec_text, decimal, hex32, hex32_text};

verus! {

/// A refusal by guest memory (`Arm`), by the native interface (`Abi`) or by
/// a resource limit (`Limit`), with its message.
pub enum GuestFault {
    Arm(Seq<char>),
    Abi(Seq<char>),
    Limit(Seq<char>),
}

/// `r` is the error that `f` describes.
pub open spec fn fault_matches<T>(r: Result<T, Error>, f: GuestFault) -> bool {
    match f {
        GuestFault::Arm(t) => is_arm_fault(r, t),
        GuestFault::Abi(t) => r matches Err(Error::Abi(m)) && m@ == t,
        GuestFault::Limit(t) => r matches Err(Error::ResourceLimit(m)) && m@ == t,
    }
}

pub open spec fn long_c_string_text(address: u32, limit: nat) -> Seq<char> {
    "guest C string at "@ + hex32_text(address) + " exceeds "@ + dec_text(limit) + " bytes"@
}

/// The bytes of the zero-terminated string at `address`, read from index
/// `offset` on: at most `limit` bytes are examined.
pub open spec fn c_string_from(m: MemView, address: u32, offset: int, limit: int) -> Result<
    Seq<u8>,
    GuestFault,
>
    decreases limit - offset,
{
    if offset >= limit {
        Err(GuestFault::Abi(long_c_string_text(address, limit as nat)))
    } else if address + (offset as u32) > u32::MAX {
        Err(GuestFault::Arm(address_overflow_text(address, offset as u32)))
    } else {
        match m.read_u8((address + (offset as u32)) as u32) {
            Err(t) => Err(GuestFault::Arm(t)),
            Ok(b) => if b == 0 {
                Ok(Seq::empty())
            } else {
                match c_string_from(m, address, offset + 1, limit) {
                    Ok(rest) => Ok(seq![b] + rest),
                    Err(f) => Err(f),
                }
            },
        }
    }
}

/// Reads the zero-terminated string at `address`, examining at most `limit`
/// bytes; a string without a terminator in that span is refused.
pub fn read_c_string(memory: &GuestMemory, address: GuestAddr, limit: usize) -> (r: Result<
    Vec<u8>,
    Error,
>)
    requires
        memory.wf(),
    ensures
        match c_string_from(memory@, address.0, 0, limit as int) {
            Ok(s) => r matches Ok(v) && v@ == s,
            Err(f) => fault_matches(r, f),
        },
{
    let mut bytes: Vec<u8> = Vec::new();
    let mut offset: usize = 0;
    while offset < limit
        invariant
            offset <= limit,
            memory.wf(),
            c_string_from(memory@, address.0, 0, limit as int) == match c_string_from(
                memory@,
                address.0,
                offset as int,
                limit as int,
            ) {
                Ok(rest) => Ok(bytes@ + rest),
                Err(f) => Err(f),
            },
        decreases limit - offset,
    {
        let a = match address.checked_add(offset as u32) {
            Ok(a) => a,
            Err(e) => return Err(e),
        };
        let byte = match memory.read_u8(a) {
            Ok(b) => b,
            Err(e) => return Err(e),
        };
        if byte == 0 {
            assert(bytes@ + Seq::<u8>::empty() =~= bytes@);
            return Ok(bytes);
        }
        proof {
            let tail = c_string_from(memory@, address.0, offset + 1, limit as int);
            if let Ok(rest) = tail {
                assert(bytes@ + (seq![byte] + rest) =~= bytes@.push(byte) + rest);
            }
        }
        bytes.push(byte);
        offset += 1;
    }
    Err(
        Error::Abi(
            String::from_str("guest C string at ").concat(hex32(address.0).as_str()).concat(
                " exceeds ",
            ).concat(decimal(limit as u64).as_str()).concat(" bytes"),
        ),
    )
}

/// The bytes before the first zero of `s`, or all of `s`.
pub open spec fn before_nul(s: Seq<u8>) -> Seq<u8>
    decreases s.len(),
{
    if s.len() == 0 {
        s
    } else if s[0] == 0 {
        Seq::empty()
    } else {
        seq![s[0]] + before_nul(s.drop_first())
    }
}

/// Reads `limit` bytes at `address` and keeps those before the first zero.
pub fn read_c_string_bounded(memory: &GuestMemory, address: GuestAddr, limit: usize) -> (r: Result<
    Vec<u8>,
    Error,
>)
    requires
        memory.wf(),
    ensures
        limit == 0 ==> (r matches Ok(v) && v@.len() == 0),
        limit > 0 ==> match memory@.load(address.0, limit as nat, Access::Read) {
            Ok(b) => r matches Ok(v) && v@ == before_nul(b),
            Err(t) => is_arm_fault(r, t),
        },
{
    if limit == 0 {
        return Ok(Vec::new());
    }
    let bytes = match memory.read(address, limit) {
        Ok(b) => b,
        Err(e) => return Err(e),
    };
    let mut kept: Vec<u8> = Vec::new();
    let mut i: usize = 0;
    assert(bytes@.skip(0) =~= bytes@);
    assert(kept@ + before_nul(bytes@) =~= before_nul(bytes@));
    while i < bytes.len() && bytes[i] != 0
        invariant
            i <= bytes@.len(),
            before_nul(bytes@) == kept@ + before_nul(bytes@.skip(i as int)),
        decreases bytes@.len() - i,
    {
        proof {
            assert(bytes@.skip(i as int).drop_first() =~= bytes@.skip(i + 1));
            assert(kept@ + (seq![bytes@[i as int]] + before_nul(bytes@.skip(i + 1))) =~= kept@.push(
                bytes@[i as int],
            ) + before_nul(bytes@.skip(i + 1)));
        }
        kept.push(bytes[i]);
        i += 1;
    }
    proof {
        assert(before_nul(bytes@.skip(i as int)) =~= Seq::<u8>::empty());
        assert(kept@ + Seq::<u8>::empty() =~= kept@);
    }
    Ok(kept)
}

pub open spec fn long_wide_string_text(address: u32, limit: nat) -> Seq<char> {
    "guest wide string at "@ + hex32_text(address) + " exceeds "@ + dec_text(limit)
        + " code units"@
}

/// The big-endian UTF-16 code units of the zero-terminated string at
/// `address`, from unit `offset` on: at most `limit` units are examined.
pub open spec fn wide_string_from(m: MemView, address: u32, offset: int, limit: int) -> Result<
    Seq<u16>,
    GuestFault,
>
    decreases limit - offset,
{
    if offset >= limit {
        Err(GuestFault::Abi(long_wide_string_text(address, limit as nat)))
    } else if offset > u32::MAX || offset * 2 > u32::MAX {
        Err(GuestFault::Abi("guest wide-string offset overflow"@))
    } else if address + offset * 2 > u32::MAX {
        Err(GuestFault::Arm(address_overflow_text(address, (offset * 2) as u32)))
    } else {
        match m.load((address + offset * 2) as u32, 2, Access::Read) {
            Err(t) => Err(GuestFault::Arm(t)),
            Ok(b) => {
                let unit = ((b[0] as u16) * 256 + b[1] as u16) as u16;
                if unit == 0 {
                    Ok(Seq::empty())
                } else {
                    match wide_string_from(m, address, offset + 1, limit) {
                        Ok(rest) => Ok(seq![unit] + rest),
                        Err(f) => Err(f),
                    }
                }
            },
        }
    }
}

/// Reads the zero-terminated big-endian UTF-16 string at `address`,
/// examining at most `limit` code units.
pub fn read_wide_string_be(memory: &GuestMemory, address: GuestAddr, limit: usize) -> (r: Result<
    Vec<u16>,
    Error,
>)
    requires
        memory.wf(),
    ensures
        match wide_string_from(memory@, address.0, 0, limit as int) {
            Ok(s) => r matches Ok(v) && v@ == s,
            Err(f) => fault_matches(r, f),
        },
{
    let mut units: Vec<u16> = Vec::new();
    let mut offset: usize = 0;
    while offset < limit
        invariant
            offset <= limit,
            memory.wf(),
            wide_string_from(memory@, address.0, 0, limit as int) == match wide_string_from(
                memory@,
                address.0,
                offset as int,
                limit as int,
            ) {
                Ok(rest) => Ok(units@ + rest),
                Err(f) => Err(f),
            },
        decreases limit - offset,
    {
        if offset > 0x7fff_ffff {
            return Err(Error::Abi(String::from_str("guest wide-string offset overflow")));
        }
        let a = match address.checked_add((offset * 2) as u32) {
            Ok(a) => a,
            Err(e) => return Err(e),
        };
        let bytes = match memory.read(a, 2) {
            Ok(b) => b,
            Err(e) => return Err(e),
        };
        let unit = (bytes[0] as u16) * 256 + bytes[1] as u16;
        if unit == 0 {
            assert(units@ + Seq::<u16>::empty() =~= units@);
            return Ok(units);
        }
        proof {
            let tail = wide_string_from(memory@, address.0, offset + 1, limit as int);
            if let Ok(rest) = tail {
                assert(units@ + (seq![unit] + rest) =~= units@.push(unit) + rest);
            }
        }
        units.push(unit);
        offset += 1;
    }
    Err(
        Error::Abi(
            String::from_str("guest wide string at ").concat(hex32(address.0).as_str()).concat(
                " exceeds ",
            ).concat(decimal(limit as u64).as_str()).concat(" code units"),
        ),
    )
}

/// Writes a directory entry name and its terminating zero when the output
/// buffer is present and large enough.  `Ok(false)` reports a buffer that is
/// absent or too small; nothing is written then.
pub fn write_directory_entry(
    memory: &mut GuestMemory,
    output: GuestAddr,
    output_len: usize,
    entry: &[u8],
) -> (r: Result<bool, Error>)
    requires
        old(memory).wf(),
    ensures
        final(memory).wf(),
        (output.0 == 0 || entry@.len() + 1 > output_len) ==> r == Ok::<bool, Error>(false)
            && final(memory)@ == old(memory)@,
        !(output.0 == 0 || entry@.len() + 1 > output_len) ==> match old(memory)@.store(
            output.0,
            entry@,
        ) {
            Err(t) => is_arm_fault(r, t) && final(memory)@ == old(memory)@,
            Ok(m1) => if output.0 + (entry@.len() as u32) > u32::MAX {
                is_arm_fault(r, address_overflow_text(output.0, entry@.len() as u32))
                    && final(memory)@ == m1
            } else {
                match m1.write_u8((output.0 + (entry@.len() as u32)) as u32, 0) {
                    Ok(m2) => r == Ok::<bool, Error>(true) && final(memory)@ == m2,
                    Err(t) => is_arm_fault(r, t) && final(memory)@ == m1,
                }
            },
        },
{
    let required = match entry.len().checked_add(1) {
        Some(n) => n,
        None => return Ok(false),
    };
    if output.0 == 0 || required > output_len {
        return Ok(false);
    }
    match memory.write(output, entry) {
        Ok(()) => {},
        Err(e) => return Err(e),
    }
    let end = match output.checked_add(entry.len() as u32) {
        Ok(a) => a,
        Err(e) => return Err(e),
    };
    match memory.write_u8(end, 0) {
        Ok(()) => Ok(true),
        Err(e) => Err(e),
    }
}

pub open spec fn null_slot_text(slot: u32) -> Seq<char> {
    "platform data slot "@ + dec_text(slot as nat) + " contains a null variable address"@
}

/// The address of the variable that a platform data slot points at: the
/// word in the slot's table entry, which must not be null.
pub fn platform_data_slot_address(memory: &GuestMemory, slot: u32) -> (r: Result<GuestAddr, Error>)
    requires
        memory.wf(),
        slot < PLATFORM_SLOT_COUNT,
    ensures
        match memory@.read_u32((PLATFORM_TABLE + slot * 4) as u32) {
            Err(t) => is_arm_fault(r, t),
            Ok(v) => if v == 0 {
                r matches Err(Error::Abi(m)) && m@ == null_slot_text(slot)
            } else {
                r == Ok::<GuestAddr, Error>(GuestAddr(v))
            },
        },
{
    let address = match memory.read_u32(table_slot_address(slot)) {
        Ok(v) => GuestAddr(v),
        Err(e) => return Err(e),
    };
    if address.0 == 0 {
        return Err(
            Error::Abi(
                String::from_str("platform data slot ").concat(decimal(slot as u64).as_str()).concat(
                    " contains a null variable address",
                ),
            ),
        );
    }
    Ok(address)
}

/// The value of the variable a platform data slot points at.
pub fn read_platform_data_slot(memory: &GuestMemory, slot: u32) -> (r: Result<u32, Error>)
    requires
        memory.wf(),
        slot < PLATFORM_SLOT_COUNT,
    ensures
        match memory@.read_u32((PLATFORM_TABLE + slot * 4) as u32) {
            Err(t) => is_arm_fault(r, t),
            Ok(v) => if v == 0 {
                r matches Err(Error::Abi(m)) && m@ == null_slot_text(slot)
            } else {
                match memory@.read_u32(v) {
                    Err(t) => is_arm_fault(r, t),
                    Ok(x) => r == Ok::<u32, Error>(x),
                }
            },
        },
{
    let variable = match platform_data_slot_address(memory, slot) {
        Ok(a) => a,
        Err(e) => return Err(e),
    };
    memory.read_u32(variable)
}

} // verus!
