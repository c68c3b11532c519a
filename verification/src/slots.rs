//! The fixed layout of the platform function table and platform data area
//! that native extension code reaches through guest addresses.
use crate::error::{Error, is_arm_fault};
use crate::memory::{GuestAddr, GuestMemory, address_overflow_text, store_matches};
use crate::text::{decimal, dec_text};
use vstd::prelude::*;
use vstd::string::*;

verus! {

pub const PLATFORM_TABLE: u32 = 0x0100_0000;

pub const PLATFORM_DATA: u32 = 0x0100_1000;

pub const BITMAP_ARRAY_DATA: u32 = 0x0100_2000;

pub const TILE_ARRAY_DATA: u32 = 0x0100_4000;

pub const MAP_ARRAY_DATA: u32 = 0x0100_6000;

pub const SOUND_ARRAY_DATA: u32 = 0x0100_8000;

pub const SPRITE_ARRAY_DATA: u32 = 0x0100_a000;

pub const SMS_CONFIG_DATA: u32 = 0x0100_c000;

pub const START_FILE_PARAMETER_DATA: u32 = 0x0100_d000;

pub const PACKAGE_NAME_DATA: u32 = 0x0100_1400;

pub const START_NAME_DATA: u32 = 0x0100_1500;

pub const PREVIOUS_PACKAGE_NAME_DATA: u32 = 0x0100_1600;

pub const PREVIOUS_START_NAME_DATA: u32 = 0x0100_1700;

pub const CURRENT_ENTRY_DATA: u32 = 0x0100_1800;

/// Calls to addresses from here on trap into platform services.
pub const TRAP_BASE: u32 = 0xff00_0000;

pub const PLATFORM_SLOT_COUNT: u32 = 150;

/// The platform slot a trap address names: a word-aligned address within
/// the slot table that starts at `TRAP_BASE`.
pub open spec fn trap_slot_spec(address: u32) -> Option<u32> {
    if address >= TRAP_BASE && (address - TRAP_BASE) % 4 == 0 && (address - TRAP_BASE) / 4
        < PLATFORM_SLOT_COUNT {
        Some(((address - TRAP_BASE) / 4) as u32)
    } else {
        None
    }
}

/// The platform slot of a trap address.
pub fn trap_slot(address: u32) -> (r: Option<u32>)
    ensures
        r == trap_slot_spec(address),
{
    let offset = match address.checked_sub(TRAP_BASE) {
        Some(o) => o,
        None => return None,
    };
    if offset % 4 == 0 && offset / 4 < PLATFORM_SLOT_COUNT {
        Some(offset / 4)
    } else {
        None
    }
}

/// Every slot has a trap address that names it, and nothing else does.
pub proof fn lemma_trap_slot_round_trip(slot: u32)
    requires
        slot < PLATFORM_SLOT_COUNT,
    ensures
        trap_slot_spec((TRAP_BASE + slot * 4) as u32) == Some(slot),
{
}

/// The word of the platform data area that belongs to `slot`.
pub fn data_slot_address(slot: u32) -> (r: GuestAddr)
    requires
        slot < PLATFORM_SLOT_COUNT,
    ensures
        r == GuestAddr((PLATFORM_DATA + slot * 4) as u32),
{
    GuestAddr(PLATFORM_DATA + slot * 4)
}

/// The word of the platform function table that belongs to `slot`.
pub fn table_slot_address(slot: u32) -> (r: GuestAddr)
    requires
        slot < PLATFORM_SLOT_COUNT,
    ensures
        r == GuestAddr((PLATFORM_TABLE + slot * 4) as u32),
{
    GuestAddr(PLATFORM_TABLE + slot * 4)
}

pub open spec fn backing_address_spec(slot: u32) -> u32 {
    if slot == 95 {
        BITMAP_ARRAY_DATA
    } else if slot == 96 {
        TILE_ARRAY_DATA
    } else if slot == 97 {
        MAP_ARRAY_DATA
    } else if slot == 98 {
        SOUND_ARRAY_DATA
    } else if slot == 99 {
        SPRITE_ARRAY_DATA
    } else if slot == 100 {
        PACKAGE_NAME_DATA
    } else if slot == 101 {
        START_NAME_DATA
    } else if slot == 102 {
        PREVIOUS_PACKAGE_NAME_DATA
    } else if slot == 103 {
        PREVIOUS_START_NAME_DATA
    } else if slot == 112 {
        SMS_CONFIG_DATA
    } else if slot == 138 {
        START_FILE_PARAMETER_DATA
    } else if slot == 144 {
        CURRENT_ENTRY_DATA
    } else {
        (PLATFORM_DATA + slot * 4) as u32
    }
}

/// Where the value a data slot points at is stored: a dedicated area for the
/// resource arrays, names and parameters, else the slot's own data word.
pub fn platform_data_slot_backing_address(slot: u32) -> (r: GuestAddr)
    requires
        slot < PLATFORM_SLOT_COUNT,
    ensures
        r == GuestAddr(backing_address_spec(slot)),
{
    match slot {
        95 => GuestAddr(BITMAP_ARRAY_DATA),
        96 => GuestAddr(TILE_ARRAY_DATA),
        97 => GuestAddr(MAP_ARRAY_DATA),
        98 => GuestAddr(SOUND_ARRAY_DATA),
        99 => GuestAddr(SPRITE_ARRAY_DATA),
        100 => GuestAddr(PACKAGE_NAME_DATA),
        101 => GuestAddr(START_NAME_DATA),
        102 => GuestAddr(PREVIOUS_PACKAGE_NAME_DATA),
        103 => GuestAddr(PREVIOUS_START_NAME_DATA),
        112 => GuestAddr(SMS_CONFIG_DATA),
        138 => GuestAddr(START_FILE_PARAMETER_DATA),
        144 => GuestAddr(CURRENT_ENTRY_DATA),
        _ => data_slot_address(slot),
    }
}

/// The guest-visible result of a native file open: the handle, or zero
/// (a NULL-style handle) for a failure.
pub fn native_file_open_result(result: i32) -> (r: u32)
    ensures
        r == (if result >= 0 {
            result as u32
        } else {
            0u32
        }),
{
    if result >= 0 {
        return result as u32;
    }
    0
}

pub open spec fn is_function_slot_spec(slot: u32) -> bool {
    ||| slot <= 20
    ||| slot == 22
    ||| 25 <= slot <= 65
    ||| 67 <= slot <= 90
    ||| 113 <= slot <= 134
    ||| slot == 137
    ||| slot == 141
    ||| slot == 145
    ||| 147 <= slot <= 148
}

pub open spec fn is_data_slot_spec(slot: u32) -> bool {
    ||| 91 <= slot <= 112
    ||| 135 <= slot <= 136
    ||| 138 <= slot <= 140
    ||| 142 <= slot <= 144
    ||| slot == 146
}

/// Whether `slot` holds a trap address of a platform function.
pub fn is_function_slot(slot: u32) -> (r: bool)
    ensures
        r == is_function_slot_spec(slot),
{
    slot <= 20 || slot == 22 || (25 <= slot && slot <= 65) || (67 <= slot && slot <= 90) || (113
        <= slot && slot <= 134) || slot == 137 || slot == 141 || slot == 145 || (147 <= slot
        && slot <= 148)
}

/// Whether `slot` holds the address of platform data.
pub fn is_data_slot(slot: u32) -> (r: bool)
    ensures
        r == is_data_slot_spec(slot),
{
    (91 <= slot && slot <= 112) || (135 <= slot && slot <= 136) || (138 <= slot && slot <= 140) || (
    142 <= slot && slot <= 144) || slot == 146
}

/// No slot is both a function slot and a data slot.
pub proof fn lemma_slot_kinds_disjoint(slot: u32)
    ensures
        !(is_function_slot_spec(slot) && is_data_slot_spec(slot)),
{
}

/// The message of a platform string that does not fit its 256-byte area.
pub open spec fn long_string_text(len: nat) -> Seq<char> {
    "platform string contains "@ + dec_text(len) + " bytes (limit 255)"@
}

/// Stores `value` followed by a terminating zero at `address`.  A string of
/// 256 bytes or more is refused with an ABI error and nothing is written.
pub fn write_platform_string(memory: &mut GuestMemory, address: GuestAddr, value: &[u8]) -> (r:
    Result<(), Error>)
    requires
        old(memory).wf(),
    ensures
        final(memory).wf(),
        value@.len() >= 256 ==> (r matches Err(Error::Abi(m)) && m@ == long_string_text(
            value@.len(),
        )) && final(memory)@ == old(memory)@,
        value@.len() < 256 ==> match old(memory)@.store(address.0, value@) {
            Err(t) => is_arm_fault(r, t) && final(memory)@ == old(memory)@,
            Ok(m1) => if address.0 + value@.len() > u32::MAX {
                is_arm_fault(r, address_overflow_text(address.0, value@.len() as u32))
                    && final(memory)@ == m1
            } else {
                store_matches(r, m1, final(memory)@, m1.write_u8((address.0 + value@.len()) as u32, 0))
            },
        },
{
    if value.len() >= 256 {
        let m = String::from_str("platform string contains ").concat(
            decimal(value.len() as u64).as_str(),
        ).concat(" bytes (limit 255)");
        return Err(Error::Abi(m));
    }
    match memory.write(address, value) {
        Ok(()) => {},
        Err(e) => return Err(e),
    }
    let end = match address.checked_add(value.len() as u32) {
        Ok(end) => end,
        Err(e) => return Err(e),
    };
    memory.write_u8(end, 0)
}

} // verus!
