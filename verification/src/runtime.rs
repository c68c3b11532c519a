//! The runtime's own state beside guest memory: starting a runtime, the
//! exit, timer and motion state, and the lifecycle request the guest leaves.
use crate::address_space::{address_space_spec, lemma_fresh_address_space, new_guest_address_space};
use crate::dns::DnsMapping;
use crate::error::Error;
use crate::exec_range::ExecutableRange;
use crate::guest_strings::{c_string_from, fault_matches, read_c_string, GuestFault};
use crate::heap_io::GuestHeapSnapshot;
use crate::heap_setup::{data_word, write_all, write_words};
use crate::layout::{GuestLayout, MAX_GUEST_HEAP_LEN, SCREEN_STAGING_CAPACITY};
use crate::md5_service::lemma_accessible_part;
use crate::memory::{
    address_overflow_text, lemma_stored_accessible, lemma_stored_layout, matches_spec, Access, GuestAddr, GuestMemory,
    MemView,
};
use crate::output_claim::OwnershipTables;
use crate::slots::{
    long_string_text, table_slot_address, write_platform_string, CURRENT_ENTRY_DATA, PACKAGE_NAME_DATA,
    PLATFORM_DATA, PLATFORM_TABLE, PREVIOUS_PACKAGE_NAME_DATA, PREVIOUS_START_NAME_DATA, START_NAME_DATA,
};
use vstd::prelude::*;

verus! {

/// The internal table, the firmware slots and the runtime profile.
pub const INTERNAL_TABLE_DATA: u32 = 0x0100_1900;
pub const FIRMWARE_SLOT_DATA: u32 = 0x0100_1b00;
pub const PLATFORM_RUNTIME_PROFILE_DATA: u32 = 0x0100_1b80;

/// The SIM information, the storage figures and the storage drive name.
pub const PLATFORM_SIM_INFO_DATA: u32 = 0x0100_1a00;
pub const PLATFORM_STORAGE_INFO_DATA: u32 = 0x0100_1a10;
pub const PLATFORM_STORAGE_DRIVE_DATA: u32 = 0x0100_1a20;

/// Storage blocks: their size, how many are free and how many there are.
pub const PLATFORM_STORAGE_BLOCK_SIZE: u32 = 0x1000;
pub const PLATFORM_STORAGE_AVAILABLE_BLOCKS: u32 = 0x8000;
pub const PLATFORM_STORAGE_TOTAL_BLOCKS: u32 = 0x1_0000;

/// The screen's entry in the bitmap table: bitmap 30, 16 bytes an entry.
pub const SCREEN_BITMAP_ENTRY: u32 = 0x0100_2000 + 30 * 16;

/// The application state word, the lifecycle callback pointer and the
/// timer-active word.
pub const APPLICATION_STATE_DATA: u32 = 0x0100_1980;
pub const LIFECYCLE_CALLBACK_DATA: u32 = 0x0100_1984;
pub const TIMER_ACTIVE_DATA: u32 = 0x0100_1988;

/// Application states: running normally, and a restart asked for.
pub const APPLICATION_STATE_NORMAL: u32 = 1;
pub const APPLICATION_STATE_RESTART_PENDING: u32 = 3;

/// What the runtime keeps beside guest memory.
pub struct RuntimeTables {
    /// The guest asked to exit.
    pub exit_requested: bool,
    /// The delay, in milliseconds, the guest timer was armed with; `None`
    /// while no timer is armed. The host counts the time since arming.
    pub timer_delay_ms: Option<u32>,
    /// A pointer motion is being tracked.
    pub motion_active: bool,
    /// The layout the runtime was started with.
    pub layout: GuestLayout,
    /// The state of the guest's random numbers.
    pub random_state: u32,
    /// The memory modules own and the allocations the host tracks.
    pub ownership: OwnershipTables,
    /// The free list as the host last wrote it.
    pub snapshot: Option<GuestHeapSnapshot>,
    /// Ranges whose execute rights the host must withdraw.
    pub pending_revocations: Vec<ExecutableRange>,
    /// Host names and addresses mapped to other endpoints.
    pub dns_mappings: Vec<DnsMapping>,
    /// The in-process proxy that takes the WAP gateway's connections.
    pub wap_proxy: Option<([u8; 4], u16)>,
}

impl RuntimeTables {
    /// The heap the runtime was started with is at most 16 MiB, and tracked
    /// allocation lengths are 32-bit values.
    pub open spec fn wf(&self) -> bool {
        self.layout.heap_len <= MAX_GUEST_HEAP_LEN && self.ownership.wf()
    }

    /// Whether a pointer motion is being tracked.
    pub fn motion_active(&self) -> (r: bool)
        ensures
            r == self.motion_active,
    {
        self.motion_active
    }

    /// The delay the armed timer was set with, if one is armed.
    pub fn timer_due_in(&self) -> (r: Option<u32>)
        ensures
            r == self.timer_delay_ms,
    {
        self.timer_delay_ms
    }
}

/// Storing a platform string: `value` and a terminating zero at `address`,
/// refused from 256 bytes on.
pub open spec fn string_written(m: MemView, address: u32, value: Seq<u8>) -> Result<MemView, GuestFault> {
    if value.len() >= 256 {
        Err(GuestFault::Abi(long_string_text(value.len())))
    } else {
        match m.store(address, value) {
            Err(t) => Err(GuestFault::Arm(t)),
            Ok(m1) => if address + value.len() > u32::MAX {
                Err(GuestFault::Arm(address_overflow_text(address, value.len() as u32)))
            } else {
                match m1.write_u8((address + value.len()) as u32, 0) {
                    Err(t) => Err(GuestFault::Arm(t)),
                    Ok(m2) => Ok(m2),
                }
            },
        }
    }
}

fn put_string(memory: &mut GuestMemory, address: u32, value: &[u8]) -> (r: Result<(), Error>)
    requires
        old(memory).wf(),
    ensures
        final(memory).wf(),
        match string_written(old(memory)@, address, value@) {
            Ok(m) => r is Ok && final(memory)@ == m,
            Err(f) => fault_matches(r, f),
        },
{
    write_platform_string(memory, GuestAddr(address), value)
}

/// The words a runtime's records start with, for layout `l` and a
/// `width` x `height` screen: the internal table (pointing at the firmware
/// slots, the application state twice, the lifecycle callback and the
/// timer-active word), the zeroed firmware slots and runtime profile, the
/// application state, data slots 91 to 94 (screen base, width, height, 16
/// bits a pixel), the screen's bitmap entry (width and height, byte length,
/// zero, base), data slots 106 and 107, the zeroed SIM information, the
/// storage figures and the drive name `C:/mythroad/`.
pub open spec fn record_words(l: GuestLayout, width: u16, height: u16) -> Seq<(u32, u32)> {
    seq![
        ((PLATFORM_TABLE + 23 * 4) as u32, INTERNAL_TABLE_DATA),
        (INTERNAL_TABLE_DATA, FIRMWARE_SLOT_DATA),
    ] + Seq::new(26, |i: int| ((FIRMWARE_SLOT_DATA + i * 4) as u32, 0u32)) + seq![
        (PLATFORM_RUNTIME_PROFILE_DATA, 0u32),
        ((PLATFORM_RUNTIME_PROFILE_DATA + 4) as u32, 0u32),
        ((PLATFORM_RUNTIME_PROFILE_DATA + 8) as u32, 0u32),
        ((INTERNAL_TABLE_DATA + 8) as u32, APPLICATION_STATE_DATA),
        ((INTERNAL_TABLE_DATA + 44) as u32, APPLICATION_STATE_DATA),
        ((INTERNAL_TABLE_DATA + 16) as u32, LIFECYCLE_CALLBACK_DATA),
        ((INTERNAL_TABLE_DATA + 20) as u32, TIMER_ACTIVE_DATA),
        (APPLICATION_STATE_DATA, APPLICATION_STATE_NORMAL),
        (data_word(91), l.screen_base),
        (data_word(92), width as u32),
        (data_word(93), height as u32),
        (data_word(94), 16u32),
        (SCREEN_BITMAP_ENTRY, (width as u32) | ((height as u32) << 16u32)),
        ((SCREEN_BITMAP_ENTRY + 4) as u32, l.screen_len as u32),
        ((SCREEN_BITMAP_ENTRY + 8) as u32, 0u32),
        ((SCREEN_BITMAP_ENTRY + 12) as u32, l.screen_base),
        (data_word(106), 1u32),
        (data_word(107), 1u32),
        (PLATFORM_SIM_INFO_DATA, 0u32),
        ((PLATFORM_SIM_INFO_DATA + 4) as u32, 0u32),
        ((PLATFORM_SIM_INFO_DATA + 8) as u32, 0u32),
        (PLATFORM_STORAGE_INFO_DATA, PLATFORM_STORAGE_TOTAL_BLOCKS),
        ((PLATFORM_STORAGE_INFO_DATA + 4) as u32, PLATFORM_STORAGE_BLOCK_SIZE),
        ((PLATFORM_STORAGE_INFO_DATA + 8) as u32, PLATFORM_STORAGE_BLOCK_SIZE),
        ((PLATFORM_STORAGE_INFO_DATA + 12) as u32, PLATFORM_STORAGE_AVAILABLE_BLOCKS),
        (PLATFORM_STORAGE_DRIVE_DATA, 0x6d2f_3a43u32),
        ((PLATFORM_STORAGE_DRIVE_DATA + 4) as u32, 0x7268_7479u32),
        ((PLATFORM_STORAGE_DRIVE_DATA + 8) as u32, 0x2f64_616fu32),
    ]
}

pub open spec fn screen_too_large_text() -> Seq<char> {
    "guest screen buffer size exceeds u32"@
}

/// The memory of a runtime just started, or the first fault: the address
/// space, then the package name, the entry name, empty previous names, the
/// current entry, and the record words (`record_words`).
pub open spec fn runtime_memory_spec(
    screen_width: u16,
    screen_height: u16,
    package: Seq<u8>,
    entry: Seq<u8>,
    heap_len: u32,
) -> Result<(MemView, GuestLayout), GuestFault> {
    match address_space_spec(screen_width, screen_height, heap_len) {
        Err(f) => Err(f),
        Ok((m0, l)) => match string_written(m0, PACKAGE_NAME_DATA, package) {
            Err(f) => Err(f),
            Ok(m1) => match string_written(m1, START_NAME_DATA, entry) {
                Err(f) => Err(f),
                Ok(m2) => match string_written(m2, PREVIOUS_PACKAGE_NAME_DATA, Seq::empty()) {
                    Err(f) => Err(f),
                    Ok(m3) => match string_written(m3, PREVIOUS_START_NAME_DATA, Seq::empty()) {
                        Err(f) => Err(f),
                        Ok(m4) => match string_written(m4, CURRENT_ENTRY_DATA, entry) {
                            Err(f) => Err(f),
                            Ok(m5) => if l.screen_len > u32::MAX {
                                Err(GuestFault::Arm(screen_too_large_text()))
                            } else {
                                match write_all(m5, record_words(l, screen_width, screen_height)) {
                                    (m6, None) => Ok((m6, l)),
                                    (_, Some(t)) => Err(GuestFault::Arm(t)),
                                }
                            },
                        },
                    },
                },
            },
        },
    }
}

/// Starts a runtime for a `screen_width` x `screen_height` screen, the
/// package and entry names and a heap of `heap_len` bytes: its memory as
/// `runtime_memory_spec` gives it (a name of 256 bytes or more is refused
/// with an ABI error), with no exit asked for, no timer armed, no motion
/// tracked, the random state at 1, empty ownership tables, no free-list
/// snapshot, nothing to revoke, no DNS mappings and no proxy.
pub fn new_runtime(
    screen_width: u16,
    screen_height: u16,
    package_name: &[u8],
    entry_name: &[u8],
    heap_len: u32,
) -> (r: Result<(GuestMemory, RuntimeTables), Error>)
    ensures
        match runtime_memory_spec(screen_width, screen_height, package_name@, entry_name@, heap_len) {
            Err(f) => fault_matches(r, f),
            Ok((m, l)) => r matches Ok((mem, rt)) && {
                &&& mem.wf()
                &&& mem@ == m
                &&& rt.layout == l
                &&& rt.wf()
                &&& !rt.exit_requested
                &&& rt.timer_delay_ms is None
                &&& !rt.motion_active
                &&& rt.random_state == 1
                &&& rt.ownership@.allocations.len() == 0
                &&& rt.ownership@.detached.len() == 0
                &&& rt.ownership@.arenas.len() == 0
                &&& rt.ownership@.views.len() == 0
                &&& rt.ownership@.native_window_owner is None
                &&& rt.snapshot is None
                &&& rt.pending_revocations@.len() == 0
                &&& rt.dns_mappings@.len() == 0
                &&& rt.wap_proxy is None
            },
        },
{
    let (mut memory, layout) = match new_guest_address_space(screen_width, screen_height, heap_len) {
        Ok(v) => v,
        Err(e) => return Err(e),
    };
    let empty: [u8; 0] = [];
    assert(empty@ =~= Seq::<u8>::empty());
    match put_string(&mut memory, PACKAGE_NAME_DATA, package_name) {
        Ok(()) => {},
        Err(e) => return Err(e),
    }
    match put_string(&mut memory, START_NAME_DATA, entry_name) {
        Ok(()) => {},
        Err(e) => return Err(e),
    }
    match put_string(&mut memory, PREVIOUS_PACKAGE_NAME_DATA, &empty) {
        Ok(()) => {},
        Err(e) => return Err(e),
    }
    match put_string(&mut memory, PREVIOUS_START_NAME_DATA, &empty) {
        Ok(()) => {},
        Err(e) => return Err(e),
    }
    match put_string(&mut memory, CURRENT_ENTRY_DATA, entry_name) {
        Ok(()) => {},
        Err(e) => return Err(e),
    }
    if layout.screen_len > 0xffff_ffff {
        return Err(Error::ArmFault(String::from_str("guest screen buffer size exceeds u32")));
    }
    let w = screen_width as u32;
    let h = screen_height as u32;
    let mut words: Vec<(u32, u32)> = vec![(PLATFORM_TABLE + 23 * 4, INTERNAL_TABLE_DATA), (INTERNAL_TABLE_DATA, FIRMWARE_SLOT_DATA)];
    let mut i: u32 = 0;
    while i < 26
        invariant
            i <= 26,
            words@ == seq![
                ((PLATFORM_TABLE + 23 * 4) as u32, INTERNAL_TABLE_DATA),
                (INTERNAL_TABLE_DATA, FIRMWARE_SLOT_DATA),
            ] + Seq::new(i as nat, |k: int| ((FIRMWARE_SLOT_DATA + k * 4) as u32, 0u32)),
        decreases 26 - i,
    {
        words.push((FIRMWARE_SLOT_DATA + i * 4, 0));
        i = i + 1;
        assert(words@ =~= seq![
            ((PLATFORM_TABLE + 23 * 4) as u32, INTERNAL_TABLE_DATA),
            (INTERNAL_TABLE_DATA, FIRMWARE_SLOT_DATA),
        ] + Seq::new(i as nat, |k: int| ((FIRMWARE_SLOT_DATA + k * 4) as u32, 0u32)));
    }
    let ghost head = words@;
    let tail: Vec<(u32, u32)> = vec![
        (PLATFORM_RUNTIME_PROFILE_DATA, 0),
        (PLATFORM_RUNTIME_PROFILE_DATA + 4, 0),
        (PLATFORM_RUNTIME_PROFILE_DATA + 8, 0),
        (INTERNAL_TABLE_DATA + 8, APPLICATION_STATE_DATA),
        (INTERNAL_TABLE_DATA + 44, APPLICATION_STATE_DATA),
        (INTERNAL_TABLE_DATA + 16, LIFECYCLE_CALLBACK_DATA),
        (INTERNAL_TABLE_DATA + 20, TIMER_ACTIVE_DATA),
        (APPLICATION_STATE_DATA, APPLICATION_STATE_NORMAL),
        (PLATFORM_DATA + 91 * 4, layout.screen_base),
        (PLATFORM_DATA + 92 * 4, w),
        (PLATFORM_DATA + 93 * 4, h),
        (PLATFORM_DATA + 94 * 4, 16),
        (SCREEN_BITMAP_ENTRY, w | (h << 16u32)),
        (SCREEN_BITMAP_ENTRY + 4, layout.screen_len as u32),
        (SCREEN_BITMAP_ENTRY + 8, 0),
        (SCREEN_BITMAP_ENTRY + 12, layout.screen_base),
        (PLATFORM_DATA + 106 * 4, 1),
        (PLATFORM_DATA + 107 * 4, 1),
        (PLATFORM_SIM_INFO_DATA, 0),
        (PLATFORM_SIM_INFO_DATA + 4, 0),
        (PLATFORM_SIM_INFO_DATA + 8, 0),
        (PLATFORM_STORAGE_INFO_DATA, PLATFORM_STORAGE_TOTAL_BLOCKS),
        (PLATFORM_STORAGE_INFO_DATA + 4, PLATFORM_STORAGE_BLOCK_SIZE),
        (PLATFORM_STORAGE_INFO_DATA + 8, PLATFORM_STORAGE_BLOCK_SIZE),
        (PLATFORM_STORAGE_INFO_DATA + 12, PLATFORM_STORAGE_AVAILABLE_BLOCKS),
        (PLATFORM_STORAGE_DRIVE_DATA, 0x6d2f_3a43),
        (PLATFORM_STORAGE_DRIVE_DATA + 4, 0x7268_7479),
        (PLATFORM_STORAGE_DRIVE_DATA + 8, 0x2f64_616f),
    ];
    let ghost tail_view = tail@;
    let mut j: usize = 0;
    while j < tail.len()
        invariant
            j <= tail.len(),
            tail@ == tail_view,
            words@ == head + tail_view.subrange(0, j as int),
        decreases tail.len() - j,
    {
        words.push(tail[j]);
        j = j + 1;
        assert(words@ =~= head + tail_view.subrange(0, j as int));
    }
    assert(words@ =~= record_words(layout, screen_width, screen_height));
    match write_words(&mut memory, words.as_slice()) {
        Ok(()) => {},
        Err(e) => return Err(e),
    }
    Ok((
        memory,
        RuntimeTables {
            exit_requested: false,
            timer_delay_ms: None,
            motion_active: false,
            layout,
            random_state: 1,
            ownership: OwnershipTables {
                allocations: Vec::new(),
                detached: Vec::new(),
                arenas: Vec::new(),
                views: Vec::new(),
                native_window_owner: None,
            },
            snapshot: None,
            pending_revocations: Vec::new(),
            dns_mappings: Vec::new(),
            wap_proxy: None,
        },
    ))
}

/// What the guest asks of the runtime's lifecycle.
pub enum LifecycleRequest {
    /// The guest asked to exit.
    Exit,
    /// The guest asked to restart into `entry` of `package`.
    Restart { package: Vec<u8>, entry: Vec<u8> },
}

/// A lifecycle request as values.
pub enum LifecycleView {
    Exit,
    Restart { package: Seq<u8>, entry: Seq<u8> },
}

/// The string a platform table slot points at: empty for a null pointer.
pub open spec fn slot_string(m: MemView, slot: u32) -> Result<Seq<u8>, GuestFault> {
    match m.read_u32((PLATFORM_TABLE + slot * 4) as u32) {
        Err(t) => Err(GuestFault::Arm(t)),
        Ok(a) => if a == 0 {
            Ok(Seq::empty())
        } else {
            c_string_from(m, a, 0, 1024)
        },
    }
}

/// The callback string the lifecycle pointer names: empty for a null pointer.
pub open spec fn callback_string(m: MemView) -> Result<Seq<u8>, GuestFault> {
    match m.read_u32(LIFECYCLE_CALLBACK_DATA) {
        Err(t) => Err(GuestFault::Arm(t)),
        Ok(a) => if a == 0 {
            Ok(Seq::empty())
        } else {
            c_string_from(m, a, 0, 256)
        },
    }
}

/// The bytes of `restart`.
pub open spec fn restart_bytes() -> Seq<u8> {
    seq![114u8, 101u8, 115u8, 116u8, 97u8, 114u8, 116u8]
}

pub open spec fn empty_restart_text(application: u32) -> Seq<char> {
    "restart request has empty package or entry (application state "@ + crate::text::dec_text(
        application as nat,
    ) + ")"@
}

/// The lifecycle request: an exit asked for; otherwise none unless the
/// application state says a restart is pending and the callback is
/// `restart`, when the package and entry named in slots 100 and 101 are
/// where to restart (both must be non-empty). The state, the callback and
/// both names are read before the callback is compared.
pub open spec fn lifecycle_spec(exit_requested: bool, m: MemView) -> Result<Option<LifecycleView>, GuestFault> {
    if exit_requested {
        Ok(Some(LifecycleView::Exit))
    } else {
        match m.read_u32(APPLICATION_STATE_DATA) {
            Err(t) => Err(GuestFault::Arm(t)),
            Ok(state) => if state != APPLICATION_STATE_RESTART_PENDING {
                Ok(None)
            } else {
                match m.read_u32(APPLICATION_STATE_DATA) {
                    Err(t) => Err(GuestFault::Arm(t)),
                    Ok(application) => match callback_string(m) {
                        Err(f) => Err(f),
                        Ok(callback) => match slot_string(m, 100) {
                            Err(f) => Err(f),
                            Ok(package) => match slot_string(m, 101) {
                                Err(f) => Err(f),
                                Ok(entry) => if callback != restart_bytes() {
                                    Ok(None)
                                } else if package.len() == 0 || entry.len() == 0 {
                                    Err(GuestFault::Abi(empty_restart_text(application)))
                                } else {
                                    Ok(Some(LifecycleView::Restart { package, entry }))
                                },
                            },
                        },
                    },
                }
            },
        }
    }
}

/// `r` is what `s` says.
pub open spec fn lifecycle_matches(r: Result<Option<LifecycleRequest>, Error>, s: Result<Option<LifecycleView>, GuestFault>) -> bool {
    match s {
        Err(f) => fault_matches(r, f),
        Ok(None) => r matches Ok(None),
        Ok(Some(LifecycleView::Exit)) => r matches Ok(Some(LifecycleRequest::Exit)),
        Ok(Some(LifecycleView::Restart { package, entry })) => r matches Ok(
            Some(LifecycleRequest::Restart { package: p, entry: e }),
        ) && p@ == package && e@ == entry,
    }
}

fn read_word(memory: &GuestMemory, address: u32) -> (r: Result<u32, Error>)
    requires
        memory.wf(),
    ensures
        matches_spec(r, memory@.read_u32(address)),
{
    memory.read_u32(GuestAddr(address))
}

fn read_slot_string(memory: &GuestMemory, slot: u32) -> (r: Result<Vec<u8>, Error>)
    requires
        memory.wf(),
        slot < 150,
    ensures
        match slot_string(memory@, slot) {
            Ok(s) => r matches Ok(v) && v@ == s,
            Err(f) => fault_matches(r, f),
        },
{
    let address = match memory.read_u32(table_slot_address(slot)) {
        Ok(a) => a,
        Err(e) => return Err(e),
    };
    if address == 0 {
        Ok(Vec::new())
    } else {
        read_c_string(memory, GuestAddr(address), 1024)
    }
}

fn read_callback(memory: &GuestMemory) -> (r: Result<Vec<u8>, Error>)
    requires
        memory.wf(),
    ensures
        match callback_string(memory@) {
            Ok(s) => r matches Ok(v) && v@ == s,
            Err(f) => fault_matches(r, f),
        },
{
    let address = match read_word(memory, LIFECYCLE_CALLBACK_DATA) {
        Ok(a) => a,
        Err(e) => return Err(e),
    };
    if address == 0 {
        Ok(Vec::new())
    } else {
        read_c_string(memory, GuestAddr(address), 256)
    }
}

/// The lifecycle request the guest has left, as `lifecycle_spec` says.
pub fn lifecycle_request(runtime: &RuntimeTables, memory: &GuestMemory) -> (r: Result<
    Option<LifecycleRequest>,
    Error,
>)
    requires
        memory.wf(),
    ensures
        lifecycle_matches(r, lifecycle_spec(runtime.exit_requested, memory@)),
{
    if runtime.exit_requested {
        return Ok(Some(LifecycleRequest::Exit));
    }
    let state = match read_word(memory, APPLICATION_STATE_DATA) {
        Ok(s) => s,
        Err(e) => return Err(e),
    };
    if state != APPLICATION_STATE_RESTART_PENDING {
        return Ok(None);
    }
    let application = match read_word(memory, APPLICATION_STATE_DATA) {
        Ok(s) => s,
        Err(e) => return Err(e),
    };
    let callback = match read_callback(memory) {
        Ok(c) => c,
        Err(e) => return Err(e),
    };
    let package = match read_slot_string(memory, 100) {
        Ok(p) => p,
        Err(e) => return Err(e),
    };
    let entry = match read_slot_string(memory, 101) {
        Ok(p) => p,
        Err(e) => return Err(e),
    };
    let restart: [u8; 7] = [114, 101, 115, 116, 97, 114, 116];
    assert(restart@ =~= restart_bytes());
    if !crate::parse::bytes_equal(callback.as_slice(), &restart) {
        return Ok(None);
    }
    if package.len() == 0 || entry.len() == 0 {
        let m = crate::text::join3(
            "restart request has empty package or entry (application state ",
            crate::text::decimal(application as u64).as_str(),
            ")",
        );
        proof {
            assert(m@ =~= empty_restart_text(application));
        }
        return Err(Error::Abi(m));
    }
    Ok(Some(LifecycleRequest::Restart { package, entry }))
}

/// A word inside the platform table page, the platform data page or the
/// bitmap array page.
pub open spec fn in_pages(a: u32) -> bool {
    ||| (0x0100_0000 <= a && a + 4 <= 0x0100_1000)
    ||| (0x0100_1000 <= a && a + 4 <= 0x0100_2000)
    ||| (0x0100_2000 <= a && a + 4 <= 0x0100_3000)
}

proof fn lemma_record_words_in_pages(l: GuestLayout, width: u16, height: u16)
    ensures
        forall|i: int|
            0 <= i < record_words(l, width, height).len() ==> in_pages(#[trigger] record_words(l, width, height)[i].0),
{
    let w = record_words(l, width, height);
    assert(w.len() == 56);
    assert forall|i: int| 0 <= i < w.len() implies in_pages(#[trigger] w[i].0) by {
        if i < 2 {
        } else if 2 <= i < 28 {
        } else if i == 28 {
        } else if i == 29 {
        } else if i == 30 {
        } else if i == 31 {
        } else if i == 32 {
        } else if i == 33 {
        } else if i == 34 {
        } else if i == 35 {
        } else if i == 36 {
        } else if i == 37 {
        } else if i == 38 {
        } else if i == 39 {
        } else if i == 40 {
        } else if i == 41 {
        } else if i == 42 {
        } else if i == 43 {
        } else if i == 44 {
        } else if i == 45 {
        } else if i == 46 {
        } else if i == 47 {
        } else if i == 48 {
        } else if i == 49 {
        } else if i == 50 {
        } else if i == 51 {
        } else if i == 52 {
        } else if i == 53 {
        } else if i == 54 {
        } else if i == 55 {
        } else {
        }
    }
}

proof fn lemma_string_ok(m: MemView, address: u32, value: Seq<u8>)
    requires
        m.wf(),
        value.len() < 256,
        address + 256 <= u32::MAX,
        m.accessible(address as int, 256, Access::Write),
    ensures
        string_written(m, address, value) matches Ok(m2) && m2.wf() && forall|b: int, n: int, kind: Access|
            #[trigger] m.accessible(b, n, kind) ==> m2.accessible(b, n, kind),
{
    lemma_accessible_part(m, address as int, 256, Access::Write, 0, value.len() as int);
    lemma_accessible_part(m, address as int, 256, Access::Write, value.len() as int, 1);
    assert(address + 0 == address);
    assert(m.store(address, value) is Ok);
    let m1 = m.stored(address as int, value);
    lemma_stored_layout(m, address as int, value);
    assert forall|b: int, n: int, kind: Access| #[trigger] m.accessible(b, n, kind) implies m1.accessible(b, n, kind) by {
        lemma_stored_accessible(m, address as int, value, b, n, kind);
    }
    let e = (address + value.len()) as u32;
    assert(m1.accessible(e as int, 1, Access::Write));
    assert(m1.write_u8(e, 0) is Ok);
    let m2 = m1.write_u8(e, 0)->Ok_0;
    assert(m2 == m1.stored(e as int, seq![0u8]));
    lemma_stored_layout(m1, e as int, seq![0u8]);
    assert forall|b: int, n: int, kind: Access| #[trigger] m.accessible(b, n, kind) implies m2.accessible(b, n, kind) by {
        lemma_stored_accessible(m1, e as int, seq![0u8], b, n, kind);
    }
}

/// Starting a runtime with a screen of at most 1 MiB succeeds exactly when
/// the heap is 1 byte to 16 MiB and both names are shorter than 256 bytes;
/// a name that is too long is refused with its ABI error, the package name
/// first.
pub proof fn lemma_new_runtime_outcome(
    screen_width: u16,
    screen_height: u16,
    package: Seq<u8>,
    entry: Seq<u8>,
    heap_len: u32,
)
    requires
        screen_width * screen_height * 2 <= SCREEN_STAGING_CAPACITY,
    ensures
        runtime_memory_spec(screen_width, screen_height, package, entry, heap_len) is Ok <==> (1 <= heap_len
            <= MAX_GUEST_HEAP_LEN && package.len() < 256 && entry.len() < 256),
        1 <= heap_len <= MAX_GUEST_HEAP_LEN && package.len() >= 256 ==> runtime_memory_spec(
            screen_width,
            screen_height,
            package,
            entry,
            heap_len,
        ) == Err::<(MemView, GuestLayout), GuestFault>(GuestFault::Abi(long_string_text(package.len()))),
        1 <= heap_len <= MAX_GUEST_HEAP_LEN && package.len() < 256 && entry.len() >= 256 ==> runtime_memory_spec(
            screen_width,
            screen_height,
            package,
            entry,
            heap_len,
        ) == Err::<(MemView, GuestLayout), GuestFault>(GuestFault::Abi(long_string_text(entry.len()))),
{
    if 1 <= heap_len <= MAX_GUEST_HEAP_LEN {
        lemma_fresh_address_space(screen_width, screen_height, heap_len);
        let (m0, l) = address_space_spec(screen_width, screen_height, heap_len)->Ok_0;
        lemma_accessible_part(m0, PLATFORM_DATA as int, 0x1000, Access::Write, 0x400, 256);
        if package.len() < 256 {
            lemma_string_ok(m0, PACKAGE_NAME_DATA, package);
            let m1 = string_written(m0, PACKAGE_NAME_DATA, package)->Ok_0;
            lemma_accessible_part(m0, PLATFORM_DATA as int, 0x1000, Access::Write, 0x500, 256);
            if entry.len() < 256 {
                lemma_string_ok(m1, START_NAME_DATA, entry);
                let m2 = string_written(m1, START_NAME_DATA, entry)->Ok_0;
                lemma_accessible_part(m0, PLATFORM_DATA as int, 0x1000, Access::Write, 0x600, 256);
                lemma_string_ok(m2, PREVIOUS_PACKAGE_NAME_DATA, Seq::empty());
                let m3 = string_written(m2, PREVIOUS_PACKAGE_NAME_DATA, Seq::empty())->Ok_0;
                lemma_accessible_part(m0, PLATFORM_DATA as int, 0x1000, Access::Write, 0x700, 256);
                lemma_string_ok(m3, PREVIOUS_START_NAME_DATA, Seq::empty());
                let m4 = string_written(m3, PREVIOUS_START_NAME_DATA, Seq::empty())->Ok_0;
                lemma_accessible_part(m0, PLATFORM_DATA as int, 0x1000, Access::Write, 0x800, 256);
                lemma_string_ok(m4, CURRENT_ENTRY_DATA, entry);
                let m5 = string_written(m4, CURRENT_ENTRY_DATA, entry)->Ok_0;
                assert(m5.accessible(PLATFORM_TABLE as int, 0x1000, Access::Write));
                assert(m5.accessible(PLATFORM_DATA as int, 0x1000, Access::Write));
                assert(m5.accessible(0x0100_2000, 0x1000, Access::Write));
                assert(l.screen_len <= u32::MAX);
                let words = record_words(l, screen_width, screen_height);
                lemma_record_words_in_pages(l, screen_width, screen_height);
                assert forall|i: int| 0 <= i < words.len() implies m5.accessible((#[trigger] words[i]).0 as int, 4, Access::Write) by {
                    let x = words[i].0;
                    if x < 0x0100_1000 {
                        lemma_accessible_part(m5, 0x0100_0000, 0x1000, Access::Write, x - 0x0100_0000, 4);
                    } else if x < 0x0100_2000 {
                        lemma_accessible_part(m5, 0x0100_1000, 0x1000, Access::Write, x - 0x0100_1000, 4);
                    } else {
                        lemma_accessible_part(m5, 0x0100_2000, 0x1000, Access::Write, x - 0x0100_2000, 4);
                    }
                }
                crate::heap_setup::lemma_write_all_succeeds(m5, words);
            }
        }
    }
}

} // verus!
