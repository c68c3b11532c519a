//! One platform-service trap over the runtime's state: the services that
//! act on guest memory, registers and the runtime tables run here (among
//! them `malloc`, the timer, the screen size, pixels, bitmap regions and
//! transformed bitmap copies, host-name resolution and connection routing);
//! a service that needs the host (freeing and reallocating, helper
//! registration, files, sockets, sound, the clock, the user interface,
//! drawing to the host's window, glyphs) is handed back as a request with
//! nothing changed; a slot the platform does not have is refused.
use crate::cpu::ArmCpu;
use crate::cpu_model::CpuView;
use crate::dispatch::{dispatch_matches, dispatch_step, library_slot, DispatchAction};
use crate::md5_service::{md5_append_matches, md5_finish_matches, md5_init_matches};
use crate::bitmap_copy::{copy_transformed_bitmap, transformed_copy, BitmapDescriptor};
use crate::draw::{bitmap_drawn, bitmap_source, draw_bitmap_region, read_bitmap_source};
use crate::dns::{mappings_view, resolve_mapped_host, resolve_spec, route_mapped_endpoint, route_spec, MappingView};
use crate::error::Error;
use crate::exec_range::ExecutableRange;
use crate::heap::{aligned_heap_len, heap_block_len};
use crate::heap_alloc::{allocate_heap_block, allocation_end_text, heap_block_allocated, recorded_block, track_heap_allocation, track_refused};
use crate::heap_io::{snapshot_view, SnapshotView};
use crate::output_claim::{allocation_lengths, allocation_lengths_map, TablesView};
use crate::graphics::{screen_offset, screen_pixel_address, BitmapTransform};
use crate::guest_strings::{
    c_string_from, fault_matches, null_slot_text, read_c_string, read_platform_data_slot, GuestFault,
};
use crate::layout::GuestLayout;
use crate::md5::{concat_all, md5_digest};
use crate::md5_service::lemma_md5_services_digest;
use crate::memory::{address_overflow_text, Access, GuestAddr, GuestMemory, MemView};
use crate::runtime::{RuntimeTables, TIMER_ACTIVE_DATA};
use crate::slots::{data_slot_address, PLATFORM_DATA, PLATFORM_TABLE};
use crate::text::{dec_text, decimal, hex32, hex32_text, join3};
use vstd::prelude::*;

verus! {

/// What the host does after a trap.
#[derive(Clone, Copy, Debug, PartialEq, Eq, Structural)]
pub enum HostRequest {
    /// Nothing: the service ran and the guest resumes.
    Nothing,
    /// The guest timer was armed with `delay_ms`: the host starts counting
    /// and looks for the modules' repeating timers.
    TimerArmed { delay_ms: u32 },
    /// The host runs service `slot` with the registers as they are.
    Service { slot: u32 },
    /// The host connects socket `handle` to `ip`:`port` (already routed
    /// through the DNS mappings and the proxy) within `timeout`, and puts
    /// the result in `r0`.
    Connect { handle: u32, ip: u32, port: u32, timeout: u32 },
    /// The host withdraws execute rights from the ranges in
    /// `pending_revocations`, then the guest resumes.
    WithdrawExecute,
}

/// The runtime tables as values.
pub struct RuntimeView {
    pub exit_requested: bool,
    pub timer_delay_ms: Option<u32>,
    pub motion_active: bool,
    pub layout: GuestLayout,
    pub random_state: u32,
    pub ownership: TablesView,
    pub snapshot: Option<SnapshotView>,
    pub pending_revocations: Seq<ExecutableRange>,
    pub dns_mappings: Seq<MappingView>,
    pub wap_proxy: Option<(Seq<u8>, u16)>,
}

impl View for RuntimeTables {
    type V = RuntimeView;

    open spec fn view(&self) -> RuntimeView {
        RuntimeView {
            exit_requested: self.exit_requested,
            timer_delay_ms: self.timer_delay_ms,
            motion_active: self.motion_active,
            layout: self.layout,
            random_state: self.random_state,
            ownership: self.ownership@,
            snapshot: snapshot_view(self.snapshot),
            pending_revocations: self.pending_revocations@,
            dns_mappings: mappings_view(self.dns_mappings@),
            wap_proxy: match self.wap_proxy {
                Some((a, p)) => Some((a@, p)),
                None => None,
            },
        }
    }
}

/// Slots run over the runtime tables: `malloc` (0), arming and stopping the timer (31,
/// 32), a sleep (36), an exit (54), the network's status (61, 81), the
/// screen size (80), resolving a host name (83), routing a connection (85),
/// one screen pixel (119), a bitmap region (120) and the transformed bitmap
/// copy (121).
pub open spec fn runtime_slot(slot: u32) -> bool {
    slot == 0 || slot == 31 || slot == 32 || slot == 36 || slot == 54 || slot == 61 || slot == 80 || slot == 81
        || slot == 83 || slot == 85 || slot == 119 || slot == 120 || slot == 121
}

/// Slots the host serves: `free` and `realloc` (1, 2), helper registration
/// (25), drawing, glyphs, the clock, the date, user information and
/// commands (29 to 38), files, sound and messages (40 to 59), menus,
/// dialogs, editors and windows (63 to 65, 67 to 79), the sockets (82 to
/// 90), and the services from 122 to 132 that the platform has (122, 123,
/// 125, 130 to 132).
pub open spec fn host_slot(slot: u32) -> bool {
    (1 <= slot <= 2) || slot == 25 || (29 <= slot <= 38) || (40 <= slot <= 59) || (63 <= slot <= 65) || (67
        <= slot <= 90) || slot == 122 || slot == 123 || slot == 125 || (130 <= slot <= 132)
}

/// Whether the host serves `slot`.
pub fn serves_on_host(slot: u32) -> (r: bool)
    ensures
        r == host_slot(slot),
{
    (1 <= slot && slot <= 2) || slot == 25 || (29 <= slot && slot <= 38) || (40 <= slot && slot <= 59) || (63 <= slot
        && slot <= 65) || (67 <= slot && slot <= 90) || slot == 122 || slot == 123 || slot == 125 || (130 <= slot
        && slot <= 132)
}

/// The refusal of a slot the platform does not have, with the caller's
/// return address and the argument registers.
pub open spec fn unsupported_slot_text(slot: u32, module: usize, c: CpuView) -> Seq<char> {
    "unsupported platform slot "@ + dec_text(slot as nat) + " called by module "@ + dec_text(module as nat)
        + " at LR "@ + hex32_text(c.regs[14]) + " (r0="@ + hex32_text(c.regs[0]) + ", r1="@ + hex32_text(c.regs[1])
        + ", r2="@ + hex32_text(c.regs[2]) + ", r3="@ + hex32_text(c.regs[3]) + ", sp="@ + hex32_text(c.regs[13])
        + ")"@
}

fn unsupported_slot_message(slot: u32, module: usize, cpu: &ArmCpu) -> (s: String)
    ensures
        s@ == unsupported_slot_text(slot, module, cpu@),
{
    let s = String::from_str("unsupported platform slot ").concat(decimal(slot as u64).as_str()).concat(
        " called by module ",
    ).concat(decimal(module as u64).as_str()).concat(" at LR ").concat(hex32(cpu.register(14)).as_str()).concat(
        " (r0=",
    ).concat(hex32(cpu.register(0)).as_str()).concat(", r1=").concat(hex32(cpu.register(1)).as_str()).concat(
        ", r2=",
    ).concat(hex32(cpu.register(2)).as_str()).concat(", r3=").concat(hex32(cpu.register(3)).as_str()).concat(
        ", sp=",
    ).concat(hex32(cpu.register(13)).as_str()).concat(")");
    proof {
        assert(s@ =~= unsupported_slot_text(slot, module, cpu@));
    }
    s
}

/// The address of data slot `slot`'s word.
pub open spec fn data_word_at(slot: u32) -> u32 {
    (PLATFORM_DATA + slot * 4) as u32
}

pub open spec fn too_wide_text(v: u32) -> Seq<char> {
    "screen width "@ + dec_text(v as nat) + " exceeds i32"@
}

pub open spec fn too_tall_text(v: u32) -> Seq<char> {
    "screen height "@ + dec_text(v as nat) + " exceeds i32"@
}

/// The screen's width and height from data slots 92 and 93; both are read
/// before either is checked to fit an `i32`.
pub open spec fn screen_dimensions_spec(m: MemView) -> Result<(i32, i32), GuestFault> {
    match m.read_u32(data_word_at(92)) {
        Err(t) => Err(GuestFault::Arm(t)),
        Ok(w) => match m.read_u32(data_word_at(93)) {
            Err(t) => Err(GuestFault::Arm(t)),
            Ok(h) => if w > i32::MAX {
                Err(GuestFault::Abi(too_wide_text(w)))
            } else if h > i32::MAX {
                Err(GuestFault::Abi(too_tall_text(h)))
            } else {
                Ok((w as i32, h as i32))
            },
        },
    }
}

/// Writing pixel `(x, y)` of a `width` x `height` screen at `screen`: a
/// pixel off the screen is ignored.
pub open spec fn pixel_written(
    m: MemView,
    screen: u32,
    x: i32,
    y: i32,
    color: u16,
    width: i32,
    height: i32,
) -> Result<MemView, GuestFault> {
    if x < 0 || y < 0 || x >= width || y >= height {
        Ok(m)
    } else {
        match screen_offset(x, y, width) {
            None => Err(GuestFault::Abi("screen pixel offset overflow"@)),
            Some(offset) => if screen + offset > u32::MAX {
                Err(GuestFault::Arm(address_overflow_text(screen, offset)))
            } else {
                match m.write_u16((screen + offset) as u32, color) {
                    Err(t) => Err(GuestFault::Arm(t)),
                    Ok(m2) => Ok(m2),
                }
            },
        }
    }
}

/// Writing the screen size at `info`: the width, then the height after it.
/// A fault on the height leaves the width written.
pub open spec fn screen_info_written(m: MemView, info: u32) -> (MemView, Option<GuestFault>) {
    match m.read_u32(data_word_at(92)) {
        Err(t) => (m, Some(GuestFault::Arm(t))),
        Ok(w) => match m.read_u32(data_word_at(93)) {
            Err(t) => (m, Some(GuestFault::Arm(t))),
            Ok(h) => match m.write_u32(info, w) {
                Err(t) => (m, Some(GuestFault::Arm(t))),
                Ok(m1) => if info + 4 > u32::MAX {
                    (m1, Some(GuestFault::Arm(address_overflow_text(info, 4))))
                } else {
                    match m1.write_u32((info + 4) as u32, h) {
                        Err(t) => (m1, Some(GuestFault::Arm(t))),
                        Ok(m2) => (m2, None),
                    }
                },
            },
        },
    }
}

/// The 16-bit word at `a + offset`, or the fault: the address overflows or
/// cannot be read.
pub open spec fn half_at(m: MemView, a: u32, offset: u32) -> Result<u16, GuestFault> {
    if a + offset > u32::MAX {
        Err(GuestFault::Arm(address_overflow_text(a, offset)))
    } else {
        match m.read_u16((a + offset) as u32) {
            Err(t) => Err(GuestFault::Arm(t)),
            Ok(v) => Ok(v),
        }
    }
}

/// The bitmap descriptor at `a`: the pixels' address, then the width,
/// height, x and y as 16-bit fields (x and y signed), read in that order.
pub open spec fn descriptor_at(m: MemView, a: u32) -> Result<BitmapDescriptor, GuestFault> {
    match m.read_u32(a) {
        Err(t) => Err(GuestFault::Arm(t)),
        Ok(pixels) => match half_at(m, a, 4) {
            Err(f) => Err(f),
            Ok(w) => match half_at(m, a, 6) {
                Err(f) => Err(f),
                Ok(h) => match half_at(m, a, 8) {
                    Err(f) => Err(f),
                    Ok(x) => match half_at(m, a, 10) {
                        Err(f) => Err(f),
                        Ok(y) => Ok(
                            BitmapDescriptor {
                                pixels: GuestAddr(pixels),
                                width: w as usize,
                                height: h as usize,
                                x: (x as i16) as i32,
                                y: (y as i16) as i32,
                            },
                        ),
                    },
                },
            },
        },
    }
}

/// The bitmap transform at `a`: five signed 16-bit fields.
pub open spec fn transform_at(m: MemView, a: u32) -> Result<BitmapTransform, GuestFault> {
    match half_at(m, a, 0) {
        Err(f) => Err(f),
        Ok(ta) => match half_at(m, a, 2) {
            Err(f) => Err(f),
            Ok(tb) => match half_at(m, a, 4) {
                Err(f) => Err(f),
                Ok(tc) => match half_at(m, a, 6) {
                    Err(f) => Err(f),
                    Ok(td) => match half_at(m, a, 8) {
                        Err(f) => Err(f),
                        Ok(mode) => Ok(
                            BitmapTransform {
                                a: ta as i16,
                                b: tb as i16,
                                c: tc as i16,
                                d: td as i16,
                                mode: mode as i16,
                            },
                        ),
                    },
                },
            },
        },
    }
}

/// The transformed bitmap copy of slot 121 on registers `c` for `module`:
/// the source descriptor (r0), the destination descriptor (r1), the
/// transform whose address is the first stack word and the transparent
/// colour in the second; then the copy of r2 x r3 pixels, which keeps
/// what it wrote before a fault.
pub open spec fn transformed_copy_step(m: MemView, c: CpuView, module: usize, heap_len: usize) -> (
    MemView,
    Option<GuestFault>,
) {
    match descriptor_at(m, c.regs[0]) {
        Err(f) => (m, Some(f)),
        Ok(source) => match descriptor_at(m, c.regs[1]) {
            Err(f) => (m, Some(f)),
            Ok(destination) => match m.read_u32(c.regs[13]) {
                Err(t) => (m, Some(GuestFault::Arm(t))),
                Ok(ta) => match transform_at(m, ta) {
                    Err(f) => (m, Some(f)),
                    Ok(t) => if c.regs[13] + 4 > u32::MAX {
                        (m, Some(GuestFault::Arm(address_overflow_text(c.regs[13], 4))))
                    } else {
                        match m.read_u32((c.regs[13] + 4) as u32) {
                            Err(e) => (m, Some(GuestFault::Arm(e))),
                            Ok(colour) => transformed_copy(
                                m,
                                destination,
                                source,
                                c.regs[2] as usize,
                                c.regs[3] as usize,
                                t,
                                colour as u16,
                                module,
                                heap_len,
                            ),
                        }
                    },
                },
            },
        },
    }
}

/// The heap block length for a request of `len` bytes.
pub open spec fn block_len_of(len: u32) -> Result<u32, GuestFault> {
    if len + 7 <= u32::MAX {
        Ok(heap_block_len(len as int) as u32)
    } else {
        Err(GuestFault::Arm("guest allocation length alignment overflow"@))
    }
}

/// The value of the variable data slot `slot` points at.
pub open spec fn data_slot_value(m: MemView, slot: u32) -> Result<u32, GuestFault> {
    match m.read_u32((PLATFORM_TABLE + slot * 4) as u32) {
        Err(t) => Err(GuestFault::Arm(t)),
        Ok(v) => if v == 0 {
            Err(GuestFault::Abi(null_slot_text(slot)))
        } else {
            match m.read_u32(v) {
                Err(t) => Err(GuestFault::Arm(t)),
                Ok(x) => Ok(x),
            }
        },
    }
}

/// What `malloc` (slot 0) does with a request of `len` bytes: the block
/// length, then the heap bounds from data slots 108 and 110. Without a heap
/// (both zero) the host makes a detached allocation. Otherwise the block
/// comes from the heap (`heap_block_allocated`), `r0` gets its address (0
/// when nothing fits), the tables record it with no owner, and the ranges
/// to withdraw execute rights from are left for the host.
pub open spec fn malloc_matches(
    r: Result<HostRequest, Error>,
    len: u32,
    c0: CpuView,
    c1: CpuView,
    m0: MemView,
    m1: MemView,
    t0: RuntimeView,
    t1: RuntimeView,
) -> bool {
    match block_len_of(len) {
        Err(f) => fault_matches(r, f) && c1 == c0 && m1 == m0 && t1 == t0,
        Ok(n) => match data_slot_value(m0, 108) {
            Err(f) => fault_matches(r, f) && c1 == c0 && m1 == m0 && t1 == t0,
            Ok(base) => match data_slot_value(m0, 110) {
                Err(f) => fault_matches(r, f) && c1 == c0 && m1 == m0 && t1 == t0,
                Ok(end) => if base == 0 && end == 0 {
                    r == Ok::<HostRequest, Error>(HostRequest::Service { slot: 0 }) && c1 == c0 && m1 == m0 && t1
                        == t0
                } else {
                    match heap_block_allocated(m0, t0.snapshot, allocation_lengths_map(t0.ownership.allocations), n) {
                        Err((f, m, snap)) => fault_matches(r, f) && c1 == c0 && m1 == m && t1 == RuntimeView {
                            snapshot: snap,
                            ..t0
                        },
                        Ok(None) => r == Ok::<HostRequest, Error>(HostRequest::Nothing) && m1 == m0 && t1 == t0
                            && c1 == c0.set_reg(0, 0),
                        Ok(Some((m, address, reclaim, snap))) => {
                            &&& m1 == m
                            &&& t1.snapshot == Some(snap)
                            &&& if track_refused(t0.ownership, address, reclaim) {
                                &&& fault_matches(r, GuestFault::Abi(allocation_end_text()))
                                &&& c1 == c0
                                &&& t1 == RuntimeView { snapshot: Some(snap), ..t0 }
                            } else {
                                &&& r == Ok::<HostRequest, Error>(HostRequest::WithdrawExecute)
                                &&& c1 == c0.set_reg(0, address)
                                &&& recorded_block(t0.ownership, t1.ownership, address, reclaim, None, t1.pending_revocations)
                                &&& t1 == RuntimeView {
                                    snapshot: Some(snap),
                                    ownership: t1.ownership,
                                    pending_revocations: t1.pending_revocations,
                                    ..t0
                                }
                            }
                        },
                    }
                },
            },
        },
    }
}

/// The same tables with `exit_requested`, the timer and the random state
/// replaced.
pub open spec fn with(t: RuntimeView, exit: bool, timer: Option<u32>, random: u32) -> RuntimeView {
    RuntimeView { exit_requested: exit, timer_delay_ms: timer, random_state: random, ..t }
}

/// What one trap on `slot` does: the runtime slots as their services say;
/// the library's own slots as `dispatch_matches` says, with the random
/// state in the tables; a slot the host serves comes back as a host request
/// with nothing changed, and any other slot is refused.
pub open spec fn runtime_dispatch_matches(
    r: Result<HostRequest, Error>,
    slot: u32,
    module: usize,
    c0: CpuView,
    c1: CpuView,
    m0: MemView,
    m1: MemView,
    t0: RuntimeView,
    t1: RuntimeView,
) -> bool {
    if slot == 0 {
        malloc_matches(r, c0.regs[0], c0, c1, m0, m1, t0, t1)
    } else if slot == 31 {
        let armed = with(t0, t0.exit_requested, Some(c0.regs[0]), t0.random_state);
        &&& t1 == armed
        &&& match m0.write_u32(TIMER_ACTIVE_DATA, 1) {
            Err(t) => fault_matches(r, GuestFault::Arm(t)) && m1 == m0 && c1 == c0,
            Ok(m) => r == Ok::<HostRequest, Error>(HostRequest::TimerArmed { delay_ms: c0.regs[0] })
                && m1 == m && c1 == c0.set_reg(0, 0),
        }
    } else if slot == 32 {
        &&& t1 == with(t0, t0.exit_requested, None, t0.random_state)
        &&& match m0.write_u32(TIMER_ACTIVE_DATA, 0) {
            Err(t) => fault_matches(r, GuestFault::Arm(t)) && m1 == m0 && c1 == c0,
            Ok(m) => r == Ok::<HostRequest, Error>(HostRequest::Nothing) && m1 == m && c1 == c0.set_reg(0, 0),
        }
    } else if slot == 36 || slot == 61 || slot == 81 {
        r == Ok::<HostRequest, Error>(HostRequest::Nothing) && t1 == t0 && m1 == m0 && c1 == c0.set_reg(0, 0)
    } else if slot == 54 {
        r == Ok::<HostRequest, Error>(HostRequest::Nothing) && t1 == with(t0, true, t0.timer_delay_ms, t0.random_state)
            && m1 == m0 && c1 == c0.set_reg(0, 0)
    } else if slot == 80 {
        let (m, f) = screen_info_written(m0, c0.regs[0]);
        &&& t1 == t0
        &&& m1 == m
        &&& match f {
            Some(g) => fault_matches(r, g) && c1 == c0,
            None => r == Ok::<HostRequest, Error>(HostRequest::Nothing) && c1 == c0.set_reg(0, 0),
        }
    } else if slot == 119 {
        &&& t1 == t0
        &&& match screen_dimensions_spec(m0) {
            Err(f) => fault_matches(r, f) && m1 == m0 && c1 == c0,
            Ok((w, h)) => match pixel_written(
                m0,
                t0.layout.screen_base,
                c0.regs[0] as i32,
                c0.regs[1] as i32,
                c0.regs[2] as u16,
                w,
                h,
            ) {
                Err(f) => fault_matches(r, f) && m1 == m0 && c1 == c0,
                Ok(m) => r == Ok::<HostRequest, Error>(HostRequest::Nothing) && m1 == m && c1 == c0.set_reg(0, 0),
            },
        }
    } else if slot == 83 {
        &&& t1 == t0
        &&& m1 == m0
        &&& match c_string_from(m0, c0.regs[0], 0, 1024) {
            Err(f) => fault_matches(r, f) && c1 == c0,
            Ok(name) => r == Ok::<HostRequest, Error>(HostRequest::Nothing) && c1 == c0.set_reg(
                0,
                match resolve_spec(t0.dns_mappings, name) {
                    Some(a) => a,
                    None => u32::MAX,
                },
            ),
        }
    } else if slot == 85 {
        let (ip, port) = route_spec(t0.dns_mappings, t0.wap_proxy, c0.regs[1], c0.regs[2]);
        r == Ok::<HostRequest, Error>(HostRequest::Connect { handle: c0.regs[0], ip, port, timeout: c0.regs[3] })
            && t1 == t0 && m1 == m0 && c1 == c0
    } else if slot == 120 {
        &&& t1 == t0
        &&& match bitmap_source(m0, c0, module, t0.layout.heap_len) {
            Err(f) => fault_matches(r, f) && m1 == m0 && c1 == c0,
            Ok((pixels, x, y, w, h, mode)) => {
                let (m, f) = bitmap_drawn(m0, pixels, x, y, w, h, mode);
                &&& m1 == m
                &&& match f {
                    None => r == Ok::<HostRequest, Error>(HostRequest::Nothing) && c1 == c0.set_reg(0, 0),
                    Some(g) => fault_matches(r, g) && c1 == c0,
                }
            },
        }
    } else if slot == 121 {
        let (m, f) = transformed_copy_step(m0, c0, module, t0.layout.heap_len);
        &&& t1 == t0
        &&& m1 == m
        &&& match f {
            Some(g) => fault_matches(r, g) && c1 == c0,
            None => r == Ok::<HostRequest, Error>(HostRequest::Nothing) && c1 == c0.set_reg(0, 0),
        }
    } else if library_slot(slot) {
        &&& t1 == with(t0, t0.exit_requested, t0.timer_delay_ms, t1.random_state)
        &&& (r is Ok ==> r == Ok::<HostRequest, Error>(HostRequest::Nothing))
        &&& dispatch_matches(
            match r {
                Ok(_) => Ok(DispatchAction::Resume),
                Err(e) => Err(e),
            },
            slot,
            c0,
            c1,
            m0,
            m1,
            t0.random_state,
            t1.random_state,
        )
    } else if host_slot(slot) {
        r == Ok::<HostRequest, Error>(HostRequest::Service { slot }) && t1 == t0 && m1 == m0 && c1 == c0
    } else {
        fault_matches(r, GuestFault::Abi(unsupported_slot_text(slot, module, c0))) && t1 == t0 && m1 == m0
            && c1 == c0
    }
}

/// The MD5 service slots give the digest of everything appended, however it
/// was split. Trap `j` runs on registers `cpus[j]` over memory `mems[j]` and
/// tables `tables[j]`, and leaves memory `mems[j + 1]`: first the init slot
/// (113) on a context at `base` (readable and writable, 88 bytes), then one
/// append (114) per chunk, each reading its chunk from r1 and r2, then the
/// finish (115) into a readable and writable 16-byte output. When the init
/// and every append succeed, the finish succeeds too, and the output then
/// reads back as the MD5 digest of the chunks joined.
pub proof fn lemma_md5_slots_digest(
    module: usize,
    cpus: Seq<CpuView>,
    after: Seq<CpuView>,
    mems: Seq<MemView>,
    tables: Seq<RuntimeView>,
    results: Seq<Result<HostRequest, Error>>,
    base: u32,
    output: u32,
    chunks: Seq<Seq<u8>>,
)
    requires
        cpus.len() == chunks.len() + 2,
        after.len() == chunks.len() + 2,
        results.len() == chunks.len() + 2,
        mems.len() == chunks.len() + 3,
        tables.len() == chunks.len() + 3,
        mems[0].wf(),
        base + 88 <= 0x1_0000_0000,
        mems[0].accessible(base as int, 88, Access::Write),
        mems[0].accessible(base as int, 88, Access::Read),
        mems[0].accessible(output as int, 16, Access::Write),
        mems[0].accessible(output as int, 16, Access::Read),
        concat_all(chunks).len() <= u64::MAX,
        cpus[0].regs[0] == base,
        results[0] is Ok,
        runtime_dispatch_matches(results[0], 113, module, cpus[0], after[0], mems[0], mems[1], tables[0], tables[1]),
        forall|j: int|
            0 <= j < chunks.len() ==> {
                &&& (#[trigger] cpus[j + 1]).regs[0] == base
                &&& mems[j + 1].load(cpus[j + 1].regs[1], cpus[j + 1].regs[2] as nat, Access::Read) == Ok::<
                    Seq<u8>,
                    Seq<char>,
                >(chunks[j])
                &&& results[j + 1] is Ok
                &&& runtime_dispatch_matches(
                    results[j + 1],
                    114,
                    module,
                    cpus[j + 1],
                    after[j + 1],
                    mems[j + 1],
                    mems[j + 2],
                    tables[j + 1],
                    tables[j + 2],
                )
            },
        cpus[chunks.len() + 1int].regs[0] == base,
        cpus[chunks.len() + 1int].regs[1] == output,
        runtime_dispatch_matches(
            results[chunks.len() + 1int],
            115,
            module,
            cpus[chunks.len() + 1int],
            after[chunks.len() + 1int],
            mems[chunks.len() + 1int],
            mems[chunks.len() + 2int],
            tables[chunks.len() + 1int],
            tables[chunks.len() + 2int],
        ),
    ensures
        results[chunks.len() + 1int] is Ok,
        mems[chunks.len() + 2int].load(output, 16, Access::Read) == Ok::<Seq<u8>, Seq<char>>(
            md5_digest(concat_all(chunks)),
        ),
{
    let k = chunks.len() as int;
    assert(library_slot(113) && library_slot(114) && library_slot(115));
    assert forall|j: int| 0 <= j < k implies md5_append_matches(
        Ok(()),
        #[trigger] mems.subrange(1, k + 2)[j],
        mems.subrange(1, k + 2)[j + 1],
        base,
        chunks[j],
    ) by {
        assert(cpus[j + 1].regs[0] == base);
        assert(mems.subrange(1, k + 2)[j] == mems[j + 1]);
        assert(mems.subrange(1, k + 2)[j + 1] == mems[j + 2]);
    }
    let finish = match results[k + 1] {
        Ok(_) => Ok::<(), Error>(()),
        Err(e) => Err(e),
    };
    assert(mems.subrange(1, k + 2).last() == mems[k + 1]);
    lemma_md5_services_digest(mems[0], mems.subrange(1, k + 2), base, chunks, output, mems[k + 2], finish);
}

pub(crate) fn screen_dimensions(memory: &GuestMemory) -> (r: Result<(i32, i32), Error>)
    requires
        memory.wf(),
    ensures
        match screen_dimensions_spec(memory@) {
            Ok(d) => r == Ok::<(i32, i32), Error>(d),
            Err(f) => fault_matches(r, f),
        },
{
    let width = match memory.read_u32(data_slot_address(92)) {
        Ok(v) => v,
        Err(e) => return Err(e),
    };
    let height = match memory.read_u32(data_slot_address(93)) {
        Ok(v) => v,
        Err(e) => return Err(e),
    };
    if width > 0x7fff_ffff {
        let m = join3("screen width ", decimal(width as u64).as_str(), " exceeds i32");
        proof {
            assert(m@ =~= too_wide_text(width));
        }
        return Err(Error::Abi(m));
    }
    if height > 0x7fff_ffff {
        let m = join3("screen height ", decimal(height as u64).as_str(), " exceeds i32");
        proof {
            assert(m@ =~= too_tall_text(height));
        }
        return Err(Error::Abi(m));
    }
    Ok((width as i32, height as i32))
}

fn write_screen_pixel(
    memory: &mut GuestMemory,
    screen: u32,
    x: i32,
    y: i32,
    color: u16,
    width: i32,
    height: i32,
) -> (r: Result<(), Error>)
    requires
        old(memory).wf(),
    ensures
        final(memory).wf(),
        match pixel_written(old(memory)@, screen, x, y, color, width, height) {
            Ok(m) => r is Ok && final(memory)@ == m,
            Err(f) => fault_matches(r, f) && final(memory)@ == old(memory)@,
        },
{
    if x < 0 || y < 0 || x >= width || y >= height {
        return Ok(());
    }
    let address = match screen_pixel_address(GuestAddr(screen), x, y, width) {
        Ok(a) => a,
        Err(e) => return Err(e),
    };
    memory.write_u16(address, color)
}

fn read_half(memory: &GuestMemory, a: u32, offset: u32) -> (r: Result<u16, Error>)
    requires
        memory.wf(),
    ensures
        match half_at(memory@, a, offset) {
            Ok(v) => r == Ok::<u16, Error>(v),
            Err(f) => fault_matches(r, f),
        },
{
    let address = match GuestAddr(a).checked_add(offset) {
        Ok(x) => x,
        Err(e) => return Err(e),
    };
    memory.read_u16(address)
}

fn read_descriptor(memory: &GuestMemory, a: u32) -> (r: Result<BitmapDescriptor, Error>)
    requires
        memory.wf(),
    ensures
        match descriptor_at(memory@, a) {
            Ok(d) => r == Ok::<BitmapDescriptor, Error>(d),
            Err(f) => fault_matches(r, f),
        },
{
    let pixels = match memory.read_u32(GuestAddr(a)) {
        Ok(v) => v,
        Err(e) => return Err(e),
    };
    let w = match read_half(memory, a, 4) {
        Ok(v) => v,
        Err(e) => return Err(e),
    };
    let h = match read_half(memory, a, 6) {
        Ok(v) => v,
        Err(e) => return Err(e),
    };
    let x = match read_half(memory, a, 8) {
        Ok(v) => v,
        Err(e) => return Err(e),
    };
    let y = match read_half(memory, a, 10) {
        Ok(v) => v,
        Err(e) => return Err(e),
    };
    Ok(
        BitmapDescriptor {
            pixels: GuestAddr(pixels),
            width: w as usize,
            height: h as usize,
            x: (x as i16) as i32,
            y: (y as i16) as i32,
        },
    )
}

fn read_transform(memory: &GuestMemory, a: u32) -> (r: Result<BitmapTransform, Error>)
    requires
        memory.wf(),
    ensures
        match transform_at(memory@, a) {
            Ok(t) => r == Ok::<BitmapTransform, Error>(t),
            Err(f) => fault_matches(r, f),
        },
{
    let ta = match read_half(memory, a, 0) {
        Ok(v) => v,
        Err(e) => return Err(e),
    };
    let tb = match read_half(memory, a, 2) {
        Ok(v) => v,
        Err(e) => return Err(e),
    };
    let tc = match read_half(memory, a, 4) {
        Ok(v) => v,
        Err(e) => return Err(e),
    };
    let td = match read_half(memory, a, 6) {
        Ok(v) => v,
        Err(e) => return Err(e),
    };
    let mode = match read_half(memory, a, 8) {
        Ok(v) => v,
        Err(e) => return Err(e),
    };
    Ok(BitmapTransform { a: ta as i16, b: tb as i16, c: tc as i16, d: td as i16, mode: mode as i16 })
}

fn transformed_copy_slot(memory: &mut GuestMemory, cpu: &ArmCpu, module: usize, heap_len: usize) -> (r: Result<
    (),
    Error,
>)
    requires
        old(memory).wf(),
        heap_len <= 0x0100_0000,
    ensures
        final(memory).wf(),
        ({
            let (m, f) = transformed_copy_step(old(memory)@, cpu@, module, heap_len);
            &&& final(memory)@ == m
            &&& match f {
                None => r is Ok,
                Some(g) => fault_matches(r, g),
            }
        }),
{
    let source = match read_descriptor(memory, cpu.register(0)) {
        Ok(d) => d,
        Err(e) => return Err(e),
    };
    let destination = match read_descriptor(memory, cpu.register(1)) {
        Ok(d) => d,
        Err(e) => return Err(e),
    };
    let stack = cpu.register(13);
    let transform_address = match memory.read_u32(GuestAddr(stack)) {
        Ok(v) => v,
        Err(e) => return Err(e),
    };
    let transform = match read_transform(memory, transform_address) {
        Ok(t) => t,
        Err(e) => return Err(e),
    };
    let colour_address = match GuestAddr(stack).checked_add(4) {
        Ok(a) => a,
        Err(e) => return Err(e),
    };
    let colour = match memory.read_u32(colour_address) {
        Ok(v) => v,
        Err(e) => return Err(e),
    };
    copy_transformed_bitmap(
        memory,
        destination,
        source,
        cpu.register(2) as usize,
        cpu.register(3) as usize,
        transform,
        colour as u16,
        module,
        heap_len,
    )
}

fn write_screen_info(memory: &mut GuestMemory, info: u32) -> (r: Result<(), Error>)
    requires
        old(memory).wf(),
    ensures
        final(memory).wf(),
        ({
            let (m, f) = screen_info_written(old(memory)@, info);
            &&& final(memory)@ == m
            &&& match f {
                None => r is Ok,
                Some(g) => fault_matches(r, g),
            }
        }),
{
    let width = match memory.read_u32(data_slot_address(92)) {
        Ok(v) => v,
        Err(e) => return Err(e),
    };
    let height = match memory.read_u32(data_slot_address(93)) {
        Ok(v) => v,
        Err(e) => return Err(e),
    };
    match memory.write_u32(GuestAddr(info), width) {
        Ok(()) => {},
        Err(e) => return Err(e),
    }
    let next = match GuestAddr(info).checked_add(4) {
        Ok(a) => a,
        Err(e) => return Err(e),
    };
    memory.write_u32(next, height)
}

fn malloc_slot(memory: &mut GuestMemory, cpu: &mut ArmCpu, runtime: &mut RuntimeTables) -> (r: Result<
    HostRequest,
    Error,
>)
    requires
        old(memory).wf(),
        old(runtime).wf(),
    ensures
        final(memory).wf(),
        final(runtime).wf(),
        malloc_matches(r, old(cpu)@.regs[0], old(cpu)@, final(cpu)@, old(memory)@, final(memory)@, old(runtime)@, final(runtime)@),
{
    let n = match aligned_heap_len(cpu.register(0) as usize) {
        Ok(n) => n,
        Err(e) => return Err(e),
    };
    let base = match read_platform_data_slot(memory, 108) {
        Ok(v) => v,
        Err(e) => return Err(e),
    };
    let end = match read_platform_data_slot(memory, 110) {
        Ok(v) => v,
        Err(e) => return Err(e),
    };
    if base == 0 && end == 0 {
        return Ok(HostRequest::Service { slot: 0 });
    }
    let lengths = allocation_lengths(runtime.ownership.allocations.as_slice());
    let allocation = match allocate_heap_block(memory, &mut runtime.snapshot, &lengths, n) {
        Ok(a) => a,
        Err(e) => return Err(e),
    };
    match allocation {
        None => {
            cpu.set_register(0, 0);
            Ok(HostRequest::Nothing)
        },
        Some((address, reclaim)) => {
            let revoke = match track_heap_allocation(&mut runtime.ownership, address.0, reclaim, None) {
                Ok(v) => v,
                Err(e) => return Err(e),
            };
            runtime.pending_revocations = revoke;
            cpu.set_register(0, address.0);
            Ok(HostRequest::WithdrawExecute)
        },
    }
}

/// Runs one platform-service trap on slot `slot`, called by module `module`,
/// over the runtime's state, as `runtime_dispatch_matches` says.
pub fn dispatch_runtime_slot(
    slot: u32,
    module: usize,
    memory: &mut GuestMemory,
    cpu: &mut ArmCpu,
    runtime: &mut RuntimeTables,
) -> (r: Result<HostRequest, Error>)
    requires
        old(memory).wf(),
        old(runtime).wf(),
    ensures
        final(memory).wf(),
        final(runtime).wf(),
        runtime_dispatch_matches(
            r,
            slot,
            module,
            old(cpu)@,
            final(cpu)@,
            old(memory)@,
            final(memory)@,
            old(runtime)@,
            final(runtime)@,
        ),
{
    if slot == 0 {
        return malloc_slot(memory, cpu, runtime);
    }
    if slot == 31 {
        let delay_ms = cpu.register(0);
        runtime.timer_delay_ms = Some(delay_ms);
        match memory.write_u32(GuestAddr(TIMER_ACTIVE_DATA), 1) {
            Ok(()) => {},
            Err(e) => return Err(e),
        }
        cpu.set_register(0, 0);
        return Ok(HostRequest::TimerArmed { delay_ms });
    }
    if slot == 32 {
        runtime.timer_delay_ms = None;
        match memory.write_u32(GuestAddr(TIMER_ACTIVE_DATA), 0) {
            Ok(()) => {},
            Err(e) => return Err(e),
        }
        cpu.set_register(0, 0);
        return Ok(HostRequest::Nothing);
    }
    if slot == 36 || slot == 61 || slot == 81 {
        cpu.set_register(0, 0);
        return Ok(HostRequest::Nothing);
    }
    if slot == 54 {
        runtime.exit_requested = true;
        cpu.set_register(0, 0);
        return Ok(HostRequest::Nothing);
    }
    if slot == 80 {
        match write_screen_info(memory, cpu.register(0)) {
            Ok(()) => {},
            Err(e) => return Err(e),
        }
        cpu.set_register(0, 0);
        return Ok(HostRequest::Nothing);
    }
    if slot == 119 {
        let (width, height) = match screen_dimensions(memory) {
            Ok(d) => d,
            Err(e) => return Err(e),
        };
        let x = cpu.register(0) as i32;
        let y = cpu.register(1) as i32;
        let color = cpu.register(2) as u16;
        match write_screen_pixel(memory, runtime.layout.screen_base, x, y, color, width, height) {
            Ok(()) => {},
            Err(e) => return Err(e),
        }
        cpu.set_register(0, 0);
        return Ok(HostRequest::Nothing);
    }
    if slot == 83 {
        let name = match read_c_string(memory, GuestAddr(cpu.register(0)), 1024) {
            Ok(n) => n,
            Err(e) => return Err(e),
        };
        let address = match resolve_mapped_host(runtime.dns_mappings.as_slice(), name.as_slice()) {
            Some(a) => a,
            None => u32::MAX,
        };
        cpu.set_register(0, address);
        return Ok(HostRequest::Nothing);
    }
    if slot == 85 {
        let (ip, port) = route_mapped_endpoint(runtime.dns_mappings.as_slice(), runtime.wap_proxy, cpu.register(1), cpu.register(2));
        return Ok(HostRequest::Connect { handle: cpu.register(0), ip, port, timeout: cpu.register(3) });
    }
    if slot == 120 {
        let (pixels, x, y, width, height, mode) = match read_bitmap_source(memory, cpu, module, runtime.layout.heap_len) {
            Ok(v) => v,
            Err(e) => return Err(e),
        };
        match draw_bitmap_region(memory, pixels.as_slice(), x, y, width, height, mode) {
            Ok(()) => {},
            Err(e) => return Err(e),
        }
        cpu.set_register(0, 0);
        return Ok(HostRequest::Nothing);
    }
    if slot == 121 {
        match transformed_copy_slot(memory, cpu, module, runtime.layout.heap_len) {
            Ok(()) => {},
            Err(e) => return Err(e),
        }
        cpu.set_register(0, 0);
        return Ok(HostRequest::Nothing);
    }
    let mut random = runtime.random_state;
    let step = dispatch_step(slot, memory, cpu, &mut random);
    runtime.random_state = random;
    match step {
        Ok(DispatchAction::Resume) => Ok(HostRequest::Nothing),
        Ok(DispatchAction::Host { slot }) => if serves_on_host(slot) {
            Ok(HostRequest::Service { slot })
        } else {
            Err(Error::Abi(unsupported_slot_message(slot, module, cpu)))
        },
        Err(e) => Err(e),
    }
}

} // verus!
