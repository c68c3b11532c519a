//! Where a prepared output range lies among the memory the runtime tracks
//! for modules, and whether a module may take it as the output of a
//! compact package read.
use crate::error::Error;
use crate::exec_range::ExecutableRange;
use crate::guest_strings::{fault_matches, GuestFault};
use crate::heap::{aligned_heap_len, heap_block_len, FreeBlock};
use crate::heap_io::{
    free_list_read, guest_heap_state, heap_state, read_free_blocks, slot_value, slot_value_exec,
    snapshot_view, small_heap_text, GuestHeapSnapshot, GuestHeapState, SnapshotView,
};
use crate::memory::{GuestAddr, GuestMemory, MemView};
use crate::text::{dec_text, decimal, hex32, hex32_text};
use std::collections::BTreeMap;
use vstd::prelude::*;
use vstd::string::*;

verus! {

/// Base of the fixed window that native extensions are loaded into.
pub const NATIVE_WINDOW_BASE: u32 = 0x4001_8800;

/// Length of the native-extension window: one module stride.
pub const NATIVE_WINDOW_LEN: usize = 0x0010_0000;

/// Most allocation views the runtime keeps.
pub const MAX_ALLOCATION_VIEWS: usize = 256;

/// A tracked region of guest memory and the module generation that owns
/// it, where one is recorded.
#[derive(Clone, Copy, Debug)]
pub struct OwnedRegion {
    pub base: u32,
    pub len: usize,
    pub owner: Option<u64>,
}

/// `len` bytes at `base` handed out as a view into the allocation at
/// `backing_base`, for the module generation `owner`.
#[derive(Clone, Copy, Debug)]
pub struct AllocationView {
    pub base: u32,
    pub len: u32,
    pub backing_base: u32,
    pub owner: u64,
}

/// What the runtime tracks of module-owned memory, each table in base
/// order: guest heap allocations, allocations detached from the heap,
/// platform arenas (which always have an owner), views into allocations,
/// and the owner of the native-extension window.
pub struct OwnershipTables {
    pub allocations: Vec<OwnedRegion>,
    pub detached: Vec<OwnedRegion>,
    pub arenas: Vec<OwnedRegion>,
    pub views: Vec<AllocationView>,
    pub native_window_owner: Option<u64>,
}

/// The tables as values.
pub struct TablesView {
    pub allocations: Seq<OwnedRegion>,
    pub detached: Seq<OwnedRegion>,
    pub arenas: Seq<OwnedRegion>,
    pub views: Seq<AllocationView>,
    pub native_window_owner: Option<u64>,
}

impl View for OwnershipTables {
    type V = TablesView;

    open spec fn view(&self) -> TablesView {
        TablesView {
            allocations: self.allocations@,
            detached: self.detached@,
            arenas: self.arenas@,
            views: self.views@,
            native_window_owner: self.native_window_owner,
        }
    }
}

impl OwnershipTables {
    /// Heap allocation lengths are 32-bit values.
    pub open spec fn wf(&self) -> bool {
        forall|i: int| 0 <= i < self.allocations@.len() ==> #[trigger] self.allocations@[i].len <= u32::MAX
    }
}

/// Where a prepared output range lies.
#[derive(Clone, Copy, Debug, PartialEq, Eq, Structural)]
pub enum OutputPlace {
    /// The payload of a legacy wrapper allocation the module owns.
    LegacyWrapper,
    /// Inside the native-extension window; `in_heap` when the active heap
    /// holds it too.
    NativeWindow { in_heap: bool },
    /// Inside the heap allocation at `index`; `claim_owner` when that
    /// allocation has no owner yet.
    Allocation { index: usize, claim_owner: bool },
    /// Inside the detached allocation at `index`; `claim_owner` when it has
    /// no owner yet.
    Detached { index: usize, claim_owner: bool },
    /// Inside the module's platform arena at `index`.
    Arena { index: usize },
    /// Inside the active heap, outside every tracked allocation.
    FreeHeap,
}

/// Why a range cannot be placed: a fault that stops both the check and the
/// claim, or a range the module cannot take (the claim fails with this
/// message, the check answers `false`).
pub enum Refusal {
    Fault(GuestFault),
    Unclaimable(Seq<char>),
}

pub open spec fn region_range(r: OwnedRegion) -> ExecutableRange {
    ExecutableRange { base: GuestAddr(r.base), len: r.len }
}

pub open spec fn view_range(v: AllocationView) -> ExecutableRange {
    ExecutableRange { base: GuestAddr(v.base), len: v.len as usize }
}

pub open spec fn heap_range(h: GuestHeapState) -> ExecutableRange {
    ExecutableRange { base: GuestAddr(h.base), len: h.span as usize }
}

pub open spec fn native_window() -> ExecutableRange {
    ExecutableRange { base: GuestAddr(NATIVE_WINDOW_BASE), len: NATIVE_WINDOW_LEN }
}

/// `inner` lies inside `outer`; both have valid ends.
pub open spec fn within(outer: ExecutableRange, inner: ExecutableRange) -> bool {
    outer.end_spec() is Some && inner.end_spec() is Some && inner.base.0 >= outer.base.0
        && inner.end_spec().unwrap() <= outer.end_spec().unwrap()
}

/// The ranges share an address; one without a valid end meets everything.
pub open spec fn meet(a: ExecutableRange, b: ExecutableRange) -> bool {
    match (a.end_spec(), b.end_spec()) {
        (Some(end), Some(other_end)) => a.base.0 < other_end && b.base.0 < end,
        _ => true,
    }
}

/// The first region from index `i` on that holds `req`.
pub open spec fn first_holding(s: Seq<OwnedRegion>, req: ExecutableRange, i: int) -> Option<int>
    decreases s.len() - i,
{
    if i < 0 || i >= s.len() {
        None
    } else if within(region_range(s[i]), req) {
        Some(i)
    } else {
        first_holding(s, req, i + 1)
    }
}

/// Some region meets `req`.
pub open spec fn any_meeting(s: Seq<OwnedRegion>, req: ExecutableRange) -> bool {
    exists|k: int| 0 <= k < s.len() && meet(region_range(#[trigger] s[k]), req)
}

/// The first region from index `i` on that starts at `base`.
pub open spec fn index_of_base(s: Seq<OwnedRegion>, base: u32, i: int) -> Option<int>
    decreases s.len() - i,
{
    if i < 0 || i >= s.len() {
        None
    } else if s[i].base == base {
        Some(i)
    } else {
        index_of_base(s, base, i + 1)
    }
}

pub open spec fn range_overflow_text() -> Seq<char> {
    "compact RAM output range overflow"@
}

pub open spec fn missing_module_text(module: usize) -> Seq<char> {
    "compact RAM output for missing module "@ + dec_text(module as nat)
}

pub open spec fn another_module_text() -> Seq<char> {
    "compact RAM output belongs to another module"@
}

pub open spec fn view_overlap_text() -> Seq<char> {
    "compact RAM output overlaps another allocation view"@
}

pub open spec fn view_limit_text() -> Seq<char> {
    "guest allocation views exceeded 256"@
}

/// "compact RAM output `address`..`end` `what`".
pub open spec fn output_text(address: u32, end: u32, what: Seq<char>) -> Seq<char> {
    "compact RAM output "@ + hex32_text(address) + ".."@ + hex32_text(end) + " "@ + what
}

/// A view of `len` bytes at `address` into the allocation at `backing` may
/// be handed to `owner`: it is the allocation itself, or every view it
/// meets belongs to the same allocation and owner, and the views it does
/// not replace leave room for one more.
pub open spec fn view_check(
    views: Seq<AllocationView>,
    address: u32,
    len: u32,
    backing: u32,
    owner: u64,
) -> Result<(), GuestFault> {
    let req = ExecutableRange { base: GuestAddr(address), len: len as usize };
    if address == backing {
        Ok(())
    } else if exists|k: int|
        0 <= k < views.len() && meet(view_range(#[trigger] views[k]), req) && (views[k].backing_base
            != backing || views[k].owner != owner) {
        Err(GuestFault::Abi(view_overlap_text()))
    } else if !(exists|k: int| 0 <= k < views.len() && meet(view_range(#[trigger] views[k]), req))
        && views.len() >= MAX_ALLOCATION_VIEWS {
        Err(GuestFault::Limit(view_limit_text()))
    } else {
        Ok(())
    }
}

/// `address` is the payload of a legacy wrapper allocation owned by
/// `owner`: the allocation four bytes below it holds the payload length,
/// its block length is that of the payload plus the length word, and the
/// payload (whose block length is `block_len`) ends inside it.
pub open spec fn legacy_wrapper(
    m: MemView,
    allocations: Seq<OwnedRegion>,
    address: u32,
    block_len: u32,
    owner: u64,
) -> Result<bool, GuestFault> {
    if address < 4 {
        Ok(false)
    } else {
        let base = (address - 4) as u32;
        match index_of_base(allocations, base, 0) {
            None => Ok(false),
            Some(i) => match allocations[i].owner {
                None => Ok(false),
                Some(o) => if o != owner {
                    Err(GuestFault::Abi(another_module_text()))
                } else {
                    match m.read_u32(base) {
                        Err(t) => Err(GuestFault::Arm(t)),
                        Ok(payload) => if payload + 11 > u32::MAX {
                            Ok(false)
                        } else if heap_block_len(payload as int) != block_len || heap_block_len(
                            payload + 4,
                        ) != allocations[i].len {
                            Ok(false)
                        } else if base + allocations[i].len > u32::MAX {
                            Err(GuestFault::Abi("compact RAM wrapper range overflow"@))
                        } else if address + payload > u32::MAX {
                            Err(GuestFault::Abi("compact RAM wrapper payload overflow"@))
                        } else {
                            Ok(address + payload <= base + allocations[i].len)
                        },
                    }
                },
            },
        }
    }
}

/// The place of `req` (ending at `end`) in the native-extension window.
pub open spec fn native_place(
    m: MemView,
    t: TablesView,
    req: ExecutableRange,
    owner: u64,
    end: u32,
) -> Result<OutputPlace, Refusal> {
    if t.native_window_owner matches Some(o) && o != owner {
        Err(Refusal::Fault(GuestFault::Abi(another_module_text())))
    } else {
        match slot_value(m, 108) {
            Err(f) => Err(Refusal::Fault(f)),
            Ok(heap_base) => match slot_value(m, 110) {
                Err(f) => Err(Refusal::Fault(f)),
                Ok(heap_end) => if heap_base == 0 && heap_end == 0 {
                    Ok(OutputPlace::NativeWindow { in_heap: false })
                } else {
                    match heap_state(m) {
                        Err(f) => Err(Refusal::Fault(f)),
                        Ok(h) => if !meet(heap_range(h), req) {
                            Ok(OutputPlace::NativeWindow { in_heap: false })
                        } else if within(heap_range(h), req) {
                            Ok(OutputPlace::NativeWindow { in_heap: true })
                        } else {
                            Err(
                                Refusal::Unclaimable(
                                    output_text(
                                        req.base.0,
                                        end,
                                        "crosses the active heap boundary"@,
                                    ),
                                ),
                            )
                        },
                    }
                },
            },
        }
    }
}

/// The place of `req` in the active heap, outside every tracked region.
pub open spec fn heap_place(m: MemView, req: ExecutableRange, end: u32) -> Result<
    OutputPlace,
    Refusal,
> {
    match slot_value(m, 108) {
        Err(f) => Err(Refusal::Fault(f)),
        Ok(heap_base) => match slot_value(m, 110) {
            Err(f) => Err(Refusal::Fault(f)),
            Ok(heap_end) => if heap_base == 0 && heap_end == 0 {
                Err(Refusal::Unclaimable(small_heap_text(0, 0)))
            } else {
                match heap_state(m) {
                    Err(f) => Err(Refusal::Fault(f)),
                    Ok(h) => if within(heap_range(h), req) {
                        Ok(OutputPlace::FreeHeap)
                    } else {
                        Err(
                            Refusal::Unclaimable(
                                output_text(req.base.0, end, "is outside module-owned memory"@),
                            ),
                        )
                    },
                }
            },
        },
    }
}

/// The place of `req` among the platform arenas, then the heap.
pub open spec fn arena_place(
    m: MemView,
    t: TablesView,
    req: ExecutableRange,
    owner: u64,
    end: u32,
) -> Result<OutputPlace, Refusal> {
    match first_holding(t.arenas, req, 0) {
        Some(i) => if t.arenas[i].owner != Some(owner) {
            Err(Refusal::Fault(GuestFault::Abi(another_module_text())))
        } else {
            match view_check(t.views, req.base.0, req.len as u32, t.arenas[i].base, owner) {
                Err(f) => Err(Refusal::Fault(f)),
                Ok(()) => Ok(OutputPlace::Arena { index: i as usize }),
            }
        },
        None => if any_meeting(t.arenas, req) {
            Err(
                Refusal::Unclaimable(
                    output_text(req.base.0, end, "partially overlaps a platform allocation"@),
                ),
            )
        } else {
            heap_place(m, req, end)
        },
    }
}

/// The place of `req` among the detached allocations, then further on.
pub open spec fn detached_place(
    m: MemView,
    t: TablesView,
    req: ExecutableRange,
    owner: u64,
    end: u32,
) -> Result<OutputPlace, Refusal> {
    match first_holding(t.detached, req, 0) {
        Some(i) => match t.detached[i].owner {
            Some(o) => if o != owner {
                Err(Refusal::Fault(GuestFault::Abi(another_module_text())))
            } else {
                Ok(OutputPlace::Detached { index: i as usize, claim_owner: false })
            },
            None => if req.base.0 != t.detached[i].base {
                Err(
                    Refusal::Unclaimable(
                        output_text(
                            req.base.0,
                            end,
                            "is an interior view of an unowned detached allocation"@,
                        ),
                    ),
                )
            } else {
                Ok(OutputPlace::Detached { index: i as usize, claim_owner: true })
            },
        },
        None => if any_meeting(t.detached, req) {
            Err(
                Refusal::Unclaimable(
                    output_text(req.base.0, end, "partially overlaps a tracked detached allocation"@),
                ),
            )
        } else {
            arena_place(m, t, req, owner, end)
        },
    }
}

/// The place of `req` among the heap allocations, then further on.
pub open spec fn allocation_place(
    m: MemView,
    t: TablesView,
    req: ExecutableRange,
    owner: u64,
    end: u32,
) -> Result<OutputPlace, Refusal> {
    match first_holding(t.allocations, req, 0) {
        Some(i) => {
            let r = t.allocations[i];
            if r.owner matches Some(o) && o != owner {
                Err(Refusal::Fault(GuestFault::Abi(another_module_text())))
            } else if r.owner is None && req.base.0 != r.base {
                Err(
                    Refusal::Unclaimable(
                        output_text(req.base.0, end, "is an interior view of an unowned allocation"@),
                    ),
                )
            } else {
                match view_check(t.views, req.base.0, req.len as u32, r.base, owner) {
                    Err(f) => Err(Refusal::Fault(f)),
                    Ok(()) => Ok(
                        OutputPlace::Allocation { index: i as usize, claim_owner: r.owner is None },
                    ),
                }
            }
        },
        None => if any_meeting(t.allocations, req) {
            Err(
                Refusal::Unclaimable(
                    output_text(req.base.0, end, "partially overlaps a tracked allocation"@),
                ),
            )
        } else {
            detached_place(m, t, req, owner, end)
        },
    }
}

/// Where the `block_len` bytes at `address` lie for the module at index
/// `module`: a legacy wrapper payload it owns, the native-extension window,
/// a tracked allocation, detached allocation or platform arena that holds
/// them, or the active heap; tried in that order, and refused where the
/// range belongs to another module, only partly lies in a tracked region,
/// or lies in none.
pub open spec fn output_place(
    m: MemView,
    t: TablesView,
    address: u32,
    block_len: u32,
    generations: Seq<u64>,
    module: usize,
) -> Result<OutputPlace, Refusal> {
    let req = ExecutableRange { base: GuestAddr(address), len: block_len as usize };
    if req.end_spec() is None {
        Err(Refusal::Fault(GuestFault::Abi(range_overflow_text())))
    } else if module >= generations.len() {
        Err(Refusal::Fault(GuestFault::Abi(missing_module_text(module))))
    } else {
        let owner = generations[module as int];
        let end = req.end_spec().unwrap();
        match legacy_wrapper(m, t.allocations, address, block_len, owner) {
            Err(f) => Err(Refusal::Fault(f)),
            Ok(true) => Ok(OutputPlace::LegacyWrapper),
            Ok(false) => if within(native_window(), req) {
                native_place(m, t, req, owner, end)
            } else {
                allocation_place(m, t, req, owner, end)
            },
        }
    }
}

/// `r` is what `p` says: the place, the fault, or an `Abi` error with the
/// refusal's message.
pub open spec fn place_matches(r: Result<OutputPlace, Error>, p: Result<OutputPlace, Refusal>) -> bool {
    match p {
        Ok(place) => r == Ok::<OutputPlace, Error>(place),
        Err(Refusal::Fault(f)) => fault_matches(r, f),
        Err(Refusal::Unclaimable(t)) => r matches Err(Error::Abi(m)) && m@ == t,
    }
}

/// The heap allocation lengths by base address.
pub open spec fn allocation_lengths_map(s: Seq<OwnedRegion>) -> Map<u32, u32>
    decreases s.len(),
{
    if s.len() == 0 {
        Map::empty()
    } else {
        allocation_lengths_map(s.drop_last()).insert(s.last().base, s.last().len as u32)
    }
}

/// The range of free block `b` of the heap `h` in guest addresses.
pub open spec fn free_block_range(h: GuestHeapState, b: FreeBlock) -> ExecutableRange {
    ExecutableRange { base: GuestAddr(h.base.wrapping_add(b.offset)), len: b.len as usize }
}

/// Whether the module at index `module` may take the `block_len` bytes at
/// `address` as prepared output: yes where the range has a place, and in
/// the active heap only where one free block holds it all.
pub open spec fn output_claimable(
    m: MemView,
    t: TablesView,
    snap: Option<SnapshotView>,
    address: u32,
    block_len: u32,
    generations: Seq<u64>,
    module: usize,
) -> Result<bool, GuestFault> {
    let req = ExecutableRange { base: GuestAddr(address), len: block_len as usize };
    match output_place(m, t, address, block_len, generations, module) {
        Err(Refusal::Fault(f)) => Err(f),
        Err(Refusal::Unclaimable(_)) => Ok(false),
        Ok(OutputPlace::FreeHeap) => match heap_state(m) {
            Err(f) => Err(f),
            Ok(h) => match free_list_read(m, h, snap, allocation_lengths_map(t.allocations)) {
                Err(f) => Err(f),
                Ok((blocks, _, _)) => Ok(
                    exists|k: int|
                        0 <= k < blocks.len() && within(free_block_range(h, #[trigger] blocks[k]), req),
                ),
            },
        },
        Ok(_) => Ok(true),
    }
}

proof fn lemma_first_holding(s: Seq<OwnedRegion>, req: ExecutableRange, i: int)
    requires
        0 <= i,
    ensures
        first_holding(s, req, i) matches Some(k) ==> i <= k < s.len() && within(
            region_range(s[k]),
            req,
        ),
    decreases s.len() - i,
{
    if i < s.len() && !within(region_range(s[i]), req) {
        lemma_first_holding(s, req, i + 1);
    }
}

proof fn lemma_index_of_base(s: Seq<OwnedRegion>, base: u32, i: int)
    requires
        0 <= i,
    ensures
        index_of_base(s, base, i) matches Some(k) ==> i <= k < s.len() && s[k].base == base,
    decreases s.len() - i,
{
    if i < s.len() && s[i].base != base {
        lemma_index_of_base(s, base, i + 1);
    }
}

fn range_of(base: u32, len: usize) -> (r: ExecutableRange)
    ensures
        r == (ExecutableRange { base: GuestAddr(base), len }),
{
    ExecutableRange { base: GuestAddr(base), len }
}

fn find_holding(regions: &[OwnedRegion], req: ExecutableRange) -> (r: Option<usize>)
    ensures
        match first_holding(regions@, req, 0) {
            Some(k) => r matches Some(j) && j == k,
            None => r is None,
        },
{
    let mut i: usize = 0;
    while i < regions.len()
        invariant
            first_holding(regions@, req, 0) == first_holding(regions@, req, i as int),
        decreases regions.len() - i,
    {
        let region = regions[i];
        if range_of(region.base, region.len).contains_range(req) {
            return Some(i);
        }
        i = i + 1;
    }
    None
}

fn find_meeting(regions: &[OwnedRegion], req: ExecutableRange) -> (r: bool)
    ensures
        r == any_meeting(regions@, req),
{
    let mut i: usize = 0;
    while i < regions.len()
        invariant
            forall|k: int| 0 <= k < i ==> !meet(region_range(#[trigger] regions@[k]), req),
        decreases regions.len() - i,
    {
        let region = regions[i];
        if range_of(region.base, region.len).overlaps(req) {
            assert(meet(region_range(regions@[i as int]), req));
            return true;
        }
        i = i + 1;
    }
    false
}

pub(crate) fn find_base(regions: &[OwnedRegion], base: u32) -> (r: Option<usize>)
    ensures
        match index_of_base(regions@, base, 0) {
            Some(k) => r matches Some(j) && j == k,
            None => r is None,
        },
{
    let mut i: usize = 0;
    while i < regions.len()
        invariant
            index_of_base(regions@, base, 0) == index_of_base(regions@, base, i as int),
        decreases regions.len() - i,
    {
        if regions[i].base == base {
            return Some(i);
        }
        i = i + 1;
    }
    None
}

/// A range the placement refused: a fault, or a range the module cannot
/// take, with the message a claim fails with.
pub enum Refused {
    Fault(Error),
    Unclaimable(String),
}

/// `r` is what `p` says.
pub open spec fn refused_matches(r: Result<OutputPlace, Refused>, p: Result<OutputPlace, Refusal>) -> bool {
    match p {
        Ok(place) => r matches Ok(q) && q == place,
        Err(Refusal::Fault(f)) => r matches Err(Refused::Fault(e)) && fault_matches(
            Err::<(), Error>(e),
            f,
        ),
        Err(Refusal::Unclaimable(t)) => r matches Err(Refused::Unclaimable(m)) && m@ == t,
    }
}

fn fault<T>(e: Error) -> (r: Result<T, Refused>)
    ensures
        r matches Err(Refused::Fault(x)) && x == e,
{
    Err(Refused::Fault(e))
}

fn another_module() -> (r: Result<OutputPlace, Refused>)
    ensures
        r matches Err(Refused::Fault(Error::Abi(m))) && m@ == another_module_text(),
{
    proof {
        reveal_strlit("compact RAM output belongs to another module");
    }
    Err(Refused::Fault(Error::Abi(String::from_str("compact RAM output belongs to another module"))))
}

fn unclaimable(address: u32, end: u32, what: &str) -> (r: Result<OutputPlace, Refused>)
    ensures
        r matches Err(Refused::Unclaimable(m)) && m@ == output_text(address, end, what@),
{
    proof {
        reveal_strlit("compact RAM output ");
        reveal_strlit("..");
        reveal_strlit(" ");
    }
    let m = String::from_str("compact RAM output ").concat(hex32(address).as_str()).concat("..").concat(
        hex32(end).as_str(),
    ).concat(" ").concat(what);
    Err(Refused::Unclaimable(m))
}

/// Checks that a view of `len` bytes at `address` into the allocation at
/// `backing` may be handed to `owner`.
pub fn check_allocation_view(
    views: &[AllocationView],
    address: u32,
    len: u32,
    backing: u32,
    owner: u64,
) -> (r: Result<(), Error>)
    ensures
        match view_check(views@, address, len, backing, owner) {
            Ok(()) => r is Ok,
            Err(f) => fault_matches(r, f),
        },
{
    proof {
        reveal_strlit("compact RAM output overlaps another allocation view");
        reveal_strlit("guest allocation views exceeded 256");
    }
    if address == backing {
        return Ok(());
    }
    let req = range_of(address, len as usize);
    let mut replaces_existing = false;
    let mut i: usize = 0;
    while i < views.len()
        invariant
            i <= views@.len(),
            address != backing,
            req == (ExecutableRange { base: GuestAddr(address), len: len as usize }),
            forall|k: int|
                0 <= k < i && meet(view_range(#[trigger] views@[k]), req) ==> views@[k].backing_base
                    == backing && views@[k].owner == owner,
            replaces_existing <==> exists|k: int|
                0 <= k < i && meet(view_range(#[trigger] views@[k]), req),
        decreases views.len() - i,
    {
        let view = views[i];
        if range_of(view.base, view.len as usize).overlaps(req) {
            assert(meet(view_range(views@[i as int]), req));
            if view.backing_base != backing || view.owner != owner {
                assert(0 <= i < views@.len() && meet(view_range(views@[i as int]), req) && (
                views@[i as int].backing_base != backing || views@[i as int].owner != owner));
                return Err(
                    Error::Abi(String::from_str("compact RAM output overlaps another allocation view")),
                );
            }
            replaces_existing = true;
        }
        i = i + 1;
    }
    if !replaces_existing && views.len() >= MAX_ALLOCATION_VIEWS {
        return Err(Error::ResourceLimit(String::from_str("guest allocation views exceeded 256")));
    }
    Ok(())
}

/// Whether `address` is the payload of a legacy wrapper allocation owned by
/// `owner` (see `legacy_wrapper`).
pub fn is_legacy_wrapper_payload(
    memory: &GuestMemory,
    allocations: &[OwnedRegion],
    address: u32,
    block_len: u32,
    owner: u64,
) -> (r: Result<bool, Error>)
    requires
        memory.wf(),
        forall|i: int| 0 <= i < allocations@.len() ==> #[trigger] allocations@[i].len <= u32::MAX,
    ensures
        match legacy_wrapper(memory@, allocations@, address, block_len, owner) {
            Ok(b) => r == Ok::<bool, Error>(b),
            Err(f) => fault_matches(r, f),
        },
{
    proof {
        reveal_strlit("compact RAM wrapper range overflow");
        reveal_strlit("compact RAM wrapper payload overflow");
    }
    if address < 4 {
        return Ok(false);
    }
    let base = address - 4;
    let index = match find_base(allocations, base) {
        Some(i) => i,
        None => return Ok(false),
    };
    proof {
        lemma_index_of_base(allocations@, base, 0);
    }
    let backing = allocations[index];
    match backing.owner {
        None => return Ok(false),
        Some(o) => if o != owner {
            proof {
                reveal_strlit("compact RAM output belongs to another module");
            }
            return Err(Error::Abi(String::from_str("compact RAM output belongs to another module")));
        },
    }
    let payload_len = match memory.read_u32(GuestAddr(base)) {
        Ok(v) => v,
        Err(e) => return Err(e),
    };
    let wrapper_len = match payload_len.checked_add(4) {
        Some(v) => v,
        None => return Ok(false),
    };
    let payload_block_len = match aligned_heap_len(payload_len as usize) {
        Ok(v) => v,
        Err(_) => return Ok(false),
    };
    let expected_backing_len = match aligned_heap_len(wrapper_len as usize) {
        Ok(v) => v,
        Err(_) => return Ok(false),
    };
    if payload_block_len != block_len || expected_backing_len as usize != backing.len {
        return Ok(false);
    }
    let backing_end = match base.checked_add(backing.len as u32) {
        Some(v) => v,
        None => return Err(Error::Abi(String::from_str("compact RAM wrapper range overflow"))),
    };
    let payload_end = match address.checked_add(payload_len) {
        Some(v) => v,
        None => return Err(Error::Abi(String::from_str("compact RAM wrapper payload overflow"))),
    };
    Ok(payload_end <= backing_end)
}

fn place_in_native_window(
    memory: &GuestMemory,
    tables: &OwnershipTables,
    req: ExecutableRange,
    owner: u64,
    end: u32,
) -> (r: Result<OutputPlace, Refused>)
    requires
        memory.wf(),
    ensures
        refused_matches(r, native_place(memory@, tables@, req, owner, end)),
{
    if let Some(o) = tables.native_window_owner {
        if o != owner {
            return another_module();
        }
    }
    let heap_base = match slot_value_exec(memory, 108) {
        Ok(v) => v,
        Err(e) => return fault(e),
    };
    let heap_end = match slot_value_exec(memory, 110) {
        Ok(v) => v,
        Err(e) => return fault(e),
    };
    if heap_base == 0 && heap_end == 0 {
        return Ok(OutputPlace::NativeWindow { in_heap: false });
    }
    let heap = match guest_heap_state(memory) {
        Ok(h) => h,
        Err(e) => return fault(e),
    };
    let heap_range = range_of(heap.base, heap.span as usize);
    if !heap_range.overlaps(req) {
        Ok(OutputPlace::NativeWindow { in_heap: false })
    } else if heap_range.contains_range(req) {
        Ok(OutputPlace::NativeWindow { in_heap: true })
    } else {
        unclaimable(req.base.0, end, "crosses the active heap boundary")
    }
}

fn place_in_heap(memory: &GuestMemory, req: ExecutableRange, end: u32) -> (r: Result<
    OutputPlace,
    Refused,
>)
    requires
        memory.wf(),
    ensures
        refused_matches(r, heap_place(memory@, req, end)),
{
    proof {
        reveal_strlit("active guest heap ");
        reveal_strlit("..");
        reveal_strlit(" is too small");
    }
    let heap_base = match slot_value_exec(memory, 108) {
        Ok(v) => v,
        Err(e) => return fault(e),
    };
    let heap_end = match slot_value_exec(memory, 110) {
        Ok(v) => v,
        Err(e) => return fault(e),
    };
    if heap_base == 0 && heap_end == 0 {
        let m = String::from_str("active guest heap ").concat(hex32(0).as_str()).concat("..").concat(
            hex32(0).as_str(),
        ).concat(" is too small");
        return Err(Refused::Unclaimable(m));
    }
    let heap = match guest_heap_state(memory) {
        Ok(h) => h,
        Err(e) => return fault(e),
    };
    if range_of(heap.base, heap.span as usize).contains_range(req) {
        Ok(OutputPlace::FreeHeap)
    } else {
        unclaimable(req.base.0, end, "is outside module-owned memory")
    }
}

fn place_in_arenas(
    memory: &GuestMemory,
    tables: &OwnershipTables,
    req: ExecutableRange,
    owner: u64,
    end: u32,
) -> (r: Result<OutputPlace, Refused>)
    requires
        memory.wf(),
        req.len <= u32::MAX,
    ensures
        refused_matches(r, arena_place(memory@, tables@, req, owner, end)),
{
    match find_holding(tables.arenas.as_slice(), req) {
        Some(i) => {
            proof {
                lemma_first_holding(tables.arenas@, req, 0);
            }
            let arena = tables.arenas[i];
            if arena.owner != Some(owner) {
                return another_module();
            }
            match check_allocation_view(
                tables.views.as_slice(),
                req.base.0,
                req.len as u32,
                arena.base,
                owner,
            ) {
                Ok(()) => Ok(OutputPlace::Arena { index: i }),
                Err(e) => fault(e),
            }
        },
        None => if find_meeting(tables.arenas.as_slice(), req) {
            unclaimable(req.base.0, end, "partially overlaps a platform allocation")
        } else {
            place_in_heap(memory, req, end)
        },
    }
}

fn place_in_detached(
    memory: &GuestMemory,
    tables: &OwnershipTables,
    req: ExecutableRange,
    owner: u64,
    end: u32,
) -> (r: Result<OutputPlace, Refused>)
    requires
        memory.wf(),
        req.len <= u32::MAX,
    ensures
        refused_matches(r, detached_place(memory@, tables@, req, owner, end)),
{
    let found = find_holding(tables.detached.as_slice(), req);
    proof {
        lemma_first_holding(tables.detached@, req, 0);
    }
    match found {
        Some(i) => {
            let region = tables.detached[i];
            match region.owner {
                Some(o) => if o != owner {
                    another_module()
                } else {
                    Ok(OutputPlace::Detached { index: i, claim_owner: false })
                },
                None => if req.base.0 != region.base {
                    unclaimable(
                        req.base.0,
                        end,
                        "is an interior view of an unowned detached allocation",
                    )
                } else {
                    Ok(OutputPlace::Detached { index: i, claim_owner: true })
                },
            }
        },
        None => if find_meeting(tables.detached.as_slice(), req) {
            unclaimable(req.base.0, end, "partially overlaps a tracked detached allocation")
        } else {
            place_in_arenas(memory, tables, req, owner, end)
        },
    }
}

fn place_in_allocations(
    memory: &GuestMemory,
    tables: &OwnershipTables,
    req: ExecutableRange,
    owner: u64,
    end: u32,
) -> (r: Result<OutputPlace, Refused>)
    requires
        memory.wf(),
        req.len <= u32::MAX,
    ensures
        refused_matches(r, allocation_place(memory@, tables@, req, owner, end)),
{
    match find_holding(tables.allocations.as_slice(), req) {
        Some(i) => {
            proof {
                lemma_first_holding(tables.allocations@, req, 0);
            }
            let region = tables.allocations[i];
            if let Some(o) = region.owner {
                if o != owner {
                    return another_module();
                }
            }
            if region.owner.is_none() && req.base.0 != region.base {
                return unclaimable(req.base.0, end, "is an interior view of an unowned allocation");
            }
            match check_allocation_view(
                tables.views.as_slice(),
                req.base.0,
                req.len as u32,
                region.base,
                owner,
            ) {
                Ok(()) => Ok(OutputPlace::Allocation { index: i, claim_owner: region.owner.is_none() }),
                Err(e) => fault(e),
            }
        },
        None => if find_meeting(tables.allocations.as_slice(), req) {
            unclaimable(req.base.0, end, "partially overlaps a tracked allocation")
        } else {
            place_in_detached(memory, tables, req, owner, end)
        },
    }
}

fn classify_output(
    memory: &GuestMemory,
    tables: &OwnershipTables,
    address: u32,
    block_len: u32,
    module_generations: &[u64],
    module: usize,
) -> (r: Result<OutputPlace, Refused>)
    requires
        memory.wf(),
        tables.wf(),
    ensures
        refused_matches(
            r,
            output_place(memory@, tables@, address, block_len, module_generations@, module),
        ),
{
    proof {
        reveal_strlit("compact RAM output range overflow");
        reveal_strlit("compact RAM output for missing module ");
    }
    let req = range_of(address, block_len as usize);
    let end = match req.end() {
        Some(e) => e,
        None => return fault(Error::Abi(String::from_str("compact RAM output range overflow"))),
    };
    if module >= module_generations.len() {
        let m = String::from_str("compact RAM output for missing module ").concat(
            decimal(module as u64).as_str(),
        );
        return fault(Error::Abi(m));
    }
    let owner = module_generations[module];
    match is_legacy_wrapper_payload(memory, tables.allocations.as_slice(), address, block_len, owner) {
        Err(e) => fault(e),
        Ok(true) => Ok(OutputPlace::LegacyWrapper),
        Ok(false) => if range_of(NATIVE_WINDOW_BASE, NATIVE_WINDOW_LEN).contains_range(req) {
            place_in_native_window(memory, tables, req, owner, end)
        } else {
            place_in_allocations(memory, tables, req, owner, end)
        },
    }
}

/// Finds where the `block_len` bytes at `address` lie for the module at
/// index `module` of `module_generations` (see `output_place`); a range the
/// module cannot take is refused with an `Abi` error.
pub fn locate_prepared_output(
    memory: &GuestMemory,
    tables: &OwnershipTables,
    address: u32,
    block_len: u32,
    module_generations: &[u64],
    module: usize,
) -> (r: Result<OutputPlace, Error>)
    requires
        memory.wf(),
        tables.wf(),
    ensures
        place_matches(
            r,
            output_place(memory@, tables@, address, block_len, module_generations@, module),
        ),
{
    match classify_output(memory, tables, address, block_len, module_generations, module) {
        Ok(p) => Ok(p),
        Err(Refused::Fault(e)) => Err(e),
        Err(Refused::Unclaimable(m)) => Err(Error::Abi(m)),
    }
}

/// The heap allocation lengths by base address, as the free-list reader
/// takes them.
pub fn allocation_lengths(allocations: &[OwnedRegion]) -> (m: BTreeMap<u32, u32>)
    requires
        forall|i: int| 0 <= i < allocations@.len() ==> #[trigger] allocations@[i].len <= u32::MAX,
    ensures
        m@ == allocation_lengths_map(allocations@),
{
    let mut m: BTreeMap<u32, u32> = BTreeMap::new();
    let mut i: usize = 0;
    while i < allocations.len()
        invariant
            i <= allocations@.len(),
            forall|k: int| 0 <= k < allocations@.len() ==> #[trigger] allocations@[k].len <= u32::MAX,
            m@ == allocation_lengths_map(allocations@.take(i as int)),
        decreases allocations.len() - i,
    {
        let region = allocations[i];
        m.insert(region.base, region.len as u32);
        assert(allocations@.take(i + 1).drop_last() == allocations@.take(i as int));
        i = i + 1;
    }
    assert(allocations@.take(allocations@.len() as int) == allocations@);
    m
}

/// Whether the module at index `module` of `module_generations` may take
/// the `block_len` bytes at `address` as the output of a compact package
/// read (see `output_claimable`); `snapshot` is what the host last wrote of
/// the heap's free list.
#[verifier::loop_isolation(false)]
pub fn prepared_output_candidate_is_claimable_by_module(
    memory: &GuestMemory,
    tables: &OwnershipTables,
    snapshot: &Option<GuestHeapSnapshot>,
    address: u32,
    block_len: u32,
    module_generations: &[u64],
    module: usize,
) -> (r: Result<bool, Error>)
    requires
        memory.wf(),
        tables.wf(),
    ensures
        match output_claimable(
            memory@,
            tables@,
            snapshot_view(*snapshot),
            address,
            block_len,
            module_generations@,
            module,
        ) {
            Ok(b) => r == Ok::<bool, Error>(b),
            Err(f) => fault_matches(r, f),
        },
{
    match classify_output(memory, tables, address, block_len, module_generations, module) {
        Ok(OutputPlace::FreeHeap) => {},
        Ok(_) => return Ok(true),
        Err(Refused::Unclaimable(_)) => return Ok(false),
        Err(Refused::Fault(e)) => return Err(e),
    }
    let heap = match guest_heap_state(memory) {
        Ok(h) => h,
        Err(e) => return Err(e),
    };
    let lengths = allocation_lengths(tables.allocations.as_slice());
    let (blocks, _, _) = match read_free_blocks(memory, heap, snapshot, &lengths) {
        Ok(v) => v,
        Err(e) => return Err(e),
    };
    let req = range_of(address, block_len as usize);
    let mut i: usize = 0;
    while i < blocks.len()
        invariant
            i <= blocks@.len(),
            forall|k: int| 0 <= k < i ==> !within(free_block_range(heap, #[trigger] blocks@[k]), req),
        decreases blocks.len() - i,
    {
        let block = blocks[i];
        if range_of(heap.base.wrapping_add(block.offset), block.len as usize).contains_range(req) {
            assert(within(free_block_range(heap, blocks@[i as int]), req));
            return Ok(true);
        }
        i = i + 1;
    }
    Ok(false)
}

/// A placed range never belongs to another module: it lies in a region the
/// module owns, or in an unowned region it starts (which the claim then
/// gives the module), or in the active heap clear of every tracked region;
/// inside the native-extension window it is claimed only when the window
/// has no other owner.
pub proof fn lemma_placed_output_is_owned(
    m: MemView,
    t: TablesView,
    address: u32,
    block_len: u32,
    generations: Seq<u64>,
    module: usize,
)
    requires
        t.allocations.len() <= usize::MAX,
        t.detached.len() <= usize::MAX,
        t.arenas.len() <= usize::MAX,
        output_place(m, t, address, block_len, generations, module) is Ok,
    ensures
        ({
            let req = ExecutableRange { base: GuestAddr(address), len: block_len as usize };
            let owner = generations[module as int];
            &&& module < generations.len()
            &&& match output_place(m, t, address, block_len, generations, module)->Ok_0 {
                OutputPlace::LegacyWrapper => legacy_wrapper(m, t.allocations, address, block_len, owner)
                    == Ok::<bool, GuestFault>(true),
                OutputPlace::NativeWindow { in_heap } => within(native_window(), req) && (
                t.native_window_owner is None || t.native_window_owner == Some(owner)),
                OutputPlace::Allocation { index, claim_owner } => {
                    let r = t.allocations[index as int];
                    &&& index < t.allocations.len()
                    &&& within(region_range(r), req)
                    &&& if claim_owner {
                        r.owner is None && r.base == address
                    } else {
                        r.owner == Some(owner)
                    }
                },
                OutputPlace::Detached { index, claim_owner } => {
                    let r = t.detached[index as int];
                    &&& index < t.detached.len()
                    &&& within(region_range(r), req)
                    &&& if claim_owner {
                        r.owner is None && r.base == address
                    } else {
                        r.owner == Some(owner)
                    }
                },
                OutputPlace::Arena { index } => index < t.arenas.len() && within(
                    region_range(t.arenas[index as int]),
                    req,
                ) && t.arenas[index as int].owner == Some(owner),
                OutputPlace::FreeHeap => !any_meeting(t.allocations, req) && !any_meeting(
                    t.detached,
                    req,
                ) && !any_meeting(t.arenas, req),
            }
        }),
{
    let req = ExecutableRange { base: GuestAddr(address), len: block_len as usize };
    lemma_first_holding(t.allocations, req, 0);
    lemma_first_holding(t.detached, req, 0);
    lemma_first_holding(t.arenas, req, 0);
    let p = output_place(m, t, address, block_len, generations, module)->Ok_0;
    match p {
        OutputPlace::FreeHeap => {
            assert(first_holding(t.allocations, req, 0) is None);
            assert(first_holding(t.detached, req, 0) is None);
            assert(first_holding(t.arenas, req, 0) is None);
        },
        _ => {},
    }
}

/// The check for a prepared output agrees with its placement: a range
/// placed outside the free heap is claimable, a range the module cannot take
/// is not, a fault of the placement is the check's fault, and a range the
/// check accepts has a place.
pub proof fn lemma_claimable_agrees_with_place(
    m: MemView,
    t: TablesView,
    snap: Option<SnapshotView>,
    address: u32,
    block_len: u32,
    generations: Seq<u64>,
    module: usize,
)
    ensures
        ({
            let p = output_place(m, t, address, block_len, generations, module);
            let c = output_claimable(m, t, snap, address, block_len, generations, module);
            &&& (p matches Ok(q) && q != OutputPlace::FreeHeap) ==> c == Ok::<bool, GuestFault>(true)
            &&& p matches Err(Refusal::Unclaimable(_)) ==> c == Ok::<bool, GuestFault>(false)
            &&& p matches Err(Refusal::Fault(f)) ==> c == Err::<bool, GuestFault>(f)
            &&& c == Ok::<bool, GuestFault>(true) ==> p is Ok
        }),
{
}

} // verus!
