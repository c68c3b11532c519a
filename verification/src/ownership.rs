//! Which module owns a range of tracked guest memory, and whether a module
//! may pass an address to an allocation service.
use crate::error::Error;
use crate::exec_range::ExecutableRange;
use crate::guest_strings::{fault_matches, GuestFault};
use crate::heap::{aligned_heap_len, heap_block_len};
use crate::output_claim::{region_range, within, AllocationView, OwnedRegion, OwnershipTables, TablesView};
use crate::text::{dec_text, decimal};
use vstd::prelude::*;
use vstd::string::*;

verus! {

/// The owner of the first region from index `i` on that holds `req` and has
/// an owner.
pub open spec fn first_owner(s: Seq<OwnedRegion>, req: ExecutableRange, i: int) -> Option<u64>
    decreases s.len() - i,
{
    if i < 0 || i >= s.len() {
        None
    } else if within(region_range(s[i]), req) && s[i].owner is Some {
        s[i].owner
    } else {
        first_owner(s, req, i + 1)
    }
}

/// The module generation that owns `req`: that of the first heap
/// allocation holding it with a recorded owner, else of the first such
/// detached allocation, else of the first platform arena holding it.
pub open spec fn range_owner(t: TablesView, req: ExecutableRange) -> Option<u64> {
    match first_owner(t.allocations, req, 0) {
        Some(o) => Some(o),
        None => match first_owner(t.detached, req, 0) {
            Some(o) => Some(o),
            None => first_owner(t.arenas, req, 0),
        },
    }
}

fn find_owner(regions: &[OwnedRegion], req: ExecutableRange) -> (r: Option<u64>)
    ensures
        r == first_owner(regions@, req, 0),
{
    let mut i: usize = 0;
    while i < regions.len()
        invariant
            first_owner(regions@, req, 0) == first_owner(regions@, req, i as int),
        decreases regions.len() - i,
    {
        let region = regions[i];
        if (ExecutableRange { base: crate::memory::GuestAddr(region.base), len: region.len }).contains_range(
            req,
        ) && region.owner.is_some() {
            return region.owner;
        }
        i = i + 1;
    }
    None
}

/// The module generation that owns the range `req` (see `range_owner`).
pub fn allocation_owner_for_range(tables: &OwnershipTables, req: ExecutableRange) -> (r: Option<u64>)
    ensures
        r == range_owner(tables@, req),
{
    match find_owner(tables.allocations.as_slice(), req) {
        Some(o) => Some(o),
        None => match find_owner(tables.detached.as_slice(), req) {
            Some(o) => Some(o),
            None => find_owner(tables.arenas.as_slice(), req),
        },
    }
}

/// A tracked region as the owner check sees it: base, length and owner.
pub open spec fn tracked_regions_of(t: TablesView) -> Seq<OwnedRegion> {
    t.allocations + t.detached
}

/// The first view from index `i` on that starts at `address`.
pub open spec fn view_at(views: Seq<AllocationView>, address: u32, i: int) -> Option<int>
    decreases views.len() - i,
{
    if i < 0 || i >= views.len() {
        None
    } else if views[i].base == address {
        Some(i)
    } else {
        view_at(views, address, i + 1)
    }
}

/// The first view from index `i` on whose interior holds `address`.
pub open spec fn view_inside(views: Seq<AllocationView>, address: u32, i: int) -> Option<int>
    decreases views.len() - i,
{
    if i < 0 || i >= views.len() {
        None
    } else if views[i].base < address < views[i].base + views[i].len {
        Some(i)
    } else {
        view_inside(views, address, i + 1)
    }
}

/// The first region from index `i` on that holds the address `address`.
pub open spec fn region_at(s: Seq<OwnedRegion>, address: u32, i: int) -> Option<int>
    decreases s.len() - i,
{
    if i < 0 || i >= s.len() {
        None
    } else if s[i].base <= address < s[i].base + s[i].len {
        Some(i)
    } else {
        region_at(s, address, i + 1)
    }
}

/// The first region from index `i` on that shares an address with
/// `[start, end)`.
pub open spec fn region_meeting(s: Seq<OwnedRegion>, start: int, end: int, i: int) -> Option<int>
    decreases s.len() - i,
{
    if i < 0 || i >= s.len() {
        None
    } else if start < s[i].base + s[i].len && s[i].base < end {
        Some(i)
    } else {
        region_meeting(s, start, end, i + 1)
    }
}

/// `operation` followed by `what`.
pub open spec fn op_text(operation: Seq<char>, what: Seq<char>) -> Seq<char> {
    operation + what
}

/// Whether the module at index `module` may pass `address` (with `len`
/// bytes) to `operation`: addresses 0 and 1 pass; an address inside a view
/// or a tracked allocation must be the start of one the module owns or that
/// has no owner; an address outside every tracked allocation must not reach
/// into one with the block its length needs.
pub open spec fn owner_check(
    t: TablesView,
    address: u32,
    len: usize,
    generations: Seq<u64>,
    module: usize,
    operation: Seq<char>,
) -> Result<(), GuestFault> {
    if address <= 1 {
        Ok(())
    } else if module >= generations.len() {
        Err(GuestFault::Abi(op_text(operation, " for missing module "@ + dec_text(module as nat))))
    } else {
        let caller = generations[module as int];
        match view_at(t.views, address, 0) {
            Some(i) => if t.views[i].owner != caller {
                Err(
                    GuestFault::Abi(
                        op_text(operation, " references an allocation view owned by another module"@),
                    ),
                )
            } else {
                Ok(())
            },
            None => match view_inside(t.views, address, 0) {
                Some(i) => if t.views[i].owner != caller {
                    Err(
                        GuestFault::Abi(
                            op_text(
                                operation,
                                " references an allocation view owned by another module"@,
                            ),
                        ),
                    )
                } else {
                    Err(
                        GuestFault::Abi(
                            op_text(
                                operation,
                                " must reference the start of a tracked allocation view"@,
                            ),
                        ),
                    )
                },
                None => match region_at(tracked_regions_of(t), address, 0) {
                    Some(i) => {
                        let r = tracked_regions_of(t)[i];
                        if r.owner matches Some(o) && o != caller {
                            Err(
                                GuestFault::Abi(
                                    op_text(
                                        operation,
                                        " references an allocation owned by another module"@,
                                    ),
                                ),
                            )
                        } else if address != r.base {
                            Err(
                                GuestFault::Abi(
                                    op_text(
                                        operation,
                                        " must reference the start of a tracked allocation"@,
                                    ),
                                ),
                            )
                        } else {
                            Ok(())
                        }
                    },
                    None => if len > 0 && len + 7 > u32::MAX {
                        if len > u32::MAX {
                            Err(
                                GuestFault::Arm(
                                    "guest allocation length "@ + dec_text(len as nat)
                                        + " does not fit u32"@,
                                ),
                            )
                        } else {
                            Err(GuestFault::Arm("guest allocation length alignment overflow"@))
                        }
                    } else {
                        let needed = if len == 0 {
                            1
                        } else {
                            heap_block_len(len as int)
                        };
                        if address + needed > 0x1_0000_0000 {
                            Err(GuestFault::Abi(op_text(operation, " range exceeds guest memory"@)))
                        } else {
                            match region_meeting(tracked_regions_of(t), address as int, address + needed, 0) {
                                Some(i) => if tracked_regions_of(t)[i].owner matches Some(o) && o != caller {
                                    Err(
                                        GuestFault::Abi(
                                            op_text(
                                                operation,
                                                " references an allocation owned by another module"@,
                                            ),
                                        ),
                                    )
                                } else {
                                    Err(
                                        GuestFault::Abi(
                                            op_text(
                                                operation,
                                                " range overlaps a tracked allocation"@,
                                            ),
                                        ),
                                    )
                                },
                                None => Ok(()),
                            }
                        }
                    },
                },
            },
        }
    }
}

fn refuse(operation: &str, what: &str) -> (r: Result<(), Error>)
    ensures
        r matches Err(Error::Abi(m)) && m@ == op_text(operation@, what@),
{
    Err(Error::Abi(String::from_str(operation).concat(what)))
}

fn find_view_at(views: &[AllocationView], address: u32) -> (r: Option<usize>)
    ensures
        match view_at(views@, address, 0) {
            Some(k) => r matches Some(j) && j == k,
            None => r is None,
        },
{
    let mut i: usize = 0;
    while i < views.len()
        invariant
            view_at(views@, address, 0) == view_at(views@, address, i as int),
        decreases views.len() - i,
    {
        if views[i].base == address {
            return Some(i);
        }
        i = i + 1;
    }
    None
}

fn find_view_inside(views: &[AllocationView], address: u32) -> (r: Option<usize>)
    ensures
        match view_inside(views@, address, 0) {
            Some(k) => r matches Some(j) && j == k,
            None => r is None,
        },
{
    let mut i: usize = 0;
    while i < views.len()
        invariant
            view_inside(views@, address, 0) == view_inside(views@, address, i as int),
        decreases views.len() - i,
    {
        let view = views[i];
        if view.base < address && (address as u64) < (view.base as u64) + (view.len as u64) {
            return Some(i);
        }
        i = i + 1;
    }
    None
}

/// `allocations` followed by `detached`, as one list.
fn tracked_regions(tables: &OwnershipTables) -> (v: Vec<OwnedRegion>)
    ensures
        v@ == tracked_regions_of(tables@),
{
    let mut v: Vec<OwnedRegion> = Vec::new();
    let mut i: usize = 0;
    while i < tables.allocations.len()
        invariant
            i <= tables.allocations@.len(),
            v@ == tables.allocations@.take(i as int),
        decreases tables.allocations.len() - i,
    {
        v.push(tables.allocations[i]);
        i = i + 1;
        assert(v@ =~= tables.allocations@.take(i as int));
    }
    let mut j: usize = 0;
    while j < tables.detached.len()
        invariant
            i == tables.allocations@.len(),
            j <= tables.detached@.len(),
            v@ == tables.allocations@ + tables.detached@.take(j as int),
        decreases tables.detached.len() - j,
    {
        v.push(tables.detached[j]);
        j = j + 1;
        assert(v@ =~= tables.allocations@ + tables.detached@.take(j as int));
    }
    assert(tables.allocations@.take(i as int) =~= tables.allocations@);
    assert(tables.detached@.take(j as int) =~= tables.detached@);
    v
}

fn find_region_at(s: &[OwnedRegion], address: u32) -> (r: Option<usize>)
    ensures
        match region_at(s@, address, 0) {
            Some(k) => r matches Some(j) && j == k,
            None => r is None,
        },
{
    let mut i: usize = 0;
    while i < s.len()
        invariant
            region_at(s@, address, 0) == region_at(s@, address, i as int),
        decreases s.len() - i,
    {
        let region = s[i];
        if region.base <= address && (address as u128) < (region.base as u128) + (region.len as u128) {
            return Some(i);
        }
        i = i + 1;
    }
    None
}

fn find_region_meeting(s: &[OwnedRegion], start: u64, end: u64) -> (r: Option<usize>)
    ensures
        match region_meeting(s@, start as int, end as int, 0) {
            Some(k) => r matches Some(j) && j == k,
            None => r is None,
        },
{
    let mut i: usize = 0;
    while i < s.len()
        invariant
            region_meeting(s@, start as int, end as int, 0) == region_meeting(
                s@,
                start as int,
                end as int,
                i as int,
            ),
        decreases s.len() - i,
    {
        let region = s[i];
        if (start as u128) < (region.base as u128) + (region.len as u128) && (region.base as u64)
            < end {
            return Some(i);
        }
        i = i + 1;
    }
    None
}

proof fn lemma_view_at_bounds(views: Seq<AllocationView>, address: u32, i: int)
    requires
        0 <= i,
    ensures
        view_at(views, address, i) matches Some(k) ==> i <= k < views.len(),
        view_inside(views, address, i) matches Some(k) ==> i <= k < views.len(),
    decreases views.len() - i,
{
    if i < views.len() {
        lemma_view_at_bounds(views, address, i + 1);
    }
}

proof fn lemma_region_bounds(s: Seq<OwnedRegion>, address: u32, start: int, end: int, i: int)
    requires
        0 <= i,
    ensures
        region_at(s, address, i) matches Some(k) ==> i <= k < s.len(),
        region_meeting(s, start, end, i) matches Some(k) ==> i <= k < s.len(),
    decreases s.len() - i,
{
    if i < s.len() {
        lemma_region_bounds(s, address, start, end, i + 1);
    }
}

/// Checks that the module at index `module` of `module_generations` may
/// pass `address` (with `len` bytes) to `operation` (see `owner_check`).
pub fn validate_guest_allocation_owner(
    tables: &OwnershipTables,
    address: u32,
    len: usize,
    module_generations: &[u64],
    module: usize,
    operation: &str,
) -> (r: Result<(), Error>)
    ensures
        match owner_check(tables@, address, len, module_generations@, module, operation@) {
            Ok(()) => r is Ok,
            Err(f) => fault_matches(r, f),
        },
{
    proof {
        reveal_strlit(" for missing module ");
    }
    if address <= 1 {
        return Ok(());
    }
    if module >= module_generations.len() {
        let m = String::from_str(operation).concat(" for missing module ").concat(
            decimal(module as u64).as_str(),
        );
        assert(m@ =~= op_text(operation@, " for missing module "@ + dec_text(module as nat)));
        return Err(Error::Abi(m));
    }
    let caller = module_generations[module];
    proof {
        lemma_view_at_bounds(tables.views@, address, 0);
    }
    if let Some(i) = find_view_at(tables.views.as_slice(), address) {
        if tables.views[i].owner != caller {
            return refuse(operation, " references an allocation view owned by another module");
        }
        return Ok(());
    }
    if let Some(i) = find_view_inside(tables.views.as_slice(), address) {
        if tables.views[i].owner != caller {
            return refuse(operation, " references an allocation view owned by another module");
        }
        return refuse(operation, " must reference the start of a tracked allocation view");
    }
    let regions = tracked_regions(tables);
    proof {
        lemma_region_bounds(regions@, address, 0, 0, 0);
    }
    if let Some(i) = find_region_at(regions.as_slice(), address) {
        let region = regions[i];
        if let Some(o) = region.owner {
            if o != caller {
                return refuse(operation, " references an allocation owned by another module");
            }
        }
        if address != region.base {
            return refuse(operation, " must reference the start of a tracked allocation");
        }
        return Ok(());
    }
    let needed: u64 = if len == 0 {
        1
    } else {
        match aligned_heap_len(len) {
            Ok(v) => v as u64,
            Err(e) => return Err(e),
        }
    };
    let end = address as u64 + needed;
    if end > 0x1_0000_0000u64 {
        return refuse(operation, " range exceeds guest memory");
    }
    proof {
        lemma_region_bounds(regions@, address, address as int, end as int, 0);
    }
    if let Some(i) = find_region_meeting(regions.as_slice(), address as u64, end) {
        let region = regions[i];
        if let Some(o) = region.owner {
            if o != caller {
                return refuse(operation, " references an allocation owned by another module");
            }
        }
        return refuse(operation, " range overlaps a tracked allocation");
    }
    Ok(())
}

} // verus!
