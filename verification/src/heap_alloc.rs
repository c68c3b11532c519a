//! Allocating a block from the guest heap: the free list read from guest
//! memory, the first block the request fits, the list written back and the
//! bytes cleared, and the host's tables brought up to date.
use crate::error::Error;
use crate::exec_range::{merge_executable_intervals, ExecutableRange};
use crate::guest_strings::{fault_matches, GuestFault};
use crate::heap::{first_fit, plan_heap_allocation, recovery_text, remainder_blocks, remainder_len, FreeBlock, FREE_BLOCK_HEADER_LEN, HEAP_ALIGNMENT};
use crate::heap_io::{
    free_list_read, free_list_write, guest_heap_state, heap_state, list_head, read_free_blocks, snapshot_view,
    write_free_blocks, GuestHeapSnapshot, GuestHeapState, SnapshotView,
};
use crate::memory::{GuestAddr, GuestMemory, MemView};
use crate::output_claim::{allocation_lengths_map, AllocationView, OwnedRegion, OwnershipTables, TablesView};
use std::collections::BTreeMap;
use vstd::prelude::*;

verus! {

/// What allocating `required` bytes, 8-byte aligned, from the free list
/// `blocks` plans: the first block the request fits is replaced by what is
/// left of it (`None` when no block fits or the free-byte count, once the
/// recovered bytes are taken off, is too small): the offset, the new list,
/// the new free-byte count and the bytes freeing the block gives back.
pub open spec fn allocation_plan(
    blocks: Seq<FreeBlock>,
    required: u32,
    free_left: u32,
    recovered_len: u32,
) -> Result<Option<(u32, Seq<FreeBlock>, u32, u32)>, GuestFault> {
    match first_fit(blocks, required, (HEAP_ALIGNMENT - 1) as u32, 0) {
        None => Ok(None),
        Some((index, start)) => {
            let block = blocks[index];
            let consumed = block.len - remainder_len(block, start, required);
            let discarded = if start - block.offset < FREE_BLOCK_HEADER_LEN {
                start - block.offset
            } else {
                0
            };
            if free_left < recovered_len {
                Err(GuestFault::Abi(recovery_text(free_left, recovered_len)))
            } else if free_left - recovered_len < consumed {
                Ok(None)
            } else {
                Ok(
                    Some(
                        (
                            start,
                            blocks.take(index) + remainder_blocks(block, start, required) + blocks.skip(
                                index + 1,
                            ),
                            (free_left - recovered_len - consumed) as u32,
                            (consumed - discarded) as u32,
                        ),
                    ),
                )
            }
        },
    }
}

/// Allocating `required` bytes from the heap the platform slots describe,
/// given the host's last snapshot and allocation lengths: the memory after
/// the free list is written back and the block cleared, the block's
/// address, the bytes freeing it gives back, and the new snapshot; `None`
/// when nothing fits; or the first fault with the memory and the snapshot
/// as it leaves them (the list already written when clearing the block
/// faults, and the snapshot taken of it).
pub open spec fn heap_block_allocated(
    m: MemView,
    snap: Option<SnapshotView>,
    allocations: Map<u32, u32>,
    required: u32,
) -> Result<Option<(MemView, u32, u32, SnapshotView)>, (GuestFault, MemView, Option<SnapshotView>)> {
    match heap_state(m) {
        Err(f) => Err((f, m, snap)),
        Ok(heap) => match free_list_read(m, heap, snap, allocations) {
            Err(f) => Err((f, m, snap)),
            Ok((blocks, terminator, recovered)) => match allocation_plan(blocks, required, heap.free_left, recovered) {
                Err(f) => Err((f, m, snap)),
                Ok(None) => Ok(None),
                Ok(Some((start, list, free_left, reclaim))) => {
                    let (m1, fault) = free_list_write(m, heap, list, terminator, free_left);
                    let written = SnapshotView {
                        base: heap.base,
                        span: heap.span,
                        head: list_head(list, terminator),
                        free_left,
                        blocks: list,
                        terminator,
                    };
                    match fault {
                        Some(f) => Err((f, m1, snap)),
                        None => {
                            let address = heap.base.wrapping_add(start);
                            match m1.store(address, Seq::new(required as nat, |i: int| 0u8)) {
                                Err(t) => Err((GuestFault::Arm(t), m1, Some(written))),
                                Ok(m2) => Ok(Some((m2, address, reclaim, written))),
                            }
                        },
                    }
                },
            },
        },
    }
}

/// Allocates `required` bytes from the guest heap, as `heap_block_allocated`
/// says; the snapshot is replaced by the one the free list was written with.
pub fn allocate_heap_block(
    memory: &mut GuestMemory,
    snapshot: &mut Option<GuestHeapSnapshot>,
    allocations: &BTreeMap<u32, u32>,
    required: u32,
) -> (r: Result<Option<(GuestAddr, u32)>, Error>)
    requires
        old(memory).wf(),
    ensures
        final(memory).wf(),
        match heap_block_allocated(old(memory)@, snapshot_view(*old(snapshot)), allocations@, required) {
            Err((f, m, snap)) => fault_matches(r, f) && final(memory)@ == m && snapshot_view(*final(snapshot)) == snap,
            Ok(None) => r matches Ok(None) && final(memory)@ == old(memory)@ && snapshot_view(*final(snapshot))
                == snapshot_view(*old(snapshot)),
            Ok(Some((m, address, reclaim, snap))) => r == Ok::<Option<(GuestAddr, u32)>, Error>(
                Some((GuestAddr(address), reclaim)),
            ) && final(memory)@ == m && snapshot_view(*final(snapshot)) == Some(snap),
        },
{
    let heap = match guest_heap_state(memory) {
        Ok(h) => h,
        Err(e) => return Err(e),
    };
    let (blocks, terminator, recovered) = match read_free_blocks(memory, heap, snapshot, allocations) {
        Ok(v) => v,
        Err(e) => return Err(e),
    };
    let plan = match plan_heap_allocation(blocks.as_slice(), required, HEAP_ALIGNMENT, heap.free_left, recovered) {
        Ok(p) => p,
        Err(e) => return Err(e),
    };
    let a = match plan {
        Some(a) => a,
        None => return Ok(None),
    };
    let written = match write_free_blocks(memory, heap, a.blocks.as_slice(), terminator, a.free_left) {
        Ok(s) => s,
        Err(e) => return Err(e),
    };
    *snapshot = Some(written);
    let address = heap.base.wrapping_add(a.start);
    let zeros = vec![0u8; required as usize];
    assert(zeros@ =~= Seq::new(required as nat, |i: int| 0u8));
    match memory.write(GuestAddr(address), zeros.as_slice()) {
        Ok(()) => {},
        Err(e) => return Err(e),
    }
    Ok(Some((GuestAddr(address), a.reclaim_len)))
}

/// A tracked allocation the new block at `a` of `n` bytes leaves alone:
/// it ends at or before `a` or starts at or after the block's end.
pub open spec fn untouched(r: OwnedRegion, a: u32, n: u32) -> bool {
    r.base + r.len <= a || r.base >= a + n
}

/// The tracked allocations a new block leaves alone, in order.
pub open spec fn untouched_allocations(s: Seq<OwnedRegion>, a: u32, n: u32) -> Seq<OwnedRegion>
    decreases s.len(),
{
    if s.len() == 0 {
        Seq::empty()
    } else {
        untouched_allocations(s.drop_last(), a, n) + (if untouched(s.last(), a, n) {
            seq![s.last()]
        } else {
            Seq::empty()
        })
    }
}

/// The range a tracked allocation covers.
pub open spec fn tracked_range(r: OwnedRegion) -> ExecutableRange {
    ExecutableRange { base: GuestAddr(r.base), len: r.len }
}

/// Two ranges share an address, or one of them has no valid end.
pub open spec fn ranges_meet(t: ExecutableRange, u: ExecutableRange) -> bool {
    match (t.end_spec(), u.end_spec()) {
        (Some(end), Some(other_end)) => t.base.0 < other_end && u.base.0 < end,
        _ => true,
    }
}

/// The tracked allocations that meet the new block, as ranges, in order.
pub open spec fn met_ranges(s: Seq<OwnedRegion>, req: ExecutableRange) -> Seq<ExecutableRange>
    decreases s.len(),
{
    if s.len() == 0 {
        Seq::empty()
    } else {
        met_ranges(s.drop_last(), req) + (if ranges_meet(tracked_range(s.last()), req) {
            seq![tracked_range(s.last())]
        } else {
            Seq::empty()
        })
    }
}

/// The owner recorded for an allocation at `base`, if one is tracked.
pub open spec fn owner_at(s: Seq<OwnedRegion>, base: u32) -> Option<u64>
    decreases s.len(),
{
    if s.len() == 0 {
        None
    } else if s[0].base == base {
        s[0].owner
    } else {
        owner_at(s.drop_first(), base)
    }
}

/// `s` with `r` put in base order, replacing an entry at the same base.
pub open spec fn put_by_base(s: Seq<OwnedRegion>, r: OwnedRegion) -> Seq<OwnedRegion>
    decreases s.len(),
{
    if s.len() == 0 {
        seq![r]
    } else if s[0].base == r.base {
        seq![r] + s.drop_first()
    } else if s[0].base > r.base {
        seq![r] + s
    } else {
        seq![s[0]] + put_by_base(s.drop_first(), r)
    }
}

/// Some region of `s` starts at `base`.
pub open spec fn has_base(s: Seq<OwnedRegion>, base: u32) -> bool {
    exists|i: int| 0 <= i < s.len() && #[trigger] s[i].base == base
}

/// The views whose backing allocation is still tracked, or is an arena.
pub open spec fn backed_views(v: Seq<AllocationView>, allocations: Seq<OwnedRegion>, arenas: Seq<OwnedRegion>) -> Seq<
    AllocationView,
>
    decreases v.len(),
{
    if v.len() == 0 {
        Seq::empty()
    } else {
        backed_views(v.drop_last(), allocations, arenas) + (if has_base(allocations, v.last().backing_base)
            || has_base(arenas, v.last().backing_base) {
            seq![v.last()]
        } else {
            Seq::empty()
        })
    }
}

proof fn lemma_untouched_lens(s: Seq<OwnedRegion>, a: u32, n: u32)
    requires
        forall|i: int| 0 <= i < s.len() ==> #[trigger] s[i].len <= u32::MAX,
    ensures
        forall|i: int|
            0 <= i < untouched_allocations(s, a, n).len() ==> #[trigger] untouched_allocations(s, a, n)[i].len
                <= u32::MAX,
    decreases s.len(),
{
    if s.len() > 0 {
        lemma_untouched_lens(s.drop_last(), a, n);
    }
}

proof fn lemma_put_lens(s: Seq<OwnedRegion>, r: OwnedRegion)
    requires
        forall|i: int| 0 <= i < s.len() ==> #[trigger] s[i].len <= u32::MAX,
        r.len <= u32::MAX,
    ensures
        forall|i: int| 0 <= i < put_by_base(s, r).len() ==> #[trigger] put_by_base(s, r)[i].len <= u32::MAX,
    decreases s.len(),
{
    if s.len() > 0 && s[0].base < r.base {
        lemma_put_lens(s.drop_first(), r);
        let p = put_by_base(s, r);
        assert forall|i: int| 0 <= i < p.len() implies #[trigger] p[i].len <= u32::MAX by {
            if i > 0 {
                assert(p[i] == put_by_base(s.drop_first(), r)[i - 1]);
            }
        }
    } else if s.len() > 0 && s[0].base == r.base {
        let p = put_by_base(s, r);
        assert forall|i: int| 0 <= i < p.len() implies #[trigger] p[i].len <= u32::MAX by {
            if i > 0 {
                assert(p[i] == s[i]);
            }
        }
    } else if s.len() > 0 {
        let p = put_by_base(s, r);
        assert forall|i: int| 0 <= i < p.len() implies #[trigger] p[i].len <= u32::MAX by {
            if i > 0 {
                assert(p[i] == s[i - 1]);
            }
        }
    }
}

fn keep_untouched(s: &Vec<OwnedRegion>, a: u32, n: u32) -> (r: Vec<OwnedRegion>)
    requires
        forall|i: int| 0 <= i < s@.len() ==> #[trigger] s@[i].len <= u32::MAX,
    ensures
        r@ == untouched_allocations(s@, a, n),
{
    let mut r: Vec<OwnedRegion> = Vec::new();
    let mut i: usize = 0;
    while i < s.len()
        invariant
            i <= s.len(),
            r@ == untouched_allocations(s@.subrange(0, i as int), a, n),
            forall|k: int| 0 <= k < s@.len() ==> #[trigger] s@[k].len <= u32::MAX,
        decreases s.len() - i,
    {
        assert(s@.subrange(0, i + 1).drop_last() =~= s@.subrange(0, i as int));
        assert(s@.subrange(0, i + 1).last() == s@[i as int]);
        let x = s[i];
        if (x.base as u64) + (x.len as u64) <= a as u64 || x.base as u64 >= (a as u64) + (n as u64) {
            r.push(x);
        }
        i = i + 1;
        assert(r@ =~= untouched_allocations(s@.subrange(0, i as int), a, n));
    }
    assert(s@.subrange(0, s@.len() as int) =~= s@);
    r
}

fn collect_met(s: &Vec<OwnedRegion>, req: ExecutableRange) -> (r: Vec<ExecutableRange>)
    ensures
        r@ == met_ranges(s@, req),
{
    let mut r: Vec<ExecutableRange> = Vec::new();
    let mut i: usize = 0;
    while i < s.len()
        invariant
            i <= s.len(),
            r@ == met_ranges(s@.subrange(0, i as int), req),
        decreases s.len() - i,
    {
        assert(s@.subrange(0, i + 1).drop_last() =~= s@.subrange(0, i as int));
        assert(s@.subrange(0, i + 1).last() == s@[i as int]);
        let t = ExecutableRange { base: GuestAddr(s[i].base), len: s[i].len };
        if t.overlaps(req) {
            r.push(t);
        }
        i = i + 1;
        assert(r@ =~= met_ranges(s@.subrange(0, i as int), req));
    }
    assert(s@.subrange(0, s@.len() as int) =~= s@);
    r
}

fn find_owner(s: &Vec<OwnedRegion>, base: u32) -> (r: Option<u64>)
    ensures
        r == owner_at(s@, base),
{
    let mut i: usize = 0;
    assert(s@.skip(0) =~= s@);
    while i < s.len()
        invariant
            i <= s.len(),
            owner_at(s@, base) == owner_at(s@.skip(i as int), base),
        decreases s.len() - i,
    {
        assert(s@.skip(i as int).drop_first() =~= s@.skip(i + 1));
        if s[i].base == base {
            return s[i].owner;
        }
        i = i + 1;
    }
    None
}

fn insert_by_base(s: &Vec<OwnedRegion>, x: OwnedRegion) -> (r: Vec<OwnedRegion>)
    ensures
        r@ == put_by_base(s@, x),
{
    let mut r: Vec<OwnedRegion> = Vec::new();
    let mut i: usize = 0;
    assert(s@.skip(0) =~= s@);
    assert(s@.take(0) =~= Seq::<OwnedRegion>::empty());
    while i < s.len() && s[i].base < x.base
        invariant
            i <= s.len(),
            r@ == s@.take(i as int),
            put_by_base(s@, x) == s@.take(i as int) + put_by_base(s@.skip(i as int), x),
        decreases s.len() - i,
    {
        proof {
            let t = s@.skip(i as int);
            assert(t[0] == s@[i as int]);
            assert(t.drop_first() =~= s@.skip(i + 1));
            assert(s@.take(i + 1) =~= s@.take(i as int).push(s@[i as int]));
            assert(s@.take(i as int) + put_by_base(t, x) =~= s@.take(i + 1) + put_by_base(s@.skip(i + 1), x));
        }
        r.push(s[i]);
        i = i + 1;
    }
    let ghost rest = s@.skip(i as int);
    r.push(x);
    let mut j: usize = if i < s.len() && s[i].base == x.base {
        i + 1
    } else {
        i
    };
    proof {
        if i < s.len() && s@[i as int].base == x.base {
            assert(rest[0] == s@[i as int]);
            assert(rest.drop_first() =~= s@.skip(i + 1));
        } else if i < s.len() {
            assert(rest[0] == s@[i as int]);
        } else {
            assert(rest.len() == 0);
        }
        assert(put_by_base(s@, x) =~= r@ + s@.skip(j as int));
    }
    while j < s.len()
        invariant
            i <= j <= s.len(),
            put_by_base(s@, x) =~= r@ + s@.skip(j as int),
        decreases s.len() - j,
    {
        proof {
            assert(s@.skip(j as int) =~= seq![s@[j as int]] + s@.skip(j + 1));
        }
        r.push(s[j]);
        j = j + 1;
        proof {
            assert(put_by_base(s@, x) =~= r@ + s@.skip(j as int));
        }
    }
    assert(s@.skip(s@.len() as int) =~= Seq::<OwnedRegion>::empty());
    r
}

fn views_backed(v: &Vec<AllocationView>, allocations: &Vec<OwnedRegion>, arenas: &Vec<OwnedRegion>) -> (r: Vec<AllocationView>)
    ensures
        r@ == backed_views(v@, allocations@, arenas@),
{
    let mut r: Vec<AllocationView> = Vec::new();
    let mut i: usize = 0;
    while i < v.len()
        invariant
            i <= v.len(),
            r@ == backed_views(v@.subrange(0, i as int), allocations@, arenas@),
        decreases v.len() - i,
    {
        assert(v@.subrange(0, i + 1).drop_last() =~= v@.subrange(0, i as int));
        assert(v@.subrange(0, i + 1).last() == v@[i as int]);
        let b = v[i].backing_base;
        if base_in(allocations, b) || base_in(arenas, b) {
            r.push(v[i]);
        }
        i = i + 1;
        assert(r@ =~= backed_views(v@.subrange(0, i as int), allocations@, arenas@));
    }
    assert(v@.subrange(0, v@.len() as int) =~= v@);
    r
}

fn base_in(s: &Vec<OwnedRegion>, base: u32) -> (r: bool)
    ensures
        r == has_base(s@, base),
{
    let mut i: usize = 0;
    while i < s.len()
        invariant
            i <= s.len(),
            forall|k: int| 0 <= k < i ==> #[trigger] s@[k].base != base,
        decreases s.len() - i,
    {
        if s[i].base == base {
            return true;
        }
        i = i + 1;
    }
    false
}

pub open spec fn allocation_end_text() -> Seq<char> {
    "guest allocation range overflow"@
}

/// The block of `n` bytes at `a` and the tracked allocations it meets.
pub open spec fn met_with_block(t: TablesView, a: u32, n: u32) -> Seq<ExecutableRange> {
    let req = ExecutableRange { base: GuestAddr(a), len: n as usize };
    met_ranges(t.allocations, req).push(req)
}

/// Recording the block is refused: one of those ranges has no valid end.
pub open spec fn track_refused(t: TablesView, a: u32, n: u32) -> bool {
    exists|i: int| 0 <= i < met_with_block(t, a, n).len() && (#[trigger] met_with_block(t, a, n)[i]).end_spec() is None
}

/// The tables `after` record the block of `n` bytes at `a` for `owner` on
/// top of `before`, and `revoke` is the merged ranges of the block and the
/// allocations it met.
pub open spec fn recorded_block(
    before: TablesView,
    after: TablesView,
    a: u32,
    n: u32,
    owner: Option<u64>,
    revoke: Seq<ExecutableRange>,
) -> bool {
    let kept = untouched_allocations(before.allocations, a, n);
    let new_owner = match owner {
        Some(o) => Some(o),
        None => owner_at(kept, a),
    };
    &&& crate::exec_range::separated(revoke)
    &&& forall|x: int| crate::exec_range::covered(revoke, x) == crate::exec_range::covered(met_with_block(before, a, n), x)
    &&& after.allocations == put_by_base(kept, OwnedRegion { base: a, len: n as usize, owner: new_owner })
    &&& after.views == backed_views(before.views, kept, before.arenas)
    &&& after.detached == before.detached
    &&& after.arenas == before.arenas
    &&& after.native_window_owner == before.native_window_owner
}

/// Records a new heap block of `n` bytes at `a` for `owner`: every tracked
/// allocation it meets is dropped, views whose backing allocation is gone
/// (and is no arena) are dropped, and the block is put in base order,
/// keeping the owner of an entry it replaces when it has none. The result
/// is the merged ranges of the block and the allocations it met, which the
/// caller withdraws execute rights from. A range whose end leaves the
/// address space is refused, and nothing changes.
pub fn track_heap_allocation(tables: &mut OwnershipTables, a: u32, n: u32, owner: Option<u64>) -> (r: Result<
    Vec<ExecutableRange>,
    Error,
>)
    requires
        old(tables).wf(),
    ensures
        final(tables).wf(),
        if track_refused(old(tables)@, a, n) {
            r matches Err(Error::Abi(m)) && m@ == allocation_end_text() && final(tables)@ == old(tables)@
        } else {
            r matches Ok(v) && recorded_block(old(tables)@, final(tables)@, a, n, owner, v@)
        },
{
    let req = ExecutableRange { base: GuestAddr(a), len: n as usize };
    let mut met = collect_met(&tables.allocations, req);
    met.push(req);
    let ghost met_view = met_ranges(old(tables)@.allocations, req).push(req);
    assert(met@ == met_view);
    let mut i: usize = 0;
    while i < met.len()
        invariant
            i <= met.len(),
            met@ == met_view,
            met_view == met_ranges(old(tables)@.allocations, ExecutableRange { base: GuestAddr(a), len: n as usize }).push(
                ExecutableRange { base: GuestAddr(a), len: n as usize },
            ),
            tables@ == old(tables)@,
            tables.wf(),
            old(tables).wf(),
            forall|k: int| 0 <= k < i ==> (#[trigger] met@[k]).end_spec() is Some,
        decreases met.len() - i,
    {
        if met[i].end().is_none() {
            assert(met_view[i as int].end_spec() is None);
            let m = String::from_str("guest allocation range overflow");
            assert(m@ == allocation_end_text());
            assert(exists|k: int| 0 <= k < met_view.len() && (#[trigger] met_view[k]).end_spec() is None);
            return Err(Error::Abi(m));
        }
        i = i + 1;
    }
    let revoke = merge_executable_intervals(met);
    let kept = keep_untouched(&tables.allocations, a, n);
    let new_owner = match owner {
        Some(o) => Some(o),
        None => find_owner(&kept, a),
    };
    let views = views_backed(&tables.views, &kept, &tables.arenas);
    let allocations = insert_by_base(&kept, OwnedRegion { base: a, len: n as usize, owner: new_owner });
    proof {
        lemma_untouched_lens(old(tables)@.allocations, a, n);
        lemma_put_lens(kept@, OwnedRegion { base: a, len: n as usize, owner: new_owner });
    }
    tables.allocations = allocations;
    tables.views = views;
    Ok(revoke)
}

} // verus!
