//! Freeing a guest block: which way a free goes, and the bookkeeping it
//! drops once the memory is given back.
use crate::output_claim::{find_base, index_of_base, AllocationView, OwnedRegion, OwnershipTables};
use vstd::prelude::*;

verus! {

/// Which way a free of an address goes.
#[derive(Clone, Copy, Debug, PartialEq, Eq, Structural)]
pub enum FreeRoute {
    /// Nothing to give back: a null-like address, or no active heap and no
    /// detached allocation there.
    Nothing,
    /// The detached allocation at `index` of the detached table.
    Detached { index: usize },
    /// Outside the active heap: only the bookkeeping of a tracked
    /// allocation there is dropped.
    OutsideHeap,
    /// Inside the active heap, `offset` bytes from its base.
    InHeap { offset: u32 },
}

/// The way a free of `address` goes: addresses 0 and 1 are ignored; a
/// detached allocation starting there is unmapped; with no heap (both heap
/// slots zero) nothing else happens; otherwise the address lies inside the
/// heap of `heap_span` bytes at `heap_base` or outside it.
pub open spec fn free_route_spec(
    address: u32,
    detached: Seq<OwnedRegion>,
    heap_base_slot: u32,
    heap_end_slot: u32,
    heap_base: u32,
    heap_span: u32,
) -> FreeRoute {
    if address <= 1 {
        FreeRoute::Nothing
    } else {
        match index_of_base(detached, address, 0) {
            Some(k) => FreeRoute::Detached { index: k as usize },
            None => if heap_base_slot == 0 && heap_end_slot == 0 {
                FreeRoute::Nothing
            } else if address < heap_base || address - heap_base >= heap_span {
                FreeRoute::OutsideHeap
            } else {
                FreeRoute::InHeap { offset: (address - heap_base) as u32 }
            },
        }
    }
}

/// Decides which way a free of `address` goes, from the detached table, the
/// two heap data slots and the active heap's base and span.
pub fn free_route(
    address: u32,
    detached: &[OwnedRegion],
    heap_base_slot: u32,
    heap_end_slot: u32,
    heap_base: u32,
    heap_span: u32,
) -> (r: FreeRoute)
    ensures
        r == free_route_spec(address, detached@, heap_base_slot, heap_end_slot, heap_base, heap_span),
{
    if address <= 1 {
        return FreeRoute::Nothing;
    }
    match find_base(detached, address) {
        Some(index) => FreeRoute::Detached { index },
        None => {
            if heap_base_slot == 0 && heap_end_slot == 0 {
                FreeRoute::Nothing
            } else if address < heap_base || address - heap_base >= heap_span {
                FreeRoute::OutsideHeap
            } else {
                FreeRoute::InHeap { offset: address - heap_base }
            }
        }
    }
}

/// The regions of `s` that do not start at `base`, in order.
pub open spec fn without_base(s: Seq<OwnedRegion>, base: u32) -> Seq<OwnedRegion>
    decreases s.len(),
{
    if s.len() == 0 {
        Seq::empty()
    } else {
        without_base(s.drop_last(), base) + (if s.last().base == base {
            Seq::empty()
        } else {
            seq![s.last()]
        })
    }
}

/// The views of `s` that are not backed by the allocation at `base`, in order.
pub open spec fn views_not_backed_by(s: Seq<AllocationView>, base: u32) -> Seq<AllocationView>
    decreases s.len(),
{
    if s.len() == 0 {
        Seq::empty()
    } else {
        views_not_backed_by(s.drop_last(), base) + (if s.last().backing_base == base {
            Seq::empty()
        } else {
            seq![s.last()]
        })
    }
}

fn drop_base(s: &Vec<OwnedRegion>, base: u32) -> (r: Vec<OwnedRegion>)
    ensures
        r@ == without_base(s@, base),
{
    let mut r: Vec<OwnedRegion> = Vec::new();
    let mut i: usize = 0;
    while i < s.len()
        invariant
            i <= s.len(),
            r@ == without_base(s@.subrange(0, i as int), base),
        decreases s.len() - i,
    {
        assert(s@.subrange(0, i + 1).drop_last() =~= s@.subrange(0, i as int));
        assert(s@.subrange(0, i + 1).last() == s@[i as int]);
        if s[i].base != base {
            r.push(s[i]);
        }
        i = i + 1;
        assert(r@ =~= without_base(s@.subrange(0, i as int), base));
    }
    assert(s@.subrange(0, s@.len() as int) =~= s@);
    r
}

fn drop_views_backed_by(s: &Vec<AllocationView>, base: u32) -> (r: Vec<AllocationView>)
    ensures
        r@ == views_not_backed_by(s@, base),
{
    let mut r: Vec<AllocationView> = Vec::new();
    let mut i: usize = 0;
    while i < s.len()
        invariant
            i <= s.len(),
            r@ == views_not_backed_by(s@.subrange(0, i as int), base),
        decreases s.len() - i,
    {
        assert(s@.subrange(0, i + 1).drop_last() =~= s@.subrange(0, i as int));
        assert(s@.subrange(0, i + 1).last() == s@[i as int]);
        if s[i].backing_base != base {
            r.push(s[i]);
        }
        i = i + 1;
        assert(r@ =~= views_not_backed_by(s@.subrange(0, i as int), base));
    }
    assert(s@.subrange(0, s@.len() as int) =~= s@);
    r
}

/// Drops the bookkeeping of the heap allocation at `address` once it is
/// given back: its entry (length and owner) and every view into it.
pub fn forget_heap_allocation(tables: &mut OwnershipTables, address: u32)
    ensures
        final(tables)@.allocations == without_base(old(tables)@.allocations, address),
        final(tables)@.views == views_not_backed_by(old(tables)@.views, address),
        final(tables)@.detached == old(tables)@.detached,
        final(tables)@.arenas == old(tables)@.arenas,
        final(tables)@.native_window_owner == old(tables)@.native_window_owner,
{
    let allocations = drop_base(&tables.allocations, address);
    let views = drop_views_backed_by(&tables.views, address);
    tables.allocations = allocations;
    tables.views = views;
}

/// Drops the bookkeeping of the detached allocation at `address` once it is
/// unmapped: its entry (length and owner) and every view into it.
pub fn forget_detached_allocation(tables: &mut OwnershipTables, address: u32)
    ensures
        final(tables)@.detached == without_base(old(tables)@.detached, address),
        final(tables)@.views == views_not_backed_by(old(tables)@.views, address),
        final(tables)@.allocations == old(tables)@.allocations,
        final(tables)@.arenas == old(tables)@.arenas,
        final(tables)@.native_window_owner == old(tables)@.native_window_owner,
{
    let detached = drop_base(&tables.detached, address);
    let views = drop_views_backed_by(&tables.views, address);
    tables.detached = detached;
    tables.views = views;
}

/// Forgetting a freed block drops exactly the entries at its address: an
/// entry stays exactly when it starts elsewhere.
pub proof fn lemma_forget_drops_exactly(s: Seq<OwnedRegion>, base: u32)
    ensures
        forall|r: OwnedRegion| without_base(s, base).contains(r) <==> (s.contains(r) && r.base != base),
    decreases s.len(),
{
    if s.len() > 0 {
        let p = s.drop_last();
        let x = s.last();
        lemma_forget_drops_exactly(p, base);
        assert(s == p.push(x));
        assert forall|r: OwnedRegion| without_base(s, base).contains(r) <==> (s.contains(r) && r.base != base) by {
            if without_base(s, base).contains(r) {
                let k = choose|k: int| 0 <= k < without_base(s, base).len() && without_base(s, base)[k] == r;
                if k < without_base(p, base).len() {
                    assert(without_base(p, base)[k] == r);
                    assert(without_base(p, base).contains(r));
                    assert(p.contains(r));
                    let j = choose|j: int| 0 <= j < p.len() && p[j] == r;
                    assert(s[j] == r);
                } else {
                    assert(r == x);
                    assert(s[s.len() - 1] == r);
                }
            }
            if s.contains(r) && r.base != base {
                let j = choose|j: int| 0 <= j < s.len() && s[j] == r;
                if j < p.len() {
                    assert(p[j] == r);
                    assert(p.contains(r));
                    assert(without_base(p, base).contains(r));
                    let k = choose|k: int| 0 <= k < without_base(p, base).len() && without_base(p, base)[k] == r;
                    assert(without_base(s, base)[k] == r);
                } else {
                    assert(r == x);
                    assert(without_base(s, base)[without_base(p, base).len() as int] == r);
                }
            }
        }
    }
}

} // verus!
