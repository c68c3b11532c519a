//! Undoing a module's initialization: which module may be rolled back, and
//! the memory its generation owns, in the order it is given back.
use crate::error::Error;
use crate::output_claim::{AllocationView, OwnedRegion, OwnershipTables, TablesView};
use crate::text::{dec_text, decimal, join3};
use vstd::multiset::Multiset;
use vstd::prelude::*;
use vstd::seq_lib::to_multiset_build;
use vstd::seq_lib::to_multiset_insert;

verus! {

/// A loaded module: the generation it was loaded as and the guest range its
/// image occupies.
#[derive(Clone, Copy, Debug)]
pub struct ModuleRecord {
    pub generation: u64,
    pub base: u32,
    pub len: usize,
}

/// What rolling a module back gives back, in the order it is given back.
pub struct RollbackPlan {
    /// The heap and detached allocations the generation owns, highest
    /// address first.
    pub frees: Vec<(u32, usize)>,
    /// The generation's platform arenas, highest base first.
    pub arenas: Vec<(u32, usize)>,
    /// The module image, unmapped last.
    pub module_base: u32,
    pub module_len: usize,
}

/// The regions of `s` that generation `g` owns, as (base, length), in the
/// order of `s`.
pub open spec fn owned_in(s: Seq<OwnedRegion>, g: u64) -> Seq<(u32, usize)>
    decreases s.len(),
{
    if s.len() == 0 {
        Seq::empty()
    } else {
        let last = s.last();
        owned_in(s.drop_last(), g) + (if last.owner == Some(g) {
            seq![(last.base, last.len)]
        } else {
            Seq::empty()
        })
    }
}

/// Highest address first.
pub open spec fn descending(s: Seq<(u32, usize)>) -> bool {
    forall|i: int, j: int| 0 <= i < j < s.len() ==> #[trigger] s[i].0 >= #[trigger] s[j].0
}

pub open spec fn missing_generation_text(g: u64) -> Seq<char> {
    "cannot roll back missing EXT module generation "@ + dec_text(g as nat)
}

pub open spec fn later_modules_text(index: usize) -> Seq<char> {
    "cannot roll back EXT module "@ + dec_text(index as nat) + " while later modules are active"@
}

/// The plan for rolling back the module at `index` loaded as generation
/// `g`: refused unless that module is there with that generation and is the
/// last one loaded; otherwise the generation's allocations and arenas, each
/// sorted highest address first, and the module's image.
pub open spec fn rollback_matches(
    r: Result<RollbackPlan, Error>,
    t: TablesView,
    modules: Seq<ModuleRecord>,
    index: usize,
    g: u64,
) -> bool {
    if index >= modules.len() || modules[index as int].generation != g {
        r matches Err(Error::Abi(m)) && m@ == missing_generation_text(g)
    } else if index + 1 != modules.len() {
        r matches Err(Error::Abi(m)) && m@ == later_modules_text(index)
    } else {
        r matches Ok(p) && {
            &&& descending(p.frees@)
            &&& p.frees@.to_multiset() == (owned_in(t.allocations, g) + owned_in(t.detached, g)).to_multiset()
            &&& descending(p.arenas@)
            &&& p.arenas@.to_multiset() == owned_in(t.arenas, g).to_multiset()
            &&& p.module_base == modules[index as int].base
            &&& p.module_len == modules[index as int].len
        }
    }
}

proof fn lemma_empty_to_multiset<A>(s: Seq<A>)
    requires
        s.len() == 0,
    ensures
        s.to_multiset() == Multiset::<A>::empty(),
{
    vstd::seq_lib::to_multiset_len(s);
    vstd::multiset::lemma_multiset_empty_len(s.to_multiset());
}

/// Puts `x` into a list kept highest address first, after the entries with
/// an address at least as high.
fn insert_descending(out: &mut Vec<(u32, usize)>, x: (u32, usize))
    requires
        descending(old(out)@),
    ensures
        descending(final(out)@),
        final(out)@.to_multiset() == old(out)@.to_multiset().insert(x),
{
    let mut j: usize = 0;
    while j < out.len() && out[j].0 >= x.0
        invariant
            j <= out.len(),
            descending(out@),
            forall|k: int| 0 <= k < j ==> #[trigger] out@[k].0 >= x.0,
        decreases out.len() - j,
    {
        j = j + 1;
    }
    proof {
        to_multiset_insert(out@, j as int, x);
    }
    let ghost before = out@;
    out.insert(j, x);
    assert(out@ == before.insert(j as int, x));
    assert forall|a: int, b: int| 0 <= a < b < out@.len() implies #[trigger] out@[a].0 >= #[trigger] out@[b].0 by {
        if b < j {
        } else if a < j && b == j {
        } else if a < j {
            assert(before[a].0 >= before[b - 1].0 || a == b - 1);
        } else if a == j {
            assert(before[j as int].0 < x.0);
            assert(before[j as int].0 >= before[b - 1].0 || b - 1 == j);
        } else {
            assert(before[a - 1].0 >= before[b - 1].0);
        }
    }
}

/// Adds the regions of `s` that `g` owns to a list kept highest address first.
fn collect_owned(out: &mut Vec<(u32, usize)>, s: &Vec<OwnedRegion>, g: u64)
    requires
        descending(old(out)@),
    ensures
        descending(final(out)@),
        final(out)@.to_multiset() == old(out)@.to_multiset().add(owned_in(s@, g).to_multiset()),
{
    let ghost start = out@.to_multiset();
    let mut i: usize = 0;
    assert(s@.subrange(0, 0) =~= Seq::<OwnedRegion>::empty());
    proof {
        lemma_empty_to_multiset(owned_in(Seq::<OwnedRegion>::empty(), g));
    }
    while i < s.len()
        invariant
            i <= s.len(),
            descending(out@),
            out@.to_multiset() == start.add(owned_in(s@.subrange(0, i as int), g).to_multiset()),
        decreases s.len() - i,
    {
        let r = s[i];
        let ghost prefix = s@.subrange(0, i as int);
        assert(s@.subrange(0, i + 1).drop_last() =~= prefix);
        assert(s@.subrange(0, i + 1).last() == r);
        if r.owner == Some(g) {
            insert_descending(out, (r.base, r.len));
            proof {
                let o = owned_in(prefix, g);
                assert(owned_in(s@.subrange(0, i + 1), g) =~= o.push((r.base, r.len)));
                to_multiset_build(o, (r.base, r.len));
                assert(start.add(o.to_multiset()).insert((r.base, r.len)) =~= start.add(
                    o.to_multiset().insert((r.base, r.len)),
                ));
            }
        } else {
            proof {
                assert(owned_in(s@.subrange(0, i + 1), g) =~= owned_in(prefix, g));
            }
        }
        i = i + 1;
    }
    assert(s@.subrange(0, s@.len() as int) =~= s@);
}

/// Plans the rollback of the module at `index`, loaded as generation `g`:
/// it must be that module, and the last one loaded. Its allocations
/// (heap and detached) are freed highest address first, then its arenas
/// unmapped highest base first, then its image.
pub fn plan_module_rollback(
    tables: &OwnershipTables,
    modules: &[ModuleRecord],
    index: usize,
    generation: u64,
) -> (r: Result<RollbackPlan, Error>)
    ensures
        rollback_matches(r, tables@, modules@, index, generation),
{
    if index >= modules.len() || modules[index].generation != generation {
        let m = join3("cannot roll back missing EXT module generation ", decimal(generation).as_str(), "");
        proof {
            reveal_strlit("");
            assert(m@ =~= missing_generation_text(generation));
        }
        return Err(Error::Abi(m));
    }
    if index + 1 != modules.len() {
        let m = join3("cannot roll back EXT module ", decimal(index as u64).as_str(), " while later modules are active");
        proof {
            assert(m@ =~= later_modules_text(index));
        }
        return Err(Error::Abi(m));
    }
    let mut frees: Vec<(u32, usize)> = Vec::new();
    proof {
        lemma_empty_to_multiset(frees@);
    }
    collect_owned(&mut frees, &tables.allocations, generation);
    collect_owned(&mut frees, &tables.detached, generation);
    proof {
        let a = owned_in(tables@.allocations, generation);
        let d = owned_in(tables@.detached, generation);
        vstd::seq_lib::lemma_multiset_commutative(a, d);
        assert(Multiset::<(u32, usize)>::empty().add(a.to_multiset()).add(d.to_multiset()) =~= a.to_multiset().add(
            d.to_multiset(),
        ));
    }
    let mut arenas: Vec<(u32, usize)> = Vec::new();
    proof {
        lemma_empty_to_multiset(arenas@);
    }
    collect_owned(&mut arenas, &tables.arenas, generation);
    proof {
        assert(Multiset::<(u32, usize)>::empty().add(owned_in(tables@.arenas, generation).to_multiset())
            =~= owned_in(tables@.arenas, generation).to_multiset());
    }
    Ok(RollbackPlan { frees, arenas, module_base: modules[index].base, module_len: modules[index].len })
}

/// The regions of `s` that generation `g` does not own, in the order of `s`.
pub open spec fn kept_in(s: Seq<OwnedRegion>, g: u64) -> Seq<OwnedRegion>
    decreases s.len(),
{
    if s.len() == 0 {
        Seq::empty()
    } else {
        kept_in(s.drop_last(), g) + (if s.last().owner == Some(g) {
            Seq::empty()
        } else {
            seq![s.last()]
        })
    }
}

/// Some region of `s` that `g` owns starts at `base`.
pub open spec fn owns_base_in(s: Seq<OwnedRegion>, g: u64, base: u32) -> bool {
    exists|i: int| 0 <= i < s.len() && #[trigger] s[i].owner == Some(g) && s[i].base == base
}

/// A rollback of `g` gives back an allocation, detached allocation or arena
/// at `base`.
pub open spec fn released_base(t: TablesView, g: u64, base: u32) -> bool {
    owns_base_in(t.allocations, g, base) || owns_base_in(t.detached, g, base) || owns_base_in(
        t.arenas,
        g,
        base,
    )
}

/// The views of `s` whose backing allocation is not given back, in order.
pub open spec fn kept_views(s: Seq<AllocationView>, t: TablesView, g: u64) -> Seq<AllocationView>
    decreases s.len(),
{
    if s.len() == 0 {
        Seq::empty()
    } else {
        kept_views(s.drop_last(), t, g) + (if released_base(t, g, s.last().backing_base) {
            Seq::empty()
        } else {
            seq![s.last()]
        })
    }
}

fn keep_unowned(s: &Vec<OwnedRegion>, g: u64) -> (r: Vec<OwnedRegion>)
    ensures
        r@ == kept_in(s@, g),
{
    let mut r: Vec<OwnedRegion> = Vec::new();
    let mut i: usize = 0;
    while i < s.len()
        invariant
            i <= s.len(),
            r@ == kept_in(s@.subrange(0, i as int), g),
        decreases s.len() - i,
    {
        assert(s@.subrange(0, i + 1).drop_last() =~= s@.subrange(0, i as int));
        assert(s@.subrange(0, i + 1).last() == s@[i as int]);
        if s[i].owner != Some(g) {
            r.push(s[i]);
        }
        i = i + 1;
        assert(r@ =~= kept_in(s@.subrange(0, i as int), g));
    }
    assert(s@.subrange(0, s@.len() as int) =~= s@);
    r
}

fn owns_base(s: &Vec<OwnedRegion>, g: u64, base: u32) -> (b: bool)
    ensures
        b == owns_base_in(s@, g, base),
{
    let mut i: usize = 0;
    while i < s.len()
        invariant
            i <= s.len(),
            forall|k: int| 0 <= k < i ==> !(#[trigger] s@[k].owner == Some(g) && s@[k].base == base),
        decreases s.len() - i,
    {
        if s[i].owner == Some(g) && s[i].base == base {
            return true;
        }
        i = i + 1;
    }
    false
}

/// Drops from the tables what a rollback of generation `g` gives back, when
/// every release succeeds: the allocations, detached allocations and arenas
/// `g` owns, and every view into one of them. The other entries keep their
/// order; the native-window owner is left to the caller.
pub fn forget_generation(tables: &mut OwnershipTables, g: u64)
    ensures
        final(tables)@.allocations == kept_in(old(tables)@.allocations, g),
        final(tables)@.detached == kept_in(old(tables)@.detached, g),
        final(tables)@.arenas == kept_in(old(tables)@.arenas, g),
        final(tables)@.views == kept_views(old(tables)@.views, old(tables)@, g),
        final(tables)@.native_window_owner == old(tables)@.native_window_owner,
{
    let ghost t = tables@;
    let mut views: Vec<AllocationView> = Vec::new();
    let mut i: usize = 0;
    while i < tables.views.len()
        invariant
            i <= tables.views.len(),
            tables@ == t,
            views@ == kept_views(t.views.subrange(0, i as int), t, g),
        decreases tables.views.len() - i,
    {
        let v = tables.views[i];
        assert(t.views.subrange(0, i + 1).drop_last() =~= t.views.subrange(0, i as int));
        assert(t.views.subrange(0, i + 1).last() == v);
        let released = owns_base(&tables.allocations, g, v.backing_base) || owns_base(
            &tables.detached,
            g,
            v.backing_base,
        ) || owns_base(&tables.arenas, g, v.backing_base);
        if !released {
            views.push(v);
        }
        i = i + 1;
        assert(views@ =~= kept_views(t.views.subrange(0, i as int), t, g));
    }
    assert(t.views.subrange(0, t.views.len() as int) =~= t.views);
    let allocations = keep_unowned(&tables.allocations, g);
    let detached = keep_unowned(&tables.detached, g);
    let arenas = keep_unowned(&tables.arenas, g);
    tables.allocations = allocations;
    tables.detached = detached;
    tables.arenas = arenas;
    tables.views = views;
}

/// A rollback splits each table in two: what the generation owns, which the
/// plan gives back, and the rest, which the tables keep; together they are
/// the whole table, and an entry is kept exactly when the generation does
/// not own it.
pub proof fn lemma_rollback_partitions(s: Seq<OwnedRegion>, g: u64)
    ensures
        owned_in(s, g).len() + kept_in(s, g).len() == s.len(),
        forall|r: OwnedRegion| kept_in(s, g).contains(r) <==> (s.contains(r) && r.owner != Some(g)),
        forall|r: OwnedRegion|
            s.contains(r) && r.owner == Some(g) ==> owned_in(s, g).contains((r.base, r.len)),
    decreases s.len(),
{
    if s.len() > 0 {
        let p = s.drop_last();
        let x = s.last();
        lemma_rollback_partitions(p, g);
        assert(s == p.push(x));
        assert forall|r: OwnedRegion| kept_in(s, g).contains(r) <==> (s.contains(r) && r.owner != Some(g)) by {
            if kept_in(s, g).contains(r) {
                let k = choose|k: int| 0 <= k < kept_in(s, g).len() && kept_in(s, g)[k] == r;
                if k < kept_in(p, g).len() {
                    assert(kept_in(p, g)[k] == r);
                    assert(kept_in(p, g).contains(r));
                    assert(p.contains(r));
                    let j = choose|j: int| 0 <= j < p.len() && p[j] == r;
                    assert(s[j] == r);
                } else {
                    assert(r == x);
                    assert(s[s.len() - 1] == r);
                }
            }
            if s.contains(r) && r.owner != Some(g) {
                let j = choose|j: int| 0 <= j < s.len() && s[j] == r;
                if j < p.len() {
                    assert(p[j] == r);
                    assert(p.contains(r));
                    assert(kept_in(p, g).contains(r));
                    let k = choose|k: int| 0 <= k < kept_in(p, g).len() && kept_in(p, g)[k] == r;
                    assert(kept_in(s, g)[k] == r);
                } else {
                    assert(r == x);
                    assert(kept_in(s, g)[kept_in(p, g).len() as int] == r);
                }
            }
        }
        assert forall|r: OwnedRegion| s.contains(r) && r.owner == Some(g) implies owned_in(s, g).contains(
            (r.base, r.len),
        ) by {
            let j = choose|j: int| 0 <= j < s.len() && s[j] == r;
            if j < p.len() {
                assert(p[j] == r);
                assert(p.contains(r));
                let k = choose|k: int| 0 <= k < owned_in(p, g).len() && owned_in(p, g)[k] == (r.base, r.len);
                assert(owned_in(s, g)[k] == (r.base, r.len));
            } else {
                assert(r == x);
                assert(owned_in(s, g)[owned_in(p, g).len() as int] == (r.base, r.len));
            }
        }
    }
}

} // verus!
