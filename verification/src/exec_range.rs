//! Executable guest ranges: the static image of a module and the intervals of
//! dynamically registered code.
use crate::memory::GuestAddr;
use vstd::prelude::*;

verus! {

/// `len` bytes of guest code starting at `base`.
#[derive(Clone, Copy, Debug, PartialEq, Eq, Structural)]
pub struct ExecutableRange {
    pub base: GuestAddr,
    pub len: usize,
}

impl ExecutableRange {
    /// The end address, when the range lies inside the 32-bit space and its
    /// end is a valid `u32`.
    pub open spec fn end_spec(self) -> Option<u32> {
        if self.len <= u32::MAX && self.base.0 + self.len <= u32::MAX {
            Some((self.base.0 + self.len) as u32)
        } else {
            None
        }
    }

    /// Address `x` lies in a range with a valid end.
    pub open spec fn covers(self, x: int) -> bool {
        self.end_spec() is Some && self.base.0 <= x < self.end_spec().unwrap()
    }

    pub fn end(self) -> (r: Option<u32>)
        ensures
            r == self.end_spec(),
    {
        if self.len > u32::MAX as usize {
            return None;
        }
        self.base.0.checked_add(self.len as u32)
    }

    /// Whether the `len` bytes at `address` lie inside the range.
    pub fn contains(self, address: u32, len: usize) -> (r: bool)
        ensures
            r == (self.end_spec() is Some && len <= u32::MAX && address + len <= u32::MAX
                && address >= self.base.0 && address + len <= self.end_spec().unwrap()),
    {
        let range_end = match self.end() {
            Some(e) => e,
            None => return false,
        };
        if len > u32::MAX as usize {
            return false;
        }
        let request_end = match address.checked_add(len as u32) {
            Some(e) => e,
            None => return false,
        };
        address >= self.base.0 && request_end <= range_end
    }

    /// Whether `other` lies inside this range; both must have valid ends.
    pub fn contains_range(self, other: Self) -> (r: bool)
        ensures
            r == (self.end_spec() is Some && other.end_spec() is Some && other.base.0
                >= self.base.0 && other.end_spec().unwrap() <= self.end_spec().unwrap()),
    {
        match (self.end(), other.end()) {
            (Some(end), Some(other_end)) => other.base.0 >= self.base.0 && other_end <= end,
            _ => false,
        }
    }

    /// Whether the ranges share an address; a range without a valid end is
    /// taken to overlap everything.
    pub fn overlaps(self, other: Self) -> (r: bool)
        ensures
            r == (match (self.end_spec(), other.end_spec()) {
                (Some(end), Some(other_end)) => self.base.0 < other_end && other.base.0 < end,
                _ => true,
            }),
    {
        match (self.end(), other.end()) {
            (Some(end), Some(other_end)) => self.base.0 < other_end && other.base.0 < end,
            _ => true,
        }
    }

    pub open spec fn intersection_spec(self, other: Self) -> Option<ExecutableRange> {
        match (self.end_spec(), other.end_spec()) {
            (Some(end), Some(other_end)) => {
                let base = if self.base.0 >= other.base.0 {
                    self.base.0
                } else {
                    other.base.0
                };
                let e = if end <= other_end {
                    end
                } else {
                    other_end
                };
                if base < e {
                    Some(ExecutableRange { base: GuestAddr(base), len: (e - base) as usize })
                } else {
                    None
                }
            },
            _ => None,
        }
    }

    /// The addresses both ranges cover, if there are any.
    pub fn intersection(self, other: Self) -> (r: Option<Self>)
        ensures
            r == self.intersection_spec(other),
            forall|x: int|
                (r matches Some(i) && i.covers(x)) <==> (self.covers(x) && other.covers(x)),
    {
        let (end, other_end) = match (self.end(), other.end()) {
            (Some(end), Some(other_end)) => (end, other_end),
            _ => return None,
        };
        let base = if self.base.0 >= other.base.0 {
            self.base.0
        } else {
            other.base.0
        };
        let e = if end <= other_end {
            end
        } else {
            other_end
        };
        if base < e {
            Some(ExecutableRange { base: GuestAddr(base), len: (e - base) as usize })
        } else {
            None
        }
    }

    /// The parts of this range that `removed` does not cover: at most one
    /// piece below it and one above it.
    pub fn subtract(self, removed: Self) -> (r: Vec<Self>)
        ensures
            r@.len() <= 2,
            r@ == seq![self] || forall|i: int|
                0 <= i < r@.len() ==> (#[trigger] r@[i]).end_spec() is Some && r@[i].len > 0,
            forall|x: int|
                (exists|i: int| 0 <= i < r@.len() && (#[trigger] r@[i]).covers(x)) <==> (self.covers(
                    x,
                ) && !removed.covers(x)) || (r@ == seq![self] && self.intersection_spec(
                    removed,
                ) is None && self.covers(x)),
            self.intersection_spec(removed) is None ==> r@ == seq![self],
            r@.len() == 2 ==> r@[0].base.0 < r@[1].base.0,
            r@.len() == 2 ==> r@[0].end_spec().unwrap() <= r@[1].base.0,
            self.intersection_spec(removed) is Some ==> forall|i: int|
                0 <= i < r@.len() ==> {
                    let p = #[trigger] r@[i];
                    &&& self.base.0 <= p.base.0
                    &&& p.end_spec().unwrap() <= self.end_spec().unwrap()
                    &&& (p.base.0 == self.base.0 || removed.covers(p.base.0 - 1))
                    &&& (p.end_spec().unwrap() == self.end_spec().unwrap() || removed.covers(
                        p.end_spec().unwrap() as int,
                    ))
                },
    {
        let overlap = match self.intersection(removed) {
            None => {
                let v = vec![self];
                assert(v@ =~= seq![self]);
                return v;
            },
            Some(o) => o,
        };
        let end = self.end().unwrap();
        let overlap_end = overlap.end().unwrap();
        let mut retained: Vec<Self> = Vec::new();
        if self.base.0 < overlap.base.0 {
            retained.push(Self { base: self.base, len: (overlap.base.0 - self.base.0) as usize });
        }
        if overlap_end < end {
            retained.push(Self { base: GuestAddr(overlap_end), len: (end - overlap_end) as usize });
        }
        proof {
            assert forall|x: int|
                (exists|i: int| 0 <= i < retained@.len() && (#[trigger] retained@[i]).covers(x))
                    <==> (self.covers(x) && !removed.covers(x)) || (retained@ == seq![self]
                    && self.intersection_spec(removed) is None && self.covers(x)) by {
                if self.covers(x) && !removed.covers(x) {
                    assert(!overlap.covers(x));
                    if x < overlap.base.0 {
                        assert(retained@[0].covers(x));
                    } else {
                        let k = retained@.len() - 1;
                        assert(retained@[k].covers(x));
                    }
                }
            }
            assert(retained@.len() > 0 ==> retained@ != seq![self]);
        }
        retained
    }
}

/// Some range of `s` covers `x`.
pub open spec fn covered(s: Seq<ExecutableRange>, x: int) -> bool {
    exists|i: int| 0 <= i < s.len() && (#[trigger] s[i]).covers(x)
}

/// The ranges are in ascending order of base address.
pub open spec fn sorted_by_base(s: Seq<ExecutableRange>) -> bool {
    forall|i: int, j: int| 0 <= i < j < s.len() ==> (#[trigger] s[i]).base.0 <= (#[trigger] s[j]).base.0
}

/// Sorts ranges by base address (insertion sort by adjacent swaps).
fn sort_by_base(v: &mut Vec<ExecutableRange>)
    requires
        forall|i: int| 0 <= i < old(v)@.len() ==> (#[trigger] old(v)@[i]).end_spec() is Some,
    ensures
        final(v)@.len() == old(v)@.len(),
        sorted_by_base(final(v)@),
        forall|x: int| covered(final(v)@, x) == covered(old(v)@, x),
        forall|i: int| 0 <= i < final(v)@.len() ==> (#[trigger] final(v)@[i]).end_spec() is Some,
        (forall|i: int| 0 <= i < old(v)@.len() ==> (#[trigger] old(v)@[i]).len > 0) ==> (forall|
            i: int,
        | 0 <= i < final(v)@.len() ==> (#[trigger] final(v)@[i]).len > 0),
        sorted_by_base(old(v)@) ==> final(v)@ == old(v)@,
{
    let n = v.len();
    let ghost all_nonempty = forall|i: int| 0 <= i < old(v)@.len() ==> (#[trigger] old(v)@[i]).len > 0;
    let mut i: usize = 1;
    while i < n
        invariant
            1 <= i <= n || n == 0,
            v@.len() == n,
            forall|a: int, b: int|
                0 <= a < b < i && b < n ==> (#[trigger] v@[a]).base.0 <= (#[trigger] v@[b]).base.0,
            forall|x: int| covered(v@, x) == covered(old(v)@, x),
            forall|k: int| 0 <= k < v@.len() ==> (#[trigger] v@[k]).end_spec() is Some,
            all_nonempty ==> forall|k: int| 0 <= k < v@.len() ==> (#[trigger] v@[k]).len > 0,
            all_nonempty == forall|i: int| 0 <= i < old(v)@.len() ==> (#[trigger] old(v)@[i]).len > 0,
            sorted_by_base(old(v)@) ==> v@ == old(v)@,
        decreases n - i,
    {
        let mut j: usize = i;
        while j > 0 && v[j - 1].base.0 > v[j].base.0
            invariant
                0 <= j <= i < n,
                v@.len() == n,
                forall|a: int, b: int|
                    0 <= a < b <= i && a != j && b != j ==> (#[trigger] v@[a]).base.0 <= (
                    #[trigger] v@[b]).base.0,
                forall|a: int, b: int|
                    j <= a < b <= i ==> (#[trigger] v@[a]).base.0 <= (#[trigger] v@[b]).base.0,
                j > 0 && j < i ==> v@[j - 1].base.0 <= v@[j + 1].base.0,
                forall|x: int| covered(v@, x) == covered(old(v)@, x),
                forall|k: int| 0 <= k < v@.len() ==> (#[trigger] v@[k]).end_spec() is Some,
                all_nonempty ==> forall|k: int| 0 <= k < v@.len() ==> (#[trigger] v@[k]).len > 0,
                sorted_by_base(old(v)@) ==> v@ == old(v)@,
            decreases j,
        {
            let a = v[j - 1];
            let b = v[j];
            let ghost before = v@;
            v.set(j - 1, b);
            v.set(j, a);
            proof {
                lemma_swap_cover(before, (j - 1) as int, j as int);
                assert(v@ == before.update(j - 1, before[j as int]).update(j as int, before[j - 1]));
            }
            j -= 1;
        }
        i += 1;
    }
}

/// Exchanging two ranges keeps the covered addresses.
proof fn lemma_swap_cover(s: Seq<ExecutableRange>, a: int, b: int)
    requires
        0 <= a < s.len(),
        0 <= b < s.len(),
    ensures
        forall|x: int|
            covered(s.update(a, s[b]).update(b, s[a]), x) == covered(s, x),
{
    let t = s.update(a, s[b]).update(b, s[a]);
    assert forall|x: int| covered(t, x) == covered(s, x) by {
        if covered(s, x) {
            let w = choose|w: int| 0 <= w < s.len() && (#[trigger] s[w]).covers(x);
            if w == a {
                assert(t[b].covers(x));
            } else if w == b {
                assert(t[a].covers(x));
            } else {
                assert(t[w].covers(x));
            }
        }
        if covered(t, x) {
            let w = choose|w: int| 0 <= w < t.len() && (#[trigger] t[w]).covers(x);
            if w == a {
                assert(s[b].covers(x));
            } else if w == b {
                assert(s[a].covers(x));
            } else {
                assert(s[w].covers(x));
            }
        }
    }
}

/// Appending the same range to two sequences that cover the same addresses
/// keeps them covering the same addresses.
proof fn lemma_push_cover(m: Seq<ExecutableRange>, p: Seq<ExecutableRange>, r: ExecutableRange)
    requires
        forall|x: int| covered(m, x) == covered(p, x),
    ensures
        forall|x: int| covered(m.push(r), x) == covered(p.push(r), x),
{
    assert forall|x: int| covered(m.push(r), x) == covered(p.push(r), x) by {
        if covered(m.push(r), x) {
            let w = choose|w: int| 0 <= w < m.len() + 1 && (#[trigger] m.push(r)[w]).covers(x);
            if w == m.len() {
                assert(p.push(r)[p.len() as int].covers(x));
            } else {
                assert(m[w].covers(x));
                assert(covered(p, x));
                let u = choose|u: int| 0 <= u < p.len() && (#[trigger] p[u]).covers(x);
                assert(p.push(r)[u].covers(x));
            }
        }
        if covered(p.push(r), x) {
            let w = choose|w: int| 0 <= w < p.len() + 1 && (#[trigger] p.push(r)[w]).covers(x);
            if w == p.len() {
                assert(m.push(r)[m.len() as int].covers(x));
            } else {
                assert(p[w].covers(x));
                assert(covered(m, x));
                let u = choose|u: int| 0 <= u < m.len() && (#[trigger] m[u]).covers(x);
                assert(m.push(r)[u].covers(x));
            }
        }
    }
}

/// Widening the last range of `m` to also cover `r`, which starts inside or
/// right after it, covers what `p` and `r` together cover.
proof fn lemma_merge_cover(
    m: Seq<ExecutableRange>,
    p: Seq<ExecutableRange>,
    r: ExecutableRange,
    widened: ExecutableRange,
)
    requires
        forall|x: int| covered(m, x) == covered(p, x),
        m.len() > 0,
        m.last().end_spec() is Some,
        r.end_spec() is Some,
        widened.end_spec() is Some,
        m.last().base.0 <= r.base.0 <= m.last().end_spec().unwrap(),
        widened.base == m.last().base,
        widened.end_spec().unwrap() == (if m.last().end_spec().unwrap() >= r.end_spec().unwrap() {
            m.last().end_spec().unwrap()
        } else {
            r.end_spec().unwrap()
        }),
    ensures
        forall|x: int| covered(m.update(m.len() - 1, widened), x) == covered(p.push(r), x),
{
    let n = m.len() - 1;
    let t = m.update(n, widened);
    lemma_push_cover(m, p, r);
    assert forall|x: int| covered(t, x) == covered(m.push(r), x) by {
        if covered(t, x) {
            let w = choose|w: int| 0 <= w < t.len() && (#[trigger] t[w]).covers(x);
            if w == n {
                if x < m.last().end_spec().unwrap() {
                    assert(m.push(r)[n].covers(x));
                } else {
                    assert(m.push(r)[m.len() as int].covers(x));
                }
            } else {
                assert(m.push(r)[w].covers(x));
            }
        }
        if covered(m.push(r), x) {
            let w = choose|w: int| 0 <= w < m.len() + 1 && (#[trigger] m.push(r)[w]).covers(x);
            if w == m.len() || w == n {
                assert(t[n].covers(x));
            } else {
                assert(t[w].covers(x));
            }
        }
    }
}

/// The intervals of `intervals`, sorted and with overlapping or touching
/// intervals merged into one.  Every interval must have a valid end.
pub fn merge_executable_intervals(intervals: Vec<ExecutableRange>) -> (merged: Vec<ExecutableRange>)
    requires
        forall|i: int| 0 <= i < intervals@.len() ==> (#[trigger] intervals@[i]).end_spec() is Some,
    ensures
        forall|x: int| covered(merged@, x) == covered(intervals@, x),
        forall|i: int| 0 <= i < merged@.len() ==> (#[trigger] merged@[i]).end_spec() is Some,
        forall|i: int|
            0 <= i < merged@.len() - 1 ==> (#[trigger] merged@[i]).end_spec().unwrap()
                < merged@[i + 1].base.0,
        merged@.len() <= intervals@.len(),
        (forall|i: int| 0 <= i < intervals@.len() ==> (#[trigger] intervals@[i]).len > 0) ==> (
        forall|i: int| 0 <= i < merged@.len() ==> (#[trigger] merged@[i]).len > 0),
        (forall|i: int| 0 <= i < intervals@.len() ==> (#[trigger] intervals@[i]).len > 0) ==> canonical(
            merged@,
        ),
        separated(merged@),
        separated(intervals@) ==> merged@ == intervals@,
{
    let ghost input = intervals@;
    let mut intervals = intervals;
    let ghost all_nonempty = forall|i: int| 0 <= i < intervals@.len() ==> (#[trigger] intervals@[i]).len > 0;
    proof {
        if separated(input) {
            assert forall|i: int, j: int| 0 <= i < j < input.len() implies (#[trigger] input[i]).base.0 <= (
            #[trigger] input[j]).base.0 by {
                lemma_separated_ordered(input, i, j);
            }
        }
    }
    sort_by_base(&mut intervals);
    let mut merged: Vec<ExecutableRange> = Vec::new();
    let mut k: usize = 0;
    while k < intervals.len()
        invariant
            0 <= k <= intervals@.len(),
            sorted_by_base(intervals@),
            forall|i: int| 0 <= i < intervals@.len() ==> (#[trigger] intervals@[i]).end_spec() is Some,
            all_nonempty ==> forall|i: int| 0 <= i < intervals@.len() ==> (#[trigger] intervals@[i]).len > 0,
            forall|x: int| covered(merged@, x) == covered(intervals@.subrange(0, k as int), x),
            forall|i: int| 0 <= i < merged@.len() ==> (#[trigger] merged@[i]).end_spec() is Some,
            all_nonempty ==> forall|i: int| 0 <= i < merged@.len() ==> (#[trigger] merged@[i]).len > 0,
            forall|i: int|
                0 <= i < merged@.len() - 1 ==> (#[trigger] merged@[i]).end_spec().unwrap()
                    < merged@[i + 1].base.0,
            merged@.len() <= k,
            k > 0 ==> merged@.len() > 0,
            k > 0 ==> merged@.last().base.0 <= intervals@[k - 1].base.0,
            separated(input) ==> intervals@ == input && merged@ == intervals@.subrange(0, k as int),
        decreases intervals@.len() - k,
    {
        let interval = intervals[k];
        let interval_end = interval.end().unwrap();
        let n = merged.len();
        proof {
            assert(intervals@.subrange(0, k + 1) =~= intervals@.subrange(0, k as int).push(interval));
            if k > 0 {
                assert(intervals@[k - 1].base.0 <= interval.base.0);
            }
        }
        if n > 0 {
            let previous = merged[n - 1];
            let previous_end = previous.end().unwrap();
            if interval.base.0 <= previous_end {
                proof {
                    if separated(input) {
                        assert(merged@[n - 1] == intervals@[k - 1]);
                        assert(false);
                    }
                }
                let new_end = if previous_end >= interval_end {
                    previous_end
                } else {
                    interval_end
                };
                let widened = ExecutableRange {
                    base: previous.base,
                    len: (new_end - previous.base.0) as usize,
                };
                proof {
                    lemma_merge_cover(merged@, intervals@.subrange(0, k as int), interval, widened);
                }
                merged.set(n - 1, widened);
                k += 1;
                continue;
            }
        }
        proof {
            lemma_push_cover(merged@, intervals@.subrange(0, k as int), interval);
        }
        merged.push(interval);
        proof {
            if separated(input) {
                assert(merged@ =~= intervals@.subrange(0, k + 1));
            }
        }
        k += 1;
    }
    proof {
        assert(intervals@.subrange(0, intervals@.len() as int) =~= intervals@);
        reveal(canonical);
    }
    merged
}

/// Intervals with valid ends, each ending before the next begins: what
/// merging gives, and what merging leaves as it is.
pub open spec fn separated(s: Seq<ExecutableRange>) -> bool {
    &&& forall|i: int| 0 <= i < s.len() ==> (#[trigger] s[i]).end_spec() is Some
    &&& forall|i: int| 0 <= i < s.len() - 1 ==> (#[trigger] s[i]).end_spec().unwrap() < s[i + 1].base.0
}

proof fn lemma_separated_ordered(s: Seq<ExecutableRange>, i: int, j: int)
    requires
        separated(s),
        0 <= i < j < s.len(),
    ensures
        s[i].end_spec().unwrap() < s[j].base.0,
    decreases j - i,
{
    if j > i + 1 {
        lemma_separated_ordered(s, i, j - 1);
        assert(s[j - 1].base.0 <= s[j - 1].end_spec().unwrap());
    }
}

/// Intervals with valid ends, none empty, each ending before the next
/// begins: what merging gives.
#[verifier::opaque]
pub open spec fn canonical(s: Seq<ExecutableRange>) -> bool {
    &&& forall|i: int| 0 <= i < s.len() ==> (#[trigger] s[i]).end_spec() is Some && s[i].len > 0
    &&& forall|i: int| 0 <= i < s.len() - 1 ==> (#[trigger] s[i]).end_spec().unwrap() < s[i + 1].base.0
}

proof fn lemma_canonical_ordered(s: Seq<ExecutableRange>, i: int, j: int)
    requires
        canonical(s),
        0 <= i < j < s.len(),
    ensures
        s[i].end_spec().unwrap() < s[j].base.0,
    decreases j - i,
{
    reveal(canonical);
    if j > i + 1 {
        lemma_canonical_ordered(s, i, j - 1);
        assert(s[j - 1].base.0 < s[j - 1].end_spec().unwrap());
    }
}

proof fn lemma_first_equal(a: Seq<ExecutableRange>, b: Seq<ExecutableRange>)
    requires
        canonical(a),
        canonical(b),
        a.len() > 0,
        b.len() > 0,
        forall|x: int| covered(a, x) == covered(b, x),
    ensures
        a[0] == b[0],
{
    reveal(canonical);
    let a0 = a[0];
    let b0 = b[0];
    assert(a0.covers(a0.base.0 as int));
    assert(covered(a, a0.base.0 as int));
    let j = choose|j: int| 0 <= j < b.len() && (#[trigger] b[j]).covers(a0.base.0 as int);
    if j > 0 {
        lemma_canonical_ordered(b, 0, j);
    }
    assert(b0.covers(b0.base.0 as int));
    assert(covered(b, b0.base.0 as int));
    let i = choose|i: int| 0 <= i < a.len() && (#[trigger] a[i]).covers(b0.base.0 as int);
    if i > 0 {
        lemma_canonical_ordered(a, 0, i);
    }
    let ea = a0.end_spec().unwrap();
    let eb = b0.end_spec().unwrap();
    if ea < eb {
        assert(b0.covers(ea as int));
        assert(covered(b, ea as int));
        let k = choose|k: int| 0 <= k < a.len() && (#[trigger] a[k]).covers(ea as int);
        if k > 0 {
            lemma_canonical_ordered(a, 0, k);
        }
    }
    if eb < ea {
        assert(a0.covers(eb as int));
        assert(covered(a, eb as int));
        let k = choose|k: int| 0 <= k < b.len() && (#[trigger] b[k]).covers(eb as int);
        if k > 0 {
            lemma_canonical_ordered(b, 0, k);
        }
    }
}

proof fn lemma_rest_canonical(a: Seq<ExecutableRange>)
    requires
        canonical(a),
        a.len() > 0,
    ensures
        canonical(a.drop_first()),
{
    reveal(canonical);
    let ar = a.drop_first();
    assert forall|i: int| 0 <= i < ar.len() - 1 implies (#[trigger] ar[i]).end_spec().unwrap()
        < ar[i + 1].base.0 by {
        assert(ar[i] == a[i + 1]);
        assert(ar[i + 1] == a[i + 2]);
    }
}

/// Past its first interval, a canonical list covers exactly what the whole
/// list covers outside that interval.
proof fn lemma_rest_covers(a: Seq<ExecutableRange>, x: int)
    requires
        canonical(a),
        a.len() > 0,
    ensures
        covered(a.drop_first(), x) == (covered(a, x) && !a[0].covers(x)),
{
    reveal(canonical);
    let ar = a.drop_first();
    if covered(ar, x) {
        let k = choose|k: int| 0 <= k < ar.len() && (#[trigger] ar[k]).covers(x);
        lemma_canonical_ordered(a, 0, k + 1);
        assert(a[k + 1] == ar[k]);
    }
    if covered(a, x) && !a[0].covers(x) {
        let m = choose|m: int| 0 <= m < a.len() && (#[trigger] a[m]).covers(x);
        assert(ar[m - 1] == a[m]);
    }
}

proof fn lemma_empty_side(a: Seq<ExecutableRange>, b: Seq<ExecutableRange>)
    requires
        canonical(a),
        canonical(b),
        a.len() == 0 || b.len() == 0,
        forall|x: int| covered(a, x) == covered(b, x),
    ensures
        a == b,
{
    reveal(canonical);
    if a.len() > 0 {
        assert(a[0].covers(a[0].base.0 as int));
        assert(covered(a, a[0].base.0 as int));
    }
    if b.len() > 0 {
        assert(b[0].covers(b[0].base.0 as int));
        assert(covered(b, b[0].base.0 as int));
    }
    assert(a =~= b);
}

proof fn lemma_rests_cover_same(a: Seq<ExecutableRange>, b: Seq<ExecutableRange>)
    requires
        canonical(a),
        canonical(b),
        a.len() > 0,
        b.len() > 0,
        a[0] == b[0],
        forall|x: int| covered(a, x) == covered(b, x),
    ensures
        forall|x: int| covered(a.drop_first(), x) == covered(b.drop_first(), x),
{
    assert forall|x: int| covered(a.drop_first(), x) == covered(b.drop_first(), x) by {
        lemma_rest_covers(a, x);
        lemma_rest_covers(b, x);
    }
}

/// The lists cover the same addresses.
#[verifier::opaque]
pub open spec fn same_cover(a: Seq<ExecutableRange>, b: Seq<ExecutableRange>) -> bool {
    forall|x: int| covered(a, x) == covered(b, x)
}

/// Two canonical interval lists that cover the same addresses are the same
/// list.
pub proof fn lemma_canonical_unique(a: Seq<ExecutableRange>, b: Seq<ExecutableRange>)
    requires
        canonical(a),
        canonical(b),
        same_cover(a, b),
    ensures
        a == b,
    decreases a.len() + b.len(),
{
    reveal(same_cover);
    if a.len() == 0 || b.len() == 0 {
        lemma_empty_side(a, b);
    } else {
        lemma_first_equal(a, b);
        let ar = a.drop_first();
        let br = b.drop_first();
        lemma_rests_cover_same(a, b);
        assert(same_cover(ar, br));
        lemma_rest_canonical(a);
        lemma_rest_canonical(b);
        lemma_canonical_unique(ar, br);
        assert(a =~= seq![a[0]] + ar);
        assert(b =~= seq![b[0]] + br);
    }
}

/// Which image a guest function belongs to.
#[derive(Clone, Copy, Debug, PartialEq, Eq, Structural)]
pub enum ExecutableImage {
    /// The module's own loaded image.
    Static,
    /// Code the module registered at run time, by image id.
    Dynamic(u64),
}

/// Code registered at run time: its id and the executable intervals that
/// remain of it.
#[derive(Clone, Debug)]
pub struct DynamicExecutableImage {
    pub id: u64,
    pub intervals: Vec<ExecutableRange>,
}

/// A registration slot, empty once the image is released.
#[derive(Clone, Debug)]
pub struct DynamicExecutableImageSlot(pub Option<DynamicExecutableImage>);

impl DynamicExecutableImageSlot {
    pub fn as_ref(&self) -> (r: Option<&DynamicExecutableImage>)
        ensures
            r == match self.0 {
                Some(i) => Some(&i),
                None => None::<&DynamicExecutableImage>,
            },
    {
        match &self.0 {
            Some(image) => Some(image),
            None => None,
        }
    }

    pub fn is_none(&self) -> (r: bool)
        ensures
            r == self.0 is None,
    {
        self.0.is_none()
    }
}

/// The executable code of one loaded module.
#[derive(Clone, Debug)]
pub struct ModuleContext {
    pub base: GuestAddr,
    pub len: usize,
    pub dynamic_executable_ranges: Vec<DynamicExecutableImageSlot>,
}

/// The offset of `address` in the first interval (from `i` on) that holds the
/// `len` bytes there.
pub open spec fn interval_offset(s: Seq<ExecutableRange>, i: int, address: u32, len: usize) -> Option<u32>
    decreases s.len() - i,
{
    if i < 0 || i >= s.len() {
        None
    } else if range_holds(s[i], address, len) {
        Some((address - s[i].base.0) as u32)
    } else {
        interval_offset(s, i + 1, address, len)
    }
}

/// The range holds the `len` bytes at `address`.
pub open spec fn range_holds(r: ExecutableRange, address: u32, len: usize) -> bool {
    r.end_spec() is Some && len <= u32::MAX && address + len <= u32::MAX && address >= r.base.0
        && address + len <= r.end_spec().unwrap()
}

/// The first registered image (from slot `i` on) with an interval that holds
/// the `len` bytes at `address`, and the offset there.
pub open spec fn dynamic_offset(
    slots: Seq<DynamicExecutableImageSlot>,
    i: int,
    address: u32,
    len: usize,
) -> Option<(u64, u32)>
    decreases slots.len() - i,
{
    if i < 0 || i >= slots.len() {
        None
    } else {
        match slots[i].0 {
            Some(image) => match interval_offset(image.intervals@, 0, address, len) {
                Some(o) => Some((image.id, o)),
                None => dynamic_offset(slots, i + 1, address, len),
            },
            None => dynamic_offset(slots, i + 1, address, len),
        }
    }
}

impl ModuleContext {
    pub open spec fn image_range_spec(&self) -> ExecutableRange {
        ExecutableRange { base: self.base, len: self.len }
    }

    /// The module's loaded image as a range.
    pub fn image_range(&self) -> (r: ExecutableRange)
        ensures
            r == self.image_range_spec(),
    {
        ExecutableRange { base: self.base, len: self.len }
    }

    pub open spec fn executable_image_spec(&self, function: u32) -> Option<(ExecutableImage, u32)> {
        if function & 1 == 0 && function & 3 != 0 {
            None
        } else {
            let address = function & !1u32;
            let len: usize = if function & 1 == 0 {
                4
            } else {
                2
            };
            if range_holds(self.image_range_spec(), address, len) {
                Some((ExecutableImage::Static, (address - self.base.0) as u32))
            } else {
                match dynamic_offset(self.dynamic_executable_ranges@, 0, address, len) {
                    Some((id, o)) => Some((ExecutableImage::Dynamic(id), o)),
                    None => None,
                }
            }
        }
    }

    /// The image that holds a whole instruction at the function address
    /// `function` (bit 0 set for Thumb code), and the instruction's offset in
    /// it.  A32 addresses must be word-aligned.
    #[verifier::loop_isolation(false)]
    pub fn executable_image(&self, function: u32) -> (r: Option<(ExecutableImage, u32)>)
        ensures
            r == self.executable_image_spec(function),
    {
        if function & 1 == 0 && function & 3 != 0 {
            return None;
        }
        let address = function & !1u32;
        let instruction_len: usize = if function & 1 == 0 {
            4
        } else {
            2
        };
        if self.image_range().contains(address, instruction_len) {
            return Some((ExecutableImage::Static, address - self.base.0));
        }
        let mut i: usize = 0;
        while i < self.dynamic_executable_ranges.len()
            invariant
                0 <= i <= self.dynamic_executable_ranges@.len(),
                dynamic_offset(self.dynamic_executable_ranges@, 0, address, instruction_len)
                    == dynamic_offset(self.dynamic_executable_ranges@, i as int, address, instruction_len),
            decreases self.dynamic_executable_ranges@.len() - i,
        {
            if let Some(image) = self.dynamic_executable_ranges[i].as_ref() {
                let mut j: usize = 0;
                while j < image.intervals.len()
                    invariant
                        0 <= j <= image.intervals@.len(),
                        interval_offset(image.intervals@, 0, address, instruction_len)
                            == interval_offset(image.intervals@, j as int, address, instruction_len),
                    decreases image.intervals@.len() - j,
                {
                    let range = image.intervals[j];
                    if range.contains(address, instruction_len) {
                        return Some((ExecutableImage::Dynamic(image.id), address - range.base.0));
                    }
                    j += 1;
                }
            }
            i += 1;
        }
        None
    }
}

} // verus!
