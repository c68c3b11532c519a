//! Finding the buffer a module prepared for the output of a compact RAM
//! package read: a descriptor pair left in the heap, the pointer in the
//! current call's argument record, or a legacy wrapper allocation.
use crate::error::Error;
use crate::guest_strings::{fault_matches, GuestFault};
use crate::heap::{aligned_heap_len, heap_block_len};
use crate::heap_io::{snapshot_view, GuestHeapSnapshot, SnapshotView};
use crate::layout::{HEAP_BASE, MAX_GUEST_HEAP_LEN};
use crate::memory::{Access, GuestAddr, GuestMemory, MemView, le_u32};
use crate::output_claim::{
    output_claimable, prepared_output_candidate_is_claimable_by_module, OwnershipTables, TablesView,
};
use crate::ram_package::read_le_u32;
use crate::text::{dec_text, decimal};
use vstd::prelude::*;
use vstd::string::*;

verus! {

/// `n` bytes at `a` may be read and written.
pub open spec fn read_write(m: MemView, a: int, n: int) -> bool {
    m.accessible(a, n, Access::Read) && m.accessible(a, n, Access::Write)
}

/// The package at `address` (`len` bytes) is a compact RAM package: a
/// 24-byte header starting with `MRPG` whose second and fourth words are 4.
pub open spec fn compact_header(m: MemView, address: u32, len: usize) -> Result<bool, GuestFault> {
    if len < 24 {
        Ok(false)
    } else {
        match m.load(address, 24, Access::Read) {
            Err(t) => Err(GuestFault::Arm(t)),
            Ok(h) => Ok(
                h[0] == 0x4d && h[1] == 0x52 && h[2] == 0x50 && h[3] == 0x47 && le_u32(
                    h.subrange(4, 8),
                ) == 4 && le_u32(h.subrange(12, 16)) == 4,
            ),
        }
    }
}

/// What a search reads: the guest memory and tables, the free-list
/// snapshot, and the module the output is for.
pub struct Search {
    pub m: MemView,
    pub t: TablesView,
    pub snap: Option<SnapshotView>,
    pub generations: Seq<u64>,
    pub module: usize,
}

/// The descriptor at `addr - 4`, when the word at `addr` is the output's
/// block length: the word at `addr - 4` points at an aligned, writable
/// buffer whose second word is the block length too, and the module may
/// claim it.
pub open spec fn descriptor_at(s: Search, aligned: u32, addr: u32) -> Result<Option<(u32, u32)>, GuestFault> {
    match s.m.read_u32(addr) {
        Err(t) => Err(GuestFault::Arm(t)),
        Ok(recorded) => if recorded != aligned {
            Ok(None)
        } else {
            match s.m.read_u32((addr - 4) as u32) {
                Err(t) => Err(GuestFault::Arm(t)),
                Ok(c) => if c % 4 != 0 || !read_write(s.m, c as int, aligned as int) {
                    Ok(None)
                } else if c + 4 > u32::MAX {
                    Err(GuestFault::Arm(crate::memory::address_overflow_text(c, 4)))
                } else {
                    match s.m.read_u32((c + 4) as u32) {
                        Err(t) => Err(GuestFault::Arm(t)),
                        Ok(v) => if v != aligned {
                            Ok(None)
                        } else {
                            match output_claimable(
                                s.m,
                                s.t,
                                s.snap,
                                c,
                                aligned,
                                s.generations,
                                s.module,
                            ) {
                                Err(f) => Err(f),
                                Ok(false) => Ok(None),
                                Ok(true) => Ok(Some(((addr - 4) as u32, c))),
                            }
                        },
                    }
                },
            }
        },
    }
}

/// The descriptors found from word address `addr` up to `end`, after
/// `found`.
pub open spec fn descriptor_scan(s: Search, aligned: u32, addr: int, end: int, found: Seq<(u32, u32)>) -> Result<
    Seq<(u32, u32)>,
    GuestFault,
>
    decreases end + 4 - addr,
{
    if addr >= end || addr < 4 || addr > u32::MAX {
        Ok(found)
    } else {
        match descriptor_at(s, aligned, addr as u32) {
            Err(f) => Err(f),
            Ok(None) => descriptor_scan(s, aligned, addr + 4, end, found),
            Ok(Some(p)) => descriptor_scan(s, aligned, addr + 4, end, found.push(p)),
        }
    }
}

/// `sorted` (strictly increasing) with `x` added where it is missing.
pub open spec fn insert_unique(sorted: Seq<u32>, x: u32) -> Seq<u32>
    decreases sorted.len(),
{
    if sorted.len() == 0 {
        seq![x]
    } else if x < sorted[0] {
        seq![x] + sorted
    } else if x == sorted[0] {
        sorted
    } else {
        seq![sorted[0]] + insert_unique(sorted.drop_first(), x)
    }
}

/// The distinct values of `s` in increasing order.
pub open spec fn distinct_sorted(s: Seq<u32>) -> Seq<u32>
    decreases s.len(),
{
    if s.len() == 0 {
        Seq::empty()
    } else {
        insert_unique(distinct_sorted(s.drop_last()), s.last())
    }
}

/// The candidates of the descriptors found.
pub open spec fn candidates(found: Seq<(u32, u32)>) -> Seq<u32> {
    found.map_values(|p: (u32, u32)| p.1)
}

/// The candidate of the first descriptor from index `i` on that lies at
/// `descriptor`.
pub open spec fn first_at(found: Seq<(u32, u32)>, descriptor: u32, i: int) -> Option<u32>
    decreases found.len() - i,
{
    if i < 0 || i >= found.len() {
        None
    } else if found[i].0 == descriptor {
        Some(found[i].1)
    } else {
        first_at(found, descriptor, i + 1)
    }
}

/// The candidate that the word after the output-length word at `pointer`
/// names, where that word is aligned and readable and names one of
/// `cands`.
pub open spec fn record_pick(m: MemView, pointer: u32, cands: Seq<u32>) -> Result<
    Option<u32>,
    GuestFault,
> {
    if pointer == 0 || pointer + 4 > u32::MAX {
        Ok(None)
    } else {
        let a = (pointer + 4) as u32;
        if a % 4 != 0 || !m.accessible(a as int, 4, Access::Read) {
            Ok(None)
        } else {
            match m.read_u32(a) {
                Err(t) => Err(GuestFault::Arm(t)),
                Ok(v) => Ok(
                    if cands.contains(v) {
                        Some(v)
                    } else {
                        None
                    },
                ),
            }
        }
    }
}

/// The payloads of legacy wrapper allocations from index `i` on, after
/// `found`: an allocation of the wrapper's block length that records the
/// output length, whose payload is writable and claimable.
pub open spec fn wrapper_scan(s: Search, aligned: u32, wrapper: u32, output_len: u32, i: int, found: Seq<u32>) -> Result<
    Seq<u32>,
    GuestFault,
>
    decreases s.t.allocations.len() - i,
{
    if i < 0 || i >= s.t.allocations.len() {
        Ok(found)
    } else {
        let r = s.t.allocations[i];
        if r.len != wrapper {
            wrapper_scan(s, aligned, wrapper, output_len, i + 1, found)
        } else {
            match s.m.read_u32(r.base) {
                Err(t) => Err(GuestFault::Arm(t)),
                Ok(v) => if v != output_len || r.base + 4 > u32::MAX || !read_write(
                    s.m,
                    r.base + 4,
                    output_len as int,
                ) {
                    wrapper_scan(s, aligned, wrapper, output_len, i + 1, found)
                } else {
                    match output_claimable(
                        s.m,
                        s.t,
                        s.snap,
                        (r.base + 4) as u32,
                        aligned,
                        s.generations,
                        s.module,
                    ) {
                        Err(f) => Err(f),
                        Ok(true) => wrapper_scan(
                            s,
                            aligned,
                            wrapper,
                            output_len,
                            i + 1,
                            found.push((r.base + 4) as u32),
                        ),
                        Ok(false) => wrapper_scan(s, aligned, wrapper, output_len, i + 1, found),
                    }
                },
            }
        }
    }
}

/// `GuestAddr(a)` as the candidate list prints it.
pub open spec fn addr_text(a: u32) -> Seq<char> {
    "GuestAddr("@ + dec_text(a as nat) + ")"@
}

pub open spec fn addr_items_text(s: Seq<u32>) -> Seq<char>
    decreases s.len(),
{
    if s.len() == 0 {
        Seq::empty()
    } else if s.len() == 1 {
        addr_text(s[0])
    } else {
        addr_items_text(s.drop_last()) + ", "@ + addr_text(s.last())
    }
}

pub open spec fn ambiguous_text(s: Seq<u32>) -> Seq<char> {
    "compact RAM MRP output has ambiguous prepared buffers: ["@ + addr_items_text(s) + "]"@
}

/// The one candidate of `cands`, nothing when there is none, or the error
/// for several.
pub open spec fn single(cands: Seq<u32>) -> Result<Option<u32>, GuestFault> {
    if cands.len() == 0 {
        Ok(None)
    } else if cands.len() == 1 {
        Ok(Some(cands[0]))
    } else {
        Err(GuestFault::Abi(ambiguous_text(cands)))
    }
}

/// The buffer a module prepared for `output_len` bytes read from the
/// compact package at `package_address`, for a call whose output-length
/// pointer is `pointer`; `None` when the package is not compact or no
/// buffer was prepared.  A descriptor pair in the heap names the buffer:
/// the pair tied to this call wins, then the buffer named in the call's
/// argument record, then the only such buffer; without any, the payload of
/// the only legacy wrapper allocation of the right size.
pub open spec fn output_target(
    s: Search,
    heap_len: usize,
    package_address: u32,
    package_len: usize,
    output_len: usize,
    pointer: u32,
) -> Result<Option<u32>, GuestFault> {
    match compact_header(s.m, package_address, package_len) {
        Err(f) => Err(f),
        Ok(false) => Ok(None),
        Ok(true) => if output_len > u32::MAX {
            Err(GuestFault::Abi("compact RAM MRP output length exceeds u32"@))
        } else if output_len + 11 > u32::MAX {
            Err(GuestFault::Arm("guest allocation length alignment overflow"@))
        } else {
            let aligned = heap_block_len(output_len as int) as u32;
            let wrapper = heap_block_len(output_len + 4) as u32;
            match descriptor_scan(s, aligned, HEAP_BASE + 4, HEAP_BASE + heap_len, Seq::empty()) {
                Err(f) => Err(f),
                Ok(found) => {
                    let cands = distinct_sorted(candidates(found));
                    if pointer >= 4 && first_at(found, (pointer - 4) as u32, 0) is Some {
                        Ok(first_at(found, (pointer - 4) as u32, 0))
                    } else {
                        match record_pick(s.m, pointer, cands) {
                            Err(f) => Err(f),
                            Ok(Some(c)) => Ok(Some(c)),
                            Ok(None) => if cands.len() > 0 {
                                single(cands)
                            } else {
                                match wrapper_scan(s, aligned, wrapper, output_len as u32, 0, Seq::empty()) {
                                    Err(f) => Err(f),
                                    Ok(w) => single(distinct_sorted(w)),
                                }
                            },
                        }
                    }
                },
            }
        },
    }
}

/// The search over the given memory, tables and snapshot.
pub open spec fn search_of(
    memory: &GuestMemory,
    tables: &OwnershipTables,
    snapshot: &Option<GuestHeapSnapshot>,
    generations: &[u64],
    module: usize,
) -> Search {
    Search {
        m: memory@,
        t: tables@,
        snap: snapshot_view(*snapshot),
        generations: generations@,
        module,
    }
}

/// Whether the package at `address` (`len` bytes) is a compact RAM package.
pub fn is_compact_package(memory: &GuestMemory, address: u32, len: usize) -> (r: Result<bool, Error>)
    requires
        memory.wf(),
    ensures
        match compact_header(memory@, address, len) {
            Ok(b) => r == Ok::<bool, Error>(b),
            Err(f) => fault_matches(r, f),
        },
{
    if len < 24 {
        return Ok(false);
    }
    let header = match memory.read(GuestAddr(address), 24) {
        Ok(h) => h,
        Err(e) => return Err(e),
    };
    if header[0] != 0x4d || header[1] != 0x52 || header[2] != 0x50 || header[3] != 0x47 {
        return Ok(false);
    }
    let second = match read_le_u32(header.as_slice(), 4) {
        Ok(v) => v,
        Err(e) => return Err(e),
    };
    let fourth = match read_le_u32(header.as_slice(), 12) {
        Ok(v) => v,
        Err(e) => return Err(e),
    };
    Ok(second == 4 && fourth == 4)
}

fn is_read_write(memory: &GuestMemory, address: u32, len: usize) -> (b: bool)
    ensures
        b == read_write(memory@, address as int, len as int),
{
    memory.check_range(GuestAddr(address), len, Access::Read).is_ok() && memory.check_range(
        GuestAddr(address),
        len,
        Access::Write,
    ).is_ok()
}

fn descriptor_at_exec(
    memory: &GuestMemory,
    tables: &OwnershipTables,
    snapshot: &Option<GuestHeapSnapshot>,
    generations: &[u64],
    module: usize,
    aligned: u32,
    addr: u32,
) -> (r: Result<Option<(u32, u32)>, Error>)
    requires
        memory.wf(),
        tables.wf(),
        addr >= 4,
    ensures
        match descriptor_at(search_of(memory, tables, snapshot, generations, module), aligned, addr) {
            Ok(d) => r == Ok::<Option<(u32, u32)>, Error>(d),
            Err(f) => fault_matches(r, f),
        },
{
    let recorded = match memory.read_u32(GuestAddr(addr)) {
        Ok(v) => v,
        Err(e) => return Err(e),
    };
    if recorded != aligned {
        return Ok(None);
    }
    let candidate = match memory.read_u32(GuestAddr(addr - 4)) {
        Ok(v) => v,
        Err(e) => return Err(e),
    };
    if candidate % 4 != 0 || !is_read_write(memory, candidate, aligned as usize) {
        return Ok(None);
    }
    let second = match GuestAddr(candidate).checked_add(4) {
        Ok(a) => a,
        Err(e) => return Err(e),
    };
    let recorded_again = match memory.read_u32(second) {
        Ok(v) => v,
        Err(e) => return Err(e),
    };
    if recorded_again != aligned {
        return Ok(None);
    }
    match prepared_output_candidate_is_claimable_by_module(
        memory,
        tables,
        snapshot,
        candidate,
        aligned,
        generations,
        module,
    ) {
        Ok(true) => Ok(Some((addr - 4, candidate))),
        Ok(false) => Ok(None),
        Err(e) => Err(e),
    }
}

proof fn lemma_insert_unique_skip(v: Seq<u32>, x: u32, i: int)
    requires
        0 <= i < v.len(),
        v[i] < x,
    ensures
        v.take(i) + insert_unique(v.skip(i), x) == v.take(i + 1) + insert_unique(v.skip(i + 1), x),
{
    assert(v.skip(i).drop_first() =~= v.skip(i + 1));
    assert(v.skip(i)[0] == v[i]);
    assert(v.take(i + 1) =~= v.take(i) + seq![v[i]]);
}

/// Adds `x` to the strictly increasing `v` where it is missing.
fn insert_unique_exec(v: &mut Vec<u32>, x: u32)
    ensures
        final(v)@ == insert_unique(old(v)@, x),
{
    let ghost initial = v@;
    let mut i: usize = 0;
    assert(initial.skip(0) =~= initial);
    assert(initial.take(0) + insert_unique(initial.skip(0), x) =~= insert_unique(initial, x));
    while i < v.len()
        invariant
            v@ == initial,
            initial == old(v)@,
            i <= v@.len(),
            initial.take(i as int) + insert_unique(initial.skip(i as int), x) == insert_unique(
                initial,
                x,
            ),
        decreases v.len() - i,
    {
        if v[i] == x {
            assert(insert_unique(initial.skip(i as int), x) == initial.skip(i as int));
            assert(initial.take(i as int) + initial.skip(i as int) =~= initial);
            return;
        }
        if x < v[i] {
            assert(insert_unique(initial.skip(i as int), x) == seq![x] + initial.skip(i as int));
            v.insert(i, x);
            assert(v@ =~= initial.take(i as int) + (seq![x] + initial.skip(i as int)));
            return;
        }
        proof {
            lemma_insert_unique_skip(initial, x, i as int);
        }
        i = i + 1;
    }
    assert(initial.skip(i as int) =~= Seq::<u32>::empty());
    assert(initial.take(i as int) =~= initial);
    v.push(x);
}

/// The distinct values of `s` in increasing order.
pub fn distinct_sorted_exec(s: &[u32]) -> (v: Vec<u32>)
    ensures
        v@ == distinct_sorted(s@),
{
    let mut v: Vec<u32> = Vec::new();
    let mut i: usize = 0;
    assert(s@.take(0) =~= Seq::<u32>::empty());
    while i < s.len()
        invariant
            i <= s@.len(),
            v@ == distinct_sorted(s@.take(i as int)),
        decreases s.len() - i,
    {
        assert(s@.take(i + 1).drop_last() =~= s@.take(i as int));
        assert(s@.take(i + 1).last() == s@[i as int]);
        insert_unique_exec(&mut v, s[i]);
        i = i + 1;
    }
    assert(s@.take(s.len() as int) =~= s@);
    v
}

fn first_at_exec(found: &[(u32, u32)], descriptor: u32) -> (r: Option<u32>)
    ensures
        r == first_at(found@, descriptor, 0),
{
    let mut i: usize = 0;
    while i < found.len()
        invariant
            first_at(found@, descriptor, 0) == first_at(found@, descriptor, i as int),
        decreases found.len() - i,
    {
        if found[i].0 == descriptor {
            return Some(found[i].1);
        }
        i = i + 1;
    }
    None
}

fn contains_value(s: &[u32], x: u32) -> (b: bool)
    ensures
        b == s@.contains(x),
{
    let mut i: usize = 0;
    while i < s.len()
        invariant
            i <= s@.len(),
            forall|k: int| 0 <= k < i ==> s@[k] != x,
        decreases s.len() - i,
    {
        if s[i] == x {
            assert(s@[i as int] == x);
            return true;
        }
        i = i + 1;
    }
    false
}

fn record_pick_exec(memory: &GuestMemory, pointer: u32, cands: &[u32]) -> (r: Result<
    Option<u32>,
    Error,
>)
    requires
        memory.wf(),
    ensures
        match record_pick(memory@, pointer, cands@) {
            Ok(c) => r == Ok::<Option<u32>, Error>(c),
            Err(f) => fault_matches(r, f),
        },
{
    if pointer == 0 {
        return Ok(None);
    }
    let address = match pointer.checked_add(4) {
        Some(a) => a,
        None => return Ok(None),
    };
    if address % 4 != 0 || memory.check_range(GuestAddr(address), 4, Access::Read).is_err() {
        return Ok(None);
    }
    let value = match memory.read_u32(GuestAddr(address)) {
        Ok(v) => v,
        Err(e) => return Err(e),
    };
    if contains_value(cands, value) {
        Ok(Some(value))
    } else {
        Ok(None)
    }
}

fn addr_items(s: &[u32]) -> (t: String)
    ensures
        t@ == addr_items_text(s@),
{
    proof {
        reveal_strlit("GuestAddr(");
        reveal_strlit(")");
        reveal_strlit(", ");
    }
    let mut t = String::new();
    let mut i: usize = 0;
    assert(s@.take(0) =~= Seq::<u32>::empty());
    while i < s.len()
        invariant
            i <= s@.len(),
            t@ == addr_items_text(s@.take(i as int)),
        decreases s.len() - i,
    {
        let item = String::from_str("GuestAddr(").concat(decimal(s[i] as u64).as_str()).concat(")");
        assert(s@.take(i + 1).drop_last() =~= s@.take(i as int));
        assert(s@.take(i + 1).last() == s@[i as int]);
        if i == 0 {
            assert(s@.take(1) =~= seq![s@[0]]);
            t = item;
        } else {
            t = t.concat(", ").concat(item.as_str());
        }
        i = i + 1;
    }
    assert(s@.take(s.len() as int) =~= s@);
    t
}

fn single_exec(cands: &[u32]) -> (r: Result<Option<u32>, Error>)
    ensures
        match single(cands@) {
            Ok(c) => r == Ok::<Option<u32>, Error>(c),
            Err(f) => fault_matches(r, f),
        },
{
    proof {
        reveal_strlit("compact RAM MRP output has ambiguous prepared buffers: [");
        reveal_strlit("]");
    }
    if cands.len() == 0 {
        Ok(None)
    } else if cands.len() == 1 {
        Ok(Some(cands[0]))
    } else {
        let m = String::from_str("compact RAM MRP output has ambiguous prepared buffers: [").concat(
            addr_items(cands).as_str(),
        ).concat("]");
        Err(Error::Abi(m))
    }
}

fn wrapper_candidates(
    memory: &GuestMemory,
    tables: &OwnershipTables,
    snapshot: &Option<GuestHeapSnapshot>,
    generations: &[u64],
    module: usize,
    aligned: u32,
    wrapper: u32,
    output_len: u32,
) -> (r: Result<Vec<u32>, Error>)
    requires
        memory.wf(),
        tables.wf(),
    ensures
        match wrapper_scan(
            search_of(memory, tables, snapshot, generations, module),
            aligned,
            wrapper,
            output_len,
            0,
            Seq::empty(),
        ) {
            Ok(w) => r matches Ok(v) && v@ == w,
            Err(f) => fault_matches(r, f),
        },
{
    let ghost s = search_of(memory, tables, snapshot, generations, module);
    let mut found: Vec<u32> = Vec::new();
    let mut i: usize = 0;
    while i < tables.allocations.len()
        invariant
            memory.wf(),
            tables.wf(),
            s == search_of(memory, tables, snapshot, generations, module),
            i <= tables.allocations@.len(),
            wrapper_scan(s, aligned, wrapper, output_len, 0, Seq::empty()) == wrapper_scan(
                s,
                aligned,
                wrapper,
                output_len,
                i as int,
                found@,
            ),
        decreases tables.allocations.len() - i,
    {
        let region = tables.allocations[i];
        if region.len == wrapper as usize {
            let recorded = match memory.read_u32(GuestAddr(region.base)) {
                Ok(v) => v,
                Err(e) => return Err(e),
            };
            if recorded == output_len {
                if let Some(candidate) = region.base.checked_add(4) {
                    if is_read_write(memory, candidate, output_len as usize) {
                        match prepared_output_candidate_is_claimable_by_module(
                            memory,
                            tables,
                            snapshot,
                            candidate,
                            aligned,
                            generations,
                            module,
                        ) {
                            Ok(true) => found.push(candidate),
                            Ok(false) => {},
                            Err(e) => return Err(e),
                        }
                    }
                }
            }
        }
        i = i + 1;
    }
    Ok(found)
}

/// Finds the buffer a module prepared for `output_len` bytes read from the
/// compact RAM package at `package_address` (`package_len` bytes), for the
/// module at index `module` of `module_generations`, in a heap of
/// `heap_len` bytes; `output_len_pointer` is the call's output-length
/// pointer (see `output_target`).
#[verifier::loop_isolation(false)]
pub fn compact_ram_output_target(
    memory: &GuestMemory,
    tables: &OwnershipTables,
    snapshot: &Option<GuestHeapSnapshot>,
    heap_len: usize,
    package_address: u32,
    package_len: usize,
    output_len: usize,
    module_generations: &[u64],
    module: usize,
    output_len_pointer: u32,
) -> (r: Result<Option<u32>, Error>)
    requires
        memory.wf(),
        tables.wf(),
        heap_len <= MAX_GUEST_HEAP_LEN,
    ensures
        match output_target(
            search_of(memory, tables, snapshot, module_generations, module),
            heap_len,
            package_address,
            package_len,
            output_len,
            output_len_pointer,
        ) {
            Ok(c) => r == Ok::<Option<u32>, Error>(c),
            Err(f) => fault_matches(r, f),
        },
{
    proof {
        reveal_strlit("compact RAM MRP output length exceeds u32");
    }
    let ghost s = search_of(memory, tables, snapshot, module_generations, module);
    match is_compact_package(memory, package_address, package_len) {
        Ok(true) => {},
        Ok(false) => return Ok(None),
        Err(e) => return Err(e),
    }
    if output_len > u32::MAX as usize {
        return Err(Error::Abi(String::from_str("compact RAM MRP output length exceeds u32")));
    }
    let aligned = match aligned_heap_len(output_len) {
        Ok(v) => v,
        Err(e) => return Err(e),
    };
    let wrapper = match aligned_heap_len(output_len + 4) {
        Ok(v) => v,
        Err(e) => return Err(e),
    };
    let heap_end: u32 = HEAP_BASE + heap_len as u32;
    let mut found: Vec<(u32, u32)> = Vec::new();
    let mut addr: u32 = HEAP_BASE + 4;
    while addr < heap_end
        invariant
            HEAP_BASE + 4 <= addr <= heap_end + 4,
            heap_end == HEAP_BASE + heap_len,
            descriptor_scan(s, aligned, HEAP_BASE + 4, HEAP_BASE + heap_len, Seq::empty())
                == descriptor_scan(s, aligned, addr as int, heap_end as int, found@),
        decreases heap_end + 4 - addr,
    {
        match descriptor_at_exec(memory, tables, snapshot, module_generations, module, aligned, addr) {
            Ok(Some(p)) => found.push(p),
            Ok(None) => {},
            Err(e) => return Err(e),
        }
        addr = addr + 4;
    }
    let mut values: Vec<u32> = Vec::new();
    let mut k: usize = 0;
    while k < found.len()
        invariant
            k <= found@.len(),
            values@ == candidates(found@).take(k as int),
        decreases found.len() - k,
    {
        values.push(found[k].1);
        k = k + 1;
        assert(values@ =~= candidates(found@).take(k as int));
    }
    assert(candidates(found@).take(found@.len() as int) =~= candidates(found@));
    let cands = distinct_sorted_exec(values.as_slice());
    if output_len_pointer >= 4 {
        if let Some(c) = first_at_exec(found.as_slice(), output_len_pointer - 4) {
            return Ok(Some(c));
        }
    }
    match record_pick_exec(memory, output_len_pointer, cands.as_slice()) {
        Ok(Some(c)) => return Ok(Some(c)),
        Ok(None) => {},
        Err(e) => return Err(e),
    }
    if cands.len() > 0 {
        return single_exec(cands.as_slice());
    }
    let wrapped = match wrapper_candidates(
        memory,
        tables,
        snapshot,
        module_generations,
        module,
        aligned,
        wrapper,
        output_len as u32,
    ) {
        Ok(w) => w,
        Err(e) => return Err(e),
    };
    single_exec(distinct_sorted_exec(wrapped.as_slice()).as_slice())
}

} // verus!
