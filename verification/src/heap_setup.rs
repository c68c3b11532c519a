//! The guest heap as the runtime first lays it out: the platform data slots
//! describe a heap at the heap base whose whole span is one free block.
use crate::error::{is_arm_fault, Error};
use crate::guest_strings::GuestFault;
use crate::heap::FreeBlock;
use crate::heap_io::{
    free_list_read, free_list_write, heap_state, lemma_written_free_list_reads_back, list_head,
    write_headers, GuestHeapState, SnapshotView,
};
use crate::layout::{HEAP_BASE, MAX_GUEST_HEAP_LEN};
use crate::memory::{
    lemma_stored_accessible, lemma_stored_layout, lemma_write_then_read_u32,
    lemma_write_u32_keeps_other_words, u32_bytes, Access, GuestAddr, GuestMemory, MemView,
};
use crate::slots::{
    backing_address_spec, is_data_slot, is_data_slot_spec, is_function_slot, is_function_slot_spec,
    platform_data_slot_backing_address, PLATFORM_DATA, PLATFORM_SLOT_COUNT, PLATFORM_TABLE, TRAP_BASE,
};
use vstd::prelude::*;

verus! {

/// The word of the platform data area that belongs to `slot`.
pub open spec fn data_word(slot: u32) -> u32 {
    (PLATFORM_DATA + slot * 4) as u32
}

/// The word of the platform table that belongs to `slot`.
pub open spec fn table_word(slot: u32) -> u32 {
    (PLATFORM_TABLE + slot * 4) as u32
}

/// Writes the words `writes` (address, value) in order: the memory after
/// the writes that succeeded, and the fault that stopped them, if any.
pub open spec fn write_all(m: MemView, writes: Seq<(u32, u32)>) -> (MemView, Option<Seq<char>>)
    decreases writes.len(),
{
    if writes.len() == 0 {
        (m, None)
    } else {
        match m.write_u32(writes[0].0, writes[0].1) {
            Err(t) => (m, Some(t)),
            Ok(m1) => write_all(m1, writes.drop_first()),
        }
    }
}

/// The words a fresh heap of `heap_len` bytes is described with: its base,
/// length and end in data slots 108 to 110, one free block header at the
/// base spanning the heap (linking to the span), the free-list head (slot
/// 146) at offset 0 and the free-byte count (slot 111) at the whole length.
pub open spec fn fresh_heap_writes(heap_len: u32) -> Seq<(u32, u32)> {
    seq![
        (data_word(108), HEAP_BASE),
        (data_word(109), heap_len),
        (data_word(110), (HEAP_BASE + heap_len) as u32),
        (HEAP_BASE, heap_len),
        ((HEAP_BASE + 4) as u32, heap_len),
        (data_word(146), 0u32),
        (data_word(111), heap_len),
    ]
}

/// Writes the words `writes` in order, stopping at the first refused write.
pub fn write_words(memory: &mut GuestMemory, writes: &[(u32, u32)]) -> (r: Result<(), Error>)
    requires
        old(memory).wf(),
    ensures
        final(memory).wf(),
        final(memory)@ == write_all(old(memory)@, writes@).0,
        match write_all(old(memory)@, writes@).1 {
            None => r is Ok,
            Some(t) => is_arm_fault(r, t),
        },
{
    let mut i: usize = 0;
    assert(writes@.skip(0) =~= writes@);
    while i < writes.len()
        invariant
            memory.wf(),
            i <= writes@.len(),
            write_all(old(memory)@, writes@) == write_all(memory@, writes@.skip(i as int)),
        decreases writes.len() - i,
    {
        let (address, value) = writes[i];
        let ghost before = memory@;
        assert(writes@.skip(i as int)[0] == writes@[i as int]);
        assert(writes@.skip(i as int).drop_first() =~= writes@.skip(i + 1));
        match memory.write_u32(GuestAddr(address), value) {
            Ok(()) => {},
            Err(e) => {
                assert(memory@ == before);
                return Err(e);
            },
        }
        i = i + 1;
    }
    assert(writes@.skip(i as int) =~= Seq::<(u32, u32)>::empty());
    Ok(())
}

/// Describes a fresh heap of `heap_len` bytes in guest memory (see
/// `fresh_heap_writes`).
pub fn install_guest_heap(memory: &mut GuestMemory, heap_len: u32) -> (r: Result<(), Error>)
    requires
        old(memory).wf(),
        heap_len <= MAX_GUEST_HEAP_LEN,
    ensures
        final(memory).wf(),
        final(memory)@ == write_all(old(memory)@, fresh_heap_writes(heap_len)).0,
        match write_all(old(memory)@, fresh_heap_writes(heap_len)).1 {
            None => r is Ok,
            Some(t) => is_arm_fault(r, t),
        },
{
    let writes = [
        (PLATFORM_DATA + 108 * 4, HEAP_BASE),
        (PLATFORM_DATA + 109 * 4, heap_len),
        (PLATFORM_DATA + 110 * 4, HEAP_BASE + heap_len),
        (HEAP_BASE, heap_len),
        (HEAP_BASE + 4, heap_len),
        (PLATFORM_DATA + 146 * 4, 0),
        (PLATFORM_DATA + 111 * 4, heap_len),
    ];
    assert(writes@ =~= fresh_heap_writes(heap_len));
    write_words(memory, &writes)
}

/// Writes that each find their word writable all succeed, keep the memory
/// well formed, and keep every accessible range accessible.
pub(crate) proof fn lemma_write_all_succeeds(m: MemView, writes: Seq<(u32, u32)>)
    requires
        m.wf(),
        forall|i: int|
            0 <= i < writes.len() ==> m.accessible((#[trigger] writes[i]).0 as int, 4, Access::Write),
    ensures
        write_all(m, writes).1 is None,
        write_all(m, writes).0.wf(),
        forall|b: int, n: int, kind: Access|
            #[trigger] m.accessible(b, n, kind) ==> write_all(m, writes).0.accessible(b, n, kind),
    decreases writes.len(),
{
    if writes.len() > 0 {
        let (a, v) = writes[0];
        assert(m.write_u32(a, v) is Ok);
        let m1 = m.write_u32(a, v)->Ok_0;
        lemma_stored_layout(m, a as int, u32_bytes(v));
        assert forall|b: int, n: int, kind: Access| #[trigger] m.accessible(b, n, kind) implies m1.accessible(
            b,
            n,
            kind,
        ) by {
            lemma_stored_accessible(m, a as int, u32_bytes(v), b, n, kind);
        }
        let rest = writes.drop_first();
        assert forall|i: int| 0 <= i < rest.len() implies m1.accessible(
            (#[trigger] rest[i]).0 as int,
            4,
            Access::Write,
        ) by {
            assert(rest[i] == writes[i + 1]);
        }
        lemma_write_all_succeeds(m1, rest);
    }
}

/// Writes that all succeed and all miss the word at `x` leave it as it was.
proof fn lemma_write_all_keeps(m: MemView, writes: Seq<(u32, u32)>, x: u32)
    requires
        m.wf(),
        write_all(m, writes).1 is None,
        forall|i: int| 0 <= i < writes.len() ==> x + 4 <= (#[trigger] writes[i]).0 || writes[i].0 + 4 <= x,
    ensures
        write_all(m, writes).0.read_u32(x) == m.read_u32(x),
    decreases writes.len(),
{
    if writes.len() > 0 {
        let (a, v) = writes[0];
        let m1 = m.write_u32(a, v)->Ok_0;
        assert(x + 4 <= writes[0].0 || writes[0].0 + 4 <= x);
        lemma_write_u32_keeps_other_words(m, a, v, x);
        lemma_stored_layout(m, a as int, u32_bytes(v));
        let rest = writes.drop_first();
        assert forall|i: int| 0 <= i < rest.len() implies x + 4 <= (#[trigger] rest[i]).0 || rest[i].0
            + 4 <= x by {
            assert(rest[i] == writes[i + 1]);
        }
        lemma_write_all_keeps(m1, rest, x);
    }
}

/// The heap a fresh layout describes.
pub open spec fn fresh_heap(heap_len: u32) -> GuestHeapState {
    GuestHeapState {
        base: HEAP_BASE,
        span: heap_len,
        head: 0,
        head_variable: data_word(146),
        free_left: heap_len,
        free_left_variable: data_word(111),
    }
}

proof fn lemma_accessible_within(m: MemView, a: int, n: int, k: int, j: int, kind: Access)
    requires
        m.accessible(a, n, kind),
        0 <= k,
        0 <= j,
        k + j <= n,
    ensures
        m.accessible(a + k, j, kind),
{
    assert forall|t: int| 0 <= t < j implies #[trigger] m.mapped(a + k + t) && crate::memory::allows(
        m.perms_at(a + k + t),
        kind,
    ) by {
        assert(m.mapped(a + (k + t)));
    }
}

/// The premises of the fresh-heap law on a memory.
pub open spec fn ready_for_heap(m: MemView, heap_len: u32) -> bool {
    &&& m.wf()
    &&& 8 <= heap_len <= MAX_GUEST_HEAP_LEN
    &&& forall|slot: u32|
        108 <= slot <= 111 || slot == 146 ==> m.accessible(
            #[trigger] data_word(slot) as int,
            4,
            Access::Read,
        ) && m.accessible(data_word(slot) as int, 4, Access::Write)
    &&& m.accessible(HEAP_BASE as int, heap_len as int, Access::Read)
    &&& m.accessible(HEAP_BASE as int, 8, Access::Write)
}

/// After one successful write, a memory stays ready.
proof fn lemma_write_keeps_ready(m: MemView, heap_len: u32, a: u32, v: u32)
    requires
        ready_for_heap(m, heap_len),
        m.write_u32(a, v) is Ok,
    ensures
        ready_for_heap(m.write_u32(a, v)->Ok_0, heap_len),
{
    let m1 = m.write_u32(a, v)->Ok_0;
    lemma_stored_layout(m, a as int, u32_bytes(v));
    assert forall|slot: u32| 108 <= slot <= 111 || slot == 146 implies m1.accessible(
        #[trigger] data_word(slot) as int,
        4,
        Access::Read,
    ) && m1.accessible(data_word(slot) as int, 4, Access::Write) by {
        lemma_stored_accessible(m, a as int, u32_bytes(v), data_word(slot) as int, 4, Access::Read);
        lemma_stored_accessible(m, a as int, u32_bytes(v), data_word(slot) as int, 4, Access::Write);
    }
    lemma_stored_accessible(m, a as int, u32_bytes(v), HEAP_BASE as int, heap_len as int, Access::Read);
    lemma_stored_accessible(m, a as int, u32_bytes(v), HEAP_BASE as int, 8, Access::Write);
}

/// The memory after the heap's bounds are written.
pub open spec fn bounds_written(m: MemView, heap_len: u32) -> MemView {
    let m1 = m.write_u32(data_word(108), HEAP_BASE)->Ok_0;
    let m2 = m1.write_u32(data_word(109), heap_len)->Ok_0;
    m2.write_u32(data_word(110), (HEAP_BASE + heap_len) as u32)->Ok_0
}

/// The writes after the heap's bounds.
pub open spec fn list_writes(heap_len: u32) -> Seq<(u32, u32)> {
    fresh_heap_writes(heap_len).skip(3)
}

proof fn lemma_bounds_written(m: MemView, heap_len: u32)
    requires
        ready_for_heap(m, heap_len),
    ensures
        write_all(m, fresh_heap_writes(heap_len)) == write_all(
            bounds_written(m, heap_len),
            list_writes(heap_len),
        ),
        ready_for_heap(bounds_written(m, heap_len), heap_len),
        bounds_written(m, heap_len).read_u32(data_word(108)) == Ok::<u32, Seq<char>>(HEAP_BASE),
        bounds_written(m, heap_len).read_u32(data_word(110)) == Ok::<u32, Seq<char>>(
            (HEAP_BASE + heap_len) as u32,
        ),
        forall|x: u32|
            x + 4 <= data_word(108) || data_word(110) + 4 <= x ==> #[trigger] bounds_written(
                m,
                heap_len,
            ).read_u32(x) == m.read_u32(x),
{
    let writes = fresh_heap_writes(heap_len);
    let heap_end = (HEAP_BASE + heap_len) as u32;
    assert(m.accessible(data_word(108) as int, 4, Access::Write));
    assert(m.accessible(data_word(108) as int, 4, Access::Read));
    let m1 = m.write_u32(data_word(108), HEAP_BASE)->Ok_0;
    lemma_write_keeps_ready(m, heap_len, data_word(108), HEAP_BASE);
    assert(m1.accessible(data_word(109) as int, 4, Access::Write));
    let m2 = m1.write_u32(data_word(109), heap_len)->Ok_0;
    lemma_write_keeps_ready(m1, heap_len, data_word(109), heap_len);
    assert(m2.accessible(data_word(110) as int, 4, Access::Write));
    assert(m2.accessible(data_word(110) as int, 4, Access::Read));
    let m3 = m2.write_u32(data_word(110), heap_end)->Ok_0;
    lemma_write_keeps_ready(m2, heap_len, data_word(110), heap_end);
    assert(writes[0] == (data_word(108), HEAP_BASE));
    assert(writes.drop_first()[0] == (data_word(109), heap_len));
    assert(writes.drop_first().drop_first()[0] == (data_word(110), heap_end));
    assert(writes.drop_first().drop_first().drop_first() =~= list_writes(heap_len));
    assert(write_all(m2, writes.drop_first().drop_first()) == write_all(m3, list_writes(heap_len)));
    assert(write_all(m1, writes.drop_first()) == write_all(m2, writes.drop_first().drop_first()));
    lemma_write_then_read_u32(m, data_word(108), HEAP_BASE);
    lemma_write_then_read_u32(m2, data_word(110), heap_end);
    lemma_write_u32_keeps_other_words(m1, data_word(109), heap_len, data_word(108));
    lemma_write_u32_keeps_other_words(m2, data_word(110), heap_end, data_word(108));
    assert forall|x: u32| x + 4 <= data_word(108) || data_word(110) + 4 <= x implies #[trigger] m3.read_u32(
        x,
    ) == m.read_u32(x) by {
        lemma_write_u32_keeps_other_words(m, data_word(108), HEAP_BASE, x);
        lemma_write_u32_keeps_other_words(m1, data_word(109), heap_len, x);
        lemma_write_u32_keeps_other_words(m2, data_word(110), heap_end, x);
    }
}

proof fn lemma_list_writes_are_the_list(m3: MemView, heap_len: u32)
    requires
        ready_for_heap(m3, heap_len),
    ensures
        write_all(m3, list_writes(heap_len)).1 is None,
        write_all(m3, list_writes(heap_len)).0 == free_list_write(
            m3,
            fresh_heap(heap_len),
            seq![FreeBlock { offset: 0, len: heap_len }],
            heap_len,
            heap_len,
        ).0,
        free_list_write(
            m3,
            fresh_heap(heap_len),
            seq![FreeBlock { offset: 0, len: heap_len }],
            heap_len,
            heap_len,
        ).1 is None,
{
    let b = FreeBlock { offset: 0, len: heap_len };
    let blocks = seq![b];
    let rest = list_writes(heap_len);
    assert(crate::heap::sort_by_offset(blocks) == blocks) by {
        assert(blocks.drop_last() =~= Seq::<FreeBlock>::empty());
        assert(crate::heap::sort_by_offset(Seq::<FreeBlock>::empty()) == Seq::<FreeBlock>::empty());
        assert(crate::heap::insert_by_offset(Seq::<FreeBlock>::empty(), b) == blocks);
        assert(blocks.last() == b);
    }
    assert(crate::heap::scan_free_blocks(blocks, heap_len, 0) is Ok) by {
        assert(blocks.drop_first() =~= Seq::<FreeBlock>::empty());
        assert(blocks[0] == b);
        assert(crate::heap::scan_free_blocks(Seq::<FreeBlock>::empty(), heap_len, heap_len) is Ok);
    }
    lemma_accessible_within(m3, HEAP_BASE as int, 8, 0, 4, Access::Write);
    lemma_accessible_within(m3, HEAP_BASE as int, 8, 4, 4, Access::Write);
    let m4 = m3.write_u32(HEAP_BASE, heap_len)->Ok_0;
    lemma_write_keeps_ready(m3, heap_len, HEAP_BASE, heap_len);
    lemma_stored_layout(m3, HEAP_BASE as int, u32_bytes(heap_len));
    lemma_stored_accessible(m3, HEAP_BASE as int, u32_bytes(heap_len), HEAP_BASE + 4, 4, Access::Write);
    let m5 = m4.write_u32((HEAP_BASE + 4) as u32, heap_len)->Ok_0;
    lemma_write_keeps_ready(m4, heap_len, (HEAP_BASE + 4) as u32, heap_len);
    assert(m5.accessible(data_word(146) as int, 4, Access::Write));
    let m6 = m5.write_u32(data_word(146), 0)->Ok_0;
    lemma_write_keeps_ready(m5, heap_len, data_word(146), 0);
    assert(m6.accessible(data_word(111) as int, 4, Access::Write));
    let m7 = m6.write_u32(data_word(111), heap_len)->Ok_0;
    assert(rest[0] == (HEAP_BASE, heap_len));
    assert(rest.drop_first()[0] == ((HEAP_BASE + 4) as u32, heap_len));
    assert(rest.drop_first().drop_first()[0] == (data_word(146), 0u32));
    assert(rest.drop_first().drop_first().drop_first()[0] == (data_word(111), heap_len));
    assert(rest.drop_first().drop_first().drop_first().drop_first().len() == 0);
    assert(write_all(m7, rest.drop_first().drop_first().drop_first().drop_first()) == (m7, None::<Seq<char>>));
    assert(write_all(m6, rest.drop_first().drop_first().drop_first()) == (m7, None::<Seq<char>>));
    assert(write_all(m5, rest.drop_first().drop_first()) == (m7, None::<Seq<char>>));
    assert(write_all(m4, rest.drop_first()) == (m7, None::<Seq<char>>));
    assert(write_all(m3, rest) == (m7, None::<Seq<char>>));
    assert(write_headers(m5, HEAP_BASE, blocks, heap_len, 1) == (m5, None::<GuestFault>));
    assert(write_headers(m3, HEAP_BASE, blocks, heap_len, 0) == (m5, None::<GuestFault>));
}

/// The free-list writes leave every word outside the heap header and the
/// two list variables as it was.
proof fn lemma_list_writes_keep(m3: MemView, heap_len: u32, x: u32)
    requires
        ready_for_heap(m3, heap_len),
        x + 4 <= HEAP_BASE || HEAP_BASE + 8 <= x,
        x + 4 <= data_word(146) || data_word(146) + 4 <= x,
        x + 4 <= data_word(111) || data_word(111) + 4 <= x,
    ensures
        write_all(m3, list_writes(heap_len)).0.read_u32(x) == m3.read_u32(x),
{
    let rest = list_writes(heap_len);
    lemma_list_writes_are_the_list(m3, heap_len);
    assert(rest =~= seq![
        (HEAP_BASE, heap_len),
        ((HEAP_BASE + 4) as u32, heap_len),
        (data_word(146), 0u32),
        (data_word(111), heap_len),
    ]);
    assert forall|i: int| 0 <= i < rest.len() implies x + 4 <= (#[trigger] rest[i]).0 || rest[i].0
        + 4 <= x by {}
    lemma_write_all_keeps(m3, rest, x);
}

/// A fresh heap is one free block spanning it: once the platform table
/// points each heap slot at its data word and the words and the heap are
/// readable and writable, writing the fresh heap succeeds, the heap read
/// back from the slots is the whole heap with the list at offset 0 and every
/// byte free, and its free list reads back as the single block from offset 0
/// over the whole span, ending at the span, with nothing recovered.
pub proof fn lemma_fresh_heap_is_one_free_block(
    m: MemView,
    heap_len: u32,
    snap: Option<SnapshotView>,
    allocations: Map<u32, u32>,
)
    requires
        ready_for_heap(m, heap_len),
        m.read_u32(table_word(108)) == Ok::<u32, Seq<char>>(data_word(108)),
        m.read_u32(table_word(110)) == Ok::<u32, Seq<char>>(data_word(110)),
        m.read_u32(table_word(111)) == Ok::<u32, Seq<char>>(data_word(111)),
        m.read_u32(table_word(146)) == Ok::<u32, Seq<char>>(data_word(146)),
    ensures
        ({
            let (w, fault) = write_all(m, fresh_heap_writes(heap_len));
            &&& fault is None
            &&& heap_state(w) == Ok::<GuestHeapState, GuestFault>(fresh_heap(heap_len))
            &&& free_list_read(w, fresh_heap(heap_len), snap, allocations) == Ok::<
                (Seq<FreeBlock>, u32, u32),
                GuestFault,
            >((seq![FreeBlock { offset: 0, len: heap_len }], heap_len, 0))
        }),
{
    let heap = fresh_heap(heap_len);
    let blocks = seq![FreeBlock { offset: 0, len: heap_len }];
    let rest = list_writes(heap_len);
    lemma_bounds_written(m, heap_len);
    let m3 = bounds_written(m, heap_len);
    lemma_list_writes_are_the_list(m3, heap_len);
    assert(m3.accessible(data_word(146) as int, 4, Access::Read));
    assert(m3.accessible(data_word(111) as int, 4, Access::Read));
    lemma_written_free_list_reads_back(m3, heap, blocks, heap_len, snap, allocations);
    assert(list_head(blocks, heap_len) == 0);
    assert((GuestHeapState { head: list_head(blocks, heap_len), free_left: heap_len, ..heap }) == heap);
    // The slots still lead to the heap's description.
    lemma_list_writes_keep(m3, heap_len, data_word(108));
    lemma_list_writes_keep(m3, heap_len, data_word(110));
    lemma_list_writes_keep(m3, heap_len, table_word(108));
    lemma_list_writes_keep(m3, heap_len, table_word(110));
    lemma_list_writes_keep(m3, heap_len, table_word(111));
    lemma_list_writes_keep(m3, heap_len, table_word(146));
    assert(m3.read_u32(table_word(108)) == m.read_u32(table_word(108)));
    assert(m3.read_u32(table_word(110)) == m.read_u32(table_word(110)));
    assert(m3.read_u32(table_word(111)) == m.read_u32(table_word(111)));
    assert(m3.read_u32(table_word(146)) == m.read_u32(table_word(146)));
    assert(((HEAP_BASE + heap_len) as u32).wrapping_sub(HEAP_BASE) == heap_len);
}

/// What the platform table holds for `slot`: the trap address of a
/// platform function, the address a data slot's value lives at, or zero.
pub open spec fn table_value(slot: u32) -> u32 {
    if is_function_slot_spec(slot) {
        (TRAP_BASE + slot * 4) as u32
    } else if is_data_slot_spec(slot) {
        backing_address_spec(slot)
    } else {
        0
    }
}

/// The platform table's words, slot by slot.
pub open spec fn table_writes() -> Seq<(u32, u32)> {
    Seq::new(PLATFORM_SLOT_COUNT as nat, |i: int| (table_word(i as u32), table_value(i as u32)))
}

/// Fills the platform table (see `table_value`), stopping at the first
/// refused write.
pub fn install_platform_table(memory: &mut GuestMemory) -> (r: Result<(), Error>)
    requires
        old(memory).wf(),
    ensures
        final(memory).wf(),
        final(memory)@ == write_all(old(memory)@, table_writes()).0,
        match write_all(old(memory)@, table_writes()).1 {
            None => r is Ok,
            Some(t) => is_arm_fault(r, t),
        },
{
    let mut writes: Vec<(u32, u32)> = Vec::new();
    let mut slot: u32 = 0;
    while slot < PLATFORM_SLOT_COUNT
        invariant
            slot <= PLATFORM_SLOT_COUNT,
            writes@ == table_writes().take(slot as int),
        decreases PLATFORM_SLOT_COUNT - slot,
    {
        let value = if is_function_slot(slot) {
            TRAP_BASE + slot * 4
        } else if is_data_slot(slot) {
            platform_data_slot_backing_address(slot).0
        } else {
            0
        };
        writes.push((PLATFORM_TABLE + slot * 4, value));
        slot = slot + 1;
        assert(writes@ =~= table_writes().take(slot as int));
    }
    assert(table_writes().take(PLATFORM_SLOT_COUNT as int) =~= table_writes());
    write_words(memory, writes.as_slice())
}

/// Writes that all succeed, to words that do not overlap one another, leave
/// each written word holding its value where it is readable.
proof fn lemma_write_all_reads_back(m: MemView, writes: Seq<(u32, u32)>, i: int)
    requires
        m.wf(),
        write_all(m, writes).1 is None,
        0 <= i < writes.len(),
        m.accessible(writes[i].0 as int, 4, Access::Read),
        forall|j: int, k: int|
            0 <= j < writes.len() && 0 <= k < writes.len() && j != k ==> (#[trigger] writes[j]).0 + 4
                <= (#[trigger] writes[k]).0 || writes[k].0 + 4 <= writes[j].0,
    ensures
        write_all(m, writes).0.read_u32(writes[i].0) == Ok::<u32, Seq<char>>(writes[i].1),
    decreases writes.len(),
{
    let (a, v) = writes[0];
    let m1 = m.write_u32(a, v)->Ok_0;
    let rest = writes.drop_first();
    lemma_stored_layout(m, a as int, u32_bytes(v));
    assert forall|j: int, k: int|
        0 <= j < rest.len() && 0 <= k < rest.len() && j != k implies (#[trigger] rest[j]).0 + 4
        <= (#[trigger] rest[k]).0 || rest[k].0 + 4 <= rest[j].0 by {
        assert(rest[j] == writes[j + 1]);
        assert(rest[k] == writes[k + 1]);
    }
    if i == 0 {
        lemma_write_then_read_u32(m, a, v);
        assert forall|k: int| 0 <= k < rest.len() implies a + 4 <= (#[trigger] rest[k]).0 || rest[k].0
            + 4 <= a by {
            assert(rest[k] == writes[k + 1]);
        }
        lemma_write_all_keeps(m1, rest, a);
    } else {
        lemma_stored_accessible(m, a as int, u32_bytes(v), writes[i].0 as int, 4, Access::Read);
        assert(rest[i - 1] == writes[i]);
        lemma_write_all_reads_back(m1, rest, i - 1);
    }
}

/// The platform table's words do not overlap one another.
proof fn lemma_table_words_apart()
    ensures
        forall|j: int, k: int|
            0 <= j < table_writes().len() && 0 <= k < table_writes().len() && j != k ==> (
            #[trigger] table_writes()[j]).0 + 4 <= (#[trigger] table_writes()[k]).0
                || table_writes()[k].0 + 4 <= table_writes()[j].0,
{
}

/// The runtime's first layout gives a heap that is one free block: on a
/// memory whose platform table, platform data words and heap are readable
/// and writable, filling the platform table and then writing the fresh heap
/// both succeed, and the heap read back from the platform slots is the
/// whole heap, all free, whose free list is the single block over the span.
pub proof fn lemma_fresh_layout_heap(
    m: MemView,
    heap_len: u32,
    snap: Option<SnapshotView>,
    allocations: Map<u32, u32>,
)
    requires
        m.wf(),
        8 <= heap_len <= MAX_GUEST_HEAP_LEN,
        m.accessible(PLATFORM_TABLE as int, 0x1000, Access::Read),
        m.accessible(PLATFORM_TABLE as int, 0x1000, Access::Write),
        m.accessible(PLATFORM_DATA as int, 0x1000, Access::Read),
        m.accessible(PLATFORM_DATA as int, 0x1000, Access::Write),
        m.accessible(HEAP_BASE as int, heap_len as int, Access::Read),
        m.accessible(HEAP_BASE as int, heap_len as int, Access::Write),
    ensures
        ({
            let (t, table_fault) = write_all(m, table_writes());
            let (w, heap_fault) = write_all(t, fresh_heap_writes(heap_len));
            &&& table_fault is None
            &&& heap_fault is None
            &&& heap_state(w) == Ok::<GuestHeapState, GuestFault>(fresh_heap(heap_len))
            &&& free_list_read(w, fresh_heap(heap_len), snap, allocations) == Ok::<
                (Seq<FreeBlock>, u32, u32),
                GuestFault,
            >((seq![FreeBlock { offset: 0, len: heap_len }], heap_len, 0))
        }),
{
    let writes = table_writes();
    assert forall|i: int| 0 <= i < writes.len() implies m.accessible(
        (#[trigger] writes[i]).0 as int,
        4,
        Access::Write,
    ) by {
        lemma_accessible_within(m, PLATFORM_TABLE as int, 0x1000, i * 4, 4, Access::Write);
    }
    lemma_write_all_succeeds(m, writes);
    let t = write_all(m, writes).0;
    lemma_table_words_apart();
    let slots = seq![108u32, 110u32, 111u32, 146u32];
    assert forall|q: int| 0 <= q < 4 implies t.read_u32(table_word(#[trigger] slots[q])) == Ok::<
        u32,
        Seq<char>,
    >(data_word(slots[q])) by {
        let s = slots[q];
        lemma_accessible_within(m, PLATFORM_TABLE as int, 0x1000, s * 4, 4, Access::Read);
        lemma_write_all_reads_back(m, writes, s as int);
        assert(writes[s as int] == (table_word(s), table_value(s)));
    }
    assert(slots[0] == 108 && slots[1] == 110 && slots[2] == 111 && slots[3] == 146);
    assert forall|slot: u32| 108 <= slot <= 111 || slot == 146 implies t.accessible(
        #[trigger] data_word(slot) as int,
        4,
        Access::Read,
    ) && t.accessible(data_word(slot) as int, 4, Access::Write) by {
        lemma_accessible_within(m, PLATFORM_DATA as int, 0x1000, slot * 4, 4, Access::Read);
        lemma_accessible_within(m, PLATFORM_DATA as int, 0x1000, slot * 4, 4, Access::Write);
    }
    lemma_accessible_within(m, HEAP_BASE as int, heap_len as int, 0, 8, Access::Write);
    lemma_fresh_heap_is_one_free_block(t, heap_len, snap, allocations);
}

/// On a memory whose platform table and data pages and the first eight heap
/// bytes are writable, filling the platform table and then writing a fresh
/// heap of any length both succeed, and every accessible range stays so.
pub proof fn lemma_setup_writes_succeed(m: MemView, heap_len: u32)
    requires
        m.wf(),
        m.accessible(PLATFORM_TABLE as int, 0x1000, Access::Write),
        m.accessible(PLATFORM_DATA as int, 0x1000, Access::Write),
        m.accessible(HEAP_BASE as int, 8, Access::Write),
    ensures
        ({
            let (t, table_fault) = write_all(m, table_writes());
            let (w, heap_fault) = write_all(t, fresh_heap_writes(heap_len));
            &&& table_fault is None
            &&& heap_fault is None
            &&& w.wf()
            &&& forall|b: int, n: int, kind: Access| #[trigger] m.accessible(b, n, kind) ==> w.accessible(b, n, kind)
        }),
{
    let writes = table_writes();
    assert forall|i: int| 0 <= i < writes.len() implies m.accessible(
        (#[trigger] writes[i]).0 as int,
        4,
        Access::Write,
    ) by {
        lemma_accessible_within(m, PLATFORM_TABLE as int, 0x1000, i * 4, 4, Access::Write);
    }
    lemma_write_all_succeeds(m, writes);
    let t = write_all(m, writes).0;
    let hw = fresh_heap_writes(heap_len);
    assert forall|i: int| 0 <= i < hw.len() implies t.accessible((#[trigger] hw[i]).0 as int, 4, Access::Write) by {
        lemma_accessible_within(m, PLATFORM_DATA as int, 0x1000, 108int * 4, 4, Access::Write);
        lemma_accessible_within(m, PLATFORM_DATA as int, 0x1000, 109int * 4, 4, Access::Write);
        lemma_accessible_within(m, PLATFORM_DATA as int, 0x1000, 110int * 4, 4, Access::Write);
        lemma_accessible_within(m, PLATFORM_DATA as int, 0x1000, 111int * 4, 4, Access::Write);
        lemma_accessible_within(m, PLATFORM_DATA as int, 0x1000, 146int * 4, 4, Access::Write);
        lemma_accessible_within(m, HEAP_BASE as int, 8, 0, 4, Access::Write);
        lemma_accessible_within(m, HEAP_BASE as int, 8, 4, 4, Access::Write);
    }
    lemma_write_all_succeeds(t, hw);
}

} // verus!
