//! The guest heap as guest memory holds it: the heap's bounds and counters
//! in platform data slots, and the free list as a chain of eight-byte
//! headers (next offset, length) inside the heap.
use vstd::prelude::*;
use crate::error::Error;
use crate::guest_strings::{
    fault_matches, null_slot_text, platform_data_slot_address, read_platform_data_slot, GuestFault,
};
use crate::heap::{
    scan_free_blocks, sort_by_offset, validate_free_block_ranges, FreeBlock, FREE_BLOCK_HEADER_LEN,
    HEAP_ALIGNMENT,
};
use std::collections::BTreeMap;
use crate::memory::{
    address_overflow_text, lemma_stored_accessible, lemma_stored_layout,
    lemma_write_then_read_u32, lemma_write_u32_keeps_other_words, u32_bytes, Access, GuestAddr,
    GuestMemory, MemView,
};
use crate::slots::{PLATFORM_DATA, PLATFORM_TABLE};
use crate::text::{hex32, hex32_text, hex_prefixed, hex_prefixed_text};

verus! {

/// The active guest heap: `span` bytes from `base`, the offset of the first
/// free block (`head`), the free-byte count, and where the guest keeps the
/// head and the count.
#[derive(Clone, Copy, Debug, PartialEq, Eq, Structural)]
pub struct GuestHeapState {
    pub base: u32,
    pub span: u32,
    pub head: u32,
    pub head_variable: u32,
    pub free_left: u32,
    pub free_left_variable: u32,
}

/// The variable a platform data slot points at, or the fault.
pub open spec fn slot_variable(m: MemView, slot: u32) -> Result<u32, GuestFault> {
    match m.read_u32((PLATFORM_TABLE + slot * 4) as u32) {
        Err(t) => Err(GuestFault::Arm(t)),
        Ok(v) => if v == 0 {
            Err(GuestFault::Abi(null_slot_text(slot)))
        } else {
            Ok(v)
        },
    }
}

/// The value of the variable a platform data slot points at, or the fault.
pub open spec fn slot_value(m: MemView, slot: u32) -> Result<u32, GuestFault> {
    match slot_variable(m, slot) {
        Err(f) => Err(f),
        Ok(v) => match m.read_u32(v) {
            Err(t) => Err(GuestFault::Arm(t)),
            Ok(x) => Ok(x),
        },
    }
}

pub open spec fn small_heap_text(base: u32, end: u32) -> Seq<char> {
    "active guest heap "@ + hex32_text(base) + ".."@ + hex32_text(end) + " is too small"@
}

pub open spec fn head_text(head: u32, span: u32) -> Seq<char> {
    "guest free-list head "@ + hex_prefixed_text(head as nat) + " exceeds heap span "@
        + hex_prefixed_text(span as nat)
}

/// The heap as the platform data slots describe it: base (slot 108), end
/// (slot 110), the free-list head (the variable of slot 146) and the
/// free-byte count (the variable of slot 111).
pub open spec fn heap_state(m: MemView) -> Result<GuestHeapState, GuestFault> {
    match slot_value(m, 108) {
        Err(f) => Err(f),
        Ok(base) => match slot_value(m, 110) {
            Err(f) => Err(f),
            Ok(end) => {
                let span = end.wrapping_sub(base);
                if span < 8 {
                    Err(GuestFault::Abi(small_heap_text(base, end)))
                } else {
                    match slot_variable(m, 146) {
                        Err(f) => Err(f),
                        Ok(head_variable) => match m.read_u32(head_variable) {
                            Err(t) => Err(GuestFault::Arm(t)),
                            Ok(head) => if head > span {
                                Err(GuestFault::Abi(head_text(head, span)))
                            } else {
                                match slot_variable(m, 111) {
                                    Err(f) => Err(f),
                                    Ok(free_left_variable) => match m.read_u32(free_left_variable) {
                                        Err(t) => Err(GuestFault::Arm(t)),
                                        Ok(free_left) => Ok(
                                            GuestHeapState {
                                                base,
                                                span,
                                                head,
                                                head_variable,
                                                free_left,
                                                free_left_variable,
                                            },
                                        ),
                                    },
                                }
                            },
                        },
                    }
                }
            },
        },
    }
}

fn slot_variable_exec(memory: &GuestMemory, slot: u32) -> (r: Result<u32, Error>)
    requires
        memory.wf(),
        slot < 150,
    ensures
        match slot_variable(memory@, slot) {
            Ok(v) => r == Ok::<u32, Error>(v),
            Err(f) => fault_matches(r, f),
        },
{
    match platform_data_slot_address(memory, slot) {
        Ok(a) => Ok(a.0),
        Err(e) => Err(e),
    }
}

pub(crate) fn slot_value_exec(memory: &GuestMemory, slot: u32) -> (r: Result<u32, Error>)
    requires
        memory.wf(),
        slot < 150,
    ensures
        match slot_value(memory@, slot) {
            Ok(v) => r == Ok::<u32, Error>(v),
            Err(f) => fault_matches(r, f),
        },
{
    read_platform_data_slot(memory, slot)
}

/// Reads the active heap's description from the platform data slots.
pub fn guest_heap_state(memory: &GuestMemory) -> (r: Result<GuestHeapState, Error>)
    requires
        memory.wf(),
    ensures
        match heap_state(memory@) {
            Ok(h) => r == Ok::<GuestHeapState, Error>(h),
            Err(f) => fault_matches(r, f),
        },
{
    proof {
        reveal_strlit("active guest heap ");
        reveal_strlit("..");
        reveal_strlit(" is too small");
        reveal_strlit("guest free-list head ");
        reveal_strlit(" exceeds heap span ");
    }
    let base = match slot_value_exec(memory, 108) {
        Ok(v) => v,
        Err(e) => return Err(e),
    };
    let end = match slot_value_exec(memory, 110) {
        Ok(v) => v,
        Err(e) => return Err(e),
    };
    let span = end.wrapping_sub(base);
    if span < 8 {
        let m = String::from_str("active guest heap ").concat(hex32(base).as_str()).concat("..").concat(
            hex32(end).as_str(),
        ).concat(" is too small");
        return Err(Error::Abi(m));
    }
    let head_variable = match slot_variable_exec(memory, 146) {
        Ok(v) => v,
        Err(e) => return Err(e),
    };
    let head = match memory.read_u32(GuestAddr(head_variable)) {
        Ok(v) => v,
        Err(e) => return Err(e),
    };
    if head > span {
        let m = String::from_str("guest free-list head ").concat(hex_prefixed(head as u64).as_str()).concat(
            " exceeds heap span ",
        ).concat(hex_prefixed(span as u64).as_str());
        return Err(Error::Abi(m));
    }
    let free_left_variable = match slot_variable_exec(memory, 111) {
        Ok(v) => v,
        Err(e) => return Err(e),
    };
    let free_left = match memory.read_u32(GuestAddr(free_left_variable)) {
        Ok(v) => v,
        Err(e) => return Err(e),
    };
    Ok(GuestHeapState { base, span, head, head_variable, free_left, free_left_variable })
}

/// What the host last wrote of the heap's free list.
#[derive(Clone, Debug)]
pub struct GuestHeapSnapshot {
    pub base: u32,
    pub span: u32,
    pub head: u32,
    pub free_left: u32,
    pub blocks: Vec<FreeBlock>,
    pub terminator: u32,
}

/// The offset the header of block `i` links to: the next block, or the
/// terminator after the last one.
pub open spec fn next_offset(blocks: Seq<FreeBlock>, i: int, terminator: u32) -> u32 {
    if i + 1 < blocks.len() {
        blocks[i + 1].offset
    } else {
        terminator
    }
}

/// Writes the headers of blocks `i..` at `base`: the memory reached, and
/// the fault that stopped the writes, if any.
pub open spec fn write_headers(m: MemView, base: u32, blocks: Seq<FreeBlock>, terminator: u32, i: int) -> (
    MemView,
    Option<GuestFault>,
)
    decreases blocks.len() - i,
{
    if i < 0 || i >= blocks.len() {
        (m, None)
    } else {
        let a = base.wrapping_add(blocks[i].offset);
        match m.write_u32(a, next_offset(blocks, i, terminator)) {
            Err(t) => (m, Some(GuestFault::Arm(t))),
            Ok(m1) => if a + 4 > u32::MAX {
                (m1, Some(GuestFault::Arm(address_overflow_text(a, 4))))
            } else {
                match m1.write_u32((a + 4) as u32, blocks[i].len) {
                    Err(t) => (m1, Some(GuestFault::Arm(t))),
                    Ok(m2) => write_headers(m2, base, blocks, terminator, i + 1),
                }
            },
        }
    }
}

pub open spec fn terminator_text(terminator: u32, span: u32) -> Seq<char> {
    "guest free-list terminator "@ + hex_prefixed_text(terminator as nat) + " exceeds heap span "@
        + hex_prefixed_text(span as nat)
}

/// The head a free list is written with: its first block, or the
/// terminator when it is empty.
pub open spec fn list_head(blocks: Seq<FreeBlock>, terminator: u32) -> u32 {
    if blocks.len() > 0 {
        blocks[0].offset
    } else {
        terminator
    }
}

/// What writing the free list `blocks` (ending at `terminator`) and the
/// count `free_left` into `heap` does: a terminator past the span or a list
/// that fails validation is refused before anything is written; then each
/// block's header, the head variable and the count variable are written.
pub open spec fn free_list_write(
    m: MemView,
    heap: GuestHeapState,
    blocks: Seq<FreeBlock>,
    terminator: u32,
    free_left: u32,
) -> (MemView, Option<GuestFault>) {
    if terminator > heap.span {
        (m, Some(GuestFault::Abi(terminator_text(terminator, heap.span))))
    } else {
        match scan_free_blocks(sort_by_offset(blocks), heap.span, 0) {
            Err(t) => (m, Some(GuestFault::Abi(t))),
            Ok(()) => {
                let (m1, fault) = write_headers(m, heap.base, blocks, terminator, 0);
                if fault is Some {
                    (m1, fault)
                } else {
                    match m1.write_u32(heap.head_variable, list_head(blocks, terminator)) {
                        Err(t) => (m1, Some(GuestFault::Arm(t))),
                        Ok(m2) => match m2.write_u32(heap.free_left_variable, free_left) {
                            Err(t) => (m2, Some(GuestFault::Arm(t))),
                            Ok(m3) => (m3, None),
                        },
                    }
                }
            },
        }
    }
}

/// Writes the free list `blocks`, ending at `terminator`, and the free-byte
/// count into the guest heap, and returns what was written.
#[verifier::loop_isolation(false)]
pub fn write_free_blocks(
    memory: &mut GuestMemory,
    heap: GuestHeapState,
    blocks: &[FreeBlock],
    terminator: u32,
    free_left: u32,
) -> (r: Result<GuestHeapSnapshot, Error>)
    requires
        old(memory).wf(),
    ensures
        final(memory).wf(),
        final(memory)@ == free_list_write(old(memory)@, heap, blocks@, terminator, free_left).0,
        match free_list_write(old(memory)@, heap, blocks@, terminator, free_left).1 {
            None => r matches Ok(s) && s.base == heap.base && s.span == heap.span && s.head
                == list_head(blocks@, terminator) && s.free_left == free_left && s.blocks@ == blocks@
                && s.terminator == terminator,
            Some(f) => fault_matches(r, f),
        },
{
    proof {
        reveal_strlit("guest free-list terminator ");
        reveal_strlit(" exceeds heap span ");
    }
    if terminator > heap.span {
        let m = String::from_str("guest free-list terminator ").concat(
            hex_prefixed(terminator as u64).as_str(),
        ).concat(" exceeds heap span ").concat(hex_prefixed(heap.span as u64).as_str());
        return Err(Error::Abi(m));
    }
    match validate_free_block_ranges(blocks, heap.span) {
        Ok(()) => {},
        Err(e) => return Err(e),
    }
    let head = if blocks.len() > 0 {
        blocks[0].offset
    } else {
        terminator
    };
    let ghost m0 = memory@;
    let mut i: usize = 0;
    while i < blocks.len()
        invariant
            0 <= i <= blocks@.len(),
            memory.wf(),
            write_headers(m0, heap.base, blocks@, terminator, 0) == write_headers(
                memory@,
                heap.base,
                blocks@,
                terminator,
                i as int,
            ),
        decreases blocks@.len() - i,
    {
        let block = blocks[i];
        let next = if i + 1 < blocks.len() {
            blocks[i + 1].offset
        } else {
            terminator
        };
        let address = GuestAddr(heap.base.wrapping_add(block.offset));
        match memory.write_u32(address, next) {
            Ok(()) => {},
            Err(e) => return Err(e),
        }
        let second = match address.checked_add(4) {
            Ok(a) => a,
            Err(e) => return Err(e),
        };
        match memory.write_u32(second, block.len) {
            Ok(()) => {},
            Err(e) => return Err(e),
        }
        i += 1;
    }
    match memory.write_u32(GuestAddr(heap.head_variable), head) {
        Ok(()) => {},
        Err(e) => return Err(e),
    }
    match memory.write_u32(GuestAddr(heap.free_left_variable), free_left) {
        Ok(()) => {},
        Err(e) => return Err(e),
    }
    let mut copy: Vec<FreeBlock> = Vec::new();
    let mut k: usize = 0;
    while k < blocks.len()
        invariant
            0 <= k <= blocks@.len(),
            copy@ == blocks@.take(k as int),
        decreases blocks@.len() - k,
    {
        copy.push(blocks[k]);
        k += 1;
        proof {
            assert(copy@ =~= blocks@.take(k as int));
        }
    }
    assert(copy@ =~= blocks@);
    Ok(
        GuestHeapSnapshot {
            base: heap.base,
            span: heap.span,
            head,
            free_left,
            blocks: copy,
            terminator,
        },
    )
}

/// A snapshot as a value.
pub struct SnapshotView {
    pub base: u32,
    pub span: u32,
    pub head: u32,
    pub free_left: u32,
    pub blocks: Seq<FreeBlock>,
    pub terminator: u32,
}

impl View for GuestHeapSnapshot {
    type V = SnapshotView;

    open spec fn view(&self) -> SnapshotView {
        SnapshotView {
            base: self.base,
            span: self.span,
            head: self.head,
            free_left: self.free_left,
            blocks: self.blocks@,
            terminator: self.terminator,
        }
    }
}

pub open spec fn snapshot_view(s: Option<GuestHeapSnapshot>) -> Option<SnapshotView> {
    match s {
        Some(x) => Some(x@),
        None => None,
    }
}

/// The snapshot describes the heap at `heap`'s base and span with its head.
pub open spec fn same_heap(s: SnapshotView, heap: GuestHeapState) -> bool {
    s.base == heap.base && s.span == heap.span && s.head == heap.head
}

/// The total length of the blocks.
pub open spec fn total_len(blocks: Seq<FreeBlock>) -> int
    decreases blocks.len(),
{
    if blocks.len() == 0 {
        0
    } else {
        total_len(blocks.drop_last()) + blocks.last().len
    }
}

/// Memory holds the headers of `blocks` linked in order and ending at
/// `terminator`.
pub open spec fn headers_hold(m: MemView, base: u32, blocks: Seq<FreeBlock>, terminator: u32) -> bool {
    forall|i: int|
        0 <= i < blocks.len() ==> {
            let a = base + (#[trigger] blocks[i]).offset;
            &&& a + 4 <= u32::MAX
            &&& m.read_u32(a as u32) == Ok::<u32, Seq<char>>(next_offset(blocks, i, terminator))
            &&& m.read_u32((a + 4) as u32) == Ok::<u32, Seq<char>>(blocks[i].len)
        }
}

/// The free list recovered when the walk meets a zeroed header where the
/// snapshot's first block was: a legacy allocator withdrew that block
/// without advancing the head.  The rest of the snapshot's list must still
/// be in memory, and the count must account for the withdrawn block.
pub open spec fn withdrawn_recovery(
    m: MemView,
    heap: GuestHeapState,
    snap: Option<SnapshotView>,
    preceding: nat,
    withdrawn: u32,
) -> Option<(Seq<FreeBlock>, u32, u32)> {
    match snap {
        None => None,
        Some(s) => if preceding != 0 || !same_heap(s, heap) || s.blocks.len() == 0
            || s.blocks[0].offset != withdrawn {
            None
        } else {
            let payload = s.blocks[0];
            let rest = s.blocks.skip(1);
            if payload.len + 4 > u32::MAX || s.free_left < heap.free_left {
                None
            } else if s.free_left - heap.free_left != payload.len && s.free_left - heap.free_left
                != payload.len + 4 {
                None
            } else if rest.len() == 0 || !headers_hold(m, heap.base, rest, s.terminator)
                || total_len(rest) > u32::MAX {
                None
            } else {
                let total = total_len(rest);
                let (recovered, correction) = if heap.free_left >= total {
                    (rest, heap.free_left - total)
                } else {
                    let slop = total - heap.free_left;
                    let tail = rest.last();
                    (
                        rest.update(rest.len() - 1, FreeBlock { offset: tail.offset, len: (tail.len - slop) as u32 }),
                        0,
                    )
                };
                if heap.free_left >= total && heap.free_left - total > payload.len {
                    None
                } else if heap.free_left < total && (total - heap.free_left >= HEAP_ALIGNMENT
                    || rest.last().len < total - heap.free_left || rest.last().len - (total
                    - heap.free_left) < FREE_BLOCK_HEADER_LEN) {
                    None
                } else if scan_free_blocks(sort_by_offset(recovered), heap.span, 0) is Err {
                    None
                } else {
                    Some((recovered, s.terminator, correction as u32))
                }
            }
        },
    }
}

/// The first index from `i` on of a block at `offset`.
pub open spec fn index_of_offset(blocks: Seq<FreeBlock>, offset: u32, i: int) -> Option<int>
    decreases blocks.len() - i,
{
    if i < 0 || i >= blocks.len() {
        None
    } else if blocks[i].offset == offset {
        Some(i)
    } else {
        index_of_offset(blocks, offset, i + 1)
    }
}

/// Where the guest RAM package that platform data slots 104 and 105 name
/// begins and ends, as aligned offsets into the heap.
pub open spec fn ram_window(m: MemView, base: u32) -> Option<(u32, u32)> {
    match m.read_u32((PLATFORM_DATA + 104 * 4) as u32) {
        Err(_) => None,
        Ok(address) => match m.read_u32((PLATFORM_DATA + 105 * 4) as u32) {
            Err(_) => None,
            Ok(len) => if address == 0 || len == 0 || address < base || address + len > u32::MAX
                || address + len < base || address + len - base + 7 > u32::MAX {
                None
            } else {
                Some(
                    (
                        ((address - base) as u32) & !7u32,
                        ((address + len - base + 7) as u32) & !7u32,
                    ),
                )
            },
        },
    }
}

/// The free list recovered when the walk meets a corrupted header inside
/// the guest RAM package: the snapshot's block there keeps only what lies
/// past the package, and the walk goes on with the snapshot's next block.
/// The recovered blocks, where to go on, and the bytes dropped.
pub open spec fn corrupted_recovery(
    m: MemView,
    heap: GuestHeapState,
    snap: Option<SnapshotView>,
    corrupted: u32,
) -> Option<(Seq<FreeBlock>, u32, u32)> {
    match snap {
        None => None,
        Some(s) => if !same_heap(s, heap) {
            None
        } else {
            match index_of_offset(s.blocks, corrupted, 0) {
                None => None,
                Some(i) => {
                    let block = s.blocks[i];
                    if s.free_left != heap.free_left {
                        None
                    } else {
                        match ram_window(m, heap.base) {
                            None => None,
                            Some((ram_start, ram_end)) => if ram_end > heap.span || corrupted
                                < ram_start || corrupted >= ram_end || block.offset + block.len
                                > u32::MAX {
                                None
                            } else {
                                let block_end = block.offset + block.len;
                                let overlap_end = if block_end <= ram_end {
                                    block_end
                                } else {
                                    ram_end as int
                                };
                                if overlap_end <= block.offset {
                                    None
                                } else {
                                    let suffix = block_end - overlap_end;
                                    if suffix >= FREE_BLOCK_HEADER_LEN {
                                        Some(
                                            (
                                                seq![
                                                    FreeBlock {
                                                        offset: overlap_end as u32,
                                                        len: suffix as u32,
                                                    },
                                                ],
                                                next_offset(s.blocks, i, s.terminator),
                                                (block.len - suffix) as u32,
                                            ),
                                        )
                                    } else {
                                        Some(
                                            (
                                                Seq::empty(),
                                                next_offset(s.blocks, i, s.terminator),
                                                block.len,
                                            ),
                                        )
                                    }
                                }
                            },
                        }
                    }
                },
            }
        },
    }
}

/// The first index from `i` on of a block the snapshot does not hold.
pub open spec fn first_added(blocks: Seq<FreeBlock>, known: Seq<FreeBlock>, i: int) -> Option<int>
    decreases blocks.len() - i,
{
    if i < 0 || i >= blocks.len() {
        None
    } else if !known.contains(blocks[i]) {
        Some(i)
    } else {
        first_added(blocks, known, i + 1)
    }
}

/// The free list recovered when the list read fails validation because a
/// legacy wrapper's payload block was returned with its four-byte length
/// header: exactly one block is new since the snapshot, it starts four
/// bytes into an allocation of its own length, and a snapshot block
/// follows it; that block loses the four bytes.  The list and the count
/// correction.
pub open spec fn overlap_recovery(
    heap: GuestHeapState,
    snap: Option<SnapshotView>,
    allocations: Map<u32, u32>,
    blocks: Seq<FreeBlock>,
    terminator: u32,
) -> Option<(Seq<FreeBlock>, u32)> {
    match snap {
        None => None,
        Some(s) => if !same_heap(s, heap) || s.terminator != terminator || s.blocks.len() + 1
            > usize::MAX || blocks.len() != s.blocks.len() + 1 || !(forall|k: int|
            0 <= k < s.blocks.len() ==> blocks.contains(#[trigger] s.blocks[k])) {
            None
        } else {
            match first_added(blocks, s.blocks, 0) {
                None => None,
                Some(i) => {
                    let added = blocks[i];
                    if first_added(blocks, s.blocks, i + 1) is Some || added.offset < 4
                        || heap.base + (added.offset - 4) > u32::MAX {
                        None
                    } else {
                        let backing = (heap.base + (added.offset - 4)) as u32;
                        if !(allocations.contains_key(backing) && allocations[backing] == added.len)
                            || added.len < 4 || added.len - 4 < FREE_BLOCK_HEADER_LEN
                            || added.offset + (added.len - 4) > u32::MAX || !(exists|k: int|
                            0 <= k < s.blocks.len() && (#[trigger] s.blocks[k]).offset
                                == added.offset + (added.len - 4)) {
                            None
                        } else {
                            let usable = (added.len - 4) as u32;
                            let recovered = blocks.update(i, FreeBlock { offset: added.offset, len: usable });
                            if scan_free_blocks(sort_by_offset(recovered), heap.span, 0) is Err
                                || s.free_left + usable > u32::MAX || heap.free_left < s.free_left
                                + usable {
                                None
                            } else {
                                Some((recovered, (heap.free_left - (s.free_left + usable)) as u32))
                            }
                        }
                    }
                },
            }
        },
    }
}

pub open spec fn count_overflow_text() -> Seq<char> {
    "recovered guest free-byte count overflow"@
}

/// The end of a walk: the list read is validated; a list that fails may
/// still be recovered by `overlap_recovery`.
pub open spec fn finish_read(
    heap: GuestHeapState,
    snap: Option<SnapshotView>,
    allocations: Map<u32, u32>,
    blocks: Seq<FreeBlock>,
    terminator: u32,
    recovered: u32,
) -> Result<(Seq<FreeBlock>, u32, u32), GuestFault> {
    match scan_free_blocks(sort_by_offset(blocks), heap.span, 0) {
        Ok(()) => Ok((blocks, terminator, recovered)),
        Err(t) => match overlap_recovery(heap, snap, allocations, blocks, terminator) {
            None => Err(GuestFault::Abi(t)),
            Some((list, correction)) => if recovered + correction > u32::MAX {
                Err(GuestFault::Abi(count_overflow_text()))
            } else {
                match scan_free_blocks(sort_by_offset(list), heap.span, 0) {
                    Err(t2) => Err(GuestFault::Abi(t2)),
                    Ok(()) => Ok((list, terminator, (recovered + correction) as u32)),
                }
            },
        },
    }
}

/// A walk that ends with a list recovered from the snapshot.
pub open spec fn recovered_result(found: (Seq<FreeBlock>, u32, u32), recovered: u32) -> Result<
    (Seq<FreeBlock>, u32, u32),
    GuestFault,
> {
    if recovered + found.2 > u32::MAX {
        Err(GuestFault::Abi(count_overflow_text()))
    } else {
        Ok((found.0, found.1, (recovered + found.2) as u32))
    }
}

pub open spec fn outside_span_text(offset: u32, span: u32) -> Seq<char> {
    "guest free-list offset "@ + hex_prefixed_text(offset as nat) + " is outside heap span "@
        + hex_prefixed_text(span as nat)
}

pub open spec fn cycle_text(offset: u32) -> Seq<char> {
    "guest free-list contains a cycle at offset "@ + hex_prefixed_text(offset as nat)
}

pub open spec fn invalid_len_text(offset: u32, len: u32, span: u32) -> Seq<char> {
    "guest free block at offset "@ + hex_prefixed_text(offset as nat) + " has invalid length "@
        + hex_prefixed_text(len as nat) + " for heap span "@ + hex_prefixed_text(span as nat)
}

pub open spec fn invalid_next_text(offset: u32, next: u32) -> Seq<char> {
    "guest free block at offset "@ + hex_prefixed_text(offset as nat) + " has invalid next offset "@
        + hex_prefixed_text(next as nat)
}

/// A header that cannot be trusted: the snapshot may say what the list
/// was; else the walk fails with `text`.
pub open spec fn bad_header(
    m: MemView,
    heap: GuestHeapState,
    snap: Option<SnapshotView>,
    allocations: Map<u32, u32>,
    blocks: Seq<FreeBlock>,
    seen: Seq<u32>,
    offset: u32,
    recovered: u32,
    text: Seq<char>,
    fuel: nat,
) -> Result<(Seq<FreeBlock>, u32, u32), GuestFault>
    decreases fuel, 1nat,
{
    match withdrawn_recovery(m, heap, snap, blocks.len(), offset) {
        Some(found) => recovered_result(found, recovered),
        None => match corrupted_recovery(m, heap, snap, offset) {
            None => Err(GuestFault::Abi(text)),
            Some((list, next, removed)) => if recovered + removed > u32::MAX {
                Err(GuestFault::Abi(count_overflow_text()))
            } else {
                walk(
                    m,
                    heap,
                    snap,
                    allocations,
                    blocks + list,
                    seen.push(offset),
                    next,
                    (recovered + removed) as u32,
                    fuel,
                )
            },
        },
    }
}

/// The walk of the free list from `offset`, after `blocks` were read and
/// the offsets `seen` visited.  Each step visits a new offset below the
/// span, so `fuel` (the span plus one at the start) never runs out.
pub open spec fn walk(
    m: MemView,
    heap: GuestHeapState,
    snap: Option<SnapshotView>,
    allocations: Map<u32, u32>,
    blocks: Seq<FreeBlock>,
    seen: Seq<u32>,
    offset: u32,
    recovered: u32,
    fuel: nat,
) -> Result<(Seq<FreeBlock>, u32, u32), GuestFault>
    decreases fuel, 0nat,
{
    if fuel == 0 {
        Err(GuestFault::Abi(Seq::empty()))
    } else if offset == heap.span {
        finish_read(heap, snap, allocations, blocks, offset, recovered)
    } else if offset + 8 > u32::MAX {
        Err(GuestFault::Abi("guest free-block header overflow"@))
    } else if offset + 8 > heap.span {
        Err(GuestFault::Abi(outside_span_text(offset, heap.span)))
    } else if seen.contains(offset) {
        Err(GuestFault::Abi(cycle_text(offset)))
    } else {
        let address = heap.base.wrapping_add(offset);
        match m.read_u32(address) {
            Err(t) => Err(GuestFault::Arm(t)),
            Ok(next) => if address + 4 > u32::MAX {
                Err(GuestFault::Arm(address_overflow_text(address, 4)))
            } else {
                match m.read_u32((address + 4) as u32) {
                    Err(t) => Err(GuestFault::Arm(t)),
                    Ok(len) => if next == 0 && len == 0 {
                        match withdrawn_recovery(m, heap, snap, blocks.len(), offset) {
                            Some(found) => recovered_result(found, recovered),
                            None => finish_read(heap, snap, allocations, blocks, offset, recovered),
                        }
                    } else if offset + len > u32::MAX {
                        Err(GuestFault::Abi("guest free-block range overflow"@))
                    } else if len < FREE_BLOCK_HEADER_LEN || offset + len > heap.span {
                        bad_header(
                            m,
                            heap,
                            snap,
                            allocations,
                            blocks,
                            seen,
                            offset,
                            recovered,
                            invalid_len_text(offset, len, heap.span),
                            (fuel - 1) as nat,
                        )
                    } else if next > heap.span {
                        bad_header(
                            m,
                            heap,
                            snap,
                            allocations,
                            blocks,
                            seen,
                            offset,
                            recovered,
                            invalid_next_text(offset, next),
                            (fuel - 1) as nat,
                        )
                    } else {
                        walk(
                            m,
                            heap,
                            snap,
                            allocations,
                            blocks.push(FreeBlock { offset, len }),
                            seen.push(offset),
                            next,
                            recovered,
                            (fuel - 1) as nat,
                        )
                    },
                }
            },
        }
    }
}

/// The free list the guest heap holds, as read from memory: the blocks, the
/// terminator, and the bytes the recoveries took off the free-byte count.
pub open spec fn free_list_read(
    m: MemView,
    heap: GuestHeapState,
    snap: Option<SnapshotView>,
    allocations: Map<u32, u32>,
) -> Result<(Seq<FreeBlock>, u32, u32), GuestFault> {
    walk(m, heap, snap, allocations, Seq::empty(), Seq::empty(), heap.head, 0, heap.span as nat + 1)
}

fn headers_hold_exec(memory: &GuestMemory, base: u32, blocks: &[FreeBlock], terminator: u32) -> (r: bool)
    requires
        memory.wf(),
    ensures
        r == headers_hold(memory@, base, blocks@, terminator),
{
    let mut i: usize = 0;
    while i < blocks.len()
        invariant
            0 <= i <= blocks@.len(),
            memory.wf(),
            forall|k: int|
                0 <= k < i ==> {
                    let a = base + (#[trigger] blocks@[k]).offset;
                    &&& a + 4 <= u32::MAX
                    &&& memory@.read_u32(a as u32) == Ok::<u32, Seq<char>>(
                        next_offset(blocks@, k, terminator),
                    )
                    &&& memory@.read_u32((a + 4) as u32) == Ok::<u32, Seq<char>>(blocks@[k].len)
                },
        decreases blocks@.len() - i,
    {
        let block = blocks[i];
        let address = match base.checked_add(block.offset) {
            Some(a) => a,
            None => return false,
        };
        let expected_next = if i + 1 < blocks.len() {
            blocks[i + 1].offset
        } else {
            terminator
        };
        match memory.read_u32(GuestAddr(address)) {
            Ok(v) => if v != expected_next {
                return false;
            },
            Err(_) => return false,
        }
        let second = match address.checked_add(4) {
            Some(a) => a,
            None => return false,
        };
        match memory.read_u32(GuestAddr(second)) {
            Ok(v) => if v != block.len {
                return false;
            },
            Err(_) => return false,
        }
        i += 1;
    }
    true
}

fn total_len_exec(blocks: &[FreeBlock]) -> (r: Option<u32>)
    ensures
        match r {
            Some(t) => t == total_len(blocks@),
            None => total_len(blocks@) > u32::MAX,
        },
{
    let mut total: u32 = 0;
    let mut i: usize = 0;
    while i < blocks.len()
        invariant
            0 <= i <= blocks@.len(),
            total == total_len(blocks@.take(i as int)),
        decreases blocks@.len() - i,
    {
        proof {
            assert(blocks@.take(i + 1).drop_last() =~= blocks@.take(i as int));
        }
        total = match total.checked_add(blocks[i].len) {
            Some(t) => t,
            None => {
                proof {
                    lemma_total_len_prefix(blocks@, i + 1);
                }
                return None;
            },
        };
        i += 1;
    }
    assert(blocks@.take(blocks@.len() as int) =~= blocks@);
    Some(total)
}

/// A prefix never holds more bytes than the whole.
proof fn lemma_total_len_prefix(blocks: Seq<FreeBlock>, k: int)
    requires
        0 <= k <= blocks.len(),
    ensures
        total_len(blocks.take(k)) <= total_len(blocks),
    decreases blocks.len(),
{
    if k < blocks.len() {
        assert(blocks.drop_last().take(k) =~= blocks.take(k));
        lemma_total_len_prefix(blocks.drop_last(), k);
    } else {
        assert(blocks.take(k) =~= blocks);
    }
}

fn copy_blocks(blocks: &[FreeBlock], from: usize) -> (r: Vec<FreeBlock>)
    requires
        from <= blocks@.len(),
    ensures
        r@ == blocks@.skip(from as int),
{
    let mut out: Vec<FreeBlock> = Vec::new();
    let mut i: usize = from;
    while i < blocks.len()
        invariant
            from <= i <= blocks@.len(),
            out@ == blocks@.subrange(from as int, i as int),
        decreases blocks@.len() - i,
    {
        out.push(blocks[i]);
        i += 1;
        proof {
            assert(out@ =~= blocks@.subrange(from as int, i as int));
        }
    }
    assert(out@ =~= blocks@.skip(from as int));
    out
}

fn scan_ok(blocks: &[FreeBlock], span: u32) -> (r: bool)
    ensures
        r == (scan_free_blocks(sort_by_offset(blocks@), span, 0) is Ok),
{
    validate_free_block_ranges(blocks, span).is_ok()
}

fn recover_withdrawn(
    memory: &GuestMemory,
    heap: GuestHeapState,
    snapshot: &Option<GuestHeapSnapshot>,
    preceding: usize,
    withdrawn: u32,
) -> (r: Option<(Vec<FreeBlock>, u32, u32)>)
    requires
        memory.wf(),
    ensures
        match withdrawn_recovery(memory@, heap, snapshot_view(*snapshot), preceding as nat, withdrawn) {
            None => r is None,
            Some((b, t, c)) => r matches Some(v) && v.0@ == b && v.1 == t && v.2 == c,
        },
{
    let s = match snapshot {
        Some(s) => s,
        None => return None,
    };
    if preceding != 0 || s.base != heap.base || s.span != heap.span || s.head != heap.head
        || s.blocks.len() == 0 {
        return None;
    }
    if s.blocks[0].offset != withdrawn {
        return None;
    }
    let payload = s.blocks[0];
    let backing_len = match payload.len.checked_add(4) {
        Some(l) => l,
        None => return None,
    };
    let withdrawn_len = match s.free_left.checked_sub(heap.free_left) {
        Some(l) => l,
        None => return None,
    };
    if withdrawn_len != payload.len && withdrawn_len != backing_len {
        return None;
    }
    let mut recovered = copy_blocks(s.blocks.as_slice(), 1);
    if recovered.len() == 0 {
        return None;
    }
    if !headers_hold_exec(memory, heap.base, recovered.as_slice(), s.terminator) {
        return None;
    }
    let total = match total_len_exec(recovered.as_slice()) {
        Some(t) => t,
        None => return None,
    };
    let correction = if heap.free_left >= total {
        let c = heap.free_left - total;
        if c > payload.len {
            return None;
        }
        c
    } else {
        let slop = total - heap.free_left;
        if slop >= HEAP_ALIGNMENT {
            return None;
        }
        let last = recovered.len() - 1;
        let tail = recovered[last];
        if tail.len < slop {
            return None;
        }
        let trimmed = tail.len - slop;
        if trimmed < FREE_BLOCK_HEADER_LEN {
            return None;
        }
        recovered.set(last, FreeBlock { offset: tail.offset, len: trimmed });
        0
    };
    if !scan_ok(recovered.as_slice(), heap.span) {
        return None;
    }
    Some((recovered, s.terminator, correction))
}

fn index_of_offset_exec(blocks: &[FreeBlock], offset: u32) -> (r: Option<usize>)
    ensures
        match index_of_offset(blocks@, offset, 0) {
            Some(i) => r == Some(i as usize) && 0 <= i < blocks@.len(),
            None => r is None,
        },
{
    let mut i: usize = 0;
    while i < blocks.len()
        invariant
            0 <= i <= blocks@.len(),
            index_of_offset(blocks@, offset, 0) == index_of_offset(blocks@, offset, i as int),
        decreases blocks@.len() - i,
    {
        if blocks[i].offset == offset {
            return Some(i);
        }
        i += 1;
    }
    None
}

fn recover_corrupted(
    memory: &GuestMemory,
    heap: GuestHeapState,
    snapshot: &Option<GuestHeapSnapshot>,
    corrupted: u32,
) -> (r: Option<(Vec<FreeBlock>, u32, u32)>)
    requires
        memory.wf(),
    ensures
        match corrupted_recovery(memory@, heap, snapshot_view(*snapshot), corrupted) {
            None => r is None,
            Some((b, n, c)) => r matches Some(v) && v.0@ == b && v.1 == n && v.2 == c,
        },
{
    let s = match snapshot {
        Some(s) => s,
        None => return None,
    };
    if s.base != heap.base || s.span != heap.span || s.head != heap.head {
        return None;
    }
    let index = match index_of_offset_exec(s.blocks.as_slice(), corrupted) {
        Some(i) => i,
        None => return None,
    };
    assert(index < s.blocks@.len());
    let block = s.blocks[index];
    let next = if index < s.blocks.len() - 1 {
        s.blocks[index + 1].offset
    } else {
        s.terminator
    };
    if s.free_left != heap.free_left {
        return None;
    }
    let ram_address = match memory.read_u32(GuestAddr(PLATFORM_DATA + 104 * 4)) {
        Ok(v) => v,
        Err(_) => return None,
    };
    let ram_len = match memory.read_u32(GuestAddr(PLATFORM_DATA + 105 * 4)) {
        Ok(v) => v,
        Err(_) => return None,
    };
    if ram_address == 0 || ram_len == 0 {
        return None;
    }
    let ram_start = match ram_address.checked_sub(heap.base) {
        Some(v) => v & !7u32,
        None => return None,
    };
    let ram_end = match ram_address.checked_add(ram_len) {
        Some(e) => match e.checked_sub(heap.base) {
            Some(o) => match o.checked_add(7) {
                Some(x) => x & !7u32,
                None => return None,
            },
            None => return None,
        },
        None => return None,
    };
    if ram_end > heap.span || corrupted < ram_start || corrupted >= ram_end {
        return None;
    }
    let block_end = match block.offset.checked_add(block.len) {
        Some(e) => e,
        None => return None,
    };
    let overlap_end = if block_end <= ram_end {
        block_end
    } else {
        ram_end
    };
    if overlap_end <= block.offset {
        return None;
    }
    let suffix_len = block_end - overlap_end;
    let mut recovered: Vec<FreeBlock> = Vec::new();
    if suffix_len >= FREE_BLOCK_HEADER_LEN {
        recovered.push(FreeBlock { offset: overlap_end, len: suffix_len });
        assert(recovered@ =~= seq![FreeBlock { offset: overlap_end, len: suffix_len }]);
        return Some((recovered, next, block.len - suffix_len));
    }
    Some((recovered, next, block.len))
}

fn contains_block(blocks: &[FreeBlock], b: FreeBlock) -> (r: bool)
    ensures
        r == blocks@.contains(b),
{
    let mut i: usize = 0;
    while i < blocks.len()
        invariant
            0 <= i <= blocks@.len(),
            forall|k: int| 0 <= k < i ==> blocks@[k] != b,
        decreases blocks@.len() - i,
    {
        if blocks[i].offset == b.offset && blocks[i].len == b.len {
            assert(blocks@[i as int] == b);
            return true;
        }
        i += 1;
    }
    false
}

fn first_added_exec(blocks: &[FreeBlock], known: &[FreeBlock], from: usize) -> (r: Option<usize>)
    requires
        from <= blocks@.len(),
    ensures
        match first_added(blocks@, known@, from as int) {
            Some(i) => r == Some(i as usize) && from <= i < blocks@.len(),
            None => r is None,
        },
{
    let mut i: usize = from;
    while i < blocks.len()
        invariant
            from <= i <= blocks@.len(),
            first_added(blocks@, known@, from as int) == first_added(blocks@, known@, i as int),
        decreases blocks@.len() - i,
    {
        if !contains_block(known, blocks[i]) {
            return Some(i);
        }
        i += 1;
    }
    None
}

#[verifier::loop_isolation(false)]
fn recover_overlap(
    heap: GuestHeapState,
    snapshot: &Option<GuestHeapSnapshot>,
    allocations: &BTreeMap<u32, u32>,
    blocks: &[FreeBlock],
    terminator: u32,
) -> (r: Option<(Vec<FreeBlock>, u32)>)
    ensures
        match overlap_recovery(heap, snapshot_view(*snapshot), allocations@, blocks@, terminator) {
            None => r is None,
            Some((b, c)) => r matches Some(v) && v.0@ == b && v.1 == c,
        },
{
    broadcast use vstd::laws_cmp::group_laws_cmp;
    broadcast use vstd::std_specs::btree::group_btree_axioms;
    let s = match snapshot {
        Some(s) => s,
        None => return None,
    };
    if s.base != heap.base || s.span != heap.span || s.head != heap.head || s.terminator
        != terminator {
        return None;
    }
    let expected_len = match s.blocks.len().checked_add(1) {
        Some(n) => n,
        None => return None,
    };
    if blocks.len() != expected_len {
        return None;
    }
    let mut k: usize = 0;
    while k < s.blocks.len()
        invariant
            0 <= k <= s.blocks@.len(),
            forall|j: int| 0 <= j < k ==> blocks@.contains(#[trigger] s.blocks@[j]),
        decreases s.blocks@.len() - k,
    {
        if !contains_block(blocks, s.blocks[k]) {
            return None;
        }
        k += 1;
    }
    let index = match first_added_exec(blocks, s.blocks.as_slice(), 0) {
        Some(i) => i,
        None => return None,
    };
    if first_added_exec(blocks, s.blocks.as_slice(), index + 1).is_some() {
        return None;
    }
    let added = blocks[index];
    let backing_offset = match added.offset.checked_sub(4) {
        Some(o) => o,
        None => return None,
    };
    let backing = match heap.base.checked_add(backing_offset) {
        Some(b) => b,
        None => return None,
    };
    match allocations.get(&backing) {
        Some(len) => if *len != added.len {
            return None;
        },
        None => return None,
    }
    let usable = match added.len.checked_sub(4) {
        Some(u) => u,
        None => return None,
    };
    if usable < FREE_BLOCK_HEADER_LEN {
        return None;
    }
    let successor = match added.offset.checked_add(usable) {
        Some(x) => x,
        None => return None,
    };
    let mut found = false;
    let mut q: usize = 0;
    while q < s.blocks.len()
        invariant
            0 <= q <= s.blocks@.len(),
            found == exists|j: int| 0 <= j < q && (#[trigger] s.blocks@[j]).offset == successor,
        decreases s.blocks@.len() - q,
    {
        if s.blocks[q].offset == successor {
            found = true;
        }
        q += 1;
    }
    if !found {
        return None;
    }
    let mut recovered = copy_blocks(blocks, 0);
    assert(recovered@ =~= blocks@);
    recovered.set(index, FreeBlock { offset: added.offset, len: usable });
    if !scan_ok(recovered.as_slice(), heap.span) {
        return None;
    }
    let expected = match s.free_left.checked_add(usable) {
        Some(e) => e,
        None => return None,
    };
    let correction = match heap.free_left.checked_sub(expected) {
        Some(c) => c,
        None => return None,
    };
    Some((recovered, correction))
}

fn finish_free_block_read(
    heap: GuestHeapState,
    snapshot: &Option<GuestHeapSnapshot>,
    allocations: &BTreeMap<u32, u32>,
    blocks: Vec<FreeBlock>,
    terminator: u32,
    recovered: u32,
) -> (r: Result<(Vec<FreeBlock>, u32, u32), Error>)
    ensures
        match finish_read(heap, snapshot_view(*snapshot), allocations@, blocks@, terminator, recovered) {
            Ok((b, t, c)) => r matches Ok(v) && v.0@ == b && v.1 == t && v.2 == c,
            Err(f) => fault_matches(r, f),
        },
{
    match validate_free_block_ranges(blocks.as_slice(), heap.span) {
        Ok(()) => Ok((blocks, terminator, recovered)),
        Err(error) => match recover_overlap(heap, snapshot, allocations, blocks.as_slice(), terminator) {
            None => Err(error),
            Some((list, correction)) => {
                let total = match recovered.checked_add(correction) {
                    Some(t) => t,
                    None => {
                        proof {
                            reveal_strlit("recovered guest free-byte count overflow");
                        }
                        return Err(
                            Error::Abi(String::from_str("recovered guest free-byte count overflow")),
                        );
                    },
                };
                match validate_free_block_ranges(list.as_slice(), heap.span) {
                    Ok(()) => Ok((list, terminator, total)),
                    Err(e) => Err(e),
                }
            },
        },
    }
}

fn recovered_exec(found: (Vec<FreeBlock>, u32, u32), recovered: u32) -> (r: Result<
    (Vec<FreeBlock>, u32, u32),
    Error,
>)
    ensures
        match recovered_result((found.0@, found.1, found.2), recovered) {
            Ok((b, t, c)) => r matches Ok(v) && v.0@ == b && v.1 == t && v.2 == c,
            Err(f) => fault_matches(r, f),
        },
{
    let (list, terminator, correction) = found;
    match recovered.checked_add(correction) {
        Some(total) => Ok((list, terminator, total)),
        None => {
            proof {
                reveal_strlit("recovered guest free-byte count overflow");
            }
            Err(Error::Abi(String::from_str("recovered guest free-byte count overflow")))
        },
    }
}

fn contains_offset(seen: &Vec<u32>, offset: u32) -> (r: bool)
    ensures
        r == seen@.contains(offset),
{
    let mut i: usize = 0;
    while i < seen.len()
        invariant
            0 <= i <= seen@.len(),
            forall|k: int| 0 <= k < i ==> seen@[k] != offset,
        decreases seen@.len() - i,
    {
        if seen[i] == offset {
            return true;
        }
        i += 1;
    }
    false
}

/// A finite set of values below `n` has at most `n` elements.
proof fn lemma_small_set_len(s: Set<u32>, n: nat)
    requires
        s.finite(),
        n <= 0x1_0000_0000,
        forall|x: u32| #[trigger] s.contains(x) ==> x < n,
    ensures
        s.len() <= n,
    decreases n,
{
    if n == 0 {
        assert(s =~= Set::<u32>::empty());
    } else {
        let top = (n - 1) as u32;
        let t = s.remove(top);
        lemma_small_set_len(t, (n - 1) as nat);
    }
}

/// Distinct offsets below the span are at most the span in number.
proof fn lemma_distinct_offsets(seen: Seq<u32>, span: u32)
    requires
        seen.no_duplicates(),
        forall|k: int| 0 <= k < seen.len() ==> #[trigger] seen[k] < span,
    ensures
        seen.len() <= span,
{
    seen.unique_seq_to_set();
    let s = seen.to_set();
    assert forall|x: u32| #[trigger] s.contains(x) implies x < span by {
        let k = choose|k: int| 0 <= k < seen.len() && seen[k] == x;
    }
    vstd::seq_lib::seq_to_set_is_finite(seen);
    lemma_small_set_len(s, span as nat);
}

/// Reads the free list from the guest heap `heap`, following the headers
/// from the head to the span.  A header that cannot be right is checked
/// against `snapshot` (what the host last wrote) and `allocations` (the
/// host's allocation lengths by address) and the list recovered where a
/// legacy allocator is known to leave such a header; otherwise the walk
/// fails.  The blocks, the terminator, and the bytes the recoveries take
/// off the free-byte count.
pub fn read_free_blocks(
    memory: &GuestMemory,
    heap: GuestHeapState,
    snapshot: &Option<GuestHeapSnapshot>,
    allocations: &BTreeMap<u32, u32>,
) -> (r: Result<(Vec<FreeBlock>, u32, u32), Error>)
    requires
        memory.wf(),
    ensures
        match free_list_read(memory@, heap, snapshot_view(*snapshot), allocations@) {
            Ok((b, t, c)) => r matches Ok(v) && v.0@ == b && v.1 == t && v.2 == c,
            Err(f) => fault_matches(r, f),
        },
{
    proof {
        reveal_strlit("guest free-block header overflow");
        reveal_strlit("guest free-list offset ");
        reveal_strlit(" is outside heap span ");
        reveal_strlit("guest free-list contains a cycle at offset ");
        reveal_strlit("guest free-block range overflow");
        reveal_strlit("guest free block at offset ");
        reveal_strlit(" has invalid length ");
        reveal_strlit(" for heap span ");
        reveal_strlit(" has invalid next offset ");
        reveal_strlit("recovered guest free-byte count overflow");
    }
    let ghost m = memory@;
    let ghost snap = snapshot_view(*snapshot);
    let mut blocks: Vec<FreeBlock> = Vec::new();
    let mut seen: Vec<u32> = Vec::new();
    let mut offset = heap.head;
    let mut recovered: u32 = 0;
    let ghost mut fuel: nat = heap.span as nat + 1;
    loop
        invariant
            memory.wf(),
            memory@ == m,
            snap == snapshot_view(*snapshot),
            free_list_read(m, heap, snap, allocations@) == walk(
                m,
                heap,
                snap,
                allocations@,
                blocks@,
                seen@,
                offset,
                recovered,
                fuel,
            ),
            fuel + seen@.len() == heap.span + 1,
            seen@.no_duplicates(),
            forall|k: int| 0 <= k < seen@.len() ==> #[trigger] seen@[k] < heap.span,
        decreases fuel,
    {
        proof {
            lemma_distinct_offsets(seen@, heap.span);
        }
        if offset == heap.span {
            return finish_free_block_read(heap, snapshot, allocations, blocks, offset, recovered);
        }
        let header_end = match offset.checked_add(8) {
            Some(e) => e,
            None => return Err(Error::Abi(String::from_str("guest free-block header overflow"))),
        };
        if header_end > heap.span {
            let text = String::from_str("guest free-list offset ").concat(
                hex_prefixed(offset as u64).as_str(),
            ).concat(" is outside heap span ").concat(hex_prefixed(heap.span as u64).as_str());
            return Err(Error::Abi(text));
        }
        if contains_offset(&seen, offset) {
            let text = String::from_str("guest free-list contains a cycle at offset ").concat(
                hex_prefixed(offset as u64).as_str(),
            );
            return Err(Error::Abi(text));
        }
        let ghost seen_before = seen@;
        seen.push(offset);
        proof {
            assert(seen@ == seen_before.push(offset));
            assert forall|a: int, b: int| 0 <= a < b < seen@.len() implies seen@[a] != seen@[b] by {
                assert(seen@[a] == seen_before[a]);
                if b == seen@.len() - 1 {
                    if seen@[a] == seen@[b] {
                        assert(seen_before.contains(offset));
                    }
                } else {
                    assert(seen@[b] == seen_before[b]);
                }
            }
        }
        let address = heap.base.wrapping_add(offset);
        let next = match memory.read_u32(GuestAddr(address)) {
            Ok(v) => v,
            Err(e) => return Err(e),
        };
        let second = match GuestAddr(address).checked_add(4) {
            Ok(a) => a,
            Err(e) => return Err(e),
        };
        let len = match memory.read_u32(second) {
            Ok(v) => v,
            Err(e) => return Err(e),
        };
        if next == 0 && len == 0 {
            match recover_withdrawn(memory, heap, snapshot, blocks.len(), offset) {
                Some(found) => return recovered_exec(found, recovered),
                None => {
                    return finish_free_block_read(
                        heap,
                        snapshot,
                        allocations,
                        blocks,
                        offset,
                        recovered,
                    )
                },
            }
        }
        let block_end = match offset.checked_add(len) {
            Some(e) => e,
            None => return Err(Error::Abi(String::from_str("guest free-block range overflow"))),
        };
        if len < FREE_BLOCK_HEADER_LEN || block_end > heap.span || next > heap.span {
            let bad_len = len < FREE_BLOCK_HEADER_LEN || block_end > heap.span;
            let ghost text_spec = if bad_len {
                invalid_len_text(offset, len, heap.span)
            } else {
                invalid_next_text(offset, next)
            };
            let ghost blocks_before = blocks@;
            assert(walk(m, heap, snap, allocations@, blocks_before, seen_before, offset, recovered, fuel)
                == bad_header(
                m,
                heap,
                snap,
                allocations@,
                blocks_before,
                seen_before,
                offset,
                recovered,
                text_spec,
                (fuel - 1) as nat,
            ));
            match recover_withdrawn(memory, heap, snapshot, blocks.len(), offset) {
                Some(found) => return recovered_exec(found, recovered),
                None => {},
            }
            match recover_corrupted(memory, heap, snapshot, offset) {
                Some((list, resume, removed)) => {
                    let mut list = list;
                    let ghost recovered_list = list@;
                    blocks.append(&mut list);
                    assert(blocks@ == blocks_before + recovered_list);
                    recovered = match recovered.checked_add(removed) {
                        Some(t) => t,
                        None => {
                            return Err(
                                Error::Abi(
                                    String::from_str("recovered guest free-byte count overflow"),
                                ),
                            )
                        },
                    };
                    offset = resume;
                    proof {
                        fuel = (fuel - 1) as nat;
                    }
                },
                None => {
                    assert(bad_header(
                        m,
                        heap,
                        snap,
                        allocations@,
                        blocks_before,
                        seen_before,
                        offset,
                        recovered,
                        text_spec,
                        (fuel - 1) as nat,
                    ) == Err::<(Seq<FreeBlock>, u32, u32), GuestFault>(GuestFault::Abi(text_spec)));
                    let text = if bad_len {
                        String::from_str("guest free block at offset ").concat(
                            hex_prefixed(offset as u64).as_str(),
                        ).concat(" has invalid length ").concat(hex_prefixed(len as u64).as_str()).concat(
                            " for heap span ",
                        ).concat(hex_prefixed(heap.span as u64).as_str())
                    } else {
                        String::from_str("guest free block at offset ").concat(
                            hex_prefixed(offset as u64).as_str(),
                        ).concat(" has invalid next offset ").concat(
                            hex_prefixed(next as u64).as_str(),
                        )
                    };
                    return Err(Error::Abi(text));
                },
            }
        } else {
            blocks.push(FreeBlock { offset, len });
            offset = next;
            proof {
                fuel = (fuel - 1) as nat;
            }
        }
    }
}

/// Every free list a walk returns passes validation: in offset order its
/// blocks lie inside the span and do not overlap.
proof fn lemma_walk_valid(
    m: MemView,
    heap: GuestHeapState,
    snap: Option<SnapshotView>,
    allocations: Map<u32, u32>,
    blocks: Seq<FreeBlock>,
    seen: Seq<u32>,
    offset: u32,
    recovered: u32,
    fuel: nat,
)
    ensures
        walk(m, heap, snap, allocations, blocks, seen, offset, recovered, fuel) matches Ok((b, _, _))
            ==> scan_free_blocks(sort_by_offset(b), heap.span, 0) is Ok,
    decreases fuel, 0nat,
{
    if fuel > 0 && offset != heap.span && offset + 8 <= heap.span && !seen.contains(offset) {
        let address = heap.base.wrapping_add(offset);
        if m.read_u32(address) is Ok && address + 4 <= u32::MAX && m.read_u32((address + 4) as u32) is Ok {
            let next = m.read_u32(address)->Ok_0;
            let len = m.read_u32((address + 4) as u32)->Ok_0;
            if !(next == 0 && len == 0) && offset + len <= u32::MAX {
                if len < FREE_BLOCK_HEADER_LEN || offset + len > heap.span {
                    lemma_bad_header_valid(
                        m,
                        heap,
                        snap,
                        allocations,
                        blocks,
                        seen,
                        offset,
                        recovered,
                        invalid_len_text(offset, len, heap.span),
                        (fuel - 1) as nat,
                    );
                } else if next > heap.span {
                    lemma_bad_header_valid(
                        m,
                        heap,
                        snap,
                        allocations,
                        blocks,
                        seen,
                        offset,
                        recovered,
                        invalid_next_text(offset, next),
                        (fuel - 1) as nat,
                    );
                } else {
                    lemma_walk_valid(
                        m,
                        heap,
                        snap,
                        allocations,
                        blocks.push(FreeBlock { offset, len }),
                        seen.push(offset),
                        next,
                        recovered,
                        (fuel - 1) as nat,
                    );
                }
            }
        }
    }
}

proof fn lemma_bad_header_valid(
    m: MemView,
    heap: GuestHeapState,
    snap: Option<SnapshotView>,
    allocations: Map<u32, u32>,
    blocks: Seq<FreeBlock>,
    seen: Seq<u32>,
    offset: u32,
    recovered: u32,
    text: Seq<char>,
    fuel: nat,
)
    ensures
        bad_header(m, heap, snap, allocations, blocks, seen, offset, recovered, text, fuel) matches Ok(
            (b, _, _),
        ) ==> scan_free_blocks(sort_by_offset(b), heap.span, 0) is Ok,
    decreases fuel, 1nat,
{
    if withdrawn_recovery(m, heap, snap, blocks.len(), offset) is None {
        match corrupted_recovery(m, heap, snap, offset) {
            Some((list, next, removed)) => {
                if recovered + removed <= u32::MAX {
                    lemma_walk_valid(
                        m,
                        heap,
                        snap,
                        allocations,
                        blocks + list,
                        seen.push(offset),
                        next,
                        (recovered + removed) as u32,
                        fuel,
                    );
                }
            },
            None => {},
        }
    }
}

/// A free list read from guest memory always passes validation: whatever
/// the recoveries did, its blocks lie inside the heap span and, in offset
/// order, do not overlap.
pub proof fn lemma_read_list_is_valid(
    m: MemView,
    heap: GuestHeapState,
    snap: Option<SnapshotView>,
    allocations: Map<u32, u32>,
)
    ensures
        free_list_read(m, heap, snap, allocations) matches Ok((b, _, _)) ==> scan_free_blocks(
            sort_by_offset(b),
            heap.span,
            0,
        ) is Ok,
{
    lemma_walk_valid(m, heap, snap, allocations, Seq::empty(), Seq::empty(), heap.head, 0, heap.span as nat + 1);
}

/// Part of an accessible range is accessible.
proof fn lemma_accessible_part(m: MemView, a: int, n: int, k: int, j: int)
    requires
        m.accessible(a, n, Access::Read),
        0 <= k,
        0 <= j,
        k + j <= n,
    ensures
        m.accessible(a + k, j, Access::Read),
{
    assert forall|t: int| 0 <= t < j implies #[trigger] m.mapped(a + k + t) && crate::memory::allows(
        m.perms_at(a + k + t),
        Access::Read,
    ) by {
        assert(m.mapped(a + (k + t)));
    }
    assert(a + k + j <= 0x1_0000_0000);
}

/// A successful 32-bit write keeps the address space well formed and every
/// readable range readable.
proof fn lemma_write_u32_keeps(m: MemView, a: u32, v: u32, b: int, n: int)
    requires
        m.wf(),
        m.write_u32(a, v) is Ok,
    ensures
        m.write_u32(a, v)->Ok_0.wf(),
        m.accessible(b, n, Access::Read) ==> m.write_u32(a, v)->Ok_0.accessible(b, n, Access::Read),
{
    lemma_stored_layout(m, a as int, u32_bytes(v));
    if m.accessible(b, n, Access::Read) {
        lemma_stored_accessible(m, a as int, u32_bytes(v), b, n, Access::Read);
    }
}

/// The header of block `k` lies at `base + offset` inside the address space.
pub open spec fn header_fits(base: u32, blocks: Seq<FreeBlock>, k: int) -> bool {
    base + blocks[k].offset + 8 <= 0x1_0000_0000
}

/// The headers of two different blocks do not overlap.
pub open spec fn headers_apart(blocks: Seq<FreeBlock>, i: int, j: int) -> bool {
    blocks[i].offset + 8 <= blocks[j].offset || blocks[j].offset + 8 <= blocks[i].offset
}

/// Writing the headers of blocks `i..` leaves every word outside them as
/// it was.
proof fn lemma_write_headers_frame(m: MemView, base: u32, blocks: Seq<FreeBlock>, terminator: u32, i: int, x: u32)
    requires
        m.wf(),
        0 <= i <= blocks.len(),
        write_headers(m, base, blocks, terminator, i).1 is None,
        forall|k: int| i <= k < blocks.len() ==> #[trigger] header_fits(base, blocks, k),
        forall|k: int|
            i <= k < blocks.len() ==> x + 4 <= base + (#[trigger] blocks[k]).offset || base
                + blocks[k].offset + 8 <= x,
    ensures
        write_headers(m, base, blocks, terminator, i).0.wf(),
        write_headers(m, base, blocks, terminator, i).0.read_u32(x) == m.read_u32(x),
        forall|b: int, n: int|
            m.accessible(b, n, Access::Read) ==> #[trigger] write_headers(
                m,
                base,
                blocks,
                terminator,
                i,
            ).0.accessible(b, n, Access::Read),
    decreases blocks.len() - i,
{
    if i < blocks.len() {
        assert(header_fits(base, blocks, i));
        let a = base.wrapping_add(blocks[i].offset);
        assert(a == base + blocks[i].offset);
        let next = next_offset(blocks, i, terminator);
        let m1 = m.write_u32(a, next)->Ok_0;
        let m2 = m1.write_u32((a + 4) as u32, blocks[i].len)->Ok_0;
        assert(x + 4 <= base + blocks[i].offset || base + blocks[i].offset + 8 <= x);
        lemma_write_u32_keeps_other_words(m, a, next, x);
        lemma_write_u32_keeps(m, a, next, 0, 0);
        lemma_write_u32_keeps_other_words(m1, (a + 4) as u32, blocks[i].len, x);
        lemma_write_u32_keeps(m1, (a + 4) as u32, blocks[i].len, 0, 0);
        lemma_write_headers_frame(m2, base, blocks, terminator, i + 1, x);
        assert forall|b: int, n: int| m.accessible(b, n, Access::Read) implies #[trigger] write_headers(
            m,
            base,
            blocks,
            terminator,
            i,
        ).0.accessible(b, n, Access::Read) by {
            lemma_write_u32_keeps(m, a, next, b, n);
            lemma_write_u32_keeps(m1, (a + 4) as u32, blocks[i].len, b, n);
            assert(write_headers(m2, base, blocks, terminator, i + 1).0.accessible(b, n, Access::Read));
        }
    }
}

/// Writing the headers of blocks `i..`, which do not overlap and can be
/// read back, leaves each holding its link and its length.
proof fn lemma_write_headers_hold(m: MemView, base: u32, blocks: Seq<FreeBlock>, terminator: u32, i: int)
    requires
        m.wf(),
        0 <= i <= blocks.len(),
        write_headers(m, base, blocks, terminator, i).1 is None,
        forall|k: int| i <= k < blocks.len() ==> #[trigger] header_fits(base, blocks, k),
        forall|k: int, j: int|
            i <= k < blocks.len() && i <= j < blocks.len() && k != j ==> #[trigger] headers_apart(
                blocks,
                k,
                j,
            ),
        forall|k: int|
            i <= k < blocks.len() ==> m.accessible(
                base + (#[trigger] blocks[k]).offset,
                8,
                Access::Read,
            ),
    ensures
        forall|j: int|
            i <= j < blocks.len() ==> {
                let a = base + (#[trigger] blocks[j]).offset;
                &&& write_headers(m, base, blocks, terminator, i).0.read_u32(a as u32) == Ok::<
                    u32,
                    Seq<char>,
                >(next_offset(blocks, j, terminator))
                &&& write_headers(m, base, blocks, terminator, i).0.read_u32((a + 4) as u32) == Ok::<
                    u32,
                    Seq<char>,
                >(blocks[j].len)
            },
    decreases blocks.len() - i,
{
    if i < blocks.len() {
        assert(header_fits(base, blocks, i));
        let a = base.wrapping_add(blocks[i].offset);
        assert(a == base + blocks[i].offset);
        let next = next_offset(blocks, i, terminator);
        let m1 = m.write_u32(a, next)->Ok_0;
        let m2 = m1.write_u32((a + 4) as u32, blocks[i].len)->Ok_0;
        lemma_accessible_part(m, a as int, 8, 0, 4);
        lemma_accessible_part(m, a as int, 8, 4, 4);
        lemma_write_then_read_u32(m, a, next);
        lemma_write_u32_keeps(m, a, next, a + 4, 4);
        lemma_write_then_read_u32(m1, (a + 4) as u32, blocks[i].len);
        lemma_write_u32_keeps_other_words(m1, (a + 4) as u32, blocks[i].len, a);
        lemma_write_u32_keeps(m1, (a + 4) as u32, blocks[i].len, 0, 0);
        lemma_write_u32_keeps(m, a, next, 0, 0);
        assert forall|k: int| i + 1 <= k < blocks.len() implies m2.accessible(
            base + (#[trigger] blocks[k]).offset,
            8,
            Access::Read,
        ) by {
            lemma_write_u32_keeps(m, a, next, base + blocks[k].offset, 8);
            lemma_write_u32_keeps(m1, (a + 4) as u32, blocks[i].len, base + blocks[k].offset, 8);
        }
        assert forall|k: int| i + 1 <= k < blocks.len() implies (a + 4 <= base + (#[trigger] blocks[k]).offset
            || base + blocks[k].offset + 8 <= a) by {
            assert(headers_apart(blocks, i, k));
        }
        lemma_write_headers_frame(m2, base, blocks, terminator, i + 1, a);
        assert forall|k: int| i + 1 <= k < blocks.len() implies ((a + 4) + 4 <= base + (
        #[trigger] blocks[k]).offset || base + blocks[k].offset + 8 <= a + 4) by {
            assert(headers_apart(blocks, i, k));
        }
        lemma_write_headers_frame(m2, base, blocks, terminator, i + 1, (a + 4) as u32);
        lemma_write_headers_hold(m2, base, blocks, terminator, i + 1);
    }
}

/// The offsets of the blocks, in order.
pub open spec fn offsets(blocks: Seq<FreeBlock>) -> Seq<u32> {
    blocks.map_values(|b: FreeBlock| b.offset)
}

/// Where the walk stands after `k` blocks: the next block, or the span.
pub open spec fn walk_position(blocks: Seq<FreeBlock>, k: int, span: u32) -> u32 {
    if k < blocks.len() {
        blocks[k].offset
    } else {
        span
    }
}

/// A walk over headers that hold a valid list of whole blocks at distinct
/// offsets, ending at the span, reads that list back.
proof fn lemma_walk_reads_back(
    m: MemView,
    heap: GuestHeapState,
    snap: Option<SnapshotView>,
    allocations: Map<u32, u32>,
    blocks: Seq<FreeBlock>,
    k: int,
)
    requires
        0 <= k <= blocks.len(),
        blocks.len() <= heap.span,
        heap.base + heap.span <= u32::MAX,
        forall|i: int|
            0 <= i < blocks.len() ==> (#[trigger] blocks[i]).len >= FREE_BLOCK_HEADER_LEN
                && blocks[i].offset + blocks[i].len <= heap.span,
        forall|i: int, j: int|
            0 <= i < blocks.len() && 0 <= j < blocks.len() && i != j ==> (#[trigger] blocks[i]).offset
                != (#[trigger] blocks[j]).offset,
        headers_hold(m, heap.base, blocks, heap.span),
        scan_free_blocks(sort_by_offset(blocks), heap.span, 0) is Ok,
    ensures
        walk(
            m,
            heap,
            snap,
            allocations,
            blocks.take(k),
            offsets(blocks.take(k)),
            walk_position(blocks, k, heap.span),
            0,
            (heap.span + 1 - k) as nat,
        ) == Ok::<(Seq<FreeBlock>, u32, u32), GuestFault>((blocks, heap.span, 0)),
    decreases blocks.len() - k,
{
    if k == blocks.len() {
        assert(blocks.take(k) =~= blocks);
    } else {
        let b = blocks[k];
        let off = b.offset;
        assert(off < heap.span);
        assert(!offsets(blocks.take(k)).contains(off)) by {
            if offsets(blocks.take(k)).contains(off) {
                let q = choose|q: int| 0 <= q < k && offsets(blocks.take(k))[q] == off;
                assert(blocks[q].offset == off);
            }
        }
        let address = heap.base.wrapping_add(off);
        assert(address == heap.base + off);
        assert(m.read_u32(address) == Ok::<u32, Seq<char>>(next_offset(blocks, k, heap.span)));
        assert(m.read_u32((address + 4) as u32) == Ok::<u32, Seq<char>>(b.len));
        let next = next_offset(blocks, k, heap.span);
        if k + 1 < blocks.len() {
            assert(blocks[k + 1].offset < heap.span);
        }
        assert(blocks.take(k).push(b) =~= blocks.take(k + 1));
        assert(offsets(blocks.take(k)).push(off) =~= offsets(blocks.take(k + 1)));
        assert(next == walk_position(blocks, k + 1, heap.span));
        lemma_walk_reads_back(m, heap, snap, allocations, blocks, k + 1);
    }
}

/// What the host writes of a free list is what a later read of the heap
/// gives back: after writing a valid list of whole blocks (each at least a
/// header long, at distinct offsets) that ends at the span, reading the
/// list from the head it was written with gives the same blocks in the
/// same order, the span as terminator and no recovery; the head and the
/// free-byte count variables hold what was written.  The heap must be
/// readable and lie inside the address space, and the two variables must
/// lie outside it and apart.
pub proof fn lemma_written_free_list_reads_back(
    m: MemView,
    heap: GuestHeapState,
    blocks: Seq<FreeBlock>,
    free_left: u32,
    snap: Option<SnapshotView>,
    allocations: Map<u32, u32>,
)
    requires
        m.wf(),
        free_list_write(m, heap, blocks, heap.span, free_left).1 is None,
        heap.base + heap.span <= u32::MAX,
        m.accessible(heap.base as int, heap.span as int, Access::Read),
        m.accessible(heap.head_variable as int, 4, Access::Read),
        m.accessible(heap.free_left_variable as int, 4, Access::Read),
        forall|i: int| 0 <= i < blocks.len() ==> (#[trigger] blocks[i]).len >= FREE_BLOCK_HEADER_LEN,
        forall|i: int, j: int|
            0 <= i < blocks.len() && 0 <= j < blocks.len() && i != j ==> (#[trigger] blocks[i]).offset
                != (#[trigger] blocks[j]).offset,
        heap.head_variable + 4 <= heap.base || heap.base + heap.span <= heap.head_variable,
        heap.free_left_variable + 4 <= heap.base || heap.base + heap.span <= heap.free_left_variable,
        heap.head_variable + 4 <= heap.free_left_variable || heap.free_left_variable + 4
            <= heap.head_variable,
    ensures
        ({
            let written = free_list_write(m, heap, blocks, heap.span, free_left).0;
            let read_heap = GuestHeapState {
                head: list_head(blocks, heap.span),
                free_left,
                ..heap
            };
            &&& free_list_read(written, read_heap, snap, allocations) == Ok::<
                (Seq<FreeBlock>, u32, u32),
                GuestFault,
            >((blocks, heap.span, 0))
            &&& written.read_u32(heap.head_variable) == Ok::<u32, Seq<char>>(
                list_head(blocks, heap.span),
            )
            &&& written.read_u32(heap.free_left_variable) == Ok::<u32, Seq<char>>(free_left)
        }),
{
    let span = heap.span;
    let base = heap.base;
    crate::heap::lemma_validated_blocks_are_disjoint(blocks, span);
    assert forall|k: int| 0 <= k < blocks.len() implies #[trigger] header_fits(base, blocks, k) by {
        assert(blocks[k].offset + blocks[k].len <= span);
    }
    assert forall|k: int, j: int|
        0 <= k < blocks.len() && 0 <= j < blocks.len() && k != j implies #[trigger] headers_apart(
            blocks,
            k,
            j,
        ) by {
        assert(blocks[k].offset != blocks[j].offset);
        if blocks[k].offset < blocks[j].offset {
            assert(blocks[k].end() <= blocks[j].offset);
        } else {
            assert(blocks[j].end() <= blocks[k].offset);
        }
    }
    assert forall|k: int| 0 <= k < blocks.len() implies m.accessible(
        base + (#[trigger] blocks[k]).offset,
        8,
        Access::Read,
    ) by {
        assert(blocks[k].offset + blocks[k].len <= span);
        lemma_accessible_part(m, base as int, span as int, blocks[k].offset as int, 8);
    }
    let (m1, fault) = write_headers(m, base, blocks, span, 0);
    lemma_write_headers_hold(m, base, blocks, span, 0);
    lemma_write_headers_frame(m, base, blocks, span, 0, heap.head_variable);
    assert forall|k: int| 0 <= k < blocks.len() implies (heap.free_left_variable + 4 <= base + (
    #[trigger] blocks[k]).offset || base + blocks[k].offset + 8 <= heap.free_left_variable) by {
        assert(blocks[k].offset + blocks[k].len <= span);
    }
    lemma_write_headers_frame(m, base, blocks, span, 0, heap.free_left_variable);
    let head = list_head(blocks, span);
    let m2 = m1.write_u32(heap.head_variable, head)->Ok_0;
    let m3 = m2.write_u32(heap.free_left_variable, free_left)->Ok_0;
    assert(m1.accessible(heap.head_variable as int, 4, Access::Read));
    assert(m1.accessible(heap.free_left_variable as int, 4, Access::Read));
    lemma_write_then_read_u32(m1, heap.head_variable, head);
    lemma_write_u32_keeps(m1, heap.head_variable, head, heap.free_left_variable as int, 4);
    lemma_write_then_read_u32(m2, heap.free_left_variable, free_left);
    lemma_write_u32_keeps_other_words(m2, heap.free_left_variable, free_left, heap.head_variable);
    assert(headers_hold(m3, base, blocks, span)) by {
        assert forall|j: int| 0 <= j < blocks.len() implies {
            let a = base + (#[trigger] blocks[j]).offset;
            &&& a + 4 <= u32::MAX
            &&& m3.read_u32(a as u32) == Ok::<u32, Seq<char>>(next_offset(blocks, j, span))
            &&& m3.read_u32((a + 4) as u32) == Ok::<u32, Seq<char>>(blocks[j].len)
        } by {
            let a = base + blocks[j].offset;
            assert(blocks[j].offset + blocks[j].len <= span);
            lemma_write_u32_keeps_other_words(m1, heap.head_variable, head, a as u32);
            lemma_write_u32_keeps_other_words(m2, heap.free_left_variable, free_left, a as u32);
            lemma_write_u32_keeps_other_words(m1, heap.head_variable, head, (a + 4) as u32);
            lemma_write_u32_keeps_other_words(m2, heap.free_left_variable, free_left, (a + 4) as u32);
        }
    }
    assert forall|i: int| 0 <= i < offsets(blocks).len() implies #[trigger] offsets(blocks)[i] < span by {
        assert(blocks[i].offset + blocks[i].len <= span);
    }
    assert(offsets(blocks).no_duplicates()) by {
        assert forall|i: int, j: int|
            0 <= i < offsets(blocks).len() && 0 <= j < offsets(blocks).len() && i != j implies offsets(
            blocks,
        )[i] != offsets(blocks)[j] by {
            assert(blocks[i].offset != blocks[j].offset);
        }
    }
    lemma_distinct_offsets(offsets(blocks), span);
    let read_heap = GuestHeapState { head, free_left, ..heap };
    assert forall|i: int|
        0 <= i < blocks.len() implies (#[trigger] blocks[i]).len >= FREE_BLOCK_HEADER_LEN
            && blocks[i].offset + blocks[i].len <= read_heap.span by {
    }
    lemma_walk_reads_back(m3, read_heap, snap, allocations, blocks, 0);
    assert(blocks.take(0) =~= Seq::<FreeBlock>::empty());
    assert(offsets(Seq::<FreeBlock>::empty()) =~= Seq::<u32>::empty());
}

} // verus!
