//! Taking a range out of the guest heap's free list, so that a buffer the
//! guest prepared in free heap memory becomes an allocation.
use crate::error::Error;
use crate::heap::FreeBlock;
use crate::heap_release::{apart, holds, in_block, is_free_list};
use crate::guest_strings::{fault_matches, GuestFault};
use crate::heap_io::{
    free_list_read, free_list_write, guest_heap_state, heap_state, list_head, read_free_blocks,
    snapshot_view, total_len, write_free_blocks, GuestHeapSnapshot, GuestHeapState, SnapshotView,
};
use crate::memory::{GuestMemory, MemView};
use std::collections::BTreeMap;
use crate::text::{hex32, hex32_text};
use vstd::prelude::*;
use vstd::string::*;

verus! {

pub open spec fn reserve_overflow_text() -> Seq<char> {
    "reserved guest range overflow"@
}

/// `address..address + len` as two eight-digit hexadecimal addresses.
pub open spec fn range_text(address: u32, len: u32) -> Seq<char> {
    hex32_text(address) + ".."@ + hex32_text(address.wrapping_add(len))
}

pub open spec fn beyond_heap_text(address: u32, len: u32) -> Seq<char> {
    "reserved guest range "@ + range_text(address, len) + " exceeds the active heap"@
}

pub open spec fn partly_free_text(address: u32, len: u32) -> Seq<char> {
    "prepared guest range "@ + range_text(address, len) + " is only partially free"@
}

pub open spec fn recovering_underflow_text() -> Seq<char> {
    "guest free-byte count underflow while recovering"@
}

pub open spec fn reserving_underflow_text() -> Seq<char> {
    "guest free-byte count underflow while reserving"@
}

/// Where `len` bytes at `address` lie in the heap at `base` (`span` bytes
/// long): their offset from the base, `None` when they do not start inside
/// the heap, or the error for a range that runs past it.
pub open spec fn reservation_window(address: u32, len: u32, base: u32, span: u32) -> Result<
    Option<u32>,
    Seq<char>,
> {
    if address < base || address - base >= span {
        Ok(None)
    } else if address - base + len > u32::MAX {
        Err(reserve_overflow_text())
    } else if address - base + len > span {
        Err(beyond_heap_text(address, len))
    } else {
        Ok(Some((address - base) as u32))
    }
}

fn hex_range(address: u32, len: u32) -> (s: String)
    ensures
        s@ == range_text(address, len),
{
    proof {
        reveal_strlit("..");
    }
    hex32(address).concat("..").concat(hex32(address.wrapping_add(len)).as_str())
}

/// The offset from the heap base at which a range to reserve starts.
pub fn locate_reservation(address: u32, len: u32, base: u32, span: u32) -> (r: Result<
    Option<u32>,
    Error,
>)
    ensures
        match reservation_window(address, len, base, span) {
            Ok(w) => r == Ok::<Option<u32>, Error>(w),
            Err(t) => r matches Err(Error::Abi(m)) && m@ == t,
        },
{
    proof {
        reveal_strlit("reserved guest range overflow");
        reveal_strlit("reserved guest range ");
        reveal_strlit(" exceeds the active heap");
    }
    if address < base || address - base >= span {
        return Ok(None);
    }
    let offset = address - base;
    let end = match offset.checked_add(len) {
        Some(e) => e,
        None => return Err(Error::Abi(String::from_str("reserved guest range overflow"))),
    };
    if end > span {
        let m = String::from_str("reserved guest range ").concat(hex_range(address, len).as_str()).concat(
            " exceeds the active heap",
        );
        return Err(Error::Abi(m));
    }
    Ok(Some(offset))
}

/// Block `b` has an end inside the 32-bit space and shares a byte with
/// `[offset, end)`.
pub open spec fn meets(b: FreeBlock, offset: int, end: int) -> bool {
    b.offset + b.len <= u32::MAX && b.offset < end && offset < b.end()
}

/// The first block from index `i` on that meets `[offset, end)`.
pub open spec fn first_meeting(blocks: Seq<FreeBlock>, offset: int, end: int, i: int) -> Option<
    int,
>
    decreases blocks.len() - i,
{
    if i < 0 || i >= blocks.len() {
        None
    } else if meets(blocks[i], offset, end) {
        Some(i)
    } else {
        first_meeting(blocks, offset, end, i + 1)
    }
}

/// Some block after index `i` meets `[offset, end)` too.
pub open spec fn meets_after(blocks: Seq<FreeBlock>, offset: int, end: int, i: int) -> bool {
    exists|j: int| i < j < blocks.len() && meets(#[trigger] blocks[j], offset, end)
}

/// The parts of `b` around `[offset, end)` that stay free: those at least a
/// free-block header long.
pub open spec fn kept_parts(b: FreeBlock, offset: u32, end: u32) -> Seq<FreeBlock> {
    let prefix = offset - b.offset;
    let suffix = b.end() - end;
    (if prefix >= 8 {
        seq![FreeBlock { offset: b.offset, len: prefix as u32 }]
    } else {
        Seq::empty()
    }) + (if suffix >= 8 {
        seq![FreeBlock { offset: end, len: suffix as u32 }]
    } else {
        Seq::empty()
    })
}

/// The bytes of `b` that leave the free list when `[offset, end)` is taken
/// out of it: the range and the parts around it too short to stay free.
pub open spec fn reserved_len(b: FreeBlock, offset: u32, end: u32) -> int {
    let prefix = offset - b.offset;
    let suffix = b.end() - end;
    b.len - (if prefix >= 8 {
        prefix
    } else {
        0
    }) - (if suffix >= 8 {
        suffix
    } else {
        0
    })
}

/// The length the new allocation is tracked with: the reserved bytes from
/// `offset` on.
pub open spec fn reclaim_len(b: FreeBlock, offset: u32, end: u32) -> int {
    let prefix = offset - b.offset;
    reserved_len(b, offset, end) - (if prefix < 8 {
        prefix
    } else {
        0
    })
}

/// What reserving a range does to the free list, as values.
pub enum ReservationPlan {
    /// No free block meets the range; the count to write back when the read
    /// recovered bytes.
    NotFree(Option<u32>),
    /// The new free list, the new free-byte count and the allocation length.
    Taken(Seq<FreeBlock>, u32, u32),
}

/// Reserving `len` bytes at `offset` (the range starting at guest `address`)
/// out of the free list `blocks`, whose read recovered `recovered` bytes:
/// the one free block that meets the range must hold all of it; that block
/// is replaced by its parts around the range that are at least a header
/// long, and the count falls by the recovered bytes and the bytes that
/// left the list.
pub open spec fn reservation_plan(
    address: u32,
    len: u32,
    offset: u32,
    free_left: u32,
    blocks: Seq<FreeBlock>,
    recovered: u32,
) -> Result<ReservationPlan, Seq<char>> {
    let end = offset + len;
    match first_meeting(blocks, offset as int, end, 0) {
        None => if recovered == 0 {
            Ok(ReservationPlan::NotFree(None))
        } else if free_left < recovered {
            Err(recovering_underflow_text())
        } else {
            Ok(ReservationPlan::NotFree(Some((free_left - recovered) as u32)))
        },
        Some(i) => {
            let b = blocks[i];
            if meets_after(blocks, offset as int, end, i) || b.offset > offset || b.end() < end {
                Err(partly_free_text(address, len))
            } else {
                let reserved = reserved_len(b, offset, end as u32);
                if free_left < recovered || free_left - recovered < reserved {
                    Err(reserving_underflow_text())
                } else {
                    Ok(
                        ReservationPlan::Taken(
                            after_taking(blocks, i, offset, end as u32),
                            (free_left - recovered - reserved) as u32,
                            reclaim_len(b, offset, end as u32) as u32,
                        ),
                    )
                }
            }
        },
    }
}

/// What reserving a range does to the free list.
#[derive(Debug)]
pub enum Reservation {
    /// No free block meets the range.  When the read recovered bytes, the
    /// list must be written back with this count.
    NotFree { free_left: Option<u32> },
    /// The range came out of one free block.
    Reserved { blocks: Vec<FreeBlock>, free_left: u32, reclaim_len: u32 },
}

proof fn lemma_first_meeting(blocks: Seq<FreeBlock>, offset: int, end: int, i: int)
    requires
        0 <= i,
    ensures
        first_meeting(blocks, offset, end, i) matches Some(k) ==> i <= k < blocks.len() && meets(
            blocks[k],
            offset,
            end,
        ) && forall|j: int| i <= j < k ==> !meets(#[trigger] blocks[j], offset, end),
        first_meeting(blocks, offset, end, i) is None ==> forall|j: int|
            i <= j < blocks.len() ==> !meets(#[trigger] blocks[j], offset, end),
    decreases blocks.len() - i,
{
    if i < blocks.len() && !meets(blocks[i], offset, end) {
        lemma_first_meeting(blocks, offset, end, i + 1);
    }
}

fn block_meets(b: FreeBlock, offset: u32, end: u32) -> (r: bool)
    ensures
        r == meets(b, offset as int, end as int),
{
    match b.offset.checked_add(b.len) {
        Some(block_end) => b.offset < end && offset < block_end,
        None => false,
    }
}

fn find_meeting(blocks: &[FreeBlock], offset: u32, end: u32, from: usize) -> (r: Option<usize>)
    ensures
        match first_meeting(blocks@, offset as int, end as int, from as int) {
            Some(k) => r == Some(k as usize),
            None => r is None,
        },
{
    let mut i = from;
    while i < blocks.len()
        invariant
            from <= i,
            first_meeting(blocks@, offset as int, end as int, from as int) == first_meeting(
                blocks@,
                offset as int,
                end as int,
                i as int,
            ),
        decreases blocks.len() - i,
    {
        if block_meets(blocks[i], offset, end) {
            return Some(i);
        }
        i = i + 1;
    }
    None
}

/// `blocks` with the block at `i` replaced by `parts`.
fn replace_block(blocks: &[FreeBlock], i: usize, parts: Vec<FreeBlock>) -> (v: Vec<FreeBlock>)
    requires
        i < blocks.len(),
    ensures
        v@ == blocks@.take(i as int) + parts@ + blocks@.skip(i + 1),
{
    let mut v: Vec<FreeBlock> = Vec::new();
    let mut k: usize = 0;
    while k < i
        invariant
            k <= i < blocks.len(),
            v@ == blocks@.take(k as int),
        decreases i - k,
    {
        v.push(blocks[k]);
        k = k + 1;
        assert(v@ == blocks@.take(k as int));
    }
    let mut p: usize = 0;
    while p < parts.len()
        invariant
            p <= parts.len(),
            v@ == blocks@.take(i as int) + parts@.take(p as int),
        decreases parts.len() - p,
    {
        v.push(parts[p]);
        p = p + 1;
        assert(v@ == blocks@.take(i as int) + parts@.take(p as int));
    }
    assert(parts@.take(parts.len() as int) == parts@);
    let mut k: usize = i + 1;
    while k < blocks.len()
        invariant
            i + 1 <= k <= blocks.len(),
            v@ == blocks@.take(i as int) + parts@ + blocks@.subrange(i + 1, k as int),
        decreases blocks.len() - k,
    {
        v.push(blocks[k]);
        k = k + 1;
        assert(v@ == blocks@.take(i as int) + parts@ + blocks@.subrange(i + 1, k as int));
    }
    assert(blocks@.subrange(i + 1, blocks.len() as int) == blocks@.skip(i + 1));
    v
}

/// Plans reserving `len` bytes at `offset` from the heap base (the range
/// starting at guest `address`) out of the free list `blocks`, read with
/// `recovered_len` bytes recovered, when the heap counts `free_left` free
/// bytes.
pub fn plan_heap_reservation(
    address: u32,
    len: u32,
    offset: u32,
    free_left: u32,
    blocks: &[FreeBlock],
    recovered_len: u32,
) -> (r: Result<Reservation, Error>)
    requires
        offset + len <= u32::MAX,
    ensures
        match reservation_plan(address, len, offset, free_left, blocks@, recovered_len) {
            Err(t) => r matches Err(Error::Abi(m)) && m@ == t,
            Ok(ReservationPlan::NotFree(f)) => r matches Ok(Reservation::NotFree { free_left: g })
                && g == f,
            Ok(ReservationPlan::Taken(b, f, c)) => r matches Ok(
                Reservation::Reserved { blocks: v, free_left: g, reclaim_len: h },
            ) && v@ == b && g == f && h == c,
        },
{
    proof {
        reveal_strlit("guest free-byte count underflow while recovering");
        reveal_strlit("guest free-byte count underflow while reserving");
        reveal_strlit("prepared guest range ");
        reveal_strlit(" is only partially free");
    }
    let end = offset + len;
    let index = match find_meeting(blocks, offset, end, 0) {
        Some(i) => i,
        None => {
            if recovered_len == 0 {
                return Ok(Reservation::NotFree { free_left: None });
            }
            return match free_left.checked_sub(recovered_len) {
                Some(f) => Ok(Reservation::NotFree { free_left: Some(f) }),
                None => Err(
                    Error::Abi(String::from_str("guest free-byte count underflow while recovering")),
                ),
            };
        },
    };
    proof {
        lemma_first_meeting(blocks@, offset as int, end as int, 0);
    }
    let block = blocks[index];
    let later = find_meeting(blocks, offset, end, index + 1);
    proof {
        lemma_first_meeting(blocks@, offset as int, end as int, index + 1);
        if meets_after(blocks@, offset as int, end as int, index as int) {
            let j = choose|j: int|
                index < j < blocks@.len() && meets(#[trigger] blocks@[j], offset as int, end as int);
        }
    }
    let block_end = block.offset + block.len;
    if later.is_some() || block.offset > offset || block_end < end {
        let m = String::from_str("prepared guest range ").concat(hex_range(address, len).as_str()).concat(
            " is only partially free",
        );
        return Err(Error::Abi(m));
    }
    let prefix_len = offset - block.offset;
    let suffix_len = block_end - end;
    let mut parts: Vec<FreeBlock> = Vec::new();
    let mut retained: u32 = 0;
    if prefix_len >= 8 {
        parts.push(FreeBlock { offset: block.offset, len: prefix_len });
        retained = prefix_len;
    }
    if suffix_len >= 8 {
        parts.push(FreeBlock { offset: end, len: suffix_len });
        retained = retained + suffix_len;
    }
    assert(parts@ == kept_parts(block, offset, end));
    let reserved = block.len - retained;
    let discarded_prefix = if prefix_len < 8 {
        prefix_len
    } else {
        0
    };
    let reclaim = reserved - discarded_prefix;
    let new_free_left = match free_left.checked_sub(recovered_len) {
        Some(f) => match f.checked_sub(reserved) {
            Some(g) => g,
            None => return Err(
                Error::Abi(String::from_str("guest free-byte count underflow while reserving")),
            ),
        },
        None => return Err(
            Error::Abi(String::from_str("guest free-byte count underflow while reserving")),
        ),
    };
    let new_blocks = replace_block(blocks, index, parts);
    Ok(Reservation::Reserved { blocks: new_blocks, free_left: new_free_left, reclaim_len: reclaim })
}

proof fn lemma_total_len_append(a: Seq<FreeBlock>, b: Seq<FreeBlock>)
    ensures
        total_len(a + b) == total_len(a) + total_len(b),
    decreases b.len(),
{
    if b.len() > 0 {
        lemma_total_len_append(a, b.drop_last());
        assert((a + b).drop_last() == a + b.drop_last());
    } else {
        assert(a + b == a);
    }
}

/// The free list after block `i`, which holds `[offset, end)`, is replaced
/// by its kept parts.
pub open spec fn after_taking(blocks: Seq<FreeBlock>, i: int, offset: u32, end: u32) -> Seq<FreeBlock> {
    blocks.take(i) + kept_parts(blocks[i], offset, end) + blocks.skip(i + 1)
}

/// The facts the proofs below share about the block that holds the range.
pub open spec fn holds_range(blocks: Seq<FreeBlock>, span: u32, i: int, offset: u32, end: u32) -> bool {
    &&& is_free_list(blocks, span)
    &&& 0 <= i < blocks.len()
    &&& blocks[i].offset <= offset <= end
    &&& end <= blocks[i].end()
}

proof fn lemma_after_taking_origin(blocks: Seq<FreeBlock>, span: u32, i: int, offset: u32, end: u32)
    requires
        holds_range(blocks, span, i, offset, end),
    ensures
        ({
            let kept = kept_parts(blocks[i], offset, end);
            let nb = after_taking(blocks, i, offset, end);
            &&& nb.len() == blocks.len() - 1 + kept.len()
            &&& forall|k: int| 0 <= k < i ==> #[trigger] nb[k] == blocks[k]
            &&& forall|k: int| 0 <= k < kept.len() ==> #[trigger] nb[i + k] == kept[k]
            &&& forall|k: int|
                i + kept.len() <= k < nb.len() ==> #[trigger] nb[k] == blocks[k - kept.len() + 1]
            &&& forall|k: int|
                0 <= k < kept.len() ==> {
                    let p = #[trigger] kept[k];
                    &&& blocks[i].offset <= p.offset
                    &&& p.end() <= blocks[i].end()
                    &&& (p.end() <= offset || end <= p.offset)
                    &&& p.len >= 8
                }
            &&& kept.len() == 2 ==> kept[0].end() <= kept[1].offset
        }),
{
}

proof fn lemma_after_taking_is_free_list(blocks: Seq<FreeBlock>, span: u32, i: int, offset: u32, end: u32)
    requires
        holds_range(blocks, span, i, offset, end),
    ensures
        is_free_list(after_taking(blocks, i, offset, end), span),
{
    lemma_after_taking_origin(blocks, span, i, offset, end);
    let kept = kept_parts(blocks[i], offset, end);
    let nb = after_taking(blocks, i, offset, end);
    let n = kept.len() as int;
    assert forall|k: int| 0 <= k < nb.len() implies (#[trigger] nb[k]).end() <= span by {
        if k < i {
        } else if k < i + n {
            assert(nb[i + (k - i)] == kept[k - i]);
        } else {
            assert(nb[k] == blocks[k - n + 1]);
        }
    }
    assert forall|k: int, l: int|
        0 <= k < nb.len() && 0 <= l < nb.len() && k != l implies apart(
        #[trigger] nb[k],
        #[trigger] nb[l],
    ) by {
        let ik = if k < i {
            k
        } else if k < i + n {
            i
        } else {
            k - n + 1
        };
        let il = if l < i {
            l
        } else if l < i + n {
            i
        } else {
            l - n + 1
        };
        if i <= k < i + n {
            assert(nb[i + (k - i)] == kept[k - i]);
        }
        if i <= l < i + n {
            assert(nb[i + (l - i)] == kept[l - i]);
        }
        if ik != il {
            assert(apart(blocks[ik], blocks[il]));
        } else {
            assert(n == 2);
        }
    }
}

proof fn lemma_after_taking_bytes(blocks: Seq<FreeBlock>, span: u32, i: int, offset: u32, end: u32)
    requires
        holds_range(blocks, span, i, offset, end),
    ensures
        forall|x: int|
            holds(after_taking(blocks, i, offset, end), x) ==> holds(blocks, x) && !(offset <= x
                < end),
        forall|x: int|
            holds(blocks, x) && (x <= offset - 8 || x >= end + 8) ==> holds(
                after_taking(blocks, i, offset, end),
                x,
            ),
{
    lemma_after_taking_origin(blocks, span, i, offset, end);
    let kept = kept_parts(blocks[i], offset, end);
    let nb = after_taking(blocks, i, offset, end);
    let n = kept.len() as int;
    assert forall|j: int| 0 <= j < blocks.len() && j != i implies (#[trigger] blocks[j]).end()
        <= offset || end <= blocks[j].offset by {
        assert(apart(blocks[i], blocks[j]));
    }
    assert forall|x: int| holds(nb, x) implies holds(blocks, x) && !(offset <= x < end) by {
        let k = choose|k: int| 0 <= k < nb.len() && in_block(#[trigger] nb[k], x);
        if k < i {
            assert(in_block(blocks[k], x));
        } else if k < i + n {
            assert(nb[i + (k - i)] == kept[k - i]);
            assert(in_block(blocks[i], x));
        } else {
            assert(in_block(blocks[k - n + 1], x));
        }
    }
    assert forall|x: int| holds(blocks, x) && (x <= offset - 8 || x >= end + 8) implies holds(
        nb,
        x,
    ) by {
        let k = choose|k: int| 0 <= k < blocks.len() && in_block(#[trigger] blocks[k], x);
        if k < i {
            assert(in_block(nb[k], x));
        } else if k > i {
            assert(nb[k + n - 1] == blocks[k]);
            assert(in_block(nb[k + n - 1], x));
        } else if x <= offset - 8 {
            assert(nb[i + 0] == kept[0]);
            assert(in_block(nb[i], x));
        } else {
            assert(nb[i + (n - 1)] == kept[n - 1]);
            assert(in_block(nb[i + n - 1], x));
        }
    }
}

proof fn lemma_total_len_one(b: FreeBlock)
    ensures
        total_len(seq![b]) == b.len,
{
    assert(seq![b].drop_last() =~= Seq::<FreeBlock>::empty());
    reveal_with_fuel(total_len, 2);
}

proof fn lemma_after_taking_count(blocks: Seq<FreeBlock>, span: u32, i: int, offset: u32, end: u32)
    requires
        holds_range(blocks, span, i, offset, end),
    ensures
        total_len(blocks) - total_len(after_taking(blocks, i, offset, end)) == reserved_len(
            blocks[i],
            offset,
            end,
        ),
{
    let b = blocks[i];
    let kept = kept_parts(b, offset, end);
    lemma_total_len_append(blocks.take(i) + kept, blocks.skip(i + 1));
    lemma_total_len_append(blocks.take(i), kept);
    assert(blocks =~= blocks.take(i) + seq![b] + blocks.skip(i + 1));
    lemma_total_len_append(blocks.take(i) + seq![b], blocks.skip(i + 1));
    lemma_total_len_append(blocks.take(i), seq![b]);
    lemma_total_len_one(b);
    let prefix = offset - b.offset;
    let suffix = b.end() - end;
    if prefix >= 8 && suffix >= 8 {
        lemma_total_len_append(seq![kept[0]], seq![kept[1]]);
        assert(kept =~= seq![kept[0]] + seq![kept[1]]);
        lemma_total_len_one(kept[0]);
        lemma_total_len_one(kept[1]);
    } else if prefix >= 8 || suffix >= 8 {
        assert(kept =~= seq![kept[0]]);
        lemma_total_len_one(kept[0]);
    } else {
        assert(kept =~= Seq::<FreeBlock>::empty());
    }
}

/// Reserving a range out of a free list takes exactly what the plan says:
/// when no free block meets the range, none of its bytes is free; when the
/// range is taken, every byte of it was free, the new list is still a free
/// list, no byte becomes free, no byte of the range stays free, every free
/// byte at least a header length away from the range stays free, the
/// allocation covers the range, and the count falls by the recovered bytes
/// and exactly the bytes that left the list.
pub proof fn lemma_reservation_takes_range(
    address: u32,
    len: u32,
    offset: u32,
    free_left: u32,
    blocks: Seq<FreeBlock>,
    recovered: u32,
    span: u32,
)
    requires
        is_free_list(blocks, span),
        offset + len <= span,
        reservation_plan(address, len, offset, free_left, blocks, recovered) is Ok,
    ensures
        match reservation_plan(address, len, offset, free_left, blocks, recovered)->Ok_0 {
            ReservationPlan::NotFree(_) => forall|x: int|
                offset <= x < offset + len ==> !holds(blocks, x),
            ReservationPlan::Taken(nb, f, c) => {
                &&& forall|x: int| offset <= x < offset + len ==> holds(blocks, x)
                &&& is_free_list(nb, span)
                &&& forall|x: int| holds(nb, x) ==> holds(blocks, x) && !(offset <= x < offset + len)
                &&& forall|x: int|
                    holds(blocks, x) && (x <= offset - 8 || x >= offset + len + 8) ==> holds(nb, x)
                &&& c >= len
                &&& f == free_left - recovered - (total_len(blocks) - total_len(nb))
            },
        },
{
    let end = offset + len;
    lemma_first_meeting(blocks, offset as int, end, 0);
    match first_meeting(blocks, offset as int, end, 0) {
        None => {
            assert forall|x: int| offset <= x < offset + len implies !holds(blocks, x) by {
                if holds(blocks, x) {
                    let k = choose|k: int| 0 <= k < blocks.len() && in_block(#[trigger] blocks[k], x);
                    assert(blocks[k].end() <= span);
                    assert(meets(blocks[k], offset as int, end));
                }
            }
        },
        Some(i) => {
            let e = end as u32;
            assert(holds_range(blocks, span, i, offset, e));
            assert forall|x: int| offset <= x < offset + len implies holds(blocks, x) by {
                assert(in_block(blocks[i], x));
            }
            lemma_after_taking_is_free_list(blocks, span, i, offset, e);
            lemma_after_taking_bytes(blocks, span, i, offset, e);
            lemma_after_taking_count(blocks, span, i, offset, e);
        },
    }
}

/// Writing the free list back after a reservation: the memory, the
/// snapshot of what was written, and `answer` when the write succeeds.
pub open spec fn written_back(
    m: MemView,
    snap: Option<SnapshotView>,
    heap: GuestHeapState,
    blocks: Seq<FreeBlock>,
    terminator: u32,
    free_left: u32,
    answer: Option<u32>,
) -> (MemView, Option<SnapshotView>, Result<Option<u32>, GuestFault>) {
    let (m1, fault) = free_list_write(m, heap, blocks, terminator, free_left);
    match fault {
        Some(f) => (m1, snap, Err(f)),
        None => (
            m1,
            Some(
                SnapshotView {
                    base: heap.base,
                    span: heap.span,
                    head: list_head(blocks, terminator),
                    free_left,
                    blocks,
                    terminator,
                },
            ),
            Ok(answer),
        ),
    }
}

/// Reserving `len` bytes at guest `address` out of the active heap's free
/// list, read with the host's snapshot `snap` and allocation lengths
/// `allocations`: the memory after it, the snapshot after it, and the
/// length the new allocation is tracked with (`None` when the range does not
/// start inside the heap or no free block meets it).
pub open spec fn reserve_outcome(
    m: MemView,
    snap: Option<SnapshotView>,
    allocations: Map<u32, u32>,
    address: u32,
    len: u32,
) -> (MemView, Option<SnapshotView>, Result<Option<u32>, GuestFault>) {
    match heap_state(m) {
        Err(f) => (m, snap, Err(f)),
        Ok(heap) => match reservation_window(address, len, heap.base, heap.span) {
            Err(t) => (m, snap, Err(GuestFault::Abi(t))),
            Ok(None) => (m, snap, Ok(None)),
            Ok(Some(offset)) => match free_list_read(m, heap, snap, allocations) {
                Err(f) => (m, snap, Err(f)),
                Ok((blocks, terminator, recovered)) => match reservation_plan(
                    address,
                    len,
                    offset,
                    heap.free_left,
                    blocks,
                    recovered,
                ) {
                    Err(t) => (m, snap, Err(GuestFault::Abi(t))),
                    Ok(ReservationPlan::NotFree(None)) => (m, snap, Ok(None)),
                    Ok(ReservationPlan::NotFree(Some(f))) => written_back(
                        m,
                        snap,
                        heap,
                        blocks,
                        terminator,
                        f,
                        None,
                    ),
                    Ok(ReservationPlan::Taken(nb, f, c)) => written_back(
                        m,
                        snap,
                        heap,
                        nb,
                        terminator,
                        f,
                        Some(c),
                    ),
                },
            },
        },
    }
}

fn write_back(
    memory: &mut GuestMemory,
    snapshot: &mut Option<GuestHeapSnapshot>,
    heap: GuestHeapState,
    blocks: &[FreeBlock],
    terminator: u32,
    free_left: u32,
    answer: Option<u32>,
) -> (r: Result<Option<u32>, Error>)
    requires
        old(memory).wf(),
    ensures
        final(memory).wf(),
        ({
            let o = written_back(
                old(memory)@,
                snapshot_view(*old(snapshot)),
                heap,
                blocks@,
                terminator,
                free_left,
                answer,
            );
            &&& final(memory)@ == o.0
            &&& snapshot_view(*final(snapshot)) == o.1
            &&& match o.2 {
                Ok(v) => r == Ok::<Option<u32>, Error>(v),
                Err(f) => fault_matches(r, f),
            }
        }),
{
    match write_free_blocks(memory, heap, blocks, terminator, free_left) {
        Ok(s) => {
            *snapshot = Some(s);
            Ok(answer)
        },
        Err(e) => Err(e),
    }
}

/// Reserves `len` bytes at guest `address` out of the active heap's free
/// list, so that a buffer the guest prepared in free memory becomes an
/// allocation: reads the heap and its free list, takes the range out of the
/// one free block that holds it, writes the list back and records what was
/// written in `snapshot`.  Returns the length to track the allocation with,
/// or `None` when the range does not start inside the heap or no free block
/// meets it.
pub fn reserve_guest_heap_range(
    memory: &mut GuestMemory,
    snapshot: &mut Option<GuestHeapSnapshot>,
    allocations: &BTreeMap<u32, u32>,
    address: u32,
    len: u32,
) -> (r: Result<Option<u32>, Error>)
    requires
        old(memory).wf(),
    ensures
        final(memory).wf(),
        ({
            let o = reserve_outcome(
                old(memory)@,
                snapshot_view(*old(snapshot)),
                allocations@,
                address,
                len,
            );
            &&& final(memory)@ == o.0
            &&& snapshot_view(*final(snapshot)) == o.1
            &&& match o.2 {
                Ok(v) => r == Ok::<Option<u32>, Error>(v),
                Err(f) => fault_matches(r, f),
            }
        }),
{
    let heap = match guest_heap_state(memory) {
        Ok(h) => h,
        Err(e) => return Err(e),
    };
    let offset = match locate_reservation(address, len, heap.base, heap.span) {
        Ok(Some(o)) => o,
        Ok(None) => return Ok(None),
        Err(e) => return Err(e),
    };
    let (blocks, terminator, recovered) = match read_free_blocks(memory, heap, snapshot, allocations) {
        Ok(v) => v,
        Err(e) => return Err(e),
    };
    match plan_heap_reservation(address, len, offset, heap.free_left, blocks.as_slice(), recovered) {
        Err(e) => Err(e),
        Ok(Reservation::NotFree { free_left: None }) => Ok(None),
        Ok(Reservation::NotFree { free_left: Some(f) }) => write_back(
            memory,
            snapshot,
            heap,
            blocks.as_slice(),
            terminator,
            f,
            None,
        ),
        Ok(Reservation::Reserved { blocks: taken, free_left, reclaim_len }) => write_back(
            memory,
            snapshot,
            heap,
            taken.as_slice(),
            terminator,
            free_left,
            Some(reclaim_len),
        ),
    }
}

} // verus!
