//! Bookkeeping rules of the guest heap: free-block ranges and allocation sizes.
use crate::error::{Error, is_arm_fault};
use crate::text::{decimal, dec_text, hex_prefixed, hex_prefixed_text};
use vstd::prelude::*;
use vstd::string::*;

verus! {

/// Every free block starts with a header of this many bytes.
pub const FREE_BLOCK_HEADER_LEN: u32 = 8;

/// Heap blocks start and end on multiples of this many bytes.
pub const HEAP_ALIGNMENT: u32 = 8;

/// A free block `len` bytes long at `offset` from the heap base.
#[derive(Clone, Copy, Debug, PartialEq, Eq, Structural)]
pub struct FreeBlock {
    pub offset: u32,
    pub len: u32,
}

impl FreeBlock {
    pub open spec fn end(self) -> int {
        self.offset + self.len
    }
}

/// `s` (ordered by offset) with `b` inserted after every block whose offset
/// is not larger than its own.
pub open spec fn insert_by_offset(s: Seq<FreeBlock>, b: FreeBlock) -> Seq<FreeBlock>
    decreases s.len(),
{
    if s.len() == 0 {
        seq![b]
    } else if s.last().offset <= b.offset {
        s.push(b)
    } else {
        insert_by_offset(s.drop_last(), b).push(s.last())
    }
}

/// The blocks ordered by offset; blocks at the same offset keep their order.
pub open spec fn sort_by_offset(s: Seq<FreeBlock>) -> Seq<FreeBlock>
    decreases s.len(),
{
    if s.len() == 0 {
        s
    } else {
        insert_by_offset(sort_by_offset(s.drop_last()), s.last())
    }
}

/// Walks blocks in offset order: each must end inside `u32`, inside the heap
/// span, and start at or after the end of the block before it.
pub open spec fn scan_free_blocks(sorted: Seq<FreeBlock>, heap_span: u32, previous_end: u32) -> Result<
    (),
    Seq<char>,
>
    decreases sorted.len(),
{
    if sorted.len() == 0 {
        Ok(())
    } else {
        let b = sorted[0];
        if b.offset + b.len > u32::MAX {
            Err("guest free-block range overflow"@)
        } else if b.offset + b.len > heap_span {
            Err(
                "guest free block at offset "@ + hex_prefixed_text(b.offset as nat)
                    + " exceeds heap span "@ + hex_prefixed_text(heap_span as nat),
            )
        } else if b.offset < previous_end {
            Err(
                "guest free block at offset "@ + hex_prefixed_text(b.offset as nat)
                    + " overlaps the preceding range ending at "@ + hex_prefixed_text(
                    previous_end as nat,
                ),
            )
        } else {
            scan_free_blocks(sorted.drop_first(), heap_span, (b.offset + b.len) as u32)
        }
    }
}

/// Blocks in non-decreasing offset order.
pub open spec fn offsets_sorted(s: Seq<FreeBlock>) -> bool {
    forall|i: int, j: int| 0 <= i < j < s.len() ==> (#[trigger] s[i]).offset <= (#[trigger] s[j]).offset
}

pub(crate) proof fn lemma_insert_by_offset(s: Seq<FreeBlock>, b: FreeBlock)
    requires
        offsets_sorted(s),
    ensures
        offsets_sorted(insert_by_offset(s, b)),
        insert_by_offset(s, b).contains(b),
        forall|x: FreeBlock| s.contains(x) ==> #[trigger] insert_by_offset(s, b).contains(x),
        insert_by_offset(s, b).len() == s.len() + 1,
        forall|k: int|
            0 <= k < insert_by_offset(s, b).len() ==> (#[trigger] insert_by_offset(s, b)[k] == b
                || s.contains(insert_by_offset(s, b)[k])),
    decreases s.len(),
{
    let r = insert_by_offset(s, b);
    if s.len() == 0 {
        assert(r[0] == b);
    } else if s.last().offset <= b.offset {
        assert(r[s.len() as int] == b);
        assert forall|x: FreeBlock| s.contains(x) implies r.contains(x) by {
            let k = choose|k: int| 0 <= k < s.len() && s[k] == x;
            assert(r[k] == x);
        }
        assert forall|k: int| 0 <= k < r.len() implies (#[trigger] r[k] == b || s.contains(r[k])) by {
            if k < s.len() {
                assert(s[k] == r[k]);
            }
        }
    } else {
        let t = s.drop_last();
        assert forall|i: int, j: int| 0 <= i < j < t.len() implies (#[trigger] t[i]).offset
            <= (#[trigger] t[j]).offset by {
            assert(t[i] == s[i] && t[j] == s[j]);
        }
        lemma_insert_by_offset(t, b);
        let u = insert_by_offset(t, b);
        assert(r == u.push(s.last()));
        assert forall|i: int, j: int| 0 <= i < j < r.len() implies (#[trigger] r[i]).offset
            <= (#[trigger] r[j]).offset by {
            if j == r.len() - 1 {
                if r[i] == b {
                } else {
                    let k = choose|k: int| 0 <= k < t.len() && t[k] == r[i];
                    assert(s[k] == t[k]);
                    assert(s[k].offset <= s[s.len() - 1].offset);
                }
            } else {
                assert(r[i] == u[i] && r[j] == u[j]);
            }
        }
        let k = choose|k: int| 0 <= k < u.len() && u[k] == b;
        assert(r[k] == b);
        assert forall|x: FreeBlock| s.contains(x) implies r.contains(x) by {
            let k = choose|k: int| 0 <= k < s.len() && s[k] == x;
            if k == s.len() - 1 {
                assert(r[r.len() - 1] == x);
            } else {
                assert(t[k] == x);
                assert(t.contains(x));
                assert(u.contains(x));
                let q = choose|q: int| 0 <= q < u.len() && u[q] == x;
                assert(r[q] == x);
            }
        }
        assert forall|k: int| 0 <= k < r.len() implies (#[trigger] r[k] == b || s.contains(r[k])) by {
            if k == r.len() - 1 {
                assert(s[s.len() - 1] == r[k]);
            } else {
                assert(r[k] == u[k]);
                if u[k] != b {
                    let q = choose|q: int| 0 <= q < t.len() && t[q] == u[k];
                    assert(s[q] == t[q]);
                }
            }
        }
    }
}

/// Ordering by offset sorts the blocks and keeps every one of them.
pub proof fn lemma_sort_by_offset(s: Seq<FreeBlock>)
    ensures
        offsets_sorted(sort_by_offset(s)),
        sort_by_offset(s).len() == s.len(),
        forall|x: FreeBlock| s.contains(x) ==> #[trigger] sort_by_offset(s).contains(x),
    decreases s.len(),
{
    if s.len() > 0 {
        let t = s.drop_last();
        lemma_sort_by_offset(t);
        lemma_insert_by_offset(sort_by_offset(t), s.last());
        assert forall|x: FreeBlock| s.contains(x) implies #[trigger] sort_by_offset(s).contains(x) by {
            let k = choose|k: int| 0 <= k < s.len() && s[k] == x;
            if k < s.len() - 1 {
                assert(t[k] == x);
                assert(t.contains(x));
            }
        }
    }
}

/// A walk that succeeds found every block inside the span, at or after
/// `previous_end`, and each block ending before the next one starts.
proof fn lemma_scan_ok(sorted: Seq<FreeBlock>, heap_span: u32, previous_end: u32)
    requires
        scan_free_blocks(sorted, heap_span, previous_end) is Ok,
    ensures
        forall|k: int| 0 <= k < sorted.len() ==> (#[trigger] sorted[k]).end() <= heap_span
            && sorted[k].offset >= previous_end,
        forall|i: int, j: int| 0 <= i < j < sorted.len() ==> (#[trigger] sorted[i]).end()
            <= (#[trigger] sorted[j]).offset,
    decreases sorted.len(),
{
    if sorted.len() > 0 {
        let b = sorted[0];
        let rest = sorted.drop_first();
        lemma_scan_ok(rest, heap_span, (b.offset + b.len) as u32);
        assert forall|k: int| 0 <= k < sorted.len() implies (#[trigger] sorted[k]).end() <= heap_span
            && sorted[k].offset >= previous_end by {
            if k > 0 {
                assert(sorted[k] == rest[k - 1]);
            }
        }
        assert forall|i: int, j: int| 0 <= i < j < sorted.len() implies (#[trigger] sorted[i]).end()
            <= (#[trigger] sorted[j]).offset by {
            assert(sorted[j] == rest[j - 1]);
            if i > 0 {
                assert(sorted[i] == rest[i - 1]);
            }
        }
    }
}

/// A free list that passes validation lies inside the heap span, and two of
/// its blocks at different offsets do not overlap.
pub proof fn lemma_validated_blocks_are_disjoint(blocks: Seq<FreeBlock>, heap_span: u32)
    requires
        scan_free_blocks(sort_by_offset(blocks), heap_span, 0) is Ok,
    ensures
        forall|i: int| 0 <= i < blocks.len() ==> (#[trigger] blocks[i]).end() <= heap_span,
        forall|i: int, j: int|
            0 <= i < blocks.len() && 0 <= j < blocks.len() && (#[trigger] blocks[i]).offset
                < (#[trigger] blocks[j]).offset ==> blocks[i].end() <= blocks[j].offset,
{
    let sorted = sort_by_offset(blocks);
    lemma_sort_by_offset(blocks);
    lemma_scan_ok(sorted, heap_span, 0);
    assert forall|i: int| 0 <= i < blocks.len() implies (#[trigger] blocks[i]).end() <= heap_span by {
        assert(blocks.contains(blocks[i]));
        assert(sorted.contains(blocks[i]));
        let p = choose|p: int| 0 <= p < sorted.len() && sorted[p] == blocks[i];
        assert(sorted[p].end() <= heap_span);
    }
    assert forall|i: int, j: int|
        0 <= i < blocks.len() && 0 <= j < blocks.len() && (#[trigger] blocks[i]).offset
            < (#[trigger] blocks[j]).offset implies blocks[i].end() <= blocks[j].offset by {
        assert(blocks.contains(blocks[i]));
        assert(blocks.contains(blocks[j]));
        assert(sorted.contains(blocks[i]));
        assert(sorted.contains(blocks[j]));
        let p = choose|p: int| 0 <= p < sorted.len() && sorted[p] == blocks[i];
        let q = choose|q: int| 0 <= q < sorted.len() && sorted[q] == blocks[j];
        if q < p {
            assert(sorted[q].offset <= sorted[p].offset);
        }
        assert(p != q);
        assert(sorted[p].end() <= sorted[q].offset);
    }
}

pub(crate) fn insert_sorted(sorted: &mut Vec<FreeBlock>, b: FreeBlock)
    ensures
        final(sorted)@ == insert_by_offset(old(sorted)@, b),
{
    let ghost initial = sorted@;
    let mut moved: Vec<FreeBlock> = Vec::new();
    while sorted.len() > 0 && sorted[sorted.len() - 1].offset > b.offset
        invariant
            insert_by_offset(initial, b) == insert_by_offset(sorted@, b) + moved@.reverse(),
        decreases sorted@.len(),
    {
        let ghost before = sorted@;
        let last = sorted.pop().unwrap();
        proof {
            assert(before =~= sorted@.push(last));
            assert(before.drop_last() =~= sorted@);
            assert(moved@.push(last).reverse() =~= seq![last] + moved@.reverse());
            assert(insert_by_offset(before, b) == insert_by_offset(sorted@, b).push(last));
            assert(insert_by_offset(sorted@, b).push(last) + moved@.reverse() =~= insert_by_offset(
                sorted@,
                b,
            ) + moved@.push(last).reverse());
        }
        moved.push(last);
    }
    proof {
        if sorted@.len() > 0 {
            assert(insert_by_offset(sorted@, b) == sorted@.push(b));
        } else {
            assert(insert_by_offset(sorted@, b) =~= sorted@.push(b));
        }
    }
    sorted.push(b);
    while moved.len() > 0
        invariant
            insert_by_offset(initial, b) == sorted@ + moved@.reverse(),
        decreases moved@.len(),
    {
        let ghost before = moved@;
        let next = moved.pop().unwrap();
        proof {
            assert(before =~= moved@.push(next));
            assert(moved@.push(next).reverse() =~= seq![next] + moved@.reverse());
            assert(sorted@ + (seq![next] + moved@.reverse()) =~= sorted@.push(next)
                + moved@.reverse());
        }
        sorted.push(next);
    }
    assert(sorted@ + moved@.reverse() =~= sorted@);
}

/// Checks a list of free blocks read from the guest heap: in offset order,
/// each must lie inside `heap_span` and start at or after the end of the one
/// before it.  The first block that does not is reported.
pub fn validate_free_block_ranges(blocks: &[FreeBlock], heap_span: u32) -> (r: Result<(), Error>)
    ensures
        match scan_free_blocks(sort_by_offset(blocks@), heap_span, 0) {
            Ok(()) => r is Ok,
            Err(t) => r matches Err(Error::Abi(m)) && m@ == t,
        },
{
    let mut ordered: Vec<FreeBlock> = Vec::new();
    let mut i: usize = 0;
    while i < blocks.len()
        invariant
            0 <= i <= blocks@.len(),
            ordered@ == sort_by_offset(blocks@.take(i as int)),
        decreases blocks@.len() - i,
    {
        proof {
            assert(blocks@.take(i + 1).drop_last() =~= blocks@.take(i as int));
        }
        insert_sorted(&mut ordered, blocks[i]);
        i += 1;
    }
    assert(blocks@.take(blocks@.len() as int) =~= blocks@);
    let mut previous_end: u32 = 0;
    let mut k: usize = 0;
    assert(ordered@.skip(0) =~= ordered@);
    while k < ordered.len()
        invariant
            0 <= k <= ordered@.len(),
            ordered@ == sort_by_offset(blocks@),
            scan_free_blocks(ordered@, heap_span, 0) == scan_free_blocks(
                ordered@.skip(k as int),
                heap_span,
                previous_end,
            ),
        decreases ordered@.len() - k,
    {
        let block = ordered[k];
        assert(ordered@.skip(k as int)[0] == block);
        let end = match block.offset.checked_add(block.len) {
            Some(e) => e,
            None => return Err(Error::Abi(String::from_str("guest free-block range overflow"))),
        };
        if end > heap_span {
            let m = String::from_str("guest free block at offset ").concat(
                hex_prefixed(block.offset as u64).as_str(),
            ).concat(" exceeds heap span ").concat(hex_prefixed(heap_span as u64).as_str());
            return Err(Error::Abi(m));
        }
        if block.offset < previous_end {
            let m = String::from_str("guest free block at offset ").concat(
                hex_prefixed(block.offset as u64).as_str(),
            ).concat(" overlaps the preceding range ending at ").concat(
                hex_prefixed(previous_end as u64).as_str(),
            );
            return Err(Error::Abi(m));
        }
        assert(ordered@.skip(k as int).drop_first() =~= ordered@.skip(k + 1));
        previous_end = end;
        k += 1;
    }
    Ok(())
}

/// Whether a block of `block_len` bytes at `offset` could be returned to the
/// free list: at least a header long, aligned, inside the heap span and clear
/// of every free block.
pub fn free_candidate_is_available(
    offset: u32,
    block_len: u32,
    heap_span: u32,
    free_blocks: &[FreeBlock],
) -> (r: bool)
    requires
        forall|i: int| 0 <= i < free_blocks@.len() ==> (#[trigger] free_blocks@[i]).end() <= u32::MAX,
    ensures
        r == (offset + block_len <= u32::MAX && block_len >= FREE_BLOCK_HEADER_LEN && offset
            < heap_span && offset + block_len <= heap_span && offset % HEAP_ALIGNMENT == 0
            && forall|i: int|
            0 <= i < free_blocks@.len() ==> offset + block_len <= (#[trigger] free_blocks@[i]).offset
                || offset >= free_blocks@[i].end()),
{
    let end = match offset.checked_add(block_len) {
        Some(e) => e,
        None => return false,
    };
    if !(block_len >= FREE_BLOCK_HEADER_LEN && offset < heap_span && end <= heap_span && offset
        % HEAP_ALIGNMENT == 0) {
        return false;
    }
    let mut i: usize = 0;
    while i < free_blocks.len()
        invariant
            0 <= i <= free_blocks@.len(),
            end == offset + block_len,
            forall|k: int| 0 <= k < free_blocks@.len() ==> (#[trigger] free_blocks@[k]).end() <= u32::MAX,
            forall|k: int|
                0 <= k < i ==> end <= (#[trigger] free_blocks@[k]).offset || offset
                    >= free_blocks@[k].end(),
        decreases free_blocks@.len() - i,
    {
        let block = free_blocks[i];
        let block_end = block.offset + block.len;
        if !(end <= block.offset || offset >= block_end) {
            return false;
        }
        i += 1;
    }
    true
}

/// `len` rounded up to a multiple of the heap alignment.
pub open spec fn align_up(len: int) -> int {
    (len + HEAP_ALIGNMENT - 1) / (HEAP_ALIGNMENT as int) * HEAP_ALIGNMENT
}

/// `len` rounded up to the heap alignment; fails when that leaves `u32`.
pub fn align_heap_len(len: u32) -> (r: Result<u32, Error>)
    ensures
        len + 7 <= u32::MAX ==> r == Ok::<u32, Error>(align_up(len as int) as u32),
        len + 7 > u32::MAX ==> is_arm_fault(r, "guest allocation length alignment overflow"@),
{
    match len.checked_add(HEAP_ALIGNMENT - 1) {
        Some(value) => {
            assert(value & !7u32 == (value / 8) * 8) by (bit_vector);
            Ok(value & !(HEAP_ALIGNMENT - 1))
        },
        None => Err(Error::ArmFault(String::from_str("guest allocation length alignment overflow"))),
    }
}

/// The heap block length used for a request of `len` bytes: at least one
/// byte, at least a free-block header, rounded up to the heap alignment.
pub open spec fn heap_block_len(len: int) -> int {
    let at_least_one = if len < 1 {
        1
    } else {
        len
    };
    align_up(
        if at_least_one < FREE_BLOCK_HEADER_LEN {
            FREE_BLOCK_HEADER_LEN as int
        } else {
            at_least_one
        },
    )
}

/// The block length for an allocation request of `len` bytes.
pub fn aligned_heap_len(len: usize) -> (r: Result<u32, Error>)
    ensures
        len + 7 <= u32::MAX ==> r == Ok::<u32, Error>(heap_block_len(len as int) as u32),
        len > u32::MAX ==> is_arm_fault(
            r,
            "guest allocation length "@ + dec_text(len as nat) + " does not fit u32"@,
        ),
        u32::MAX < len + 7 && len <= u32::MAX ==> is_arm_fault(
            r,
            "guest allocation length alignment overflow"@,
        ),
{
    let at_least_one = if len < 1 {
        1
    } else {
        len
    };
    if at_least_one > u32::MAX as usize {
        let m = String::from_str("guest allocation length ").concat(
            decimal(len as u64).as_str(),
        ).concat(" does not fit u32");
        return Err(Error::ArmFault(m));
    }
    let len32 = at_least_one as u32;
    align_heap_len(
        if len32 < FREE_BLOCK_HEADER_LEN {
            FREE_BLOCK_HEADER_LEN
        } else {
            len32
        },
    )
}

/// A block length is a multiple of the alignment, holds a header and the
/// request, and wastes less than one alignment unit beyond what those need.
pub proof fn lemma_heap_block_len(len: int)
    requires
        len >= 0,
    ensures
        heap_block_len(len) % (HEAP_ALIGNMENT as int) == 0,
        heap_block_len(len) >= len,
        heap_block_len(len) >= FREE_BLOCK_HEADER_LEN,
        heap_block_len(len) < (if len < FREE_BLOCK_HEADER_LEN {
            FREE_BLOCK_HEADER_LEN as int
        } else {
            len
        }) + HEAP_ALIGNMENT,
{
}

/// Where an aligned allocation of `required` bytes starts inside `block`,
/// when it fits: the block's offset rounded up with `mask` (alignment minus
/// one), provided neither the rounding nor the ends leave `u32`.
pub open spec fn fit_start(block: FreeBlock, required: u32, mask: u32) -> Option<u32> {
    if block.offset + mask > u32::MAX {
        None
    } else {
        let start = ((block.offset + mask) as u32) & !mask;
        if start + required > u32::MAX || block.offset + block.len > u32::MAX || start + required
            > block.offset + block.len {
            None
        } else {
            Some(start)
        }
    }
}

/// The first block, from index `i` on, that an allocation fits in.
pub open spec fn first_fit(blocks: Seq<FreeBlock>, required: u32, mask: u32, i: int) -> Option<
    (int, u32),
>
    decreases blocks.len() - i,
{
    if i < 0 || i >= blocks.len() {
        None
    } else {
        match fit_start(blocks[i], required, mask) {
            Some(start) => Some((i, start)),
            None => first_fit(blocks, required, mask, i + 1),
        }
    }
}

/// An allocation carved out of a free list.
pub struct HeapAllocation {
    /// The offset of the allocated bytes from the heap base.
    pub start: u32,
    /// The free list after the allocation.
    pub blocks: Vec<FreeBlock>,
    /// The free-byte count after the allocation.
    pub free_left: u32,
    /// The bytes that freeing the allocation gives back.
    pub reclaim_len: u32,
}

/// What is left of `block` around the allocation `[start, start + required)`:
/// the prefix and the suffix, each kept only when it can hold a header.
pub open spec fn remainder_blocks(block: FreeBlock, start: u32, required: u32) -> Seq<FreeBlock> {
    let prefix = start - block.offset;
    let suffix = block.offset + block.len - (start + required);
    let first = if prefix >= FREE_BLOCK_HEADER_LEN {
        seq![FreeBlock { offset: block.offset, len: prefix as u32 }]
    } else {
        Seq::empty()
    };
    let second = if suffix >= FREE_BLOCK_HEADER_LEN {
        seq![FreeBlock { offset: (start + required) as u32, len: suffix as u32 }]
    } else {
        Seq::empty()
    };
    first + second
}

pub open spec fn remainder_len(block: FreeBlock, start: u32, required: u32) -> int {
    let prefix = start - block.offset;
    let suffix = block.offset + block.len - (start + required);
    (if prefix >= FREE_BLOCK_HEADER_LEN {
        prefix
    } else {
        0
    }) + (if suffix >= FREE_BLOCK_HEADER_LEN {
        suffix
    } else {
        0
    })
}

pub open spec fn recovery_text(free_left: u32, recovered_len: u32) -> Seq<char> {
    "guest free-byte count "@ + hex_prefixed_text(free_left as nat)
        + " is smaller than recovery correction "@ + hex_prefixed_text(recovered_len as nat)
}

/// Plans an allocation of `required` bytes aligned to `alignment` in the
/// first free block it fits: the block is replaced by what remains of it, the
/// free-byte count (`free_left` less the `recovered_len` already corrected)
/// drops by the bytes consumed, and `None` reports that no block fits or the
/// count is too small.
pub fn plan_heap_allocation(
    blocks: &[FreeBlock],
    required: u32,
    alignment: u32,
    free_left: u32,
    recovered_len: u32,
) -> (r: Result<Option<HeapAllocation>, Error>)
    requires
        alignment > 0,
    ensures
        match first_fit(blocks@, required, (alignment - 1) as u32, 0) {
            None => r matches Ok(None),
            Some((index, start)) => {
                let block = blocks@[index];
                let consumed = block.len - remainder_len(block, start, required);
                let discarded = if start - block.offset < FREE_BLOCK_HEADER_LEN {
                    start - block.offset
                } else {
                    0
                };
                if free_left < recovered_len {
                    r matches Err(Error::Abi(m)) && m@ == recovery_text(free_left, recovered_len)
                } else if free_left - recovered_len < consumed {
                    r matches Ok(None)
                } else {
                    r matches Ok(Some(a)) && a.start == start && a.blocks@ == blocks@.take(index)
                        + remainder_blocks(block, start, required) + blocks@.skip(index + 1)
                        && a.free_left == free_left - recovered_len - consumed && a.reclaim_len
                        == consumed - discarded
                }
            },
        },
{
    let mask = alignment - 1;
    let mut index: usize = 0;
    let mut found: Option<u32> = None;
    while index < blocks.len() && found.is_none()
        invariant
            index <= blocks@.len(),
            match found {
                None => first_fit(blocks@, required, mask, 0) == first_fit(
                    blocks@,
                    required,
                    mask,
                    index as int,
                ),
                Some(s) => index < blocks@.len() && first_fit(blocks@, required, mask, 0) == Some(
                    (index as int, s),
                ) && fit_start(blocks@[index as int], required, mask) == Some(s),
            },
        decreases blocks@.len() - index, (if found is None { 1int } else { 0int }),
    {
        let block = blocks[index];
        let fits = match block.offset.checked_add(mask) {
            None => None,
            Some(rounded) => {
                let start = rounded & !mask;
                match start.checked_add(required) {
                    None => None,
                    Some(end) => match block.offset.checked_add(block.len) {
                        None => None,
                        Some(block_end) => if end <= block_end {
                            Some(start)
                        } else {
                            None
                        },
                    },
                }
            },
        };
        assert(fits == fit_start(block, required, mask));
        if fits.is_some() {
            found = fits;
        } else {
            index += 1;
        }
    }
    let start = match found {
        Some(s) => s,
        None => return Ok(None),
    };
    let block = blocks[index];
    assert(fit_start(block, required, mask) == Some(start));
    let allocation_end = start + required;
    let block_end = block.offset + block.len;
    proof {
        lemma_round_up_not_below(block.offset, mask);
    }
    let prefix_len = start - block.offset;
    let suffix_len = block_end - allocation_end;
    let mut replacement: Vec<FreeBlock> = Vec::new();
    if prefix_len >= FREE_BLOCK_HEADER_LEN {
        replacement.push(FreeBlock { offset: block.offset, len: prefix_len });
    }
    if suffix_len >= FREE_BLOCK_HEADER_LEN {
        replacement.push(FreeBlock { offset: allocation_end, len: suffix_len });
    }
    let replacement_len: u32 = (if prefix_len >= FREE_BLOCK_HEADER_LEN {
        prefix_len
    } else {
        0
    }) + (if suffix_len >= FREE_BLOCK_HEADER_LEN {
        suffix_len
    } else {
        0
    });
    assert(replacement@ =~= remainder_blocks(block, start, required));
    let consumed = block.len - replacement_len;
    let discarded_prefix = if prefix_len < FREE_BLOCK_HEADER_LEN {
        prefix_len
    } else {
        0
    };
    let reclaim_len = consumed - discarded_prefix;
    if free_left < recovered_len {
        return Err(
            Error::Abi(
                String::from_str("guest free-byte count ").concat(
                    hex_prefixed(free_left as u64).as_str(),
                ).concat(" is smaller than recovery correction ").concat(
                    hex_prefixed(recovered_len as u64).as_str(),
                ),
            ),
        );
    }
    let after_recovery = free_left - recovered_len;
    if after_recovery < consumed {
        return Ok(None);
    }
    let mut remaining: Vec<FreeBlock> = Vec::new();
    let mut k: usize = 0;
    while k < blocks.len()
        invariant
            k <= blocks@.len(),
            index < blocks@.len(),
            replacement@ == remainder_blocks(blocks@[index as int], start, required),
            remaining@ == (if k <= index {
                blocks@.take(k as int)
            } else {
                blocks@.take(index as int) + replacement@ + blocks@.subrange(index + 1, k as int)
            }),
        decreases blocks@.len() - k,
    {
        if k == index {
            let mut j: usize = 0;
            let ghost before = remaining@;
            while j < replacement.len()
                invariant
                    j <= replacement@.len(),
                    remaining@ == before + replacement@.take(j as int),
                decreases replacement@.len() - j,
            {
                remaining.push(replacement[j]);
                proof {
                    assert(remaining@ =~= before + replacement@.take(j + 1));
                }
                j += 1;
            }
            proof {
                assert(replacement@.take(j as int) =~= replacement@);
                assert(blocks@.subrange(index + 1, index + 1) =~= Seq::<FreeBlock>::empty());
                assert(remaining@ =~= blocks@.take(index as int) + replacement@ + blocks@.subrange(
                    index + 1,
                    k + 1,
                ));
            }
        } else {
            remaining.push(blocks[k]);
            proof {
                if k < index {
                    assert(remaining@ =~= blocks@.take(k + 1));
                } else {
                    assert(remaining@ =~= blocks@.take(index as int) + replacement@
                        + blocks@.subrange(index + 1, k + 1));
                }
            }
        }
        k += 1;
    }
    assert(blocks@.subrange(index + 1, blocks@.len() as int) =~= blocks@.skip(index + 1));
    Ok(
        Some(
            HeapAllocation {
                start,
                blocks: remaining,
                free_left: after_recovery - consumed,
                reclaim_len,
            },
        ),
    )
}

/// An allocation keeps the free list valid: what remains of the chosen block
/// lies inside it, before or after the allocated bytes, and the bytes it
/// consumed are exactly the block's bytes that are not left free.
pub proof fn lemma_allocation_remainder(block: FreeBlock, start: u32, required: u32, mask: u32)
    requires
        fit_start(block, required, mask) == Some(start),
    ensures
        block.offset <= start,
        start + required <= block.end(),
        forall|k: int|
            0 <= k < remainder_blocks(block, start, required).len() ==> {
                let b = #[trigger] remainder_blocks(block, start, required)[k];
                &&& block.offset <= b.offset
                &&& b.end() <= block.end()
                &&& (b.end() <= start || start + required <= b.offset)
                &&& b.len >= FREE_BLOCK_HEADER_LEN
            },
        0 <= remainder_len(block, start, required) <= block.len - required,
{
    lemma_round_up_not_below(block.offset, mask);
}

/// Rounding up with a mask never goes below the value rounded.
proof fn lemma_round_up_not_below(offset: u32, mask: u32)
    requires
        offset + mask <= u32::MAX,
    ensures
        ((offset + mask) as u32) & !mask >= offset,
{
    assert(((offset + mask) as u32) & !mask >= offset) by (bit_vector)
        requires
            offset + mask <= u32::MAX,
    ;
}

} // verus!
