//! Returning a block to the guest heap's free list: the freed range joins
//! the list, free blocks it swallows are dropped, and neighbours coalesce.
use crate::error::Error;
use crate::guest_strings::{fault_matches, GuestFault};
use crate::heap::{aligned_heap_len, free_candidate_is_available, heap_block_len, insert_sorted, lemma_insert_by_offset, lemma_sort_by_offset, sort_by_offset, FreeBlock, FREE_BLOCK_HEADER_LEN, HEAP_ALIGNMENT};
use crate::text::{dec_text, decimal, hex32, hex32_text, hex_prefixed, hex_prefixed_text};
use vstd::prelude::*;
use vstd::set_lib::*;
use vstd::string::*;

verus! {

/// Two blocks that share no byte.
pub open spec fn apart(a: FreeBlock, b: FreeBlock) -> bool {
    a.end() <= b.offset || b.end() <= a.offset
}

/// A free list as the guest heap keeps it: every block inside the span and
/// no two blocks sharing a byte.
pub open spec fn is_free_list(blocks: Seq<FreeBlock>, heap_span: u32) -> bool {
    &&& forall|i: int| 0 <= i < blocks.len() ==> (#[trigger] blocks[i]).end() <= heap_span
    &&& forall|i: int, j: int|
        0 <= i < blocks.len() && 0 <= j < blocks.len() && i != j ==> apart(
            #[trigger] blocks[i],
            #[trigger] blocks[j],
        )
}

/// The free list after a release, with its terminator and free-byte count.
#[derive(Debug)]
pub struct FreeListUpdate {
    pub blocks: Vec<FreeBlock>,
    pub terminator: u32,
    pub free_left: u32,
}

pub open spec fn outside_heap_text(address: u32, block_len: u32, base: u32, span: u32) -> Seq<
    char,
> {
    "freed guest block "@ + hex32_text(address) + " ("@ + dec_text(block_len as nat)
        + " bytes) is outside the active heap "@ + hex32_text(base) + ".."@ + hex32_text(
        base.wrapping_add(span),
    )
}

pub open spec fn swallowed_text(offset: u32, b: FreeBlock) -> Seq<char> {
    "freed guest block at offset "@ + hex_prefixed_text(offset as nat) + " contains free block "@
        + hex_prefixed_text(b.offset as nat) + ".."@ + hex_prefixed_text(b.end() as nat)
}

pub open spec fn straddled_text(offset: u32, b: FreeBlock) -> Seq<char> {
    "freed guest block at offset "@ + hex_prefixed_text(offset as nat)
        + " partially overlaps free block "@ + hex_prefixed_text(b.offset as nat) + ".."@
        + hex_prefixed_text(b.end() as nat)
}

pub open spec fn merge_overlap_text(offset: u32, previous: FreeBlock) -> Seq<char> {
    "freed guest block at offset "@ + hex_prefixed_text(offset as nat) + " overlaps free block "@
        + hex_prefixed_text(previous.offset as nat) + ".."@ + hex_prefixed_text(
        previous.end() as nat,
    )
}

/// Some free block already holds every byte of `[offset, end)`.
pub open spec fn covered(blocks: Seq<FreeBlock>, offset: int, end: int) -> bool {
    exists|i: int| 0 <= i < blocks.len() && (#[trigger] blocks[i]).offset <= offset && end <= blocks[i].end()
}

/// Walks the free list from index `i`, keeping the blocks clear of the
/// freed range `[offset, end)` and counting the bytes of those inside it;
/// a block inside it is refused unless `allow_inside`, a block that
/// straddles its edge always.
pub open spec fn sift_from(
    blocks: Seq<FreeBlock>,
    offset: u32,
    end: int,
    allow_inside: bool,
    i: int,
    kept: Seq<FreeBlock>,
    inside: int,
) -> Result<(Seq<FreeBlock>, int), Seq<char>>
    decreases blocks.len() - i,
{
    if i < 0 || i >= blocks.len() {
        Ok((kept, inside))
    } else {
        let b = blocks[i];
        if b.end() > u32::MAX {
            Err("guest free-block end overflow"@)
        } else if offset <= b.offset && b.end() <= end {
            if !allow_inside {
                Err(swallowed_text(offset, b))
            } else if inside + b.len > u32::MAX {
                Err("contained guest free-byte count overflow"@)
            } else {
                sift_from(blocks, offset, end, allow_inside, i + 1, kept, inside + b.len)
            }
        } else if b.offset < end && offset < b.end() {
            Err(straddled_text(offset, b))
        } else {
            sift_from(blocks, offset, end, allow_inside, i + 1, kept.push(b), inside)
        }
    }
}

/// Walks offset-ordered blocks from index `i`, joining each to the last
/// block of `merged` when it starts exactly where that one ends.
pub open spec fn merge_from(sorted: Seq<FreeBlock>, i: int, merged: Seq<FreeBlock>) -> Result<
    Seq<FreeBlock>,
    Seq<char>,
>
    decreases sorted.len() - i,
{
    if i < 0 || i >= sorted.len() {
        Ok(merged)
    } else {
        let b = sorted[i];
        if merged.len() > 0 {
            let p = merged.last();
            if p.end() > u32::MAX {
                Err("guest free-block end overflow"@)
            } else if b.offset < p.end() {
                Err(merge_overlap_text(b.offset, p))
            } else if b.offset == p.end() {
                if p.len + b.len > u32::MAX {
                    Err("merged guest free-block length overflow"@)
                } else {
                    merge_from(
                        sorted,
                        i + 1,
                        merged.update(
                            merged.len() - 1,
                            FreeBlock { offset: p.offset, len: (p.len + b.len) as u32 },
                        ),
                    )
                }
            } else {
                merge_from(sorted, i + 1, merged.push(b))
            }
        } else {
            merge_from(sorted, i + 1, merged.push(b))
        }
    }
}

/// The terminator after `[offset, end)` is freed: the span when the range
/// reaches past the old terminator.
pub open spec fn released_terminator(terminator: u32, offset: int, end: int, span: u32) -> u32 {
    if offset >= terminator || end > terminator {
        span
    } else {
        terminator
    }
}

/// What releasing `block_len` bytes at `address` does to a heap at `base`
/// of `span` bytes: an error text; `None` when a free block already holds
/// the range; or the new free list, terminator and free-byte count.
pub open spec fn release_plan(
    address: u32,
    block_len: u32,
    base: u32,
    span: u32,
    free_left: u32,
    blocks: Seq<FreeBlock>,
    terminator: u32,
    recovered_len: u32,
    allow_inside: bool,
) -> Result<Option<(Seq<FreeBlock>, u32, u32)>, Seq<char>> {
    if address < base {
        Err("freed guest block starts before the active heap"@)
    } else if address - base + block_len > u32::MAX {
        Err("freed guest block offset overflow"@)
    } else {
        let offset = (address - base) as u32;
        let end = offset + block_len;
        if block_len < FREE_BLOCK_HEADER_LEN || offset >= span || end > span || offset
            % HEAP_ALIGNMENT != 0 {
            Err(outside_heap_text(address, block_len, base, span))
        } else if covered(blocks, offset as int, end) {
            Ok(None)
        } else {
            match sift_from(blocks, offset, end, allow_inside, 0, Seq::empty(), 0) {
                Err(t) => Err(t),
                Ok((kept, inside)) => {
                    let all = sort_by_offset(kept.push(FreeBlock { offset, len: block_len }));
                    match merge_from(all, 0, Seq::empty()) {
                        Err(t) => Err(t),
                        Ok(merged) => if free_left < recovered_len || free_left - recovered_len
                            + block_len - inside > u32::MAX {
                            Err("guest free-byte count overflow"@)
                        } else {
                            Ok(
                                Some(
                                    (
                                        merged,
                                        released_terminator(terminator, offset as int, end, span),
                                        (free_left - recovered_len + block_len - inside) as u32,
                                    ),
                                ),
                            )
                        },
                    }
                },
            }
        }
    }
}

fn abi(text: String) -> (r: Result<Option<FreeListUpdate>, Error>)
    ensures
        r matches Err(Error::Abi(m)) && m == text,
{
    Err(Error::Abi(text))
}

/// Plans returning `block_len` bytes at `address` to the free list of the
/// heap at `heap_base` (`heap_span` bytes): the range must be aligned, at
/// least a header long and inside the heap.  `Ok(None)` reports that a free
/// block already holds it.  Otherwise the free blocks the range swallows
/// are dropped (refused unless `allow_contained_free`), the range joins the
/// list in offset order, touching blocks coalesce, and the free-byte count
/// (`free_left` less the `recovered_len` already corrected) grows by the
/// bytes that were not free before.
#[verifier::loop_isolation(false)]
pub fn plan_heap_release(
    address: u32,
    block_len: u32,
    heap_base: u32,
    heap_span: u32,
    free_left: u32,
    blocks: &[FreeBlock],
    terminator: u32,
    recovered_len: u32,
    allow_contained_free: bool,
) -> (r: Result<Option<FreeListUpdate>, Error>)
    requires
        is_free_list(blocks@, heap_span),
    ensures
        match release_plan(
            address,
            block_len,
            heap_base,
            heap_span,
            free_left,
            blocks@,
            terminator,
            recovered_len,
            allow_contained_free,
        ) {
            Err(t) => r matches Err(Error::Abi(m)) && m@ == t,
            Ok(None) => r matches Ok(None),
            Ok(Some((b, t, f))) => r matches Ok(Some(u)) && u.blocks@ == b && u.terminator == t
                && u.free_left == f,
        },
{
    proof {
        reveal_strlit("freed guest block starts before the active heap");
        reveal_strlit("freed guest block offset overflow");
    }
    if address < heap_base {
        return abi(String::from_str("freed guest block starts before the active heap"));
    }
    let offset = address - heap_base;
    let end = match offset.checked_add(block_len) {
        Some(e) => e,
        None => return abi(String::from_str("freed guest block offset overflow")),
    };
    if block_len < FREE_BLOCK_HEADER_LEN || offset >= heap_span || end > heap_span || offset
        % HEAP_ALIGNMENT != 0 {
        proof {
            reveal_strlit("freed guest block ");
            reveal_strlit(" (");
            reveal_strlit(" bytes) is outside the active heap ");
            reveal_strlit("..");
        }
        let m = String::from_str("freed guest block ").concat(hex32(address).as_str()).concat(
            " (",
        ).concat(decimal(block_len as u64).as_str()).concat(
            " bytes) is outside the active heap ",
        ).concat(hex32(heap_base).as_str()).concat("..").concat(
            hex32(heap_base.wrapping_add(heap_span)).as_str(),
        );
        return abi(m);
    }
    let mut i: usize = 0;
    while i < blocks.len()
        invariant
            0 <= i <= blocks@.len(),
            is_free_list(blocks@, heap_span),
            forall|k: int|
                0 <= k < i ==> !((#[trigger] blocks@[k]).offset <= offset && end <= blocks@[k].end()),
        decreases blocks@.len() - i,
    {
        let b = blocks[i];
        if b.offset <= offset && end <= b.offset + b.len {
            assert(covered(blocks@, offset as int, end as int)) by {
                assert(blocks@[i as int] == b);
            }
            return Ok(None);
        }
        i += 1;
    }
    let (kept, inside) = match sift(blocks, offset, end, heap_span, allow_contained_free) {
        Ok(p) => p,
        Err(e) => return Err(e),
    };
    let mut all = kept.clone();
    all.push(FreeBlock { offset, len: block_len });
    let mut sorted: Vec<FreeBlock> = Vec::new();
    let mut k: usize = 0;
    while k < all.len()
        invariant
            0 <= k <= all@.len(),
            sorted@ == sort_by_offset(all@.take(k as int)),
        decreases all@.len() - k,
    {
        proof {
            assert(all@.take(k + 1).drop_last() =~= all@.take(k as int));
        }
        insert_sorted(&mut sorted, all[k]);
        k += 1;
    }
    assert(all@.take(all@.len() as int) =~= all@);
    let merged = match merge(&sorted) {
        Ok(m) => m,
        Err(e) => return Err(e),
    };
    let new_terminator = if offset >= terminator || end > terminator {
        heap_span
    } else {
        terminator
    };
    if free_left < recovered_len {
        proof {
            reveal_strlit("guest free-byte count overflow");
        }
        return abi(String::from_str("guest free-byte count overflow"));
    }
    let newly_free = block_len - inside;
    let new_free_left = match (free_left - recovered_len).checked_add(newly_free) {
        Some(f) => f,
        None => {
            proof {
                reveal_strlit("guest free-byte count overflow");
            }
            return abi(String::from_str("guest free-byte count overflow"));
        },
    };
    Ok(Some(FreeListUpdate { blocks: merged, terminator: new_terminator, free_left: new_free_left }))
}

/// What `aligned_heap_len` gives for a request of `len` bytes.
pub open spec fn requested_block_len(len: nat) -> Result<u32, Seq<char>> {
    if len > u32::MAX {
        Err("guest allocation length "@ + dec_text(len) + " does not fit u32"@)
    } else if len + 7 > u32::MAX {
        Err("guest allocation length alignment overflow"@)
    } else {
        Ok(heap_block_len(len as int) as u32)
    }
}

/// A block of `len` bytes at `offset` could be returned: aligned, at least
/// a header long, inside the span and clear of every free block.
pub open spec fn candidate_available(offset: u32, len: u32, span: u32, blocks: Seq<FreeBlock>) -> bool {
    offset + len <= u32::MAX && len >= FREE_BLOCK_HEADER_LEN && offset < span && offset + len <= span
        && offset % HEAP_ALIGNMENT == 0 && forall|i: int|
        0 <= i < blocks.len() ==> offset + len <= (#[trigger] blocks[i]).offset || offset
            >= blocks[i].end()
}

pub open spec fn unknown_allocation_text(address: u32) -> Seq<char> {
    "free references unknown guest allocation "@ + hex32_text(address)
}

/// How many bytes a free at `address` (`offset` into the heap) returns: the
/// tracked length when it can be returned, else the requested length
/// (`requested`, 0 for none) rounded to a block when that can, else the
/// tracked length anyway; with nothing tracked, the requested length, and
/// with neither, an error.
pub open spec fn release_len(
    address: u32,
    offset: u32,
    known: Option<u32>,
    requested: nat,
    span: u32,
    blocks: Seq<FreeBlock>,
) -> Result<u32, GuestFault> {
    let explicit = if requested != 0 {
        Some(requested_block_len(requested))
    } else {
        None
    };
    match known {
        Some(t) => if candidate_available(offset, t, span, blocks) {
            Ok(t)
        } else {
            match explicit {
                Some(Ok(e)) => if candidate_available(offset, e, span, blocks) {
                    Ok(e)
                } else {
                    Ok(t)
                },
                _ => Ok(t),
            }
        },
        None => match explicit {
            Some(Ok(e)) => Ok(e),
            Some(Err(t)) => Err(GuestFault::Arm(t)),
            None => Err(GuestFault::Abi(unknown_allocation_text(address))),
        },
    }
}

/// Chooses how many bytes a free at `address` returns to the heap, from the
/// length the host tracked for it and the length the guest passed.
pub fn select_release_len(
    address: u32,
    offset: u32,
    tracked_len: Option<u32>,
    requested_len: usize,
    heap_span: u32,
    blocks: &[FreeBlock],
) -> (r: Result<u32, Error>)
    requires
        forall|i: int| 0 <= i < blocks@.len() ==> (#[trigger] blocks@[i]).end() <= u32::MAX,
    ensures
        match release_len(address, offset, tracked_len, requested_len as nat, heap_span, blocks@) {
            Ok(v) => r == Ok::<u32, Error>(v),
            Err(f) => fault_matches(r, f),
        },
{
    let explicit = if requested_len != 0 {
        Some(aligned_heap_len(requested_len))
    } else {
        None
    };
    match tracked_len {
        Some(t) => {
            if free_candidate_is_available(offset, t, heap_span, blocks) {
                return Ok(t);
            }
            match explicit {
                Some(Ok(e)) => if free_candidate_is_available(offset, e, heap_span, blocks) {
                    Ok(e)
                } else {
                    Ok(t)
                },
                _ => Ok(t),
            }
        },
        None => match explicit {
            Some(result) => result,
            None => {
                proof {
                    reveal_strlit("free references unknown guest allocation ");
                }
                Err(
                    Error::Abi(
                        String::from_str("free references unknown guest allocation ").concat(
                            hex32(address).as_str(),
                        ),
                    ),
                )
            },
        },
    }
}

/// The bytes of `[lo, hi)` as a set of positions.
pub open spec fn positions(lo: int, hi: int) -> Set<int> {
    set_int_range(lo, hi)
}

/// The sifting walk of `plan_heap_release`; the bytes counted inside the
/// freed range never exceed its length.
fn sift(blocks: &[FreeBlock], offset: u32, end: u32, heap_span: u32, allow_inside: bool) -> (r: Result<
    (Vec<FreeBlock>, u32),
    Error,
>)
    requires
        is_free_list(blocks@, heap_span),
        offset <= end,
    ensures
        match sift_from(blocks@, offset, end as int, allow_inside, 0, Seq::empty(), 0) {
            Err(t) => r matches Err(Error::Abi(m)) && m@ == t,
            Ok((kept, inside)) => r matches Ok(p) && p.0@ == kept && p.1 == inside && inside <= end
                - offset,
        },
{
    let mut kept: Vec<FreeBlock> = Vec::new();
    let mut inside: u32 = 0;
    let mut i: usize = 0;
    let ghost mut cover: Set<int> = Set::empty();
    proof {
        lemma_int_range(offset as int, end as int);
    }
    while i < blocks.len()
        invariant
            0 <= i <= blocks@.len(),
            offset <= end,
            is_free_list(blocks@, heap_span),
            sift_from(blocks@, offset, end as int, allow_inside, 0, Seq::empty(), 0) == sift_from(
                blocks@,
                offset,
                end as int,
                allow_inside,
                i as int,
                kept@,
                inside as int,
            ),
            cover.finite(),
            cover.len() == inside,
            cover.subset_of(positions(offset as int, end as int)),
            positions(offset as int, end as int).finite(),
            positions(offset as int, end as int).len() == end - offset,
            forall|x: int|
                cover.contains(x) ==> exists|k: int|
                    0 <= k < i && (#[trigger] blocks@[k]).offset <= x < blocks@[k].end(),
        decreases blocks@.len() - i,
    {
        let b = blocks[i];
        proof {
            assert(b.end() <= heap_span);
        }
        let block_end = b.offset + b.len;
        if offset <= b.offset && block_end <= end {
            if !allow_inside {
                let m = String::from_str("freed guest block at offset ").concat(
                    hex_prefixed(offset as u64).as_str(),
                ).concat(" contains free block ").concat(hex_prefixed(b.offset as u64).as_str()).concat(
                    "..",
                ).concat(hex_prefixed(block_end as u64).as_str());
                proof {
                    reveal_strlit("freed guest block at offset ");
                    reveal_strlit(" contains free block ");
                    reveal_strlit("..");
                }
                return Err(Error::Abi(m));
            }
            let ghost piece = positions(b.offset as int, block_end as int);
            proof {
                lemma_int_range(b.offset as int, block_end as int);
                assert(cover.disjoint(piece)) by {
                    assert forall|x: int| cover.contains(x) implies !piece.contains(x) by {
                        let k = choose|k: int|
                            0 <= k < i && (#[trigger] blocks@[k]).offset <= x < blocks@[k].end();
                        assert(apart(blocks@[k], blocks@[i as int]));
                    }
                }
                lemma_set_disjoint_lens(cover, piece);
                assert((cover + piece).subset_of(positions(offset as int, end as int)));
                lemma_len_subset(cover + piece, positions(offset as int, end as int));
                cover = cover + piece;
                assert forall|x: int| cover.contains(x) implies exists|k: int|
                    0 <= k < i + 1 && (#[trigger] blocks@[k]).offset <= x < blocks@[k].end() by {
                    if piece.contains(x) {
                        assert(blocks@[i as int].offset <= x < blocks@[i as int].end());
                    }
                }
            }
            inside = inside + b.len;
        } else if b.offset < end && offset < block_end {
            let m = String::from_str("freed guest block at offset ").concat(
                hex_prefixed(offset as u64).as_str(),
            ).concat(" partially overlaps free block ").concat(
                hex_prefixed(b.offset as u64).as_str(),
            ).concat("..").concat(hex_prefixed(block_end as u64).as_str());
            proof {
                reveal_strlit("freed guest block at offset ");
                reveal_strlit(" partially overlaps free block ");
                reveal_strlit("..");
            }
            return Err(Error::Abi(m));
        } else {
            kept.push(b);
        }
        i += 1;
    }
    proof {
        lemma_len_subset(cover, positions(offset as int, end as int));
    }
    Ok((kept, inside))
}

/// The coalescing walk of `plan_heap_release`.
fn merge(sorted: &Vec<FreeBlock>) -> (r: Result<Vec<FreeBlock>, Error>)
    ensures
        match merge_from(sorted@, 0, Seq::empty()) {
            Err(t) => r matches Err(Error::Abi(m)) && m@ == t,
            Ok(merged) => r matches Ok(v) && v@ == merged,
        },
{
    let mut merged: Vec<FreeBlock> = Vec::new();
    let mut i: usize = 0;
    while i < sorted.len()
        invariant
            0 <= i <= sorted@.len(),
            merge_from(sorted@, 0, Seq::empty()) == merge_from(sorted@, i as int, merged@),
        decreases sorted@.len() - i,
    {
        let b = sorted[i];
        if merged.len() > 0 {
            let last = merged.len() - 1;
            let p = merged[last];
            let previous_end = match p.offset.checked_add(p.len) {
                Some(e) => e,
                None => {
                    proof {
                        reveal_strlit("guest free-block end overflow");
                    }
                    return Err(Error::Abi(String::from_str("guest free-block end overflow")));
                },
            };
            if b.offset < previous_end {
                let m = String::from_str("freed guest block at offset ").concat(
                    hex_prefixed(b.offset as u64).as_str(),
                ).concat(" overlaps free block ").concat(hex_prefixed(p.offset as u64).as_str()).concat(
                    "..",
                ).concat(hex_prefixed(previous_end as u64).as_str());
                proof {
                    reveal_strlit("freed guest block at offset ");
                    reveal_strlit(" overlaps free block ");
                    reveal_strlit("..");
                }
                return Err(Error::Abi(m));
            }
            if b.offset == previous_end {
                let joined = match p.len.checked_add(b.len) {
                    Some(l) => l,
                    None => {
                        proof {
                            reveal_strlit("merged guest free-block length overflow");
                        }
                        return Err(
                            Error::Abi(String::from_str("merged guest free-block length overflow")),
                        );
                    },
                };
                merged.set(last, FreeBlock { offset: p.offset, len: joined });
            } else {
                merged.push(b);
            }
        } else {
            merged.push(b);
        }
        i += 1;
    }
    Ok(merged)
}

/// Byte `x` (an offset from the heap base) lies in block `b`.
pub open spec fn in_block(b: FreeBlock, x: int) -> bool {
    b.offset <= x < b.end()
}

/// Some block of `blocks` holds byte `x`.
pub open spec fn holds(blocks: Seq<FreeBlock>, x: int) -> bool {
    exists|k: int| 0 <= k < blocks.len() && in_block(#[trigger] blocks[k], x)
}

/// Blocks in increasing offset order with a gap between each and the next.
pub open spec fn chained(s: Seq<FreeBlock>) -> bool {
    forall|i: int, j: int| 0 <= i < j < s.len() ==> (#[trigger] s[i]).end() < (#[trigger] s[j]).offset
}

/// Every block that the ordering by offset yields came from the blocks
/// ordered.
proof fn lemma_sorted_came_from(s: Seq<FreeBlock>)
    ensures
        forall|k: int| 0 <= k < sort_by_offset(s).len() ==> s.contains(#[trigger] sort_by_offset(s)[k]),
        forall|x: FreeBlock| s.contains(x) ==> #[trigger] sort_by_offset(s).contains(x),
    decreases s.len(),
{
    lemma_sort_by_offset(s);
    if s.len() > 0 {
        let t = s.drop_last();
        lemma_sorted_came_from(t);
        lemma_sort_by_offset(t);
        lemma_insert_by_offset(sort_by_offset(t), s.last());
        assert forall|k: int| 0 <= k < sort_by_offset(s).len() implies s.contains(
            #[trigger] sort_by_offset(s)[k],
        ) by {
            let y = sort_by_offset(s)[k];
            if y != s.last() {
                assert(sort_by_offset(t).contains(y));
                let q = choose|q: int| 0 <= q < sort_by_offset(t).len() && sort_by_offset(t)[q] == y;
                assert(t.contains(y));
                let r = choose|r: int| 0 <= r < t.len() && t[r] == y;
                assert(s[r] == y);
            } else {
                assert(s[s.len() - 1] == y);
            }
        }
    }
}

/// A sifting walk that succeeds keeps blocks of the list only, and every
/// block it does not keep lies inside the freed range.
proof fn lemma_sift_from(
    blocks: Seq<FreeBlock>,
    offset: u32,
    end: int,
    allow_inside: bool,
    i: int,
    kept: Seq<FreeBlock>,
    inside: int,
)
    requires
        0 <= i <= blocks.len(),
        sift_from(blocks, offset, end, allow_inside, i, kept, inside) is Ok,
    ensures
        ({
            let k2 = sift_from(blocks, offset, end, allow_inside, i, kept, inside)->Ok_0.0;
            &&& forall|y: FreeBlock| #[trigger] k2.contains(y) ==> kept.contains(y) || exists|j: int|
                i <= j < blocks.len() && blocks[j] == y
            &&& forall|j: int|
                i <= j < blocks.len() ==> k2.contains(#[trigger] blocks[j]) || (offset
                    <= blocks[j].offset && blocks[j].end() <= end)
            &&& forall|y: FreeBlock| #[trigger] kept.contains(y) ==> k2.contains(y)
        }),
    decreases blocks.len() - i,
{
    if i < blocks.len() {
        let b = blocks[i];
        if offset <= b.offset && b.end() <= end {
            lemma_sift_from(blocks, offset, end, allow_inside, i + 1, kept, inside + b.len);
        } else {
            lemma_sift_from(blocks, offset, end, allow_inside, i + 1, kept.push(b), inside);
            let k2 = sift_from(blocks, offset, end, allow_inside, i, kept, inside)->Ok_0.0;
            assert(kept.push(b).contains(b)) by {
                assert(kept.push(b)[kept.len() as int] == b);
            }
            assert forall|y: FreeBlock| #[trigger] kept.contains(y) implies k2.contains(y) by {
                let q = choose|q: int| 0 <= q < kept.len() && kept[q] == y;
                assert(kept.push(b)[q] == y);
                assert(kept.push(b).contains(y));
            }
            assert forall|y: FreeBlock| #[trigger] k2.contains(y) implies kept.contains(y) || exists|
                j: int,
            | i <= j < blocks.len() && blocks[j] == y by {
                if kept.push(b).contains(y) && !kept.contains(y) {
                    let q = choose|q: int| 0 <= q < kept.len() + 1 && kept.push(b)[q] == y;
                    if q < kept.len() {
                        assert(kept[q] == y);
                    } else {
                        assert(blocks[i] == y);
                    }
                }
            }
        }
    }
}

/// A coalescing walk that succeeds leaves chained blocks inside the span
/// that hold exactly the bytes of the blocks walked.
proof fn lemma_merge_from(sorted: Seq<FreeBlock>, i: int, merged: Seq<FreeBlock>, span: u32)
    requires
        0 <= i <= sorted.len(),
        merge_from(sorted, i, merged) is Ok,
        chained(merged),
        forall|k: int| 0 <= k < merged.len() ==> (#[trigger] merged[k]).end() <= span,
        forall|k: int| 0 <= k < sorted.len() ==> (#[trigger] sorted[k]).end() <= span,
        forall|j: int, x: int| 0 <= j < i && #[trigger] in_block(sorted[j], x) ==> holds(merged, x),
        forall|x: int|
            holds(merged, x) ==> exists|j: int| 0 <= j < i && #[trigger] in_block(sorted[j], x),
    ensures
        ({
            let out = merge_from(sorted, i, merged)->Ok_0;
            &&& chained(out)
            &&& forall|k: int| 0 <= k < out.len() ==> (#[trigger] out[k]).end() <= span
            &&& forall|j: int, x: int|
                0 <= j < sorted.len() && #[trigger] in_block(sorted[j], x) ==> holds(out, x)
            &&& forall|x: int|
                holds(out, x) ==> exists|j: int| 0 <= j < sorted.len() && #[trigger] in_block(sorted[j], x)
        }),
    decreases sorted.len() - i,
{
    if i < sorted.len() {
        let b = sorted[i];
        if merged.len() > 0 && b.offset == merged.last().end() {
            let p = merged.last();
            let last = merged.len() - 1;
            let q = FreeBlock { offset: p.offset, len: (p.len + b.len) as u32 };
            let next = merged.update(last, q);
            assert forall|k: int| 0 <= k < next.len() implies (#[trigger] next[k]).end() <= span by {
                if k != last {
                    assert(next[k] == merged[k]);
                }
            }
            assert forall|a: int, c: int| 0 <= a < c < next.len() implies (#[trigger] next[a]).end()
                < (#[trigger] next[c]).offset by {
                assert(next[a] == merged[a]);
                if c != last {
                    assert(next[c] == merged[c]);
                } else {
                    assert(merged[a].end() < merged[last].offset);
                }
            }
            assert forall|j: int, x: int| 0 <= j < i + 1 && #[trigger] in_block(sorted[j], x) implies holds(
                next,
                x,
            ) by {
                if j == i {
                    assert(in_block(next[last], x));
                } else {
                    let k = choose|k: int| 0 <= k < merged.len() && in_block(#[trigger] merged[k], x);
                    if k == last {
                        assert(in_block(next[last], x));
                    } else {
                        assert(next[k] == merged[k]);
                        assert(in_block(next[k], x));
                    }
                }
            }
            assert forall|x: int| holds(next, x) implies exists|j: int|
                0 <= j < i + 1 && #[trigger] in_block(sorted[j], x) by {
                let k = choose|k: int| 0 <= k < next.len() && in_block(#[trigger] next[k], x);
                if k == last {
                    if x < p.end() {
                        assert(in_block(merged[last], x));
                        assert(holds(merged, x));
                    } else {
                        assert(in_block(sorted[i], x));
                    }
                } else {
                    assert(next[k] == merged[k]);
                    assert(in_block(merged[k], x));
                    assert(holds(merged, x));
                }
            }
            lemma_merge_from(sorted, i + 1, next, span);
        } else {
            let next = merged.push(b);
            if merged.len() > 0 {
                assert(b.offset > merged.last().end());
            }
            assert forall|k: int| 0 <= k < next.len() implies (#[trigger] next[k]).end() <= span by {
                if k < merged.len() {
                    assert(next[k] == merged[k]);
                }
            }
            assert forall|a: int, c: int| 0 <= a < c < next.len() implies (#[trigger] next[a]).end()
                < (#[trigger] next[c]).offset by {
                assert(next[a] == merged[a]);
                if c < merged.len() {
                    assert(next[c] == merged[c]);
                } else if a < merged.len() - 1 {
                    assert(merged[a].end() < merged[merged.len() - 1].offset);
                }
            }
            assert forall|j: int, x: int| 0 <= j < i + 1 && #[trigger] in_block(sorted[j], x) implies holds(
                next,
                x,
            ) by {
                if j == i {
                    assert(in_block(next[merged.len() as int], x));
                } else {
                    let k = choose|k: int| 0 <= k < merged.len() && in_block(#[trigger] merged[k], x);
                    assert(next[k] == merged[k]);
                    assert(in_block(next[k], x));
                }
            }
            assert forall|x: int| holds(next, x) implies exists|j: int|
                0 <= j < i + 1 && #[trigger] in_block(sorted[j], x) by {
                let k = choose|k: int| 0 <= k < next.len() && in_block(#[trigger] next[k], x);
                if k == merged.len() {
                    assert(in_block(sorted[i], x));
                } else {
                    assert(next[k] == merged[k]);
                    assert(in_block(merged[k], x));
                    assert(holds(merged, x));
                }
            }
            lemma_merge_from(sorted, i + 1, next, span);
        }
    }
}

/// Releasing a range keeps a free list a free list, in increasing offset
/// order with no two blocks touching, and afterwards exactly the bytes that
/// were free before and the released bytes are free.  A release answered
/// with `None` found every released byte free already.
pub proof fn lemma_release_frees_exactly(
    address: u32,
    block_len: u32,
    base: u32,
    span: u32,
    free_left: u32,
    blocks: Seq<FreeBlock>,
    terminator: u32,
    recovered_len: u32,
    allow_inside: bool,
)
    requires
        is_free_list(blocks, span),
        release_plan(
            address,
            block_len,
            base,
            span,
            free_left,
            blocks,
            terminator,
            recovered_len,
            allow_inside,
        ) is Ok,
    ensures
        ({
            let offset = address - base;
            match release_plan(
                address,
                block_len,
                base,
                span,
                free_left,
                blocks,
                terminator,
                recovered_len,
                allow_inside,
            )->Ok_0 {
                None => forall|x: int| offset <= x < offset + block_len ==> holds(blocks, x),
                Some((merged, t, f)) => {
                    &&& is_free_list(merged, span)
                    &&& chained(merged)
                    &&& forall|x: int|
                        holds(merged, x) <==> (offset <= x < offset + block_len || holds(blocks, x))
                },
            }
        }),
{
    let offset = (address - base) as u32;
    let end = offset + block_len;
    if covered(blocks, offset as int, end) {
        let i = choose|i: int|
            0 <= i < blocks.len() && (#[trigger] blocks[i]).offset <= offset && end <= blocks[i].end();
        assert forall|x: int| offset <= x < offset + block_len implies holds(blocks, x) by {
            assert(in_block(blocks[i], x));
        }
    } else {
        lemma_sift_from(blocks, offset, end, allow_inside, 0, Seq::empty(), 0);
        let kept = sift_from(blocks, offset, end, allow_inside, 0, Seq::empty(), 0)->Ok_0.0;
        let n = FreeBlock { offset, len: block_len };
        let all = kept.push(n);
        let sorted = sort_by_offset(all);
        lemma_sorted_came_from(all);
        lemma_sort_by_offset(all);
        assert forall|k: int| 0 <= k < sorted.len() implies (#[trigger] sorted[k]).end() <= span by {
            let y = sorted[k];
            assert(all.contains(y));
            let q = choose|q: int| 0 <= q < all.len() && all[q] == y;
            if q < kept.len() {
                assert(kept.contains(y));
                let j = choose|j: int| 0 <= j < blocks.len() && blocks[j] == y;
            }
        }
        lemma_merge_from(sorted, 0, Seq::empty(), span);
        let merged = merge_from(sorted, 0, Seq::empty())->Ok_0;
        assert(all[kept.len() as int] == n);
        assert(sorted.contains(n));
        assert forall|x: int| holds(merged, x) <==> (offset <= x < offset + block_len || holds(blocks, x)) by {
            if holds(merged, x) {
                let j = choose|j: int| 0 <= j < sorted.len() && #[trigger] in_block(sorted[j], x);
                let y = sorted[j];
                assert(all.contains(y));
                let q = choose|q: int| 0 <= q < all.len() && all[q] == y;
                if q < kept.len() {
                    assert(kept.contains(y));
                    let r = choose|r: int| 0 <= r < blocks.len() && blocks[r] == y;
                    assert(in_block(blocks[r], x));
                }
            }
            if offset <= x < offset + block_len {
                let j = choose|j: int| 0 <= j < sorted.len() && sorted[j] == n;
                assert(in_block(sorted[j], x));
            }
            if holds(blocks, x) && !(offset <= x < offset + block_len) {
                let r = choose|r: int| 0 <= r < blocks.len() && in_block(#[trigger] blocks[r], x);
                assert(kept.contains(blocks[r]));
                let q = choose|q: int| 0 <= q < kept.len() && kept[q] == blocks[r];
                assert(all[q] == blocks[r]);
                assert(all.contains(blocks[r]));
                assert(sorted.contains(blocks[r]));
                let j = choose|j: int| 0 <= j < sorted.len() && sorted[j] == blocks[r];
                assert(in_block(sorted[j], x));
            }
        }
        assert forall|a: int, c: int|
            0 <= a < merged.len() && 0 <= c < merged.len() && a != c implies apart(
                #[trigger] merged[a],
                #[trigger] merged[c],
            ) by {
            if a < c {
                assert(merged[a].end() < merged[c].offset);
            } else {
                assert(merged[c].end() < merged[a].offset);
            }
        }
    }
}

} // verus!
