//! Pushing registers and popping them back restores them: the Thumb
//! PUSH/POP pair and the A32 `STMDB sp!`/`LDMIA sp!` pair, as the
//! instruction semantics describe them.
use crate::cpu_model::{bit_count, CpuView};
use crate::md5_service::lemma_accessible_part;
use crate::memory::{
    lemma_stored_accessible, lemma_stored_layout, lemma_write_then_read_u32,
    lemma_write_u32_keeps_other_words, u32_bytes, Access, MemView,
};
use vstd::prelude::*;

verus! {

/// Bit `r` of `list` is set.
pub open spec fn in_list(list: u32, r: int) -> bool {
    list & (1u32 << (r as u32)) != 0
}

proof fn lemma_bit_test(list: u32, r: u32)
    requires
        r < 32,
    ensures
        (list & (1u32 << r) != 0) == ((list >> r) & 1 == 1),
{
    assert((list & (1u32 << r) != 0) == ((list >> r) & 1 == 1)) by (bit_vector)
        requires
            r < 32,
    ;
}

proof fn lemma_count_step(list: u32, r: int)
    requires
        0 <= r < 32,
    ensures
        bit_count(list, (r + 1) as nat) == bit_count(list, r as nat) + (if in_list(list, r) {
            1nat
        } else {
            0nat
        }),
{
    lemma_bit_test(list, r as u32);
    assert(((r + 1) as nat - 1) as u32 == r as u32);
}

proof fn lemma_count_grows(list: u32, r: int, s: int)
    requires
        0 <= r <= s <= 32,
    ensures
        bit_count(list, r as nat) <= bit_count(list, s as nat),
    decreases s - r,
{
    if r < s {
        lemma_count_grows(list, r, s - 1);
        lemma_count_step(list, s - 1);
    }
}

/// Where register `r` of `list` goes in a block at `start`.
pub open spec fn slot_of(list: u32, start: int, r: int) -> int {
    start + 4 * bit_count(list, r as nat)
}

proof fn lemma_accessible_within(m: MemView, a: int, n: int, b: int, len: int, kind: Access)
    requires
        m.accessible(a, n, kind),
        a <= b,
        0 <= len,
        b + len <= a + n,
    ensures
        m.accessible(b, len, kind),
{
    lemma_accessible_part(m, a, n, kind, b - a, len);
    assert(a + (b - a) == b);
}

proof fn lemma_write_keeps_access(m: MemView, a: u32, v: u32)
    requires
        m.wf(),
        m.write_u32(a, v) is Ok,
    ensures
        m.write_u32(a, v)->Ok_0.wf(),
        forall|b: int, n: int, kind: Access| #[trigger] m.accessible(b, n, kind) ==> m.write_u32(
            a,
            v,
        )->Ok_0.accessible(b, n, kind),
{
    lemma_stored_layout(m, a as int, u32_bytes(v));
    assert forall|b: int, n: int, kind: Access| #[trigger] m.accessible(b, n, kind) implies m.write_u32(
        a,
        v,
    )->Ok_0.accessible(b, n, kind) by {
        lemma_stored_accessible(m, a as int, u32_bytes(v), b, n, kind);
    }
}

proof fn lemma_push_loop(c: CpuView, mem: MemView, list: u32, r: int, start: int)
    requires
        mem.wf(),
        0 <= r <= 8,
        c.regs.len() == 16,
        0 <= start,
        slot_of(list, start, 8) <= u32::MAX,
        mem.accessible(slot_of(list, start, r), slot_of(list, start, 8) - slot_of(list, start, r), Access::Write),
        mem.accessible(slot_of(list, start, r), slot_of(list, start, 8) - slot_of(list, start, r), Access::Read),
    ensures
        ({
            let (o, a) = c.push_loop(mem, list, r, slot_of(list, start, r) as u32);
            &&& o.fault is None
            &&& o.cpu == c
            &&& a == slot_of(list, start, 8)
            &&& o.mem.wf()
            &&& forall|i: int|
                r <= i < 8 && in_list(list, i) ==> #[trigger] o.mem.read_u32(slot_of(list, start, i) as u32)
                    == Ok::<u32, Seq<char>>(c.regs[i])
            &&& forall|x: u32|
                x + 4 <= slot_of(list, start, r) || slot_of(list, start, 8) <= x ==> #[trigger] o.mem.read_u32(x)
                    == mem.read_u32(x)
            &&& forall|b: int, n: int, kind: Access| #[trigger] mem.accessible(b, n, kind) ==> o.mem.accessible(b, n, kind)
        }),
    decreases 8 - r,
{
    lemma_count_grows(list, r, 8);
    if r < 8 {
        lemma_count_step(list, r);
        lemma_count_grows(list, r + 1, 8);
        if !in_list(list, r) {
            lemma_push_loop(c, mem, list, r + 1, start);
        } else {
            lemma_push_step(c, mem, list, r, start);
        }
    } else {
        assert(slot_of(list, start, r) == slot_of(list, start, 8));
    }
}

#[verifier::rlimit(40)]
proof fn lemma_push_step(c: CpuView, mem: MemView, list: u32, r: int, start: int)
    requires
        mem.wf(),
        0 <= r < 8,
        in_list(list, r),
        c.regs.len() == 16,
        0 <= start,
        slot_of(list, start, 8) <= u32::MAX,
        slot_of(list, start, r + 1) == slot_of(list, start, r) + 4,
        slot_of(list, start, r + 1) <= slot_of(list, start, 8),
        mem.accessible(slot_of(list, start, r), slot_of(list, start, 8) - slot_of(list, start, r), Access::Write),
        mem.accessible(slot_of(list, start, r), slot_of(list, start, 8) - slot_of(list, start, r), Access::Read),
    ensures
        ({
            let (o, a) = c.push_loop(mem, list, r, slot_of(list, start, r) as u32);
            &&& o.fault is None
            &&& o.cpu == c
            &&& a == slot_of(list, start, 8)
            &&& o.mem.wf()
            &&& forall|i: int|
                r <= i < 8 && in_list(list, i) ==> #[trigger] o.mem.read_u32(slot_of(list, start, i) as u32)
                    == Ok::<u32, Seq<char>>(c.regs[i])
            &&& forall|x: u32|
                x + 4 <= slot_of(list, start, r) || slot_of(list, start, 8) <= x ==> #[trigger] o.mem.read_u32(x)
                    == mem.read_u32(x)
            &&& forall|b: int, n: int, kind: Access| #[trigger] mem.accessible(b, n, kind) ==> o.mem.accessible(b, n, kind)
        }),
    decreases 8 - r, 0int,
{
    let a = slot_of(list, start, r);
    let top = slot_of(list, start, 8);
    let v = c.regs[r];
    lemma_accessible_within(mem, a, top - a, a, 4, Access::Write);
    lemma_accessible_within(mem, a, top - a, a, 4, Access::Read);
    lemma_accessible_within(mem, a, top - a, a + 4, top - (a + 4), Access::Write);
    lemma_accessible_within(mem, a, top - a, a + 4, top - (a + 4), Access::Read);
    let m1 = mem.write_u32(a as u32, v)->Ok_0;
    lemma_write_keeps_access(mem, a as u32, v);
    assert((a as u32).wrapping_add(4) == slot_of(list, start, r + 1) as u32);
    lemma_push_loop(c, m1, list, r + 1, start);
    let (o, e) = c.push_loop(m1, list, r + 1, slot_of(list, start, r + 1) as u32);
    assert(c.push_loop(mem, list, r, a as u32) == (o, e));
    lemma_write_then_read_u32(mem, a as u32, v);
    assert(o.mem.read_u32(a as u32) == m1.read_u32(a as u32));
    assert forall|x: u32| x + 4 <= a || top <= x implies #[trigger] o.mem.read_u32(x) == mem.read_u32(x) by {
        lemma_write_u32_keeps_other_words(mem, a as u32, v, x);
        assert(o.mem.read_u32(x) == m1.read_u32(x));
    }
    assert forall|i: int| r <= i < 8 && in_list(list, i) implies #[trigger] o.mem.read_u32(
        slot_of(list, start, i) as u32,
    ) == Ok::<u32, Seq<char>>(c.regs[i]) by {
        if i > r {
            lemma_count_grows(list, r + 1, i);
        }
    }
}

proof fn lemma_pop_loop(c: CpuView, mem: MemView, list: u32, r: int, start: int)
    requires
        mem.wf(),
        0 <= r <= 8,
        c.regs.len() == 16,
        0 <= start,
        slot_of(list, start, 8) <= u32::MAX,
        forall|i: int| r <= i < 8 && in_list(list, i) ==> #[trigger] mem.read_u32(slot_of(list, start, i) as u32) is Ok,
    ensures
        ({
            let (o, a) = c.pop_loop(mem, list, r, slot_of(list, start, r) as u32);
            &&& o.fault is None
            &&& o.mem == mem
            &&& a == slot_of(list, start, 8)
            &&& o.cpu.regs.len() == 16
            &&& forall|i: int|
                r <= i < 8 && in_list(list, i) ==> Ok::<u32, Seq<char>>(#[trigger] o.cpu.regs[i])
                    == mem.read_u32(slot_of(list, start, i) as u32)
            &&& forall|i: int|
                0 <= i < 16 && !(r <= i < 8 && in_list(list, i)) ==> #[trigger] o.cpu.regs[i] == c.regs[i]
        }),
    decreases 8 - r,
{
    lemma_count_grows(list, r, 8);
    if r < 8 {
        lemma_count_step(list, r);
        lemma_count_grows(list, r + 1, 8);
        if !in_list(list, r) {
            lemma_pop_loop(c, mem, list, r + 1, start);
        } else {
            let a = slot_of(list, start, r);
            let v = mem.read_u32(a as u32)->Ok_0;
            assert((a as u32).wrapping_add(4) == slot_of(list, start, r + 1) as u32);
            lemma_pop_loop(c.set_reg(r, v), mem, list, r + 1, start);
        }
    }
}

/// The register-list bits of a Thumb PUSH or POP: the low registers of
/// `list`, and bit 8 (LR on a PUSH, PC on a POP) when `extra` is set.
pub open spec fn thumb_list_bits(list: u8, extra: bool) -> u16 {
    (if extra {
        0x100u16
    } else {
        0u16
    }) | list as u16
}

/// A Thumb PUSH of a non-empty register list and the matching POP restore
/// the registers: the PUSH lowers the stack pointer by four bytes a register
/// (LR counted when bit 8 is set), stores the listed registers from the new
/// stack pointer up in ascending order (LR last) and changes no other
/// register; whatever happens to the other registers in between, the POP
/// from that stack pointer gives every listed low register its value from
/// before the PUSH, puts the stack pointer back, and with bit 8 branches to
/// the pushed LR as a branch with interworking does. The block below the
/// stack pointer must be readable and writable.
#[verifier::rlimit(40)]
pub proof fn lemma_thumb_push_pop_round_trip(
    c: CpuView,
    mem: MemView,
    list: u8,
    extra: bool,
    between: CpuView,
)
    requires
        mem.wf(),
        c.regs.len() == 16,
        between.regs.len() == 16,
        list != 0 || extra,
        c.regs[13] >= 4 * (bit_count(list as u32, 8) + (if extra { 1int } else { 0int })),
        mem.accessible(
            c.regs[13] - 4 * (bit_count(list as u32, 8) + (if extra { 1int } else { 0int })),
            4 * (bit_count(list as u32, 8) + (if extra { 1int } else { 0int })),
            Access::Write,
        ),
        mem.accessible(
            c.regs[13] - 4 * (bit_count(list as u32, 8) + (if extra { 1int } else { 0int })),
            4 * (bit_count(list as u32, 8) + (if extra { 1int } else { 0int })),
            Access::Read,
        ),
        between.regs[13] == c.regs[13] - 4 * (bit_count(list as u32, 8) + (if extra { 1int } else { 0int })),
    ensures
        ({
            let n = bit_count(list as u32, 8) + (if extra { 1int } else { 0int });
            let pushed = c.thumb_push_pop(mem, 0xb400u16 | thumb_list_bits(list, extra));
            let popped = between.thumb_push_pop(pushed.mem, 0xbc00u16 | thumb_list_bits(list, extra));
            &&& pushed.fault is None
            &&& pushed.cpu.regs[13] == c.regs[13] - 4 * n
            &&& forall|i: int| 0 <= i < 16 && i != 13 ==> #[trigger] pushed.cpu.regs[i] == c.regs[i]
            &&& pushed.cpu.thumb == c.thumb
            &&& forall|i: int|
                0 <= i < 8 && in_list(list as u32, i) ==> #[trigger] pushed.mem.read_u32(
                    slot_of(list as u32, c.regs[13] - 4 * n, i) as u32,
                ) == Ok::<u32, Seq<char>>(c.regs[i])
            &&& extra ==> pushed.mem.read_u32((c.regs[13] - 4) as u32) == Ok::<u32, Seq<char>>(c.regs[14])
            &&& popped.fault is None
            &&& popped.cpu.regs[13] == c.regs[13]
            &&& forall|i: int| 0 <= i < 8 && in_list(list as u32, i) ==> #[trigger] popped.cpu.regs[i] == c.regs[i]
            &&& extra ==> popped.cpu.regs[15] == between.set_pc(c.regs[14]).regs[15]
                && popped.cpu.thumb == between.set_pc(c.regs[14]).thumb
        }),
{
    reveal(CpuView::thumb_push_pop);
    let l = list as u32;
    let bits = thumb_list_bits(list, extra);
    let push = 0xb400u16 | bits;
    let pop = 0xbc00u16 | bits;
    assert(push & (1u16 << 11u16) == 0 && (push & (1u16 << 8u16) != 0) == extra && (push & 0xff) as u32 == l)
        by (bit_vector)
        requires
            push == 0xb400u16 | bits,
            bits == (if extra {
                0x100u16
            } else {
                0u16
            }) | list as u16,
            l == list as u32,
    ;
    assert(pop & (1u16 << 11u16) != 0 && (pop & (1u16 << 8u16) != 0) == extra && (pop & 0xff) as u32 == l)
        by (bit_vector)
        requires
            pop == 0xbc00u16 | bits,
            bits == (if extra {
                0x100u16
            } else {
                0u16
            }) | list as u16,
            l == list as u32,
    ;
    let b = bit_count(l, 8) as int;
    let n = b + (if extra { 1int } else { 0int });
    lemma_count_grows(l, 0, 8);
    let start = c.regs[13] - 4 * n;
    let top = start + 4 * b;
    assert(bit_count(l, 0) == 0);
    assert(slot_of(l, start, 0) == start);
    assert(slot_of(l, start, 8) == top);
    assert(n < 0x4000_0000);
    assert(c.regs[13].wrapping_sub((n * 4) as u32) == start as u32);
    assert(n > 0) by {
        if !extra && b == 0 {
            assert forall|r: int| 0 <= r < 8 implies !in_list(l, r) by {
                lemma_count_grows(l, r, r + 1);
                lemma_count_grows(l, r + 1, 8);
                lemma_count_step(l, r);
            }
            assert((l & (1u32 << 0u32)) == 0 && (l & (1u32 << 1u32)) == 0 && (l & (1u32 << 2u32)) == 0
                && (l & (1u32 << 3u32)) == 0 && (l & (1u32 << 4u32)) == 0 && (l & (1u32 << 5u32)) == 0
                && (l & (1u32 << 6u32)) == 0 && (l & (1u32 << 7u32)) == 0) by {
                assert(!in_list(l, 0));
                assert(!in_list(l, 1));
                assert(!in_list(l, 2));
                assert(!in_list(l, 3));
                assert(!in_list(l, 4));
                assert(!in_list(l, 5));
                assert(!in_list(l, 6));
                assert(!in_list(l, 7));
            }
            assert(l == 0) by (bit_vector)
                requires
                    l < 256,
                    (l & (1u32 << 0u32)) == 0 && (l & (1u32 << 1u32)) == 0 && (l & (1u32 << 2u32)) == 0
                        && (l & (1u32 << 3u32)) == 0 && (l & (1u32 << 4u32)) == 0 && (l & (1u32
                        << 5u32)) == 0 && (l & (1u32 << 6u32)) == 0 && (l & (1u32 << 7u32)) == 0,
            ;
        }
    }
    lemma_accessible_within(mem, start, 4 * n, start, 4 * b, Access::Write);
    lemma_accessible_within(mem, start, 4 * n, start, 4 * b, Access::Read);
    lemma_push_loop(c, mem, l, 0, start);
    let (o1, a1) = c.push_loop(mem, l, 0, start as u32);
    let pushed = c.thumb_push_pop(mem, push);
    if extra {
        lemma_accessible_within(mem, start, 4 * n, top, 4, Access::Write);
        lemma_accessible_within(mem, start, 4 * n, top, 4, Access::Read);
        let m2 = o1.mem.write_u32(top as u32, c.regs[14])->Ok_0;
        assert(pushed.mem == m2);
        assert(pushed.cpu == c.set_reg(13, start as u32));
        lemma_write_keeps_access(o1.mem, top as u32, c.regs[14]);
        lemma_write_then_read_u32(o1.mem, top as u32, c.regs[14]);
        assert forall|i: int| 0 <= i < 8 && in_list(l, i) implies #[trigger] m2.read_u32(
            slot_of(l, start, i) as u32,
        ) == o1.mem.read_u32(slot_of(l, start, i) as u32) by {
            lemma_count_grows(l, i + 1, 8);
            lemma_count_step(l, i);
            lemma_write_u32_keeps_other_words(o1.mem, top as u32, c.regs[14], slot_of(l, start, i) as u32);
        }
    } else {
        assert(pushed.cpu == c.set_reg(13, start as u32));
        assert(pushed.mem == o1.mem);
    }
    assert forall|i: int| 0 <= i < 8 && in_list(l, i) implies #[trigger] pushed.mem.read_u32(
        slot_of(l, start, i) as u32,
    ) is Ok by {}
    lemma_pop_loop(between, pushed.mem, l, 0, start);
    assert(between.regs[13] == start as u32);
}

/// STMDB over the registers `r .. 16` of a list without the PC, from the
/// slot of `r` up.
#[verifier::rlimit(40)]
proof fn lemma_block_store_loop(c: CpuView, mem: MemView, address: u32, list: u32, r: int, start: int)
    requires
        mem.wf(),
        0 <= r <= 16,
        c.regs.len() == 16,
        !in_list(list, 15),
        0 <= start,
        slot_of(list, start, 16) <= u32::MAX,
        mem.accessible(slot_of(list, start, r), slot_of(list, start, 16) - slot_of(list, start, r), Access::Write),
        mem.accessible(slot_of(list, start, r), slot_of(list, start, 16) - slot_of(list, start, r), Access::Read),
    ensures
        ({
            let (o, pc) = c.block_loop(mem, address, list, false, r, slot_of(list, start, r) as u32, None);
            &&& o.fault is None
            &&& o.cpu == c
            &&& pc is None
            &&& o.mem.wf()
            &&& forall|i: int|
                r <= i < 16 && in_list(list, i) ==> #[trigger] o.mem.read_u32(slot_of(list, start, i) as u32)
                    == Ok::<u32, Seq<char>>(c.regs[i])
        }),
    decreases 16 - r,
{
    lemma_count_grows(list, r, 16);
    if r < 16 {
        lemma_count_step(list, r);
        lemma_count_grows(list, r + 1, 16);
        if !in_list(list, r) {
            lemma_block_store_loop(c, mem, address, list, r + 1, start);
        } else {
            let a = slot_of(list, start, r);
            let top = slot_of(list, start, 16);
            let v = c.regs[r];
            lemma_accessible_within(mem, a, top - a, a, 4, Access::Write);
            lemma_accessible_within(mem, a, top - a, a, 4, Access::Read);
            lemma_accessible_within(mem, a, top - a, a + 4, top - (a + 4), Access::Write);
            lemma_accessible_within(mem, a, top - a, a + 4, top - (a + 4), Access::Read);
            let m1 = mem.write_u32(a as u32, v)->Ok_0;
            lemma_write_keeps_access(mem, a as u32, v);
            assert((a as u32).wrapping_add(4) == slot_of(list, start, r + 1) as u32);
            lemma_block_store_loop(c, m1, address, list, r + 1, start);
            let (o, e) = c.block_loop(m1, address, list, false, r + 1, slot_of(list, start, r + 1) as u32, None);
            assert(c.block_loop(mem, address, list, false, r, a as u32, None) == (o, e));
            lemma_write_then_read_u32(mem, a as u32, v);
            lemma_block_store_keeps(c, m1, address, list, r + 1, start, a as u32);
            assert forall|i: int| r <= i < 16 && in_list(list, i) implies #[trigger] o.mem.read_u32(
                slot_of(list, start, i) as u32,
            ) == Ok::<u32, Seq<char>>(c.regs[i]) by {
                if i > r {
                    lemma_count_grows(list, r + 1, i);
                }
            }
        }
    }
}

/// The STMDB loop from the slot of `r` leaves a word below that slot as it was.
proof fn lemma_block_store_keeps(c: CpuView, mem: MemView, address: u32, list: u32, r: int, start: int, x: u32)
    requires
        mem.wf(),
        0 <= r <= 16,
        c.regs.len() == 16,
        !in_list(list, 15),
        0 <= start,
        x + 4 <= slot_of(list, start, r),
        slot_of(list, start, 16) <= u32::MAX,
        mem.accessible(slot_of(list, start, r), slot_of(list, start, 16) - slot_of(list, start, r), Access::Write),
    ensures
        c.block_loop(mem, address, list, false, r, slot_of(list, start, r) as u32, None).0.mem.read_u32(x)
            == mem.read_u32(x),
    decreases 16 - r,
{
    lemma_count_grows(list, r, 16);
    if r < 16 {
        lemma_count_step(list, r);
        lemma_count_grows(list, r + 1, 16);
        if !in_list(list, r) {
            lemma_block_store_keeps(c, mem, address, list, r + 1, start, x);
        } else {
            let a = slot_of(list, start, r);
            let top = slot_of(list, start, 16);
            let v = c.regs[r];
            lemma_accessible_within(mem, a, top - a, a, 4, Access::Write);
            lemma_accessible_within(mem, a, top - a, a + 4, top - (a + 4), Access::Write);
            let m1 = mem.write_u32(a as u32, v)->Ok_0;
            lemma_write_keeps_access(mem, a as u32, v);
            assert((a as u32).wrapping_add(4) == slot_of(list, start, r + 1) as u32);
            lemma_block_store_keeps(c, m1, address, list, r + 1, start, x);
            lemma_write_u32_keeps_other_words(mem, a as u32, v, x);
        }
    }
}

/// LDMIA over the registers `r .. 16` of a list without the PC, from the
/// slot of `r` up.
proof fn lemma_block_load_loop(c: CpuView, mem: MemView, address: u32, list: u32, r: int, start: int)
    requires
        mem.wf(),
        0 <= r <= 16,
        c.regs.len() == 16,
        !in_list(list, 15),
        0 <= start,
        slot_of(list, start, 16) <= u32::MAX,
        forall|i: int| r <= i < 16 && in_list(list, i) ==> #[trigger] mem.read_u32(slot_of(list, start, i) as u32) is Ok,
    ensures
        ({
            let (o, pc) = c.block_loop(mem, address, list, true, r, slot_of(list, start, r) as u32, None);
            &&& o.fault is None
            &&& o.mem == mem
            &&& pc is None
            &&& o.cpu.regs.len() == 16
            &&& o.cpu.thumb == c.thumb
            &&& forall|i: int|
                r <= i < 16 && in_list(list, i) ==> Ok::<u32, Seq<char>>(#[trigger] o.cpu.regs[i])
                    == mem.read_u32(slot_of(list, start, i) as u32)
            &&& forall|i: int|
                0 <= i < 16 && !(r <= i < 16 && in_list(list, i)) ==> #[trigger] o.cpu.regs[i] == c.regs[i]
        }),
    decreases 16 - r,
{
    lemma_count_grows(list, r, 16);
    if r < 16 {
        lemma_count_step(list, r);
        lemma_count_grows(list, r + 1, 16);
        if !in_list(list, r) {
            lemma_block_load_loop(c, mem, address, list, r + 1, start);
        } else {
            let a = slot_of(list, start, r);
            let v = mem.read_u32(a as u32)->Ok_0;
            assert((a as u32).wrapping_add(4) == slot_of(list, start, r + 1) as u32);
            lemma_block_load_loop(c.set_reg(r, v), mem, address, list, r + 1, start);
        }
    }
}

/// An A32 `STMDB sp!` of a list of registers without the stack pointer and
/// the PC, and the matching `LDMIA sp!`, restore the registers: the store
/// lowers the stack pointer by four bytes a register, stores the listed
/// registers from the new stack pointer up in ascending order and changes no
/// other register; whatever happens to the other registers in between, the load
/// from that stack pointer gives every listed register its value from before
/// the store and puts the stack pointer back. The block below the stack
/// pointer must be readable and writable.
pub proof fn lemma_arm_push_pop_round_trip(
    c: CpuView,
    mem: MemView,
    list: u16,
    between: CpuView,
    store_at: u32,
    load_at: u32,
)
    requires
        mem.wf(),
        c.regs.len() == 16,
        between.regs.len() == 16,
        list != 0,
        list & 0xa000 == 0,
        c.regs[13] >= (4 * bit_count(list as u32, 16)) as int,
        mem.accessible(
            c.regs[13] - (4 * bit_count(list as u32, 16)) as int,
            (4 * bit_count(list as u32, 16)) as int,
            Access::Write,
        ),
        mem.accessible(
            c.regs[13] - (4 * bit_count(list as u32, 16)) as int,
            (4 * bit_count(list as u32, 16)) as int,
            Access::Read,
        ),
        between.regs[13] == c.regs[13] - (4 * bit_count(list as u32, 16)) as int,
    ensures
        ({
            let n = bit_count(list as u32, 16);
            let pushed = c.block_transfer(mem, 0xe92d_0000u32 | list as u32, store_at);
            let popped = between.block_transfer(pushed.mem, 0xe8bd_0000u32 | list as u32, load_at);
            &&& pushed.fault is None
            &&& pushed.cpu.regs[13] == c.regs[13] - 4 * n
            &&& forall|i: int| 0 <= i < 16 && i != 13 ==> #[trigger] pushed.cpu.regs[i] == c.regs[i]
            &&& forall|i: int|
                0 <= i < 16 && in_list(list as u32, i) ==> #[trigger] pushed.mem.read_u32(
                    slot_of(list as u32, c.regs[13] - 4 * n, i) as u32,
                ) == Ok::<u32, Seq<char>>(c.regs[i])
            &&& popped.fault is None
            &&& popped.cpu.regs[13] == c.regs[13]
            &&& forall|i: int| 0 <= i < 16 && in_list(list as u32, i) ==> #[trigger] popped.cpu.regs[i] == c.regs[i]
        }),
{
    reveal(CpuView::block_transfer);
    let l = list as u32;
    let push = 0xe92d_0000u32 | l;
    let pop = 0xe8bd_0000u32 | l;
    assert(push & (1u32 << 24u32) != 0 && push & (1u32 << 23u32) == 0 && push & (1u32 << 22u32) == 0
        && push & (1u32 << 21u32) != 0 && push & (1u32 << 20u32) == 0 && ((push >> 16u32) & 0xf) == 13
        && push & 0xffff == l) by (bit_vector)
        requires
            push == 0xe92d_0000u32 | l,
            l < 0x10000,
    ;
    assert(pop & (1u32 << 24u32) == 0 && pop & (1u32 << 23u32) != 0 && pop & (1u32 << 22u32) == 0
        && pop & (1u32 << 21u32) != 0 && pop & (1u32 << 20u32) != 0 && ((pop >> 16u32) & 0xf) == 13
        && pop & 0xffff == l) by (bit_vector)
        requires
            pop == 0xe8bd_0000u32 | l,
            l < 0x10000,
    ;
    assert(l & (1u32 << 15u32) == 0 && l & (1u32 << 13u32) == 0 && l != 0) by (bit_vector)
        requires
            l == list as u32,
            list & 0xa000 == 0,
            list != 0,
    ;
    let n = bit_count(l, 16);
    lemma_count_grows(l, 0, 16);
    let start = c.regs[13] - 4 * n;
    assert(bit_count(l, 0) == 0);
    assert(slot_of(l, start, 0) == start);
    assert(slot_of(l, start, 16) == c.regs[13]);
    assert(n < 0x4000_0000);
    assert(c.regs[13].wrapping_sub((4 * (n as u32)) as u32).wrapping_add(0) == start as u32);
    lemma_block_store_loop(c, mem, store_at, l, 0, start);
    let (o1, pc1) = c.block_loop(mem, store_at, l, false, 0, start as u32, None);
    let pushed = c.block_transfer(mem, push, store_at);
    assert(pushed.cpu == c.set_reg(13, start as u32));
    assert(pushed.mem == o1.mem);
    assert forall|i: int| 0 <= i < 16 && in_list(l, i) implies #[trigger] pushed.mem.read_u32(
        slot_of(l, start, i) as u32,
    ) is Ok by {}
    lemma_block_load_loop(between, pushed.mem, load_at, l, 0, start);
    assert(between.regs[13] == start as u32);
    assert((start as u32).wrapping_add((4 * (n as u32)) as u32) == c.regs[13]);
    assert(!in_list(l, 13));
}

} // verus!
