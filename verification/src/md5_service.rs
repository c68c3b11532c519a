//! The guest MD5 service: an 88-byte context in guest memory that holds the
//! byte count (two words), the four chaining words and the block buffer, and
//! the three calls that start, extend and finish a digest in it.
use vstd::prelude::*;
use crate::error::{Error, is_arm_fault};
use crate::md5::{append_all, concat_all, lemma_md5_any_chunks, lemma_md5_two_chunks, md5_block, md5_compress_all, md5_consume, md5_digest, Md5Context};
use crate::memory::{
    address_overflow_text, le_u32, lemma_load_part, lemma_store_then_load, lemma_stored_accessible,
    lemma_stored_concat, lemma_stored_layout, lemma_stored_nothing, lemma_store_keeps_layout,
    lemma_same_layout_facts, same_layout, store_matches, u32_bytes,
    Access, GuestAddr, GuestMemory, MemView,
};

verus! {

/// Where the block buffer starts inside a context.
pub const MD5_BUFFER_OFFSET: u32 = 24;

/// A read of `n` bytes at `base + offset`, the address computed with an
/// overflow check first.
pub open spec fn read_at(m: MemView, base: u32, offset: u32, n: nat) -> Result<Seq<u8>, Seq<char>> {
    if base + offset > u32::MAX {
        Err(address_overflow_text(base, offset))
    } else {
        m.load((base + offset) as u32, n, Access::Read)
    }
}

pub open spec fn word_at(m: MemView, base: u32, offset: u32) -> Result<u32, Seq<char>> {
    match read_at(m, base, offset, 4) {
        Ok(b) => Ok(le_u32(b)),
        Err(t) => Err(t),
    }
}

/// The byte count of the context at `base`: its low word, then its high word.
pub open spec fn total_at(m: MemView, base: u32) -> Result<u64, Seq<char>> {
    match word_at(m, base, 0) {
        Err(t) => Err(t),
        Ok(lo) => match word_at(m, base, 4) {
            Err(t) => Err(t),
            Ok(hi) => Ok(((lo as u64) | ((hi as u64) << 32u64)) as u64),
        },
    }
}

/// The chaining words of the context at `base`, read in order.
pub open spec fn state_at(m: MemView, base: u32) -> Result<Seq<u32>, Seq<char>> {
    match word_at(m, base, 8) {
        Err(t) => Err(t),
        Ok(a) => match word_at(m, base, 12) {
            Err(t) => Err(t),
            Ok(b) => match word_at(m, base, 16) {
                Err(t) => Err(t),
                Ok(c) => match word_at(m, base, 20) {
                    Err(t) => Err(t),
                    Ok(d) => Ok(seq![a, b, c, d]),
                },
            },
        },
    }
}

/// The block buffer of the context at `base`.
pub open spec fn buffer_at(m: MemView, base: u32) -> Result<Seq<u8>, Seq<char>> {
    read_at(m, base, MD5_BUFFER_OFFSET, 64)
}

/// A store of `bytes` at `base + offset`, the address computed with an
/// overflow check first.
pub open spec fn write_at(m: MemView, base: u32, offset: u32, bytes: Seq<u8>) -> Result<
    MemView,
    Seq<char>,
> {
    if base + offset > u32::MAX {
        Err(address_overflow_text(base, offset))
    } else {
        m.store((base + offset) as u32, bytes)
    }
}

/// The stores of `pieces`, in order, up to the first that is refused: the
/// address space they leave and the refusal, if any.
pub open spec fn write_all_at(m: MemView, base: u32, pieces: Seq<(u32, Seq<u8>)>) -> (
    MemView,
    Option<Seq<char>>,
)
    decreases pieces.len(),
{
    if pieces.len() == 0 {
        (m, None)
    } else {
        match write_at(m, base, pieces[0].0, pieces[0].1) {
            Err(t) => (m, Some(t)),
            Ok(m2) => write_all_at(m2, base, pieces.drop_first()),
        }
    }
}

/// The stores that lay a context out at its base: the byte count's two
/// words, the four chaining words and the block buffer.
pub open spec fn context_pieces(c: Md5Context) -> Seq<(u32, Seq<u8>)> {
    seq![
        (0u32, u32_bytes(c.total as u32)),
        (4u32, u32_bytes((c.total >> 32u64) as u32)),
        (8u32, u32_bytes(c.state[0])),
        (12u32, u32_bytes(c.state[1])),
        (16u32, u32_bytes(c.state[2])),
        (20u32, u32_bytes(c.state[3])),
        (24u32, c.buffer),
    ]
}

/// `r` and `after` are what the stores `outcome` describes produce.
pub open spec fn writes_match(
    r: Result<(), Error>,
    after: MemView,
    outcome: (MemView, Option<Seq<char>>),
) -> bool {
    &&& after == outcome.0
    &&& match outcome.1 {
        None => r is Ok,
        Some(t) => is_arm_fault(r, t),
    }
}

fn read_word_at(memory: &GuestMemory, base: GuestAddr, offset: u32) -> (r: Result<u32, Error>)
    requires
        memory.wf(),
    ensures
        match word_at(memory@, base.0, offset) {
            Ok(v) => r == Ok::<u32, Error>(v),
            Err(t) => is_arm_fault(r, t),
        },
{
    let address = match base.checked_add(offset) {
        Ok(a) => a,
        Err(e) => return Err(e),
    };
    memory.read_u32(address)
}

fn write_piece(memory: &mut GuestMemory, base: GuestAddr, offset: u32, bytes: &[u8]) -> (r: Result<
    (),
    Error,
>)
    requires
        old(memory).wf(),
    ensures
        final(memory).wf(),
        match write_at(old(memory)@, base.0, offset, bytes@) {
            Ok(m) => r is Ok && final(memory)@ == m,
            Err(t) => is_arm_fault(r, t) && final(memory)@ == old(memory)@,
        },
{
    let address = match base.checked_add(offset) {
        Ok(a) => a,
        Err(e) => return Err(e),
    };
    memory.write(address, bytes)
}

/// The four bytes of word `j` of `d`.
spec fn word_chunk(d: Seq<u8>, j: int) -> Seq<u8> {
    d.subrange(4 * j, 4 * j + 4)
}

fn word_bytes(v: u32) -> (b: Vec<u8>)
    ensures
        b@ == u32_bytes(v),
{
    let b = vec![
        (v & 0xff) as u8,
        ((v >> 8u32) & 0xff) as u8,
        ((v >> 16u32) & 0xff) as u8,
        ((v >> 24u32) & 0xff) as u8,
    ];
    assert(b@ =~= u32_bytes(v));
    b
}

/// Lays a context out at `base`, store by store; a refused store ends the
/// layout and is reported.
#[verifier::rlimit(40)]
fn write_context(
    memory: &mut GuestMemory,
    base: GuestAddr,
    total: u64,
    state: &[u32; 4],
    buffer: &[u8; 64],
) -> (r: Result<(), Error>)
    requires
        old(memory).wf(),
    ensures
        final(memory).wf(),
        writes_match(
            r,
            final(memory)@,
            write_all_at(
                old(memory)@,
                base.0,
                context_pieces(Md5Context { total, state: state@, buffer: buffer@ }),
            ),
        ),
{
    let ghost pieces = context_pieces(Md5Context { total, state: state@, buffer: buffer@ });
    let ghost m0 = memory@;
    proof {
        reveal_with_fuel(write_all_at, 2);
    }
    assert(pieces[0] == (0u32, u32_bytes(total as u32)));
    match write_piece(memory, base, 0, word_bytes(total as u32).as_slice()) {
        Ok(()) => {},
        Err(e) => return Err(e),
    }
    assert(write_all_at(m0, base.0, pieces) == write_all_at(memory@, base.0, pieces.skip(1))) by {
        assert(pieces.drop_first() =~= pieces.skip(1));
    }
    let ghost m1 = memory@;
    assert(pieces.skip(1)[0] == (4u32, u32_bytes((total >> 32u64) as u32)));
    match write_piece(memory, base, 4, word_bytes((total >> 32u64) as u32).as_slice()) {
        Ok(()) => {},
        Err(e) => return Err(e),
    }
    assert(write_all_at(m1, base.0, pieces.skip(1)) == write_all_at(memory@, base.0, pieces.skip(2))) by {
        assert(pieces.skip(1).drop_first() =~= pieces.skip(2));
    }
    let mut i: usize = 0;
    while i < 4
        invariant
            0 <= i <= 4,
            memory.wf(),
            pieces == context_pieces(Md5Context { total, state: state@, buffer: buffer@ }),
            m0 == old(memory)@,
            write_all_at(m0, base.0, pieces) == write_all_at(memory@, base.0, pieces.skip(2 + i)),
        decreases 4 - i,
    {
        let ghost mi = memory@;
        assert(pieces.skip(2 + i)[0] == ((8 + 4 * i) as u32, u32_bytes(state@[i as int])));
        match write_piece(memory, base, 8 + 4 * i as u32, word_bytes(state[i]).as_slice()) {
            Ok(()) => {},
            Err(e) => return Err(e),
        }
        assert(write_all_at(mi, base.0, pieces.skip(2 + i)) == write_all_at(
            memory@,
            base.0,
            pieces.skip(3 + i),
        )) by {
            assert(pieces.skip(2 + i).drop_first() =~= pieces.skip(3 + i));
        }
        i += 1;
    }
    let ghost m6 = memory@;
    assert(pieces.skip(6)[0] == (24u32, buffer@));
    match write_piece(memory, base, MD5_BUFFER_OFFSET, buffer.as_slice()) {
        Ok(()) => {},
        Err(e) => return Err(e),
    }
    assert(write_all_at(m6, base.0, pieces.skip(6)) == write_all_at(memory@, base.0, pieces.skip(7))) by {
        assert(pieces.skip(6).drop_first() =~= pieces.skip(7));
    }
    assert(pieces.skip(7).len() == 0);
    Ok(())
}

fn read_total(memory: &GuestMemory, base: GuestAddr) -> (r: Result<u64, Error>)
    requires
        memory.wf(),
    ensures
        match total_at(memory@, base.0) {
            Ok(v) => r == Ok::<u64, Error>(v),
            Err(t) => is_arm_fault(r, t),
        },
{
    let lo = match read_word_at(memory, base, 0) {
        Ok(v) => v,
        Err(e) => return Err(e),
    };
    let hi = match read_word_at(memory, base, 4) {
        Ok(v) => v,
        Err(e) => return Err(e),
    };
    Ok((lo as u64) | ((hi as u64) << 32u64))
}

fn read_state(memory: &GuestMemory, base: GuestAddr) -> (r: Result<[u32; 4], Error>)
    requires
        memory.wf(),
    ensures
        match state_at(memory@, base.0) {
            Ok(s) => r matches Ok(v) && v@ == s,
            Err(t) => is_arm_fault(r, t),
        },
{
    let a = match read_word_at(memory, base, 8) {
        Ok(v) => v,
        Err(e) => return Err(e),
    };
    let b = match read_word_at(memory, base, 12) {
        Ok(v) => v,
        Err(e) => return Err(e),
    };
    let c = match read_word_at(memory, base, 16) {
        Ok(v) => v,
        Err(e) => return Err(e),
    };
    let d = match read_word_at(memory, base, 20) {
        Ok(v) => v,
        Err(e) => return Err(e),
    };
    let state = [a, b, c, d];
    assert(state@ =~= seq![a, b, c, d]);
    Ok(state)
}

fn read_buffer(memory: &GuestMemory, base: GuestAddr) -> (r: Result<[u8; 64], Error>)
    requires
        memory.wf(),
    ensures
        match buffer_at(memory@, base.0) {
            Ok(b) => r matches Ok(v) && v@ == b,
            Err(t) => is_arm_fault(r, t),
        },
{
    let address = match base.checked_add(MD5_BUFFER_OFFSET) {
        Ok(a) => a,
        Err(e) => return Err(e),
    };
    let bytes = match memory.read(address, 64) {
        Ok(b) => b,
        Err(e) => return Err(e),
    };
    let mut buffer = [0u8; 64];
    let mut i: usize = 0;
    while i < 64
        invariant
            0 <= i <= 64,
            bytes@.len() == 64,
            forall|j: int| 0 <= j < i ==> buffer@[j] == bytes@[j],
        decreases 64 - i,
    {
        buffer[i] = bytes[i];
        i += 1;
    }
    assert(buffer@ =~= bytes@);
    Ok(buffer)
}

/// What `md5_init` does to a context at `context`.
pub open spec fn md5_init_matches(r: Result<(), Error>, before: MemView, after: MemView, context: u32) -> bool {
    writes_match(r, after, write_all_at(before, context, context_pieces(Md5Context::initial())))
}

/// What `md5_append` does to a context at `context` with `input`.
pub open spec fn md5_append_matches(
    r: Result<(), Error>,
    before: MemView,
    after: MemView,
    context: u32,
    input: Seq<u8>,
) -> bool {
    match total_at(before, context) {
        Err(t) => is_arm_fault(r, t) && after == before,
        Ok(total) => if total + input.len() > u64::MAX {
            r matches Err(Error::Abi(m)) && m@ == "MD5 byte count overflow"@ && after
                == before
        } else {
            match state_at(before, context) {
                Err(t) => is_arm_fault(r, t) && after == before,
                Ok(state) => match buffer_at(before, context) {
                    Err(t) => is_arm_fault(r, t) && after == before,
                    Ok(buffer) => writes_match(
                        r,
                        after,
                        write_all_at(
                            before,
                            context,
                            context_pieces(
                                (Md5Context { total, state, buffer }).append(input)->Some_0,
                            ),
                        ),
                    ),
                },
            }
        },
    }
}

/// What `md5_finish` does to a context at `context`, writing the digest at
/// `output`.
pub open spec fn md5_finish_matches(
    r: Result<(), Error>,
    before: MemView,
    after: MemView,
    context: u32,
    output: u32,
) -> bool {
    match total_at(before, context) {
        Err(t) => is_arm_fault(r, t) && after == before,
        Ok(total) => match state_at(before, context) {
            Err(t) => is_arm_fault(r, t) && after == before,
            Ok(state) => match buffer_at(before, context) {
                Err(t) => is_arm_fault(r, t) && after == before,
                Ok(buffer) => store_matches(
                    r,
                    before,
                    after,
                    before.store(
                        output,
                        (Md5Context { total, state, buffer }).digest(),
                    ),
                ),
            },
        },
    }
}

/// Starts a digest: lays a fresh context out at `context`.
pub fn md5_init(memory: &mut GuestMemory, context: GuestAddr) -> (r: Result<(), Error>)
    requires
        old(memory).wf(),
    ensures
        final(memory).wf(),
        md5_init_matches(r, old(memory)@, final(memory)@, context.0),
{
    let state: [u32; 4] = [0x6745_2301, 0xefcd_ab89, 0x98ba_dcfe, 0x1032_5476];
    let buffer = [0u8; 64];
    assert(state@ =~= Md5Context::initial().state);
    assert(buffer@ =~= Md5Context::initial().buffer);
    write_context(memory, context, 0, &state, &buffer)
}

/// Appends `input` to the digest held by the context at `context`.  The
/// context is read first (a fault leaves memory as it was), a byte count that
/// would pass `u64::MAX` is refused, and the extended context is written back.
pub fn md5_append(memory: &mut GuestMemory, context: GuestAddr, input: &[u8]) -> (r: Result<
    (),
    Error,
>)
    requires
        old(memory).wf(),
    ensures
        final(memory).wf(),
        md5_append_matches(r, old(memory)@, final(memory)@, context.0, input@),
{
    let total = match read_total(memory, context) {
        Ok(t) => t,
        Err(e) => return Err(e),
    };
    let next_total = match total.checked_add(input.len() as u64) {
        Some(t) => t,
        None => return Err(Error::Abi(String::from_str("MD5 byte count overflow"))),
    };
    let mut state = match read_state(memory, context) {
        Ok(s) => s,
        Err(e) => return Err(e),
    };
    let mut buffer = match read_buffer(memory, context) {
        Ok(b) => b,
        Err(e) => return Err(e),
    };
    let ghost before = Md5Context { total, state: state@, buffer: buffer@ };
    md5_consume(&mut state, &mut buffer, (total % 64) as usize, input);
    assert(Md5Context { total: next_total, state: state@, buffer: buffer@ } == before.append(
        input@,
    )->Some_0);
    write_context(memory, context, next_total, &state, &buffer)
}

/// Finishes the digest held by the context at `context` and writes its
/// sixteen bytes at `output`.  The context is read first; a fault leaves
/// memory as it was.
pub fn md5_finish(memory: &mut GuestMemory, context: GuestAddr, output: GuestAddr) -> (r: Result<
    (),
    Error,
>)
    requires
        old(memory).wf(),
    ensures
        final(memory).wf(),
        md5_finish_matches(r, old(memory)@, final(memory)@, context.0, output.0),
{
    let total = match read_total(memory, context) {
        Ok(t) => t,
        Err(e) => return Err(e),
    };
    let mut state = match read_state(memory, context) {
        Ok(s) => s,
        Err(e) => return Err(e),
    };
    let mut buffer = match read_buffer(memory, context) {
        Ok(b) => b,
        Err(e) => return Err(e),
    };
    let ghost c = Md5Context { total, state: state@, buffer: buffer@ };
    let buffered = (total % 64) as usize;
    let padding_len: usize = if buffered < 56 {
        56 - buffered
    } else {
        120 - buffered
    };
    let bits = total.wrapping_mul(8);
    let mut padding: Vec<u8> = Vec::new();
    padding.push(0x80);
    let mut i: usize = 1;
    while i < padding_len
        invariant
            1 <= i <= padding_len,
            padding_len <= 120,
            padding@ == seq![0x80u8] + Seq::new((i - 1) as nat, |j: int| 0u8),
        decreases padding_len - i,
    {
        padding.push(0);
        proof {
            assert(padding@ =~= seq![0x80u8] + Seq::new(i as nat, |j: int| 0u8));
        }
        i += 1;
    }
    let low = word_bytes(bits as u32);
    let high = word_bytes((bits >> 32u64) as u32);
    let mut k: usize = 0;
    let ghost prefix = padding@;
    while k < 4
        invariant
            0 <= k <= 4,
            low@.len() == 4,
            padding@ == prefix + low@.take(k as int),
        decreases 4 - k,
    {
        padding.push(low[k]);
        proof {
            assert(padding@ =~= prefix + low@.take(k + 1));
        }
        k += 1;
    }
    let ghost prefix2 = padding@;
    k = 0;
    while k < 4
        invariant
            0 <= k <= 4,
            high@.len() == 4,
            padding@ == prefix2 + high@.take(k as int),
        decreases 4 - k,
    {
        padding.push(high[k]);
        proof {
            assert(padding@ =~= prefix2 + high@.take(k + 1));
        }
        k += 1;
    }
    assert(padding@ =~= crate::md5::md5_padding(total)) by {
        assert(low@.take(4) =~= low@);
        assert(high@.take(4) =~= high@);
    }
    md5_consume(&mut state, &mut buffer, buffered, padding.as_slice());
    let mut digest: Vec<u8> = Vec::new();
    let mut w: usize = 0;
    while w < 4
        invariant
            0 <= w <= 4,
            digest@.len() == 4 * w,
            forall|j: int| 0 <= j < w ==> #[trigger] word_chunk(digest@, j) == u32_bytes(state@[j]),
        decreases 4 - w,
    {
        let bytes = word_bytes(state[w]);
        let ghost before = digest@;
        let mut b: usize = 0;
        while b < 4
            invariant
                0 <= b <= 4,
                bytes@.len() == 4,
                digest@ == before + bytes@.take(b as int),
            decreases 4 - b,
        {
            digest.push(bytes[b]);
            proof {
                assert(digest@ =~= before + bytes@.take(b + 1));
            }
            b += 1;
        }
        proof {
            assert(bytes@.take(4) =~= bytes@);
            assert forall|j: int| 0 <= j < w + 1 implies #[trigger] word_chunk(digest@, j)
                == u32_bytes(state@[j]) by {
                if j < w {
                    assert(word_chunk(digest@, j) =~= word_chunk(before, j));
                } else {
                    assert(word_chunk(digest@, j) =~= bytes@);
                }
            }
        }
        w += 1;
    }
    assert(digest@ =~= c.digest()) by {
        assert(word_chunk(digest@, 0) == u32_bytes(state@[0]));
        assert(word_chunk(digest@, 1) == u32_bytes(state@[1]));
        assert(word_chunk(digest@, 2) == u32_bytes(state@[2]));
        assert(word_chunk(digest@, 3) == u32_bytes(state@[3]));
    }
    memory.write(output, digest.as_slice())
}

// ---------------------------------------------------------------------------
// Reading back what was laid out
/// Each piece is non-empty and starts where the one before it ends, the
/// first at `start`.
pub open spec fn pieces_consecutive(pieces: Seq<(u32, Seq<u8>)>, start: int) -> bool
    decreases pieces.len(),
{
    pieces.len() == 0 || (pieces[0].0 == start && pieces[0].1.len() > 0 && pieces_consecutive(
        pieces.drop_first(),
        start + pieces[0].1.len(),
    ))
}

/// The bytes of all pieces, joined.
pub open spec fn pieces_image(pieces: Seq<(u32, Seq<u8>)>) -> Seq<u8>
    decreases pieces.len(),
{
    if pieces.len() == 0 {
        Seq::empty()
    } else {
        pieces[0].1 + pieces_image(pieces.drop_first())
    }
}

/// The 88 bytes of a context.
pub open spec fn context_image(c: Md5Context) -> Seq<u8> {
    u32_bytes(c.total as u32) + u32_bytes((c.total >> 32u64) as u32) + u32_bytes(c.state[0])
        + u32_bytes(c.state[1]) + u32_bytes(c.state[2]) + u32_bytes(c.state[3]) + c.buffer
}

pub(crate) proof fn lemma_accessible_part(m: MemView, a: int, n: int, kind: Access, k: int, j: int)
    requires
        m.accessible(a, n, kind),
        0 <= k,
        0 <= j,
        k + j <= n,
    ensures
        m.accessible(a + k, j, kind),
{
    assert forall|t: int| 0 <= t < j implies #[trigger] m.mapped(a + k + t) && allows_kind(
        m,
        a + k + t,
        kind,
    ) by {
        assert(m.mapped(a + (k + t)));
        assert(a + k + t == a + (k + t));
    }
}

spec fn allows_kind(m: MemView, x: int, kind: Access) -> bool {
    crate::memory::allows(m.perms_at(x), kind)
}

/// Consecutive stores of non-empty pieces, all inside a writable range,
/// store the joined bytes.
proof fn lemma_write_pieces(m: MemView, base: u32, pieces: Seq<(u32, Seq<u8>)>, prefix: Seq<u8>)
    requires
        m.wf(),
        pieces_consecutive(pieces, prefix.len() as int),
        base + prefix.len() + pieces_image(pieces).len() <= 0x1_0000_0000,
        m.accessible(base as int, (prefix.len() + pieces_image(pieces).len()) as int, Access::Write),
    ensures
        write_all_at(m.stored(base as int, prefix), base, pieces) == (
            m.stored(base as int, prefix + pieces_image(pieces)),
            None::<Seq<char>>,
        ),
    decreases pieces.len(),
{
    if pieces.len() == 0 {
        assert(prefix + pieces_image(pieces) =~= prefix);
    } else {
        let p0 = pieces[0];
        let rest = pieces.drop_first();
        let mp = m.stored(base as int, prefix);
        lemma_accessible_part(
            m,
            base as int,
            (prefix.len() + pieces_image(pieces).len()) as int,
            Access::Write,
            prefix.len() as int,
            p0.1.len() as int,
        );
        lemma_stored_accessible(m, base as int, prefix, base + prefix.len(), p0.1.len() as int, Access::Write);
        assert(base + p0.0 <= u32::MAX);
        assert(mp.store((base + p0.0) as u32, p0.1) == Ok::<MemView, Seq<char>>(
            mp.stored(base + prefix.len(), p0.1),
        ));
        lemma_stored_concat(m, base as int, prefix, p0.1);
        lemma_stored_layout(m, base as int, prefix);
        assert(prefix + p0.1 + pieces_image(rest) =~= prefix + pieces_image(pieces));
        lemma_write_pieces(m, base, rest, prefix + p0.1);
    }
}

proof fn lemma_le_u32_round_trip(v: u32)
    ensures
        le_u32(u32_bytes(v)) == v,
{
    assert(le_u32(u32_bytes(v)) == v) by (bit_vector);
}

proof fn lemma_word_back(m: MemView, base: u32, image: Seq<u8>, k: nat, v: u32)
    requires
        m.load(base, 88, Access::Read) == Ok::<Seq<u8>, Seq<char>>(image),
        k + 4 <= 88,
        image.subrange(k as int, (k + 4) as int) == u32_bytes(v),
    ensures
        word_at(m, base, k as u32) == Ok::<u32, Seq<char>>(v),
{
    lemma_load_part(m, base, 88, Access::Read, k, 4);
    lemma_le_u32_round_trip(v);
}

#[verifier::rlimit(30)]
proof fn lemma_context_fields(m: MemView, base: u32, c: Md5Context, image: Seq<u8>)
    requires
        image == context_image(c),
        c.state.len() == 4,
        c.buffer.len() == 64,
        m.load(base, 88, Access::Read) == Ok::<Seq<u8>, Seq<char>>(image),
    ensures
        total_at(m, base) == Ok::<u64, Seq<char>>(c.total),
        state_at(m, base) == Ok::<Seq<u32>, Seq<char>>(c.state),
        buffer_at(m, base) == Ok::<Seq<u8>, Seq<char>>(c.buffer),
{
    assert(image.subrange(0, 4) =~= u32_bytes(c.total as u32));
    assert(image.subrange(4, 8) =~= u32_bytes((c.total >> 32u64) as u32));
    assert(image.subrange(8, 12) =~= u32_bytes(c.state[0]));
    assert(image.subrange(12, 16) =~= u32_bytes(c.state[1]));
    assert(image.subrange(16, 20) =~= u32_bytes(c.state[2]));
    assert(image.subrange(20, 24) =~= u32_bytes(c.state[3]));
    assert(image.subrange(24, 88) =~= c.buffer);
    lemma_word_back(m, base, image, 0, c.total as u32);
    lemma_word_back(m, base, image, 4, (c.total >> 32u64) as u32);
    lemma_word_back(m, base, image, 8, c.state[0]);
    lemma_word_back(m, base, image, 12, c.state[1]);
    lemma_word_back(m, base, image, 16, c.state[2]);
    lemma_word_back(m, base, image, 20, c.state[3]);
    lemma_load_part(m, base, 88, Access::Read, 24, 64);
    let total = c.total;
    assert((((total as u32) as u64) | ((((total >> 32u64) as u32) as u64) << 32u64)) == total)
        by (bit_vector);
    assert(seq![c.state[0], c.state[1], c.state[2], c.state[3]] =~= c.state);
}

/// What a context layout writes reads back as the same context, provided
/// the 88 bytes at `base` may be both written and read.
pub proof fn lemma_context_round_trip(m: MemView, base: u32, c: Md5Context)
    requires
        m.wf(),
        c.state.len() == 4,
        c.buffer.len() == 64,
        base + 88 <= 0x1_0000_0000,
        m.accessible(base as int, 88, Access::Write),
        m.accessible(base as int, 88, Access::Read),
    ensures
        write_all_at(m, base, context_pieces(c)).1 is None,
        write_all_at(m, base, context_pieces(c)).0.wf(),
        write_all_at(m, base, context_pieces(c)).0.accessible(base as int, 88, Access::Write),
        write_all_at(m, base, context_pieces(c)).0.accessible(base as int, 88, Access::Read),
        total_at(write_all_at(m, base, context_pieces(c)).0, base) == Ok::<u64, Seq<char>>(c.total),
        state_at(write_all_at(m, base, context_pieces(c)).0, base) == Ok::<Seq<u32>, Seq<char>>(
            c.state,
        ),
        buffer_at(write_all_at(m, base, context_pieces(c)).0, base) == Ok::<Seq<u8>, Seq<char>>(
            c.buffer,
        ),
{
    let pieces = context_pieces(c);
    let image = context_image(c);
    reveal_with_fuel(pieces_consecutive, 8);
    reveal_with_fuel(pieces_image, 8);
    assert(pieces_consecutive(pieces, 0));
    assert(pieces_image(pieces) =~= image);
    lemma_stored_nothing(m, base as int);
    assert(Seq::<u8>::empty() + image =~= image);
    lemma_write_pieces(m, base, pieces, Seq::empty());
    let m2 = m.stored(base as int, image);
    assert(write_all_at(m, base, pieces) == (m2, None::<Seq<char>>));
    lemma_stored_layout(m, base as int, image);
    lemma_stored_accessible(m, base as int, image, base as int, 88, Access::Write);
    lemma_stored_accessible(m, base as int, image, base as int, 88, Access::Read);
    lemma_store_then_load(m, base, image, Access::Read);
    assert(m.store(base, image) == Ok::<MemView, Seq<char>>(m2));
    assert(m2.load(base, 88, Access::Read) == Ok::<Seq<u8>, Seq<char>>(image));
    lemma_context_fields(m2, base, c, image);
}

proof fn lemma_compress_all_len(state: Seq<u32>, data: Seq<u8>)
    requires
        state.len() == 4,
    ensures
        md5_compress_all(state, data).len() == 4,
    decreases data.len(),
{
    if data.len() >= 64 {
        assert(md5_block(state, data.take(64)).len() == 4);
        lemma_compress_all_len(md5_block(state, data.take(64)), data.skip(64));
    }
}

/// Laying out the initial context, then the context after `first`, then the
/// one after `second` (what `md5_init` and two `md5_append` calls write when
/// they succeed) leaves a context that reads back as the stream of both
/// chunks; finishing it gives the MD5 digest of `first + second`.
pub proof fn lemma_md5_service_digest(m0: MemView, base: u32, first: Seq<u8>, second: Seq<u8>)
    requires
        m0.wf(),
        base + 88 <= 0x1_0000_0000,
        m0.accessible(base as int, 88, Access::Write),
        m0.accessible(base as int, 88, Access::Read),
        first.len() + second.len() <= u64::MAX,
    ensures
        ({
            let m1 = write_all_at(m0, base, context_pieces(Md5Context::initial()));
            let c1 = Md5Context::initial().append(first)->Some_0;
            let m2 = write_all_at(m1.0, base, context_pieces(c1));
            let c2 = c1.append(second)->Some_0;
            let m3 = write_all_at(m2.0, base, context_pieces(c2));
            &&& m1.1 is None && m2.1 is None && m3.1 is None
            &&& total_at(m1.0, base) == Ok::<u64, Seq<char>>(0)
            &&& total_at(m3.0, base) == Ok::<u64, Seq<char>>(c2.total)
            &&& state_at(m3.0, base) == Ok::<Seq<u32>, Seq<char>>(c2.state)
            &&& buffer_at(m3.0, base) == Ok::<Seq<u8>, Seq<char>>(c2.buffer)
            &&& c2.digest() == md5_digest(first + second)
        }),
{
    let c0 = Md5Context::initial();
    lemma_md5_two_chunks(first, second);
    let c1 = c0.append(first)->Some_0;
    let c2 = c1.append(second)->Some_0;
    lemma_compress_all_len(c0.state, c0.pending() + first);
    lemma_compress_all_len(c1.state, c1.pending() + second);
    lemma_context_round_trip(m0, base, c0);
    let m1 = write_all_at(m0, base, context_pieces(c0)).0;
    lemma_context_round_trip(m1, base, c1);
    let m2 = write_all_at(m1, base, context_pieces(c1)).0;
    lemma_context_round_trip(m2, base, c2);
}

/// The memory after `md5_init` and one successful `md5_append` per chunk
/// have written the context at `base`.
pub open spec fn contexts_written(m0: MemView, base: u32, chunks: Seq<Seq<u8>>) -> MemView
    decreases chunks.len(),
{
    if chunks.len() == 0 {
        write_all_at(m0, base, context_pieces(Md5Context::initial())).0
    } else {
        write_all_at(
            contexts_written(m0, base, chunks.drop_last()),
            base,
            context_pieces(append_all(Md5Context::initial(), chunks)->Some_0),
        ).0
    }
}

/// However a message is split into appends: after `md5_init` and one
/// append per piece, every write succeeds, the context at `base` reads back
/// as the context that took the pieces in order, and finishing it gives the
/// MD5 digest of the whole message.
pub proof fn lemma_md5_service_any_chunks(m0: MemView, base: u32, chunks: Seq<Seq<u8>>)
    requires
        m0.wf(),
        base + 88 <= 0x1_0000_0000,
        m0.accessible(base as int, 88, Access::Write),
        m0.accessible(base as int, 88, Access::Read),
        concat_all(chunks).len() <= u64::MAX,
    ensures
        ({
            let m = contexts_written(m0, base, chunks);
            let c = append_all(Md5Context::initial(), chunks)->Some_0;
            &&& append_all(Md5Context::initial(), chunks) is Some
            &&& m.wf()
            &&& m.accessible(base as int, 88, Access::Write)
            &&& m.accessible(base as int, 88, Access::Read)
            &&& total_at(m, base) == Ok::<u64, Seq<char>>(c.total)
            &&& state_at(m, base) == Ok::<Seq<u32>, Seq<char>>(c.state)
            &&& buffer_at(m, base) == Ok::<Seq<u8>, Seq<char>>(c.buffer)
            &&& c.digest() == md5_digest(concat_all(chunks))
        }),
    decreases chunks.len(),
{
    lemma_md5_any_chunks(chunks);
    let c = append_all(Md5Context::initial(), chunks)->Some_0;
    lemma_compress_all_len(crate::md5::md5_initial_state(), concat_all(chunks));
    if chunks.len() == 0 {
        lemma_context_round_trip(m0, base, c);
    } else {
        assert(concat_all(chunks) == concat_all(chunks.drop_last()) + chunks.last());
        lemma_md5_service_any_chunks(m0, base, chunks.drop_last());
        lemma_context_round_trip(contexts_written(m0, base, chunks.drop_last()), base, c);
    }
}

proof fn lemma_write_all_at_layout(m: MemView, base: u32, pieces: Seq<(u32, Seq<u8>)>)
    ensures
        same_layout(m, write_all_at(m, base, pieces).0),
    decreases pieces.len(),
{
    lemma_same_layout_facts();
    lemma_store_keeps_layout();
    if pieces.len() > 0 {
        match write_at(m, base, pieces[0].0, pieces[0].1) {
            Err(t) => {},
            Ok(m2) => {
                lemma_write_all_at_layout(m2, base, pieces.drop_first());
                assert(same_layout(m, m2));
            },
        }
    }
}

proof fn lemma_contexts_written_layout(m0: MemView, base: u32, chunks: Seq<Seq<u8>>)
    ensures
        same_layout(m0, contexts_written(m0, base, chunks)),
    decreases chunks.len(),
{
    lemma_same_layout_facts();
    if chunks.len() == 0 {
        lemma_write_all_at_layout(m0, base, context_pieces(Md5Context::initial()));
    } else {
        lemma_contexts_written_layout(m0, base, chunks.drop_last());
        lemma_write_all_at_layout(
            contexts_written(m0, base, chunks.drop_last()),
            base,
            context_pieces(append_all(Md5Context::initial(), chunks)->Some_0),
        );
    }
}

proof fn lemma_layout_accessible(a: MemView, b: MemView, x: int, n: int, kind: Access)
    requires
        a.wf(),
        same_layout(a, b),
        a.accessible(x, n, kind),
    ensures
        b.accessible(x, n, kind),
{
    lemma_same_layout_facts();
    assert forall|k: int| 0 <= k < n implies #[trigger] b.mapped(x + k) && allows_kind(b, x + k, kind) by {
        assert(a.mapped(x + k));
        assert(b.find(x + k) == a.find(x + k));
        crate::memory::lemma_find_unique(a, x + k, 0);
        let i = a.find(x + k).unwrap();
        assert(b.regions[i].perms == a.regions[i].perms);
        assert(b.perms_at(x + k) == a.perms_at(x + k));
    }
}

proof fn lemma_concat_prefix_len(chunks: Seq<Seq<u8>>, k: int)
    requires
        0 <= k <= chunks.len(),
    ensures
        concat_all(chunks.subrange(0, k)).len() <= concat_all(chunks).len(),
    decreases chunks.len(),
{
    if k < chunks.len() {
        assert(chunks.drop_last().subrange(0, k) =~= chunks.subrange(0, k));
        lemma_concat_prefix_len(chunks.drop_last(), k);
    } else {
        assert(chunks.subrange(0, k) =~= chunks);
    }
}

#[verifier::spinoff_prover]
#[verifier::rlimit(40)]
proof fn lemma_service_step(m0: MemView, prev: MemView, next: MemView, base: u32, p: Seq<Seq<u8>>, chunk: Seq<u8>)
    requires
        m0.wf(),
        base + 88 <= 0x1_0000_0000,
        m0.accessible(base as int, 88, Access::Write),
        m0.accessible(base as int, 88, Access::Read),
        concat_all(p).len() + chunk.len() <= u64::MAX,
        prev == contexts_written(m0, base, p),
        md5_append_matches(Ok(()), prev, next, base, chunk),
    ensures
        next == contexts_written(m0, base, p.push(chunk)),
{
    let q = p.push(chunk);
    assert(q.drop_last() =~= p);
    assert(q.last() == chunk);
    lemma_md5_service_any_chunks(m0, base, p);
    lemma_md5_any_chunks(p);
    let c = append_all(Md5Context::initial(), p)->Some_0;
    assert(c.total == concat_all(p).len());
    assert(append_all(Md5Context::initial(), q) == c.append(chunk));
}

proof fn lemma_service_steps(
    m0: MemView,
    steps: Seq<MemView>,
    base: u32,
    chunks: Seq<Seq<u8>>,
    k: int,
)
    requires
        m0.wf(),
        base + 88 <= 0x1_0000_0000,
        m0.accessible(base as int, 88, Access::Write),
        m0.accessible(base as int, 88, Access::Read),
        concat_all(chunks).len() <= u64::MAX,
        steps.len() == chunks.len() + 1,
        md5_init_matches(Ok(()), m0, steps[0], base),
        forall|j: int|
            0 <= j < chunks.len() ==> md5_append_matches(Ok(()), #[trigger] steps[j], steps[j + 1], base, chunks[j]),
        0 <= k <= chunks.len(),
    ensures
        steps[k] == contexts_written(m0, base, chunks.subrange(0, k)),
    decreases k,
{
    if k == 0 {
        assert(chunks.subrange(0, 0) =~= Seq::<Seq<u8>>::empty());
    } else {
        let p = chunks.subrange(0, k - 1);
        let q = chunks.subrange(0, k);
        lemma_service_steps(m0, steps, base, chunks, k - 1);
        lemma_concat_prefix_len(chunks, k);
        assert(q =~= p.push(chunks[k - 1]));
        assert(q.drop_last() =~= p);
        assert(concat_all(q) == concat_all(p) + chunks[k - 1]);
        assert(md5_append_matches(Ok(()), steps[k - 1], steps[k], base, chunks[k - 1]));
        lemma_service_step(m0, steps[k - 1], steps[k], base, p, chunks[k - 1]);
    }
}

/// The guest MD5 services give the MD5 digest of the whole message however
/// it is split: when `md5_init` on a readable and writable 88-byte context,
/// then one `md5_append` per piece, all succeed, the `md5_finish` that
/// follows succeeds too where its 16-byte output is readable and writable,
/// and the output then reads back as the digest of the joined pieces.
#[verifier::spinoff_prover]
#[verifier::rlimit(40)]
pub proof fn lemma_md5_services_digest(
    m0: MemView,
    steps: Seq<MemView>,
    base: u32,
    chunks: Seq<Seq<u8>>,
    output: u32,
    finished: MemView,
    r: Result<(), Error>,
)
    requires
        m0.wf(),
        base + 88 <= 0x1_0000_0000,
        m0.accessible(base as int, 88, Access::Write),
        m0.accessible(base as int, 88, Access::Read),
        m0.accessible(output as int, 16, Access::Write),
        m0.accessible(output as int, 16, Access::Read),
        concat_all(chunks).len() <= u64::MAX,
        steps.len() == chunks.len() + 1,
        md5_init_matches(Ok(()), m0, steps[0], base),
        forall|j: int|
            0 <= j < chunks.len() ==> md5_append_matches(Ok(()), #[trigger] steps[j], steps[j + 1], base, chunks[j]),
        md5_finish_matches(r, steps.last(), finished, base, output),
    ensures
        r is Ok,
        finished.load(output, 16, Access::Read) == Ok::<Seq<u8>, Seq<char>>(md5_digest(concat_all(chunks))),
{
    let n = chunks.len() as int;
    lemma_service_steps(m0, steps, base, chunks, n);
    assert(chunks.subrange(0, n) =~= chunks);
    let last = steps.last();
    assert(last == steps[n]);
    lemma_md5_service_any_chunks(m0, base, chunks);
    lemma_contexts_written_layout(m0, base, chunks);
    lemma_layout_accessible(m0, last, output as int, 16, Access::Write);
    lemma_layout_accessible(m0, last, output as int, 16, Access::Read);
    let c = append_all(Md5Context::initial(), chunks)->Some_0;
    lemma_finish_step(last, finished, base, output, c, r);
}

proof fn lemma_finish_step(last: MemView, finished: MemView, base: u32, output: u32, c: Md5Context, r: Result<(), Error>)
    requires
        last.wf(),
        last.accessible(output as int, 16, Access::Write),
        last.accessible(output as int, 16, Access::Read),
        total_at(last, base) == Ok::<u64, Seq<char>>(c.total),
        state_at(last, base) == Ok::<Seq<u32>, Seq<char>>(c.state),
        buffer_at(last, base) == Ok::<Seq<u8>, Seq<char>>(c.buffer),
        md5_finish_matches(r, last, finished, base, output),
    ensures
        r is Ok,
        finished.load(output, 16, Access::Read) == Ok::<Seq<u8>, Seq<char>>(c.digest()),
{
    let d = c.digest();
    assert(d.len() == 16);
    assert(last.store(output, d) is Ok);
    lemma_store_then_load(last, output, d, Access::Read);
}

} // verus!
