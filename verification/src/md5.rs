//! The MD5 compression function and the streaming buffer of the guest MD5
//! service.
use crate::memory::{le_u32, u32_bytes};
use vstd::prelude::*;

verus! {

/// The per-round additive constants of MD5.
pub open spec fn md5_constants() -> Seq<u32> {
    seq![
        0xd76aa478, 0xe8c7b756, 0x242070db, 0xc1bdceee, 0xf57c0faf, 0x4787c62a, 0xa8304613, 0xfd469501,
        0x698098d8, 0x8b44f7af, 0xffff5bb1, 0x895cd7be, 0x6b901122, 0xfd987193, 0xa679438e, 0x49b40821,
        0xf61e2562, 0xc040b340, 0x265e5a51, 0xe9b6c7aa, 0xd62f105d, 0x02441453, 0xd8a1e681, 0xe7d3fbc8,
        0x21e1cde6, 0xc33707d6, 0xf4d50d87, 0x455a14ed, 0xa9e3e905, 0xfcefa3f8, 0x676f02d9, 0x8d2a4c8a,
        0xfffa3942, 0x8771f681, 0x6d9d6122, 0xfde5380c, 0xa4beea44, 0x4bdecfa9, 0xf6bb4b60, 0xbebfbc70,
        0x289b7ec6, 0xeaa127fa, 0xd4ef3085, 0x04881d05, 0xd9d4d039, 0xe6db99e5, 0x1fa27cf8, 0xc4ac5665,
        0xf4292244, 0x432aff97, 0xab9423a7, 0xfc93a039, 0x655b59c3, 0x8f0ccc92, 0xffeff47d, 0x85845dd1,
        0x6fa87e4f, 0xfe2ce6e0, 0xa3014314, 0x4e0811a1, 0xf7537e82, 0xbd3af235, 0x2ad7d2bb, 0xeb86d391,
    ]
}

/// The per-round rotation amounts of MD5.
pub open spec fn md5_shifts() -> Seq<u32> {
    seq![
        7, 12, 17, 22, 7, 12, 17, 22,
        7, 12, 17, 22, 7, 12, 17, 22,
        5, 9, 14, 20, 5, 9, 14, 20,
        5, 9, 14, 20, 5, 9, 14, 20,
        4, 11, 16, 23, 4, 11, 16, 23,
        4, 11, 16, 23, 4, 11, 16, 23,
        6, 10, 15, 21, 6, 10, 15, 21,
        6, 10, 15, 21, 6, 10, 15, 21,
    ]
}

/// `x` rotated left by `n` bits (`0 < n < 32`).
pub open spec fn rotl32(x: u32, n: u32) -> u32 {
    (x << n) | (x >> ((32 - n) as u32))
}

/// The message word `g` of a 64-byte block, little-endian.
pub open spec fn block_word(block: Seq<u8>, g: int) -> u32 {
    le_u32(block.subrange(4 * g, 4 * g + 4))
}

/// The round function and the message word index of round `i`.
pub open spec fn round_mix(i: int, b: u32, c: u32, d: u32) -> (u32, int) {
    if i < 16 {
        ((b & c) | (!b & d), i)
    } else if i < 32 {
        ((d & b) | (!d & c), (5 * i + 1) % 16)
    } else if i < 48 {
        (b ^ c ^ d, (3 * i + 5) % 16)
    } else {
        (c ^ (b | !d), (7 * i) % 16)
    }
}

/// Rounds `i .. 64` of MD5 on the working variables `v = (a, b, c, d)`.
pub open spec fn md5_rounds(v: (u32, u32, u32, u32), block: Seq<u8>, i: int) -> (u32, u32, u32, u32)
    decreases 64 - i,
{
    if i < 0 || i >= 64 {
        v
    } else {
        let (a, b, c, d) = v;
        let (f, g) = round_mix(i, b, c, d);
        let sum = a.wrapping_add(f).wrapping_add(md5_constants()[i]).wrapping_add(
            block_word(block, g),
        );
        let next = b.wrapping_add(rotl32(sum, md5_shifts()[i]));
        md5_rounds((d, next, b, c), block, i + 1)
    }
}

/// The MD5 compression of one 64-byte block into the four state words.
pub open spec fn md5_block(state: Seq<u32>, block: Seq<u8>) -> Seq<u32> {
    let (a, b, c, d) = md5_rounds((state[0], state[1], state[2], state[3]), block, 0);
    seq![
        state[0].wrapping_add(a),
        state[1].wrapping_add(b),
        state[2].wrapping_add(c),
        state[3].wrapping_add(d),
    ]
}

/// The state after compressing every complete 64-byte block of `data`.
pub open spec fn md5_compress_all(state: Seq<u32>, data: Seq<u8>) -> Seq<u32>
    decreases data.len(),
{
    if data.len() < 64 {
        state
    } else {
        md5_compress_all(md5_block(state, data.take(64)), data.skip(64))
    }
}

fn rotate_left(x: u32, n: u32) -> (r: u32)
    requires
        0 < n < 32,
    ensures
        r == rotl32(x, n),
{
    (x << n) | (x >> (32 - n))
}

/// Compresses the 64-byte `block` into `state`.
pub fn md5_transform(state: &mut [u32; 4], block: &[u8])
    requires
        block@.len() == 64,
    ensures
        final(state)@ == md5_block(old(state)@, block@),
{
    let constants: Vec<u32> = vec![
        0xd76aa478, 0xe8c7b756, 0x242070db, 0xc1bdceee, 0xf57c0faf, 0x4787c62a, 0xa8304613, 0xfd469501,
        0x698098d8, 0x8b44f7af, 0xffff5bb1, 0x895cd7be, 0x6b901122, 0xfd987193, 0xa679438e, 0x49b40821,
        0xf61e2562, 0xc040b340, 0x265e5a51, 0xe9b6c7aa, 0xd62f105d, 0x02441453, 0xd8a1e681, 0xe7d3fbc8,
        0x21e1cde6, 0xc33707d6, 0xf4d50d87, 0x455a14ed, 0xa9e3e905, 0xfcefa3f8, 0x676f02d9, 0x8d2a4c8a,
        0xfffa3942, 0x8771f681, 0x6d9d6122, 0xfde5380c, 0xa4beea44, 0x4bdecfa9, 0xf6bb4b60, 0xbebfbc70,
        0x289b7ec6, 0xeaa127fa, 0xd4ef3085, 0x04881d05, 0xd9d4d039, 0xe6db99e5, 0x1fa27cf8, 0xc4ac5665,
        0xf4292244, 0x432aff97, 0xab9423a7, 0xfc93a039, 0x655b59c3, 0x8f0ccc92, 0xffeff47d, 0x85845dd1,
        0x6fa87e4f, 0xfe2ce6e0, 0xa3014314, 0x4e0811a1, 0xf7537e82, 0xbd3af235, 0x2ad7d2bb, 0xeb86d391,
    ];
    let shifts: Vec<u32> = vec![
        7, 12, 17, 22, 7, 12, 17, 22,
        7, 12, 17, 22, 7, 12, 17, 22,
        5, 9, 14, 20, 5, 9, 14, 20,
        5, 9, 14, 20, 5, 9, 14, 20,
        4, 11, 16, 23, 4, 11, 16, 23,
        4, 11, 16, 23, 4, 11, 16, 23,
        6, 10, 15, 21, 6, 10, 15, 21,
        6, 10, 15, 21, 6, 10, 15, 21,
    ];
    assert(constants@ =~= md5_constants());
    assert(shifts@ =~= md5_shifts());
    let mut words: Vec<u32> = Vec::new();
    let mut w: usize = 0;
    while w < 16
        invariant
            0 <= w <= 16,
            block@.len() == 64,
            words@.len() == w,
            forall|j: int| 0 <= j < w ==> words@[j] == #[trigger] block_word(block@, j),
        decreases 16 - w,
    {
        let value = (block[4 * w] as u32) | ((block[4 * w + 1] as u32) << 8u32) | ((block[4 * w
            + 2] as u32) << 16u32) | ((block[4 * w + 3] as u32) << 24u32);
        proof {
            let sub = block@.subrange(4 * w as int, 4 * w + 4);
            assert(sub[0] == block@[4 * w as int]);
            assert(sub[1] == block@[4 * w + 1]);
            assert(sub[2] == block@[4 * w + 2]);
            assert(sub[3] == block@[4 * w + 3]);
        }
        words.push(value);
        w += 1;
    }
    let mut a = state[0];
    let mut b = state[1];
    let mut c = state[2];
    let mut d = state[3];
    let ghost start = (a, b, c, d);
    let mut index: usize = 0;
    while index < 64
        invariant
            0 <= index <= 64,
            block@.len() == 64,
            constants@ == md5_constants(),
            shifts@ == md5_shifts(),
            words@.len() == 16,
            forall|j: int| 0 <= j < 16 ==> words@[j] == #[trigger] block_word(block@, j),
            md5_rounds(start, block@, 0) == md5_rounds((a, b, c, d), block@, index as int),
        decreases 64 - index,
    {
        let (function, word) = if index < 16 {
            ((b & c) | (!b & d), index)
        } else if index < 32 {
            ((d & b) | (!d & c), (5 * index + 1) % 16)
        } else if index < 48 {
            (b ^ c ^ d, (3 * index + 5) % 16)
        } else {
            (c ^ (b | !d), (7 * index) % 16)
        };
        let shift = shifts[index];
        assert(0 < shift < 32) by {
            assert(forall|j: int| 0 <= j < 64 ==> 0 < #[trigger] md5_shifts()[j] < 32);
        }
        let next = b.wrapping_add(
            rotate_left(
                a.wrapping_add(function).wrapping_add(constants[index]).wrapping_add(words[word]),
                shift,
            ),
        );
        a = d;
        d = c;
        c = b;
        b = next;
        index += 1;
    }
    state[0] = state[0].wrapping_add(a);
    state[1] = state[1].wrapping_add(b);
    state[2] = state[2].wrapping_add(c);
    state[3] = state[3].wrapping_add(d);
    assert(final(state)@ =~= md5_block(old(state)@, block@));
}

/// `s` with the bytes of `t` written over it from index `at`.
pub open spec fn overlay(s: Seq<u8>, at: int, t: Seq<u8>) -> Seq<u8> {
    Seq::new(s.len(), |i: int| if at <= i < at + t.len() {
        t[i - at]
    } else {
        s[i]
    })
}

/// How many input bytes first complete a partly filled buffer.
pub open spec fn fill_len(buffered: int, input_len: int) -> int {
    if buffered == 0 {
        0
    } else if 64 - buffered <= input_len {
        64 - buffered
    } else {
        input_len
    }
}

/// The input bytes left over after the complete blocks that follow the filling.
pub open spec fn tail_of(buffered: int, input: Seq<u8>) -> Seq<u8> {
    let rest = input.skip(fill_len(buffered, input.len() as int));
    rest.skip(64 * (rest.len() as int / 64))
}

/// Appends `input` to an MD5 stream whose `buffered` pending bytes sit at the
/// start of `buffer`.  Every complete 64-byte block of the pending bytes
/// followed by the input is compressed into `state`; the incomplete rest is
/// left pending at the start of `buffer`, and its length is returned.
pub fn md5_consume(state: &mut [u32; 4], buffer: &mut [u8; 64], buffered: usize, input: &[u8]) -> (r: usize)
    requires
        buffered < 64,
    ensures
        ({
            let data = old(buffer)@.take(buffered as int) + input@;
            &&& final(state)@ == md5_compress_all(old(state)@, data)
            &&& r == data.len() % 64
            &&& final(buffer)@.take(r as int) == data.skip(data.len() - r)
            &&& final(buffer)@ == overlay(
                overlay(old(buffer)@, buffered as int, input@.take(fill_len(buffered as int, input@.len() as int))),
                0,
                tail_of(buffered as int, input@),
            )
        }),
{
    let ghost data = old(buffer)@.take(buffered as int) + input@;
    let ghost b0 = buffered as int;
    let ghost fill = fill_len(b0, input@.len() as int);
    let mut buffered = buffered;
    let mut pos: usize = 0;
    if buffered != 0 {
        let copied = if 64 - buffered <= input.len() {
            64 - buffered
        } else {
            input.len()
        };
        let mut k: usize = 0;
        while k < copied
            invariant
                0 <= k <= copied,
                buffered + copied <= 64,
                copied <= input@.len(),
                buffer@ == overlay(old(buffer)@, buffered as int, input@.take(k as int)),
            decreases copied - k,
        {
            buffer[buffered + k] = input[k];
            proof {
                assert(buffer@ =~= overlay(old(buffer)@, buffered as int, input@.take(k + 1)));
            }
            k += 1;
        }
        buffered += copied;
        pos = copied;
        assert(fill == copied);
        if buffered == 64 {
            proof {
                assert(buffer@ =~= data.take(64));
                assert(data.skip(64) =~= input@.skip(pos as int));
                assert(data.len() >= 64);
            }
            md5_transform(state, buffer.as_slice());
            buffered = 0;
        } else {
            proof {
                assert(data.len() < 64);
                assert(pos == input@.len());
                assert(input@.skip(pos as int).skip(0) =~= Seq::<u8>::empty());
                assert(buffer@.take(buffered as int) =~= data);
                assert(data.skip(0) =~= data);
                assert(overlay(buffer@, 0, Seq::<u8>::empty()) =~= buffer@);
            }
            return buffered;
        }
    } else {
        proof {
            assert(data =~= input@);
            assert(input@.skip(0) =~= input@);
            assert(overlay(old(buffer)@, 0, input@.take(0)) =~= old(buffer)@);
        }
    }
    let ghost filled = buffer@;
    while input.len() - pos >= 64
        invariant
            pos <= input@.len(),
            buffered == 0,
            buffer@ == filled,
            md5_compress_all(old(state)@, data) == md5_compress_all(state@, input@.skip(pos as int)),
            fill == fill_len(b0, input@.len() as int),
            (b0 == 0 && fill == 0) || b0 + fill == 64,
            pos >= fill,
            (pos - fill) % 64 == 0,
            filled == overlay(old(buffer)@, b0, input@.take(fill)),
            data == old(buffer)@.take(b0) + input@,
        decreases input@.len() - pos,
    {
        proof {
            let rem = input@.skip(pos as int);
            assert(rem.take(64) =~= input@.subrange(pos as int, pos + 64));
            assert(rem.skip(64) =~= input@.skip(pos + 64));
        }
        md5_transform(state, &input[pos..pos + 64]);
        pos += 64;
    }
    let tail_len = input.len() - pos;
    let mut k: usize = 0;
    while k < tail_len
        invariant
            0 <= k <= tail_len,
            pos + tail_len == input@.len(),
            input@.len() <= usize::MAX,
            tail_len < 64,
            buffer@ == overlay(filled, 0, input@.skip(pos as int).take(k as int)),
        decreases tail_len - k,
    {
        buffer[k] = input[pos + k];
        proof {
            assert(buffer@ =~= overlay(filled, 0, input@.skip(pos as int).take(k + 1)));
        }
        k += 1;
    }
    proof {
        assert(input@.skip(pos as int).take(tail_len as int) =~= input@.skip(pos as int));
        assert(md5_compress_all(state@, input@.skip(pos as int)) == state@);
        let rest = input@.skip(fill);
        assert(64 * (rest.len() as int / 64) == pos - fill) by (nonlinear_arith)
            requires
                rest.len() == input@.len() - fill,
                0 <= input@.len() - pos < 64,
                pos >= fill,
                (pos - fill) % 64 == 0,
        ;
        assert(tail_of(b0, input@) =~= input@.skip(pos as int));
        assert(data.len() == b0 + input@.len());
        assert((b0 + pos) % 64 == 0);
        assert(tail_len == data.len() % 64) by (nonlinear_arith)
            requires
                tail_len == input@.len() - pos,
                data.len() == b0 + input@.len(),
                (b0 + pos) % 64 == 0,
                tail_len < 64,
                b0 + pos >= 0,
        ;
        assert(data.skip(data.len() - tail_len) =~= input@.skip(pos as int));
        assert(buffer@.take(tail_len as int) =~= input@.skip(pos as int));
    }
    tail_len
}

// ---------------------------------------------------------------------------
// The stream as a whole
/// The bytes of a stream that do not yet fill a whole block.
pub open spec fn md5_pending(data: Seq<u8>) -> Seq<u8> {
    data.skip(data.len() - data.len() % 64)
}

/// The chaining words MD5 starts from.
pub open spec fn md5_initial_state() -> Seq<u32> {
    seq![0x67452301u32, 0xefcdab89u32, 0x98badcfeu32, 0x10325476u32]
}

/// Little-endian bytes of a 64-bit value.
pub open spec fn u64_bytes(v: u64) -> Seq<u8> {
    u32_bytes(v as u32) + u32_bytes((v >> 32u64) as u32)
}

/// The padding that ends a stream of `total` bytes: `0x80`, zeros up to 56
/// bytes past a block boundary, and the bit count in little-endian order.
pub open spec fn md5_padding(total: u64) -> Seq<u8> {
    let buffered = total % 64;
    let pad_len: int = if buffered < 56 {
        56 - buffered
    } else {
        120 - buffered
    };
    seq![0x80u8] + Seq::new((pad_len - 1) as nat, |i: int| 0u8) + u64_bytes(total.wrapping_mul(8))
}

/// The sixteen digest bytes of four chaining words.
pub open spec fn md5_words_bytes(s: Seq<u32>) -> Seq<u8> {
    u32_bytes(s[0]) + u32_bytes(s[1]) + u32_bytes(s[2]) + u32_bytes(s[3])
}

/// The MD5 digest of a message of fewer than 2^64 bytes.
pub open spec fn md5_digest(data: Seq<u8>) -> Seq<u8> {
    md5_words_bytes(md5_compress_all(md5_initial_state(), data + md5_padding(data.len() as u64)))
}

/// The state of a guest MD5 computation: the number of bytes appended, the
/// chaining words and the 64-byte block buffer.
pub struct Md5Context {
    pub total: u64,
    pub state: Seq<u32>,
    pub buffer: Seq<u8>,
}

impl Md5Context {
    /// A fresh context.
    pub open spec fn initial() -> Md5Context {
        Md5Context { total: 0, state: md5_initial_state(), buffer: Seq::new(64, |i: int| 0u8) }
    }

    /// The bytes waiting in the buffer for their block to fill.
    pub open spec fn pending(self) -> Seq<u8> {
        self.buffer.take((self.total % 64) as int)
    }

    /// The context after appending `input`, or `None` when the byte count
    /// would pass `u64::MAX`.
    pub open spec fn append(self, input: Seq<u8>) -> Option<Md5Context> {
        if self.total + input.len() > u64::MAX {
            None
        } else {
            let b = (self.total % 64) as int;
            Some(
                Md5Context {
                    total: (self.total + input.len()) as u64,
                    state: md5_compress_all(self.state, self.pending() + input),
                    buffer: overlay(
                        overlay(self.buffer, b, input.take(fill_len(b, input.len() as int))),
                        0,
                        tail_of(b, input),
                    ),
                },
            )
        }
    }

    /// The digest that finishing the context produces.
    pub open spec fn digest(self) -> Seq<u8> {
        md5_words_bytes(md5_compress_all(self.state, self.pending() + md5_padding(self.total)))
    }

    /// The context holds the MD5 computation of the stream `data`.
    pub open spec fn holds(self, data: Seq<u8>) -> bool {
        &&& self.total == data.len()
        &&& self.buffer.len() == 64
        &&& self.state == md5_compress_all(md5_initial_state(), data)
        &&& self.pending() == md5_pending(data)
    }
}

/// Compressing whole blocks and then more data is compressing all of it.
pub proof fn lemma_compress_all_append(state: Seq<u32>, x: Seq<u8>, y: Seq<u8>)
    requires
        x.len() % 64 == 0,
    ensures
        md5_compress_all(state, x + y) == md5_compress_all(md5_compress_all(state, x), y),
    decreases x.len(),
{
    if x.len() == 0 {
        assert(x + y =~= y);
    } else {
        assert((x + y).take(64) =~= x.take(64));
        assert((x + y).skip(64) =~= x.skip(64) + y);
        lemma_compress_all_append(md5_block(state, x.take(64)), x.skip(64), y);
    }
}

/// A stream is its whole blocks followed by its pending bytes.
proof fn lemma_pending_split(data: Seq<u8>)
    ensures
        data =~= data.take(data.len() - data.len() % 64) + md5_pending(data),
        (data.len() - data.len() % 64) % 64 == 0,
        md5_pending(data).len() < 64,
{
}

/// Appending `more` to a stream whose whole blocks are compressed into
/// `md5_compress_all(state, data)` compresses the whole blocks of the joined
/// stream, and leaves the same bytes pending.
pub proof fn lemma_md5_stream_split(state: Seq<u32>, data: Seq<u8>, more: Seq<u8>)
    ensures
        md5_compress_all(md5_compress_all(state, data), md5_pending(data) + more)
            == md5_compress_all(state, data + more),
        md5_pending(md5_pending(data) + more) == md5_pending(data + more),
{
    lemma_pending_split(data);
    let whole = data.take(data.len() - data.len() % 64);
    let p = md5_pending(data);
    lemma_compress_all_append(state, whole, p);
    assert(md5_compress_all(md5_compress_all(state, whole), p) == md5_compress_all(state, whole));
    assert(data + more =~= whole + (p + more));
    lemma_compress_all_append(state, whole, p + more);
    let joined = data + more;
    let pm = p + more;
    assert(joined.len() == whole.len() + pm.len());
    assert(joined.len() % 64 == pm.len() % 64) by (nonlinear_arith)
        requires
            joined.len() == whole.len() + pm.len(),
            whole.len() % 64 == 0,
    ;
    assert(md5_pending(pm) =~= md5_pending(joined));
}

/// The buffer that `Md5Context::append` leaves starts with the pending bytes
/// of the pending bytes and input taken together.
proof fn lemma_append_buffer(buffer: Seq<u8>, b: int, input: Seq<u8>)
    requires
        buffer.len() == 64,
        0 <= b < 64,
    ensures
        ({
            let data = buffer.take(b) + input;
            let after = overlay(
                overlay(buffer, b, input.take(fill_len(b, input.len() as int))),
                0,
                tail_of(b, input),
            );
            &&& after.len() == 64
            &&& after.take((data.len() % 64) as int) == md5_pending(data)
        }),
{
    let data = buffer.take(b) + input;
    let n = input.len() as int;
    let fill = fill_len(b, n);
    let first = overlay(buffer, b, input.take(fill));
    let tail = tail_of(b, input);
    let after = overlay(first, 0, tail);
    let rest = input.skip(fill);
    assert(rest.len() == n - fill);
    assert(0 <= 64 * (rest.len() as int / 64) <= rest.len()) by (nonlinear_arith)
        requires
            rest.len() >= 0,
    ;
    assert(tail.len() == rest.len() % 64) by (nonlinear_arith)
        requires
            tail.len() == rest.len() - 64 * (rest.len() as int / 64),
            rest.len() >= 0,
    ;
    if b == 0 {
        assert(data =~= input);
        assert(rest =~= input);
        assert(after.take((data.len() % 64) as int) =~= md5_pending(data));
    } else if b + n < 64 {
        assert(fill == n);
        assert(tail.len() == 0);
        assert(data.len() % 64 == b + n);
        assert(after.take((data.len() % 64) as int) =~= md5_pending(data));
    } else {
        assert(fill == 64 - b);
        assert(data.len() == 64 + rest.len());
        assert(data.len() % 64 == rest.len() % 64) by (nonlinear_arith)
            requires
                data.len() == 64 + rest.len(),
        ;
        assert(after.take((data.len() % 64) as int) =~= md5_pending(data));
    }
}

/// A fresh context holds the empty stream.
pub proof fn lemma_md5_initial_holds()
    ensures
        Md5Context::initial().holds(Seq::empty()),
{
    assert(Md5Context::initial().pending() =~= md5_pending(Seq::<u8>::empty()));
}

/// Appending to a context that holds a stream gives a context that holds the
/// stream with the input after it, unless the byte count would overflow.
pub proof fn lemma_md5_append_holds(c: Md5Context, data: Seq<u8>, input: Seq<u8>)
    requires
        c.holds(data),
        data.len() + input.len() <= u64::MAX,
    ensures
        c.append(input) matches Some(next) && next.holds(data + input),
{
    let b = (c.total % 64) as int;
    lemma_md5_stream_split(md5_initial_state(), data, input);
    lemma_append_buffer(c.buffer, b, input);
    let next = c.append(input)->Some_0;
    assert(c.pending() + input == md5_pending(data) + input);
    assert((md5_pending(data) + input).len() % 64 == (data + input).len() % 64) by {
        lemma_pending_split(data);
        let whole = data.take(data.len() - data.len() % 64);
        assert((data + input).len() == whole.len() + (md5_pending(data) + input).len());
        assert((data + input).len() % 64 == (md5_pending(data) + input).len() % 64) by (nonlinear_arith)
            requires
                (data + input).len() == whole.len() + (md5_pending(data) + input).len(),
                whole.len() % 64 == 0,
        ;
    }
    assert(next.total % 64 == (data + input).len() % 64);
    assert(next.pending() == md5_pending(md5_pending(data) + input));
}

/// Finishing a context that holds a stream gives the MD5 digest of the stream.
pub proof fn lemma_md5_finish_digest(c: Md5Context, data: Seq<u8>)
    requires
        c.holds(data),
    ensures
        c.digest() == md5_digest(data),
{
    lemma_md5_stream_split(md5_initial_state(), data, md5_padding(c.total));
    assert(data.len() as u64 == c.total);
}

/// Appending a message in two chunks and finishing gives the MD5 digest of
/// the whole message.
pub proof fn lemma_md5_two_chunks(first: Seq<u8>, second: Seq<u8>)
    requires
        first.len() + second.len() <= u64::MAX,
    ensures
        Md5Context::initial().append(first) matches Some(c1) && c1.append(second) matches Some(c2)
            && c2.digest() == md5_digest(first + second),
{
    lemma_md5_initial_holds();
    lemma_md5_append_holds(Md5Context::initial(), Seq::empty(), first);
    assert(Seq::<u8>::empty() + first =~= first);
    let c1 = Md5Context::initial().append(first)->Some_0;
    lemma_md5_append_holds(c1, first, second);
    let c2 = c1.append(second)->Some_0;
    lemma_md5_finish_digest(c2, first + second);
}

/// The chunks one after another.
pub open spec fn concat_all(chunks: Seq<Seq<u8>>) -> Seq<u8>
    decreases chunks.len(),
{
    if chunks.len() == 0 {
        Seq::empty()
    } else {
        concat_all(chunks.drop_last()) + chunks.last()
    }
}

/// Appending the chunks in order to `c`, or `None` once the byte count would
/// overflow.
pub open spec fn append_all(c: Md5Context, chunks: Seq<Seq<u8>>) -> Option<Md5Context>
    decreases chunks.len(),
{
    if chunks.len() == 0 {
        Some(c)
    } else {
        match append_all(c, chunks.drop_last()) {
            None => None,
            Some(c1) => c1.append(chunks.last()),
        }
    }
}

/// However a message is split into appends, a fresh context that takes the
/// pieces in order holds the whole message and finishes with its MD5
/// digest.
pub proof fn lemma_md5_any_chunks(chunks: Seq<Seq<u8>>)
    requires
        concat_all(chunks).len() <= u64::MAX,
    ensures
        append_all(Md5Context::initial(), chunks) matches Some(c) && c.holds(concat_all(chunks))
            && c.digest() == md5_digest(concat_all(chunks)),
    decreases chunks.len(),
{
    if chunks.len() == 0 {
        lemma_md5_initial_holds();
        let c = Md5Context::initial();
        lemma_md5_finish_digest(c, Seq::empty());
    } else {
        let prefix = concat_all(chunks.drop_last());
        lemma_md5_any_chunks(chunks.drop_last());
        let c1 = append_all(Md5Context::initial(), chunks.drop_last())->Some_0;
        lemma_md5_append_holds(c1, prefix, chunks.last());
        let c2 = c1.append(chunks.last())->Some_0;
        lemma_md5_finish_digest(c2, concat_all(chunks));
    }
}

} // verus!
