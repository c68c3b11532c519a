//! Byte-string helpers behind the guest C library services.
use vstd::prelude::*;

verus! {

/// The first index below `n` from `i` on where the sequences differ.
pub open spec fn first_difference(left: Seq<u8>, right: Seq<u8>, i: int, n: int) -> Option<int>
    decreases n - i,
{
    if i < 0 || i >= n {
        None
    } else if left[i] != right[i] {
        Some(i)
    } else {
        first_difference(left, right, i + 1, n)
    }
}

/// `memcmp`/`strcmp`-style comparison: the difference of the first differing
/// bytes, or the sign of the length difference when one is a prefix of the
/// other.
pub open spec fn compare_bytes_spec(left: Seq<u8>, right: Seq<u8>) -> i32 {
    let n = if left.len() <= right.len() {
        left.len() as int
    } else {
        right.len() as int
    };
    match first_difference(left, right, 0, n) {
        Some(i) => (left[i] - right[i]) as i32,
        None => if left.len() < right.len() {
            -1i32
        } else if left.len() == right.len() {
            0i32
        } else {
            1i32
        },
    }
}

pub fn compare_bytes(left: &[u8], right: &[u8]) -> (r: i32)
    ensures
        r == compare_bytes_spec(left@, right@),
{
    let n = if left.len() <= right.len() {
        left.len()
    } else {
        right.len()
    };
    let mut i: usize = 0;
    while i < n
        invariant
            0 <= i <= n,
            n == (if left@.len() <= right@.len() {
                left@.len() as int
            } else {
                right@.len() as int
            }),
            first_difference(left@, right@, 0, n as int) == first_difference(
                left@,
                right@,
                i as int,
                n as int,
            ),
        decreases n - i,
    {
        if left[i] != right[i] {
            return left[i] as i32 - right[i] as i32;
        }
        i += 1;
    }
    if left.len() < right.len() {
        -1
    } else if left.len() == right.len() {
        0
    } else {
        1
    }
}

/// ASCII whitespace as C's `isspace` in the "C" locale knows it, less the
/// vertical tab.
pub open spec fn is_space(b: u8) -> bool {
    b == 0x20 || b == 0x09 || b == 0x0a || b == 0x0c || b == 0x0d
}

/// The value of an alphanumeric digit in bases up to 36.
pub open spec fn digit_value(b: u8) -> Option<u32> {
    if 0x30 <= b <= 0x39 {
        Some((b - 0x30) as u32)
    } else if 0x61 <= b <= 0x7a {
        Some((b - 0x61 + 10) as u32)
    } else if 0x41 <= b <= 0x5a {
        Some((b - 0x41 + 10) as u32)
    } else {
        None
    }
}

/// The index of the first non-whitespace byte from `i` on.
pub open spec fn skip_space(input: Seq<u8>, i: int) -> int
    decreases input.len() - i,
{
    if 0 <= i < input.len() && is_space(input[i]) {
        skip_space(input, i + 1)
    } else {
        i
    }
}

pub open spec fn hex_prefix_at(input: Seq<u8>, i: int) -> bool {
    0 <= i && i + 2 <= input.len() && input[i] == 0x30 && (input[i + 1] == 0x78 || input[i + 1]
        == 0x58)
}

/// The index after the longest run of digits below `base` from `i` on.
pub open spec fn digits_end(input: Seq<u8>, i: int, base: u32) -> int
    decreases input.len() - i,
{
    if 0 <= i < input.len() && digit_value(input[i]) is Some && digit_value(input[i]).unwrap()
        < base {
        digits_end(input, i + 1, base)
    } else {
        i
    }
}

/// The value of the digits `input[start .. end]`, saturating at `i64::MAX`.
pub open spec fn digits_value(input: Seq<u8>, start: int, end: int, base: u32) -> i64
    decreases end - start,
{
    if end <= start {
        0
    } else {
        let prefix = digits_value(input, start, end - 1, base) as int;
        let scaled = if prefix * base > i64::MAX {
            i64::MAX as int
        } else {
            prefix * base
        };
        let sum = scaled + digit_value(input[end - 1]).unwrap();
        if sum > i64::MAX {
            i64::MAX
        } else {
            sum as i64
        }
    }
}

/// `strtol`: leading whitespace, an optional sign, a base (with `0x` and `0`
/// prefixes when the base is zero), and digits whose value saturates.  Returns
/// the value and the index after what was consumed; with no digits the value
/// is zero.
pub open spec fn parse_integer_spec(input: Seq<u8>, requested_base: u32) -> (i64, int) {
    let i0 = skip_space(input, 0);
    let negative = i0 < input.len() && input[i0] == 0x2d;
    let i1 = if i0 < input.len() && (input[i0] == 0x2d || input[i0] == 0x2b) {
        i0 + 1
    } else {
        i0
    };
    let base: u32 = if requested_base == 0 {
        if hex_prefix_at(input, i1) {
            16
        } else if i1 < input.len() && input[i1] == 0x30 {
            8
        } else {
            10
        }
    } else {
        requested_base
    };
    let i2 = if base == 16 && hex_prefix_at(input, i1) {
        i1 + 2
    } else {
        i1
    };
    if !(2 <= base <= 36) {
        (0, i2)
    } else {
        let end = digits_end(input, i2, base);
        if end == i2 {
            (0, i2)
        } else {
            let v = digits_value(input, i2, end, base);
            (
                if negative {
                    (-v) as i64
                } else {
                    v
                },
                end,
            )
        }
    }
}

pub fn is_space_exec(b: u8) -> (r: bool)
    ensures
        r == is_space(b),
{
    b == 0x20 || b == 0x09 || b == 0x0a || b == 0x0c || b == 0x0d
}

pub fn digit_value_exec(b: u8) -> (r: Option<u32>)
    ensures
        r == digit_value(b),
{
    if 0x30 <= b && b <= 0x39 {
        Some((b - 0x30) as u32)
    } else if 0x61 <= b && b <= 0x7a {
        Some((b - 0x61 + 10) as u32)
    } else if 0x41 <= b && b <= 0x5a {
        Some((b - 0x41 + 10) as u32)
    } else {
        None
    }
}

fn hex_prefix_exec(input: &[u8], i: usize) -> (r: bool)
    ensures
        r == hex_prefix_at(input@, i as int),
{
    i <= input.len() && input.len() - i >= 2 && input[i] == 0x30 && (input[i + 1] == 0x78
        || input[i + 1] == 0x58)
}

/// Parses an integer like C's `strtol`.
#[verifier::loop_isolation(false)]
pub fn parse_integer(input: &[u8], requested_base: u32) -> (r: (i64, usize))
    ensures
        r.0 == parse_integer_spec(input@, requested_base).0,
        r.1 as int == parse_integer_spec(input@, requested_base).1,
{
    let mut index: usize = 0;
    while index < input.len() && is_space_exec(input[index])
        invariant
            0 <= index <= input@.len(),
            skip_space(input@, 0) == skip_space(input@, index as int),
        decreases input@.len() - index,
    {
        index += 1;
    }
    let negative = index < input.len() && input[index] == 0x2d;
    if index < input.len() && (input[index] == 0x2d || input[index] == 0x2b) {
        index += 1;
    }
    let mut base = requested_base;
    if base == 0 {
        base = if hex_prefix_exec(input, index) {
            16
        } else if index < input.len() && input[index] == 0x30 {
            8
        } else {
            10
        };
    }
    if base == 16 && hex_prefix_exec(input, index) {
        index += 2;
    }
    if !(2 <= base && base <= 36) {
        return (0, index);
    }
    let digit_start = index;
    let mut value: i64 = 0;
    while index < input.len()
        invariant
            digit_start <= index <= input@.len(),
            2 <= base <= 36,
            digits_end(input@, digit_start as int, base) == digits_end(input@, index as int, base),
            value == digits_value(input@, digit_start as int, index as int, base),
            value >= 0,
        decreases input@.len() - index,
    {
        let digit = match digit_value_exec(input[index]) {
            Some(d) => d,
            None => break,
        };
        if digit >= base {
            break;
        }
        let b = base as i64;
        let scaled = if value > i64::MAX / b {
            assert(value * b > i64::MAX) by (nonlinear_arith)
                requires
                    value > i64::MAX / b,
                    b >= 2,
            ;
            i64::MAX
        } else {
            assert(value * b <= i64::MAX) by (nonlinear_arith)
                requires
                    value <= i64::MAX / b,
                    b >= 2,
                    value >= 0,
            ;
            value * b
        };
        value = if scaled > i64::MAX - digit as i64 {
            i64::MAX
        } else {
            scaled + digit as i64
        };
        index += 1;
    }
    if index == digit_start {
        return (0, digit_start);
    }
    (
        if negative {
            -value
        } else {
            value
        },
        index,
    )
}

} // verus!
