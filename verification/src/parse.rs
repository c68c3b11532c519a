//! Decimal number parsing and searching, as Rust's `str::parse` and
//! `str::find` define them for ASCII text.
use vstd::prelude::*;

verus! {

/// The index of the first `x` in `s` at or after `from`.
pub open spec fn position_from<A>(s: Seq<A>, x: A, from: int) -> Option<int>
    decreases s.len() - from,
{
    if from < 0 || from >= s.len() {
        None
    } else if s[from] == x {
        Some(from)
    } else {
        position_from(s, x, from + 1)
    }
}

pub open spec fn is_digit(b: u8) -> bool {
    0x30 <= b <= 0x39
}

pub open spec fn all_digits(s: Seq<u8>) -> bool {
    forall|i: int| 0 <= i < s.len() ==> is_digit(#[trigger] s[i])
}

/// The value of a run of decimal digits.
pub open spec fn decimal_value(s: Seq<u8>) -> nat
    decreases s.len(),
{
    if s.len() == 0 {
        0
    } else {
        decimal_value(s.drop_last()) * 10 + (s.last() - 0x30) as nat
    }
}

/// `uN::from_str`: an optional `+`, at least one decimal digit, and a value of
/// at most `max`.
pub open spec fn parse_unsigned_spec(s: Seq<u8>, max: nat) -> Option<nat> {
    let digits = if s.len() > 0 && s[0] == 0x2b {
        s.skip(1)
    } else {
        s
    };
    if digits.len() == 0 || !all_digits(digits) || decimal_value(digits) > max {
        None
    } else {
        Some(decimal_value(digits))
    }
}

/// `iN::from_str`: an optional sign, at least one decimal digit, and a value
/// between `-(max + 1)` and `max`.
pub open spec fn parse_signed_spec(s: Seq<u8>, max: nat) -> Option<int> {
    let negative = s.len() > 0 && s[0] == 0x2d;
    let digits = if s.len() > 0 && (s[0] == 0x2b || s[0] == 0x2d) {
        s.skip(1)
    } else {
        s
    };
    if digits.len() == 0 || !all_digits(digits) {
        None
    } else if negative {
        if decimal_value(digits) > max + 1 {
            None
        } else {
            Some(-(decimal_value(digits) as int))
        }
    } else if decimal_value(digits) > max {
        None
    } else {
        Some(decimal_value(digits) as int)
    }
}

/// The first index of `b` in `s` at or after `from`.
pub fn find_byte(s: &[u8], b: u8, from: usize) -> (r: Option<usize>)
    ensures
        match r {
            Some(i) => position_from(s@, b, from as int) == Some(i as int) && from <= i < s@.len()
                && s@[i as int] == b,
            None => position_from(s@, b, from as int) is None,
        },
{
    let mut i = from;
    while i < s.len()
        invariant
            from <= i,
            position_from(s@, b, from as int) == position_from(s@, b, i as int),
        decreases s@.len() - i,
    {
        if s[i] == b {
            return Some(i);
        }
        i += 1;
    }
    None
}

/// The value of the digits `s[start .. end]`, or `None` when one of them is
/// not a digit or the value exceeds `max`.
fn digits_upto(s: &[u8], start: usize, end: usize, max: u64) -> (r: Option<u64>)
    requires
        start <= end <= s@.len(),
    ensures
        match r {
            Some(v) => all_digits(s@.subrange(start as int, end as int)) && v == decimal_value(
                s@.subrange(start as int, end as int),
            ) && v <= max,
            None => !all_digits(s@.subrange(start as int, end as int)) || decimal_value(
                s@.subrange(start as int, end as int),
            ) > max,
        },
{
    let ghost whole = s@.subrange(start as int, end as int);
    let mut value: u64 = 0;
    let mut i = start;
    while i < end
        invariant
            start <= i <= end <= s@.len(),
            whole == s@.subrange(start as int, end as int),
            all_digits(s@.subrange(start as int, i as int)),
            value == decimal_value(s@.subrange(start as int, i as int)),
            value <= max,
        decreases end - i,
    {
        proof {
            assert(s@.subrange(start as int, i + 1).drop_last() =~= s@.subrange(start as int, i as int));
            assert(whole.subrange(0, i + 1 - start) =~= s@.subrange(start as int, i + 1));
        }
        let b = s[i];
        if !(0x30 <= b && b <= 0x39) {
            proof {
                assert(!is_digit(whole[i - start]));
            }
            return None;
        }
        let digit = (b - 0x30) as u64;
        let next: u128 = (value as u128) * 10 + digit as u128;
        if next > max as u128 {
            proof {
                if all_digits(whole) {
                    lemma_decimal_prefix_bound(whole, i + 1 - start);
                }
            }
            return None;
        }
        value = next as u64;
        i += 1;
        proof {
            assert(all_digits(s@.subrange(start as int, i as int)));
        }
    }
    Some(value)
}

/// The value of a digit run is at least the value of any of its prefixes.
pub proof fn lemma_decimal_prefix_bound(s: Seq<u8>, k: int)
    requires
        0 <= k <= s.len(),
        all_digits(s),
    ensures
        decimal_value(s) >= decimal_value(s.subrange(0, k)),
    decreases s.len(),
{
    if k < s.len() {
        assert(s.drop_last().subrange(0, k) =~= s.subrange(0, k));
        lemma_decimal_prefix_bound(s.drop_last(), k);
    } else {
        assert(s.subrange(0, k) =~= s);
    }
}

/// Parses an unsigned decimal number of at most `max`.
pub fn parse_unsigned(s: &[u8], max: u64) -> (r: Option<u64>)
    ensures
        match parse_unsigned_spec(s@, max as nat) {
            Some(v) => r == Some(v as u64),
            None => r is None,
        },
{
    let start: usize = if s.len() > 0 && s[0] == 0x2b {
        1
    } else {
        0
    };
    let ghost digits = if s@.len() > 0 && s@[0] == 0x2b {
        s@.skip(1)
    } else {
        s@
    };
    assert(digits =~= s@.subrange(start as int, s@.len() as int));
    if start == s.len() {
        return None;
    }
    digits_upto(s, start, s.len(), max)
}

/// Parses a signed decimal number between `-(max + 1)` and `max`.
pub fn parse_signed(s: &[u8], max: u64) -> (r: Option<i64>)
    requires
        max < i64::MAX,
    ensures
        match parse_signed_spec(s@, max as nat) {
            Some(v) => r == Some(v as i64),
            None => r is None,
        },
{
    let negative = s.len() > 0 && s[0] == 0x2d;
    let start: usize = if s.len() > 0 && (s[0] == 0x2b || s[0] == 0x2d) {
        1
    } else {
        0
    };
    let ghost digits = if s@.len() > 0 && (s@[0] == 0x2b || s@[0] == 0x2d) {
        s@.skip(1)
    } else {
        s@
    };
    assert(digits =~= s@.subrange(start as int, s@.len() as int));
    if start == s.len() {
        return None;
    }
    let limit = if negative {
        max + 1
    } else {
        max
    };
    match digits_upto(s, start, s.len(), limit) {
        Some(v) => Some(
            if negative {
                -(v as i64)
            } else {
                v as i64
            },
        ),
        None => None,
    }
}

/// Whether two byte strings are equal.
pub fn bytes_equal(a: &[u8], b: &[u8]) -> (r: bool)
    ensures
        r == (a@ == b@),
{
    if a.len() != b.len() {
        return false;
    }
    let mut i: usize = 0;
    while i < a.len()
        invariant
            a@.len() == b@.len(),
            i <= a@.len(),
            forall|j: int| 0 <= j < i ==> a@[j] == b@[j],
        decreases a@.len() - i,
    {
        if a[i] != b[i] {
            return false;
        }
        i += 1;
    }
    assert(a@ =~= b@);
    true
}

/// Whether two strings hold the same characters.
pub fn str_equal(a: &str, b: &str) -> (r: bool)
    ensures
        r == (a@ == b@),
{
    let r = bytes_equal(a.as_bytes(), b.as_bytes());
    proof {
        vstd::utf8::encode_utf8_decode_utf8(a@);
        vstd::utf8::encode_utf8_decode_utf8(b@);
    }
    r
}

} // verus!
