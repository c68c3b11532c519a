use vstd::prelude::*;
use vstd::string::*;
use crate::parse::position_from;

verus! {

/// The lowercase hexadecimal digit for `n` (`0 <= n < 16`).
pub open spec fn hex_char(n: nat) -> char {
    if n < 10 {
        (48 + n) as char
    } else {
        (87 + n) as char
    }
}

/// The decimal digit for `n` (`0 <= n < 10`).
pub open spec fn dec_char(n: nat) -> char {
    (48 + n) as char
}

/// The `width` low hexadecimal digits of `v`, most significant first.
pub open spec fn hex_digits(v: nat, width: nat) -> Seq<char>
    decreases width,
{
    if width == 0 {
        Seq::empty()
    } else {
        hex_digits(v / 16, (width - 1) as nat).push(hex_char(v % 16))
    }
}

/// `v` as `0x` followed by exactly eight hexadecimal digits.
pub open spec fn hex32_text(v: u32) -> Seq<char> {
    seq!['0', 'x'] + hex_digits(v as nat, 8)
}

/// `v` as `0x` followed by exactly four hexadecimal digits.
pub open spec fn hex16_text(v: u16) -> Seq<char> {
    seq!['0', 'x'] + hex_digits(v as nat, 4)
}

/// The decimal representation of `v`, without leading zeros.
pub open spec fn dec_text(v: nat) -> Seq<char>
    decreases v,
{
    if v < 10 {
        seq![dec_char(v)]
    } else {
        dec_text(v / 10).push(dec_char(v % 10))
    }
}

fn hex_digit_str(n: u32) -> (s: &'static str)
    requires
        n < 16,
    ensures
        s@ == seq![hex_char(n as nat)],
{
    proof {
        reveal_strlit("0");
        reveal_strlit("1");
        reveal_strlit("2");
        reveal_strlit("3");
        reveal_strlit("4");
        reveal_strlit("5");
        reveal_strlit("6");
        reveal_strlit("7");
        reveal_strlit("8");
        reveal_strlit("9");
        reveal_strlit("a");
        reveal_strlit("b");
        reveal_strlit("c");
        reveal_strlit("d");
        reveal_strlit("e");
        reveal_strlit("f");
    }
    let s = match n {
        0 => "0",
        1 => "1",
        2 => "2",
        3 => "3",
        4 => "4",
        5 => "5",
        6 => "6",
        7 => "7",
        8 => "8",
        9 => "9",
        10 => "a",
        11 => "b",
        12 => "c",
        13 => "d",
        14 => "e",
        _ => "f",
    };
    assert(s@ =~= seq![hex_char(n as nat)]);
    s
}

pub(crate) fn hex_digits_string(v: u32, width: u32) -> (s: String)
    ensures
        s@ == hex_digits(v as nat, width as nat),
    decreases width,
{
    if width == 0 {
        String::new()
    } else {
        let prefix = hex_digits_string(v / 16, width - 1);
        prefix.concat(hex_digit_str(v % 16))
    }
}

/// Formats `v` as `0x` followed by eight lowercase hexadecimal digits.
pub fn hex32(v: u32) -> (s: String)
    ensures
        s@ == hex32_text(v),
{
    let prefix = String::from_str("0x");
    proof {
        reveal_strlit("0x");
    }
    let digits = hex_digits_string(v, 8);
    let s = prefix.concat(digits.as_str());
    assert(s@ =~= hex32_text(v));
    s
}

/// Formats `v` as `0x` followed by four lowercase hexadecimal digits.
pub fn hex16(v: u16) -> (s: String)
    ensures
        s@ == hex16_text(v),
{
    let prefix = String::from_str("0x");
    proof {
        reveal_strlit("0x");
    }
    let digits = hex_digits_string(v as u32, 4);
    let s = prefix.concat(digits.as_str());
    assert(s@ =~= hex16_text(v));
    s
}

/// Formats `v` in decimal.
pub fn decimal(v: u64) -> (s: String)
    ensures
        s@ == dec_text(v as nat),
    decreases v,
{
    if v < 10 {
        let s = String::from_str(hex_digit_str(v as u32));
        s
    } else {
        let prefix = decimal(v / 10);
        prefix.concat(hex_digit_str((v % 10) as u32))
    }
}

/// The hexadecimal digits of `v` without leading zeros (`0` for zero).
pub open spec fn hex_min_digits(v: nat) -> Seq<char>
    decreases v,
{
    if v < 16 {
        seq![hex_char(v)]
    } else {
        hex_min_digits(v / 16).push(hex_char(v % 16))
    }
}

/// `v` as `{:#x}` prints it: `0x` and the digits without leading zeros.
pub open spec fn hex_prefixed_text(v: nat) -> Seq<char> {
    "0x"@ + hex_min_digits(v)
}

fn hex_min_string(v: u64) -> (s: String)
    ensures
        s@ == hex_min_digits(v as nat),
    decreases v,
{
    if v < 16 {
        String::from_str(hex_digit_str(v as u32))
    } else {
        let prefix = hex_min_string(v / 16);
        prefix.concat(hex_digit_str((v % 16) as u32))
    }
}

/// Formats `v` as `0x` followed by its lowercase hexadecimal digits.
pub fn hex_prefixed(v: u64) -> (s: String)
    ensures
        s@ == hex_prefixed_text(v as nat),
{
    proof {
        reveal_strlit("0x");
    }
    let digits = hex_min_string(v);
    String::from_str("0x").concat(digits.as_str())
}

/// Concatenates three pieces of text.
pub fn join3(a: &str, b: &str, c: &str) -> (s: String)
    ensures
        s@ == a@ + b@ + c@,
{
    String::from_str(a).concat(b).concat(c)
}


/// The text that `{:?}` prints for a string: its characters between double
/// quotes, with quotes, backslashes and control characters escaped.
pub uninterp spec fn debug_quoted(s: Seq<char>) -> Seq<char>;

/// `format!("{:?}", s)`, the `Debug` form of a string.  The result is
/// named, not spelled out.
#[verifier::external_body]
pub(crate) fn debug_str(s: &str) -> (r: String)
    ensures
        r@ == debug_quoted(s@),
{
    format!("{:?}", s)
}

/// The text that `{:?}` prints for the character whose code point is `b`:
/// the character between single quotes, escaped where `Debug` escapes it.
pub uninterp spec fn debug_char_quoted(b: u8) -> Seq<char>;

/// `format!("{:?}", char::from(b))`, the `Debug` form of a Latin-1
/// character.  The result is named, not spelled out.
#[verifier::external_body]
pub(crate) fn debug_byte_char(b: u8) -> (r: String)
    ensures
        r@ == debug_char_quoted(b),
{
    format!("{:?}", char::from(b))
}

/// `str::split_once` with a `char` pattern: the text before and the text
/// after the first occurrence of `c`, or `None` when `c` does not occur.
#[verifier::external_body]
pub(crate) fn split_once_char<'a>(s: &'a str, c: char) -> (r: Option<(&'a str, &'a str)>)
    ensures
        match position_from(s@, c, 0) {
            Some(i) => r matches Some(p) && p.0@ == s@.take(i) && p.1@ == s@.skip(i + 1),
            None => r is None,
        },
{
    s.split_once(c)
}

/// Whether `s` begins with `prefix`.
pub open spec fn starts_with(s: Seq<char>, prefix: Seq<char>) -> bool {
    prefix.len() <= s.len() && s.take(prefix.len() as int) == prefix
}

/// `str::strip_prefix` with a string pattern: the rest of `s` after
/// `prefix`, or `None` when `s` does not begin with it.
#[verifier::external_body]
pub(crate) fn strip_prefix_str<'a>(s: &'a str, prefix: &str) -> (r: Option<&'a str>)
    ensures
        match r {
            Some(rest) => starts_with(s@, prefix@) && rest@ == s@.skip(prefix@.len() as int),
            None => !starts_with(s@, prefix@),
        },
{
    s.strip_prefix(prefix)
}

/// Whether a character has the Unicode `White_Space` property, as
/// `char::is_whitespace` reports it: U+0009 to U+000D, U+0020, U+0085,
/// U+00A0, U+1680, U+2000 to U+200A, U+2028, U+2029, U+202F, U+205F and
/// U+3000.
pub open spec fn is_unicode_whitespace(c: char) -> bool {
    let v = c as u32;
    ||| 0x09 <= v <= 0x0d
    ||| v == 0x20
    ||| v == 0x85
    ||| v == 0xa0
    ||| v == 0x1680
    ||| 0x2000 <= v <= 0x200a
    ||| v == 0x2028
    ||| v == 0x2029
    ||| v == 0x202f
    ||| v == 0x205f
    ||| v == 0x3000
}

/// Whether `c` has the Unicode `White_Space` property.
pub fn is_whitespace_char(c: char) -> (r: bool)
    ensures
        r == is_unicode_whitespace(c),
{
    let v = c as u32;
    (0x09 <= v && v <= 0x0d) || v == 0x20 || v == 0x85 || v == 0xa0 || v == 0x1680 || (0x2000 <= v
        && v <= 0x200a) || v == 0x2028 || v == 0x2029 || v == 0x202f || v == 0x205f || v == 0x3000
}

/// The fields of `s` that runs of whitespace separate, `current` being the
/// field read so far.
pub open spec fn fields_from(s: Seq<char>, current: Seq<char>) -> Seq<Seq<char>>
    decreases s.len(),
{
    let done = if current.len() == 0 {
        Seq::<Seq<char>>::empty()
    } else {
        seq![current]
    };
    if s.len() == 0 {
        done
    } else if is_unicode_whitespace(s[0]) {
        done + fields_from(s.drop_first(), Seq::empty())
    } else {
        fields_from(s.drop_first(), current.push(s[0]))
    }
}

/// The whitespace-separated fields of `s`.
pub open spec fn whitespace_fields(s: Seq<char>) -> Seq<Seq<char>> {
    fields_from(s, Seq::empty())
}

/// `str::split_whitespace`, collected: the non-empty runs of characters
/// without the `White_Space` property, in order.
#[verifier::external_body]
pub(crate) fn split_whitespace_str<'a>(s: &'a str) -> (r: Vec<&'a str>)
    ensures
        r@.len() == fields_from(s@, Seq::empty()).len(),
        forall|i: int| 0 <= i < r@.len() ==> (#[trigger] r@[i])@ == fields_from(s@, Seq::empty())[i],
        forall|i: int, j: int|
            0 <= i < r@.len() && 0 <= j < r@[i]@.len() ==> !is_unicode_whitespace(
                #[trigger] r@[i]@[j],
            ),
{
    s.split_whitespace().collect()
}

/// ASCII upper case of one character; other characters stay as they are.
pub open spec fn ascii_upper_char(c: char) -> char {
    if 'a' <= c <= 'z' {
        ((c as u32) - 32) as char
    } else {
        c
    }
}

pub open spec fn ascii_upper(s: Seq<char>) -> Seq<char> {
    s.map_values(|c: char| ascii_upper_char(c))
}

/// `str::to_ascii_uppercase`: `a` to `z` become `A` to `Z`, every other
/// character is kept.
#[verifier::external_body]
pub(crate) fn to_ascii_upper(s: &str) -> (r: String)
    ensures
        r@ == ascii_upper(s@),
{
    s.to_ascii_uppercase()
}

} // verus!
