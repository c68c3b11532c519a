//! Host name mappings for guest network connections: the `--dns-map`
//! option's grammar, the default table, and where a connection to an
//! address is routed.
use crate::error::Error;
use crate::parse::position_from;
use crate::text::{debug_quoted, debug_str, is_unicode_whitespace, is_whitespace_char};
use vstd::prelude::*;
use vstd::string::*;

verus! {

/// A host name (or dotted address) and the IPv4 address, and optionally the
/// port, that connections to it go to.
#[derive(Clone, Debug)]
pub struct DnsMapping {
    pub source: String,
    pub address: [u8; 4],
    pub port: Option<u16>,
}

/// A mapping as values.
pub struct MappingView {
    pub source: Seq<char>,
    pub address: Seq<u8>,
    pub port: Option<u16>,
}

impl View for DnsMapping {
    type V = MappingView;

    open spec fn view(&self) -> MappingView {
        MappingView { source: self.source@, address: self.address@, port: self.port }
    }
}

pub open spec fn mappings_view(s: Seq<DnsMapping>) -> Seq<MappingView> {
    s.map_values(|m: DnsMapping| m@)
}

// ---------------------------------------------------------------------------
// Text shapes

/// Where the first `x` from `from` on lies, when there is one.
pub proof fn lemma_position_bounds<A>(s: Seq<A>, x: A, from: int)
    requires
        0 <= from,
    ensures
        position_from(s, x, from) matches Some(i) ==> from <= i < s.len() && s[i] == x,
        position_from(s, x, from) is None ==> forall|k: int| from <= k < s.len() ==> s[k] != x,
    decreases s.len() - from,
{
    if from < s.len() && s[from] != x {
        lemma_position_bounds(s, x, from + 1);
    }
}

/// `s` split at every `c`, as `str::split` splits it.
pub open spec fn split_pieces(s: Seq<char>, c: char) -> Seq<Seq<char>>
    decreases s.len(),
{
    match position_from(s, c, 0) {
        None => seq![s],
        Some(i) => {
            proof {
                lemma_position_bounds(s, c, 0);
            }
            seq![s.take(i)] + split_pieces(s.skip(i + 1), c)
        },
    }
}

/// `s` without its leading whitespace.
pub open spec fn trim_start(s: Seq<char>) -> Seq<char>
    decreases s.len(),
{
    if s.len() > 0 && is_unicode_whitespace(s[0]) {
        trim_start(s.drop_first())
    } else {
        s
    }
}

/// `s` without its trailing whitespace.
pub open spec fn trim_end(s: Seq<char>) -> Seq<char>
    decreases s.len(),
{
    if s.len() > 0 && is_unicode_whitespace(s.last()) {
        trim_end(s.drop_last())
    } else {
        s
    }
}

/// `s` without leading and trailing whitespace, as `str::trim` leaves it.
pub open spec fn trimmed(s: Seq<char>) -> Seq<char> {
    trim_end(trim_start(s))
}

/// `s` without the copies of `c` at its end.
pub open spec fn trim_end_char(s: Seq<char>, c: char) -> Seq<char>
    decreases s.len(),
{
    if s.len() > 0 && s.last() == c {
        trim_end_char(s.drop_last(), c)
    } else {
        s
    }
}

pub open spec fn ascii_lower_char(c: char) -> char {
    if 'A' <= c <= 'Z' {
        ((c as u32) + 32) as char
    } else {
        c
    }
}

/// `s` with `A` to `Z` lowered.
pub open spec fn ascii_lower(s: Seq<char>) -> Seq<char> {
    s.map_values(|c: char| ascii_lower_char(c))
}

/// The first index from `i` on where `p` occurs in `s`.
pub open spec fn find_pattern(s: Seq<char>, p: Seq<char>, i: int) -> Option<int>
    decreases s.len() + 1 - i,
{
    if i < 0 || i + p.len() > s.len() {
        None
    } else if s.subrange(i, i + p.len()) == p {
        Some(i)
    } else {
        find_pattern(s, p, i + 1)
    }
}

/// `str::split`, collected: the pieces of `s` between the copies of `c`.
#[verifier::external_body]
fn split_str<'a>(s: &'a str, c: char) -> (r: Vec<&'a str>)
    ensures
        r@.len() == split_pieces(s@, c).len(),
        forall|i: int| 0 <= i < r@.len() ==> (#[trigger] r@[i])@ == split_pieces(s@, c)[i],
{
    s.split(c).collect()
}

/// `str::trim`: `s` without leading and trailing whitespace.
#[verifier::external_body]
fn trim_str<'a>(s: &'a str) -> (r: &'a str)
    ensures
        r@ == trimmed(s@),
{
    s.trim()
}

/// `str::trim_end_matches` with a `char` pattern.
#[verifier::external_body]
fn trim_end_matches_char<'a>(s: &'a str, c: char) -> (r: &'a str)
    ensures
        r@ == trim_end_char(s@, c),
{
    s.trim_end_matches(c)
}

/// `str::to_ascii_lowercase`.
#[verifier::external_body]
fn to_ascii_lower(s: &str) -> (r: String)
    ensures
        r@ == ascii_lower(s@),
{
    s.to_ascii_lowercase()
}

/// `str::split_once` with a string pattern: the text before and after the
/// first occurrence of `p`.
#[verifier::external_body]
fn split_once_str<'a>(s: &'a str, p: &str) -> (r: Option<(&'a str, &'a str)>)
    requires
        p@.len() > 0,
    ensures
        match find_pattern(s@, p@, 0) {
            Some(i) => r matches Some(q) && q.0@ == s@.take(i) && q.1@ == s@.skip(i + p@.len()),
            None => r is None,
        },
{
    s.split_once(p)
}

/// The characters of `s`.
fn chars_of(s: &str) -> (v: Vec<char>)
    ensures
        v@ == s@,
{
    let n = s.unicode_len();
    let mut v: Vec<char> = Vec::new();
    let mut i: usize = 0;
    while i < n
        invariant
            n == s@.len(),
            i <= n,
            v@ == s@.take(i as int),
        decreases n - i,
    {
        v.push(s.get_char(i));
        i = i + 1;
        assert(v@ =~= s@.take(i as int));
    }
    assert(s@.take(n as int) =~= s@);
    v
}

// ---------------------------------------------------------------------------
// IPv4 addresses and ports

pub open spec fn is_dec(c: char) -> bool {
    48 <= (c as u32) <= 57
}

/// How many decimal digits follow one another from index `i`.
pub open spec fn digit_run(s: Seq<char>, i: int) -> int
    decreases s.len() - i,
{
    if 0 <= i < s.len() && is_dec(s[i]) {
        1 + digit_run(s, i + 1)
    } else {
        0
    }
}

/// The value of the digits `s[i..j]`.
pub open spec fn dec_at(s: Seq<char>, i: int, j: int) -> int
    decreases j - i,
{
    if j <= i {
        0
    } else {
        dec_at(s, i, j - 1) * 10 + ((s[j - 1] as u32) - 48)
    }
}

/// The octet whose digits start at `i`: one to three digits, no leading
/// zero before another digit, at most 255; and the index after it.
pub open spec fn octet_at(s: Seq<char>, i: int) -> Option<(u8, int)> {
    let d = digit_run(s, i);
    if d == 0 || d > 3 || (d > 1 && s[i] == '0') || dec_at(s, i, i + d) > 255 {
        None
    } else {
        Some((dec_at(s, i, i + d) as u8, i + d))
    }
}

/// The dotted IPv4 address starting at `i`, and the index after it.
pub open spec fn ipv4_at(s: Seq<char>, i: int) -> Option<(Seq<u8>, int)> {
    match octet_at(s, i) {
        None => None,
        Some((a, j)) => if j >= s.len() || s[j] != '.' {
            None
        } else {
            match octet_at(s, j + 1) {
                None => None,
                Some((b, k)) => if k >= s.len() || s[k] != '.' {
                    None
                } else {
                    match octet_at(s, k + 1) {
                        None => None,
                        Some((c, l)) => if l >= s.len() || s[l] != '.' {
                            None
                        } else {
                            match octet_at(s, l + 1) {
                                None => None,
                                Some((d, e)) => Some((seq![a, b, c, d], e)),
                            }
                        },
                    }
                },
            }
        },
    }
}

/// `s` as an IPv4 address, as `Ipv4Addr`'s parser reads it.
pub open spec fn ipv4_spec(s: Seq<char>) -> Option<Seq<u8>> {
    match ipv4_at(s, 0) {
        Some((a, e)) => if e == s.len() {
            Some(a)
        } else {
            None
        },
        None => None,
    }
}

/// `s` as an IPv4 socket address: an IPv4 address, `:`, and a port of one
/// or more digits (leading zeros allowed) at most 65535.
pub open spec fn socket_spec(s: Seq<char>) -> Option<(Seq<u8>, u16)> {
    match ipv4_at(s, 0) {
        Some((a, e)) => {
            let d = digit_run(s, e + 1);
            if e < s.len() && s[e] == ':' && d > 0 && e + 1 + d == s.len() && dec_at(s, e + 1, e + 1 + d)
                <= 65535 {
                Some((a, dec_at(s, e + 1, e + 1 + d) as u16))
            } else {
                None
            }
        },
        None => None,
    }
}

/// A mapping target: an IPv4 address alone, or an IPv4 socket address.
pub open spec fn target_spec(s: Seq<char>) -> Option<(Seq<u8>, Option<u16>)> {
    match ipv4_spec(s) {
        Some(a) => Some((a, None)),
        None => match socket_spec(s) {
            Some((a, p)) => Some((a, Some(p))),
            None => None,
        },
    }
}

proof fn lemma_digit_run(s: Seq<char>, i: int)
    requires
        0 <= i,
    ensures
        0 <= digit_run(s, i),
        i + digit_run(s, i) <= s.len() || digit_run(s, i) == 0,
        forall|k: int| i <= k < i + digit_run(s, i) ==> is_dec(#[trigger] s[k]),
        i + digit_run(s, i) < s.len() ==> !is_dec(s[i + digit_run(s, i)]),
    decreases s.len() - i,
{
    if 0 <= i < s.len() && is_dec(s[i]) {
        lemma_digit_run(s, i + 1);
    }
}

proof fn lemma_dec_at_grows(s: Seq<char>, i: int, j: int, k: int)
    requires
        i <= j <= k,
        forall|t: int| i <= t < k ==> is_dec(#[trigger] s[t]),
    ensures
        0 <= dec_at(s, i, j) <= dec_at(s, i, k),
    decreases k - j,
{
    if j < k {
        lemma_dec_at_grows(s, i, j, k - 1);
        lemma_dec_at_nonneg(s, i, k - 1);
    } else {
        lemma_dec_at_nonneg(s, i, j);
    }
}

proof fn lemma_dec_at_nonneg(s: Seq<char>, i: int, j: int)
    requires
        i <= j,
        forall|t: int| i <= t < j ==> is_dec(#[trigger] s[t]),
    ensures
        0 <= dec_at(s, i, j),
    decreases j - i,
{
    if i < j {
        lemma_dec_at_nonneg(s, i, j - 1);
    }
}

/// The digits of `s` from `i` and their value, stopping early once the
/// value passes `limit`: the run length and the value, or `None` when the
/// value of the whole run is more than `limit`.
fn read_digits(s: &[char], i: usize, limit: u32) -> (r: (usize, Option<u32>))
    requires
        i <= s@.len(),
    ensures
        r.0 == digit_run(s@, i as int),
        i + r.0 <= s@.len(),
        i + r.0 <= usize::MAX,
        match r.1 {
            Some(v) => v == dec_at(s@, i as int, i + r.0) && v <= limit,
            None => dec_at(s@, i as int, i + r.0) > limit,
        },
{
    proof {
        lemma_digit_run(s@, i as int);
    }
    let ghost run = digit_run(s@, i as int);
    let mut j: usize = i;
    let mut value: u32 = 0;
    let mut over = false;
    while j < s.len() && 48 <= (s[j] as u32) && (s[j] as u32) <= 57
        invariant
            i <= j <= s@.len(),
            j <= i + run,
            run == digit_run(s@, i as int),
            forall|k: int| i <= k < i + run ==> is_dec(#[trigger] s@[k]),
            i + run < s@.len() ==> !is_dec(s@[i + run]),
            i + run <= s@.len(),
            !over ==> value == dec_at(s@, i as int, j as int) && value <= limit,
            over ==> dec_at(s@, i as int, j as int) > limit,
        decreases s.len() - j,
    {
        let d = (s[j] as u32) - 48;
        if !over {
            let next: u64 = (value as u64) * 10 + (d as u64);
            assert(dec_at(s@, i as int, j + 1) == value * 10 + d);
            if next > limit as u64 {
                over = true;
            } else {
                value = next as u32;
            }
        } else {
            proof {
                lemma_dec_at_nonneg(s@, i as int, j as int);
            }
            assert(dec_at(s@, i as int, j + 1) == dec_at(s@, i as int, j as int) * 10 + d);
        }
        j = j + 1;
    }
    assert(j == i + run);
    (j - i, if over {
        None
    } else {
        Some(value)
    })
}

fn read_octet(s: &[char], i: usize) -> (r: Option<(u8, usize)>)
    requires
        i <= s@.len(),
    ensures
        match octet_at(s@, i as int) {
            Some((v, e)) => r matches Some(q) && q.0 == v && q.1 == e,
            None => r is None,
        },
{
    let (d, value) = read_digits(s, i, 255);
    if d == 0 || d > 3 || (d > 1 && s[i] == '0') {
        return None;
    }
    match value {
        Some(v) => Some((v as u8, i + d)),
        None => None,
    }
}

fn read_ipv4(s: &[char]) -> (r: Option<([u8; 4], usize)>)
    ensures
        match ipv4_at(s@, 0) {
            Some((a, e)) => r matches Some(q) && q.0@ == a && q.1 == e,
            None => r is None,
        },
{
    let (a, j) = match read_octet(s, 0) {
        Some(x) => x,
        None => return None,
    };
    if j >= s.len() || s[j] != '.' {
        return None;
    }
    let (b, k) = match read_octet(s, j + 1) {
        Some(x) => x,
        None => return None,
    };
    if k >= s.len() || s[k] != '.' {
        return None;
    }
    let (c, l) = match read_octet(s, k + 1) {
        Some(x) => x,
        None => return None,
    };
    if l >= s.len() || s[l] != '.' {
        return None;
    }
    let (d, e) = match read_octet(s, l + 1) {
        Some(x) => x,
        None => return None,
    };
    let address = [a, b, c, d];
    assert(address@ =~= seq![a, b, c, d]);
    Some((address, e))
}

/// `s` as an IPv4 address (see `ipv4_spec`).
pub fn parse_ipv4(s: &[char]) -> (r: Option<[u8; 4]>)
    ensures
        match ipv4_spec(s@) {
            Some(a) => r matches Some(q) && q@ == a,
            None => r is None,
        },
{
    match read_ipv4(s) {
        Some((a, e)) => if e == s.len() {
            Some(a)
        } else {
            None
        },
        None => None,
    }
}

/// `s` as a mapping target (see `target_spec`).
pub fn parse_target(s: &[char]) -> (r: Option<([u8; 4], Option<u16>)>)
    ensures
        match target_spec(s@) {
            Some((a, p)) => r matches Some(q) && q.0@ == a && q.1 == p,
            None => r is None,
        },
{
    if let Some(a) = parse_ipv4(s) {
        return Some((a, None));
    }
    let (a, e) = match read_ipv4(s) {
        Some(x) => x,
        None => return None,
    };
    if e >= s.len() || s[e] != ':' {
        return None;
    }
    let (d, value) = read_digits(s, e + 1, 65535);
    if d == 0 || e + 1 + d != s.len() {
        return None;
    }
    match value {
        Some(v) => Some((a, Some(v as u16))),
        None => None,
    }
}

// ---------------------------------------------------------------------------
// The option's grammar

pub open spec fn all_ascii(s: Seq<char>) -> bool {
    forall|k: int| 0 <= k < s.len() ==> (#[trigger] s[k] as u32) < 128
}

pub open spec fn invalid_item_text(item: Seq<char>) -> Seq<char> {
    "invalid DNS mapping "@ + debug_quoted(item) + "; expected SOURCE->IPv4[:PORT]"@
}

pub open spec fn invalid_source_text(source: Seq<char>) -> Seq<char> {
    "invalid DNS mapping source "@ + debug_quoted(source)
}

pub open spec fn duplicate_source_text(source: Seq<char>) -> Seq<char> {
    "duplicate DNS mapping source "@ + debug_quoted(source)
}

pub open spec fn invalid_target_text(target: Seq<char>) -> Seq<char> {
    "invalid DNS mapping target "@ + debug_quoted(target) + "; expected IPv4[:PORT]"@
}

/// Some mapping of `acc` has the source `source`.
pub open spec fn has_source(acc: Seq<MappingView>, source: Seq<char>) -> bool {
    exists|j: int| 0 <= j < acc.len() && (#[trigger] acc[j]).source == source
}

/// The mappings the items `items[i..]` add to `acc`, or the error of the
/// first bad item.  Each item is trimmed and skipped when empty; it is
/// `SOURCE->TARGET`; the source is trimmed, loses its trailing dots and is
/// lowered, and must be a new, non-empty ASCII name; the target is trimmed
/// and must be an IPv4 address with an optional port.
pub open spec fn parse_items(items: Seq<Seq<char>>, i: int, acc: Seq<MappingView>) -> Result<
    Seq<MappingView>,
    Seq<char>,
>
    decreases items.len() - i,
{
    if i < 0 || i >= items.len() {
        Ok(acc)
    } else {
        let item = trimmed(items[i]);
        if item.len() == 0 {
            parse_items(items, i + 1, acc)
        } else {
            match find_pattern(item, "->"@, 0) {
                None => Err(invalid_item_text(item)),
                Some(k) => {
                    let source = ascii_lower(trim_end_char(trimmed(item.take(k)), '.'));
                    let target = trimmed(item.skip(k + 2));
                    if source.len() == 0 || !all_ascii(source) {
                        Err(invalid_source_text(source))
                    } else if has_source(acc, source) {
                        Err(duplicate_source_text(source))
                    } else {
                        match target_spec(target) {
                            None => Err(invalid_target_text(target)),
                            Some((a, p)) => parse_items(
                                items,
                                i + 1,
                                acc.push(MappingView { source, address: a, port: p }),
                            ),
                        }
                    }
                },
            }
        }
    }
}

/// The mappings a `--dns-map` value lists, `;`-separated.
pub open spec fn dns_mappings_spec(value: Seq<char>) -> Result<Seq<MappingView>, Seq<char>> {
    parse_items(split_pieces(value, ';'), 0, Seq::empty())
}

fn has_source_exec(acc: &Vec<DnsMapping>, source: &String) -> (r: bool)
    ensures
        r == has_source(mappings_view(acc@), source@),
{
    let mut j: usize = 0;
    while j < acc.len()
        invariant
            j <= acc@.len(),
            forall|k: int| 0 <= k < j ==> acc@[k].source@ != source@,
        decreases acc.len() - j,
    {
        if acc[j].source == *source {
            assert(mappings_view(acc@)[j as int].source == source@);
            return true;
        }
        j = j + 1;
    }
    proof {
        if has_source(mappings_view(acc@), source@) {
            let k = choose|k: int|
                0 <= k < mappings_view(acc@).len() && (#[trigger] mappings_view(acc@)[k]).source
                    == source@;
            assert(acc@[k].source@ == source@);
        }
    }
    false
}

fn config_error<T>(m: String) -> (r: Result<T, Error>)
    ensures
        r matches Err(Error::Config(x)) && x@ == m@,
{
    Err(Error::Config(m))
}

/// The mappings a `--dns-map` value lists (see `dns_mappings_spec`).
#[verifier::loop_isolation(false)]
pub fn parse_dns_mappings(value: &str) -> (r: Result<Vec<DnsMapping>, Error>)
    ensures
        match dns_mappings_spec(value@) {
            Ok(ms) => r matches Ok(v) && mappings_view(v@) == ms,
            Err(t) => r matches Err(Error::Config(m)) && m@ == t,
        },
{
    proof {
        reveal_strlit("->");
        reveal_strlit("invalid DNS mapping ");
        reveal_strlit("; expected SOURCE->IPv4[:PORT]");
        reveal_strlit("invalid DNS mapping source ");
        reveal_strlit("duplicate DNS mapping source ");
        reveal_strlit("invalid DNS mapping target ");
        reveal_strlit("; expected IPv4[:PORT]");
    }
    let items = split_str(value, ';');
    let ghost pieces = split_pieces(value@, ';');
    let mut mappings: Vec<DnsMapping> = Vec::new();
    assert(mappings_view(mappings@) =~= Seq::<MappingView>::empty());
    let mut i: usize = 0;
    while i < items.len()
        invariant
            i <= items@.len(),
            items@.len() == pieces.len(),
            forall|k: int| 0 <= k < items@.len() ==> (#[trigger] items@[k])@ == pieces[k],
            pieces == split_pieces(value@, ';'),
            dns_mappings_spec(value@) == parse_items(pieces, i as int, mappings_view(mappings@)),
        decreases items.len() - i,
    {
        let item = trim_str(items[i]);
        if item.unicode_len() == 0 {
            i = i + 1;
            continue;
        }
        let (source_text, target_text) = match split_once_str(item, "->") {
            Some(p) => p,
            None => {
                let m = String::from_str("invalid DNS mapping ").concat(debug_str(item).as_str()).concat(
                    "; expected SOURCE->IPv4[:PORT]",
                );
                return config_error(m);
            },
        };
        let source = to_ascii_lower(trim_end_matches_char(trim_str(source_text), '.'));
        let target = trim_str(target_text);
        let source_chars = chars_of(source.as_str());
        let mut ascii = true;
        let mut k: usize = 0;
        while k < source_chars.len()
            invariant
                k <= source_chars@.len(),
                ascii == forall|t: int| 0 <= t < k ==> (#[trigger] source_chars@[t] as u32) < 128,
            decreases source_chars.len() - k,
        {
            if source_chars[k] as u32 >= 128 {
                ascii = false;
            }
            k = k + 1;
        }
        if source_chars.len() == 0 || !ascii {
            let m = String::from_str("invalid DNS mapping source ").concat(
                debug_str(source.as_str()).as_str(),
            );
            return config_error(m);
        }
        if has_source_exec(&mappings, &source) {
            let m = String::from_str("duplicate DNS mapping source ").concat(
                debug_str(source.as_str()).as_str(),
            );
            return config_error(m);
        }
        let target_chars = chars_of(target);
        let (address, port) = match parse_target(target_chars.as_slice()) {
            Some(t) => t,
            None => {
                let m = String::from_str("invalid DNS mapping target ").concat(
                    debug_str(target).as_str(),
                ).concat("; expected IPv4[:PORT]");
                return config_error(m);
            },
        };
        let ghost before = mappings@;
        mappings.push(DnsMapping { source, address, port });
        assert(mappings_view(mappings@) =~= mappings_view(before).push(
            MappingView { source: source@, address: address@, port },
        ));
        i = i + 1;
    }
    Ok(mappings)
}

// ---------------------------------------------------------------------------
// Defaults, the option, and routing

/// The address the default host names resolve to.
pub open spec fn default_address() -> Seq<u8> {
    seq![159u8, 75u8, 119u8, 124u8]
}

/// The default mappings: the three service host names to the default
/// address, with no port.
pub open spec fn default_mappings_spec() -> Seq<MappingView> {
    seq![
        MappingView { source: "rop.skymobiapp.com"@, address: default_address(), port: None },
        MappingView { source: "spd.skymobiapp.com"@, address: default_address(), port: None },
        MappingView { source: "wap.skmeg.com"@, address: default_address(), port: None },
    ]
}

/// The mappings in force when no `--dns-map` is given.
pub fn default_dns_mappings() -> (r: Vec<DnsMapping>)
    ensures
        mappings_view(r@) == default_mappings_spec(),
{
    let address = [159u8, 75u8, 119u8, 124u8];
    let r = vec![
        DnsMapping { source: String::from_str("rop.skymobiapp.com"), address, port: None },
        DnsMapping { source: String::from_str("spd.skymobiapp.com"), address, port: None },
        DnsMapping { source: String::from_str("wap.skmeg.com"), address, port: None },
    ];
    assert(address@ =~= default_address());
    assert(mappings_view(r@) =~= default_mappings_spec());
    r
}

/// Applies a `--dns-map` value: when one is given, its mappings replace all
/// the mappings in force; without one nothing changes.  A bad value changes
/// nothing and is refused.
pub fn apply_dns_map_option(mappings: &mut Vec<DnsMapping>, value: Option<&str>) -> (r: Result<
    (),
    Error,
>)
    ensures
        match value {
            None => r is Ok && final(mappings)@ == old(mappings)@,
            Some(v) => match dns_mappings_spec(v@) {
                Ok(ms) => r is Ok && mappings_view(final(mappings)@) == ms,
                Err(t) => (r matches Err(Error::Config(m)) && m@ == t) && final(mappings)@ == old(
                    mappings,
                )@,
            },
        },
{
    if let Some(v) = value {
        match parse_dns_mappings(v) {
            Ok(parsed) => {
                *mappings = parsed;
            },
            Err(e) => return Err(e),
        }
    }
    Ok(())
}

/// The legacy WAP gateway, 10.0.0.172, that the in-process proxy serves.
pub const WAP_PROXY_ADDRESS: u32 = 0x0a00_00ac;

/// The octets of `ip`, most significant first.
pub open spec fn octets_of(ip: u32) -> Seq<u8> {
    seq![
        (ip / 0x0100_0000) as u8,
        (ip / 0x0001_0000 % 256) as u8,
        (ip / 0x100 % 256) as u8,
        (ip % 256) as u8,
    ]
}

/// The address the octets `a` name, most significant first.
pub open spec fn address_value(a: Seq<u8>) -> u32 {
    (a[0] * 0x0100_0000 + a[1] * 0x0001_0000 + a[2] * 0x100 + a[3]) as u32
}

/// The first mapping from `i` on whose source is the dotted address `ip`.
pub open spec fn first_source_match(ms: Seq<MappingView>, ip: u32, i: int) -> Option<int>
    decreases ms.len() - i,
{
    if i < 0 || i >= ms.len() {
        None
    } else if ipv4_spec(ms[i].source) == Some(octets_of(ip)) {
        Some(i)
    } else {
        first_source_match(ms, ip, i + 1)
    }
}

/// The first mapping from `i` on with a port whose target is `ip`.
pub open spec fn first_port_match(ms: Seq<MappingView>, ip: u32, i: int) -> Option<int>
    decreases ms.len() - i,
{
    if i < 0 || i >= ms.len() {
        None
    } else if ms[i].port is Some && ms[i].address == octets_of(ip) {
        Some(i)
    } else {
        first_port_match(ms, ip, i + 1)
    }
}

/// Where a connection to `ip`:`port` goes: a mapping whose source is that
/// address sends it to the mapping's target (keeping the port unless the
/// mapping has one); else a connection to the WAP gateway goes to the
/// in-process proxy when there is one; else a mapping with a port whose
/// target is `ip` gives the port; else nothing changes.
pub open spec fn route_spec(ms: Seq<MappingView>, proxy: Option<(Seq<u8>, u16)>, ip: u32, port: u32) -> (
    u32,
    u32,
) {
    match first_source_match(ms, ip, 0) {
        Some(i) => (
            address_value(ms[i].address),
            match ms[i].port {
                Some(p) => p as u32,
                None => port,
            },
        ),
        None => match proxy {
            Some((a, p)) if ip == WAP_PROXY_ADDRESS => (address_value(a), p as u32),
            _ => match first_port_match(ms, ip, 0) {
                Some(i) => (ip, ms[i].port->0 as u32),
                None => (ip, port),
            },
        },
    }
}

fn value_of(a: [u8; 4]) -> (r: u32)
    ensures
        r == address_value(a@),
{
    (a[0] as u32) * 0x0100_0000 + (a[1] as u32) * 0x0001_0000 + (a[2] as u32) * 0x100 + (a[3] as u32)
}

fn octets(ip: u32) -> (r: [u8; 4])
    ensures
        r@ == octets_of(ip),
{
    let r = [
        (ip / 0x0100_0000) as u8,
        (ip / 0x0001_0000 % 256) as u8,
        (ip / 0x100 % 256) as u8,
        (ip % 256) as u8,
    ];
    assert(r@ =~= octets_of(ip));
    r
}

fn same_octets(a: [u8; 4], b: [u8; 4]) -> (r: bool)
    ensures
        r == (a@ == b@),
{
    let r = a[0] == b[0] && a[1] == b[1] && a[2] == b[2] && a[3] == b[3];
    if r {
        assert(a@ =~= b@);
    }
    r
}

/// Where a connection to `ip`:`port` goes under `mappings` and the
/// in-process `proxy` (see `route_spec`).
#[verifier::loop_isolation(false)]
pub fn route_mapped_endpoint(
    mappings: &[DnsMapping],
    proxy: Option<([u8; 4], u16)>,
    ip: u32,
    port: u32,
) -> (r: (u32, u32))
    ensures
        r == route_spec(
            mappings_view(mappings@),
            match proxy {
                Some((a, p)) => Some((a@, p)),
                None => None,
            },
            ip,
            port,
        ),
{
    let ghost ms = mappings_view(mappings@);
    let target = octets(ip);
    let mut i: usize = 0;
    while i < mappings.len()
        invariant
            i <= mappings@.len(),
            ms == mappings_view(mappings@),
            target@ == octets_of(ip),
            first_source_match(ms, ip, 0) == first_source_match(ms, ip, i as int),
        decreases mappings.len() - i,
    {
        let source = chars_of(mappings[i].source.as_str());
        let parsed = parse_ipv4(source.as_slice());
        let hit = match parsed {
            Some(a) => same_octets(a, target),
            None => false,
        };
        assert(ms[i as int] == mappings@[i as int]@);
        if hit {
            let p = match mappings[i].port {
                Some(p) => p as u32,
                None => port,
            };
            return (value_of(mappings[i].address), p);
        }
        i = i + 1;
    }
    if ip == WAP_PROXY_ADDRESS {
        if let Some((a, p)) = proxy {
            return (value_of(a), p as u32);
        }
    }
    let mut j: usize = 0;
    while j < mappings.len()
        invariant
            j <= mappings@.len(),
            ms == mappings_view(mappings@),
            target@ == octets_of(ip),
            first_port_match(ms, ip, 0) == first_port_match(ms, ip, j as int),
        decreases mappings.len() - j,
    {
        assert(ms[j as int] == mappings@[j as int]@);
        if let Some(p) = mappings[j].port {
            if same_octets(mappings[j].address, target) {
                return (ip, p as u32);
            }
        }
        j = j + 1;
    }
    (ip, port)
}

/// An explicit mapping for the WAP gateway's address overrides the
/// in-process proxy: whatever the proxy, a connection to the gateway goes
/// where the first such mapping says.
pub proof fn lemma_explicit_gateway_mapping_wins(
    ms: Seq<MappingView>,
    proxy: Option<(Seq<u8>, u16)>,
    other: Option<(Seq<u8>, u16)>,
    port: u32,
)
    requires
        first_source_match(ms, WAP_PROXY_ADDRESS, 0) is Some,
    ensures
        route_spec(ms, proxy, WAP_PROXY_ADDRESS, port) == route_spec(
            ms,
            other,
            WAP_PROXY_ADDRESS,
            port,
        ),
        route_spec(ms, proxy, WAP_PROXY_ADDRESS, port).0 == address_value(
            ms[first_source_match(ms, WAP_PROXY_ADDRESS, 0)->0].address,
        ),
{
}

/// Without a mapping for the gateway's address, a connection to the
/// gateway goes to the in-process proxy when there is one.
pub proof fn lemma_gateway_goes_to_proxy(
    ms: Seq<MappingView>,
    proxy: (Seq<u8>, u16),
    port: u32,
)
    requires
        first_source_match(ms, WAP_PROXY_ADDRESS, 0) is None,
    ensures
        route_spec(ms, Some(proxy), WAP_PROXY_ADDRESS, port) == (address_value(proxy.0), proxy.1 as u32),
{
}

/// `b` with ASCII capitals made small.
pub open spec fn ascii_lower_byte(b: u8) -> u8 {
    if 65 <= b <= 90 {
        (b + 32) as u8
    } else {
        b
    }
}

/// The two byte strings are equal but for ASCII case.
pub open spec fn ascii_case_equal(a: Seq<u8>, b: Seq<u8>) -> bool {
    a.len() == b.len() && forall|i: int| 0 <= i < a.len() ==> ascii_lower_byte(#[trigger] a[i]) == ascii_lower_byte(b[i])
}

/// `name` without its trailing dots.
pub open spec fn without_trailing_dots(name: Seq<u8>) -> Seq<u8>
    decreases name.len(),
{
    if name.len() > 0 && name.last() == 46 {
        without_trailing_dots(name.drop_last())
    } else {
        name
    }
}

/// The first mapping from `i` on whose source names `name`, ASCII case
/// aside.
pub open spec fn first_name_match(ms: Seq<MappingView>, name: Seq<u8>, i: int) -> Option<int>
    decreases ms.len() - i,
{
    if i < 0 || i >= ms.len() {
        None
    } else if ascii_case_equal(vstd::utf8::encode_utf8(ms[i].source), name) {
        Some(i)
    } else {
        first_name_match(ms, name, i + 1)
    }
}

/// The address a host name resolves to under `ms`: a name that is not
/// UTF-8 resolves to nothing; otherwise its trailing dots are dropped and
/// the first mapping whose source names it, ASCII case aside, gives the
/// address.
pub open spec fn resolve_spec(ms: Seq<MappingView>, name: Seq<u8>) -> Option<u32> {
    if !vstd::utf8::valid_utf8(name) {
        None
    } else {
        match first_name_match(ms, without_trailing_dots(name), 0) {
            Some(i) => Some(address_value(ms[i].address)),
            None => None,
        }
    }
}

fn ascii_equal_exec(a: &[u8], b: &[u8]) -> (r: bool)
    ensures
        r == ascii_case_equal(a@, b@),
{
    if a.len() != b.len() {
        return false;
    }
    let mut i: usize = 0;
    while i < a.len()
        invariant
            i <= a.len(),
            a.len() == b.len(),
            forall|k: int| 0 <= k < i ==> ascii_lower_byte(#[trigger] a@[k]) == ascii_lower_byte(b@[k]),
        decreases a.len() - i,
    {
        let x = if 65 <= a[i] && a[i] <= 90 { a[i] + 32 } else { a[i] };
        let y = if 65 <= b[i] && b[i] <= 90 { b[i] + 32 } else { b[i] };
        if x != y {
            return false;
        }
        i = i + 1;
    }
    true
}

/// The address `name` resolves to under `mappings` (see `resolve_spec`).
pub fn resolve_mapped_host(mappings: &[DnsMapping], name: &[u8]) -> (r: Option<u32>)
    ensures
        r == resolve_spec(mappings_view(mappings@), name@),
{
    if !crate::http::is_utf8(name) {
        return None;
    }
    let mut n: usize = name.len();
    assert(name@.subrange(0, n as int) =~= name@);
    while n > 0 && name[n - 1] == 46
        invariant
            n <= name.len(),
            without_trailing_dots(name@) == without_trailing_dots(name@.subrange(0, n as int)),
        decreases n,
    {
        assert(name@.subrange(0, n as int).drop_last() =~= name@.subrange(0, n - 1));
        n = n - 1;
    }
    let trimmed = slice_prefix(name, n);
    assert(without_trailing_dots(name@.subrange(0, n as int)) == name@.subrange(0, n as int));
    let ghost ms = mappings_view(mappings@);
    let mut i: usize = 0;
    while i < mappings.len()
        invariant
            i <= mappings@.len(),
            ms == mappings_view(mappings@),
            trimmed@ == without_trailing_dots(name@),
            vstd::utf8::valid_utf8(name@),
            first_name_match(ms, trimmed@, 0) == first_name_match(ms, trimmed@, i as int),
        decreases mappings.len() - i,
    {
        let source = mappings[i].source.as_str().as_bytes();
        assert(ms[i as int] == mappings@[i as int]@);
        assert(source@ == vstd::utf8::encode_utf8(ms[i as int].source));
        if ascii_equal_exec(source, trimmed.as_slice()) {
            assert(first_name_match(ms, trimmed@, i as int) == Some(i as int));
            return Some(value_of(mappings[i].address));
        }
        i = i + 1;
    }
    None
}

fn slice_prefix(s: &[u8], n: usize) -> (r: Vec<u8>)
    requires
        n <= s@.len(),
    ensures
        r@ == s@.subrange(0, n as int),
{
    let mut r: Vec<u8> = Vec::new();
    let mut i: usize = 0;
    while i < n
        invariant
            i <= n <= s@.len(),
            r@ == s@.subrange(0, i as int),
        decreases n - i,
    {
        r.push(s[i]);
        i = i + 1;
        assert(r@ =~= s@.subrange(0, i as int));
    }
    r
}


/// Mapping `m`'s source names `name`, ASCII case aside.
pub open spec fn names_host(m: MappingView, name: Seq<u8>) -> bool {
    ascii_case_equal(vstd::utf8::encode_utf8(m.source), name)
}

proof fn lemma_first_name_match(ms: Seq<MappingView>, name: Seq<u8>, i: int)
    requires
        0 <= i,
    ensures
        match first_name_match(ms, name, i) {
            Some(k) => i <= k < ms.len() && names_host(ms[k], name) && forall|j: int|
                i <= j < k ==> !names_host(#[trigger] ms[j], name),
            None => forall|j: int| i <= j < ms.len() ==> !names_host(#[trigger] ms[j], name),
        },
    decreases ms.len() - i,
{
    if i < ms.len() {
        lemma_first_name_match(ms, name, i + 1);
    }
}

/// Resolving a host name gives an address exactly when the name is UTF-8
/// and some mapping's source names it (trailing dots dropped, ASCII case
/// aside); the address is then that of the first such mapping, read as a
/// big-endian IPv4 address.
pub proof fn lemma_resolve_gives_the_matching_mapping(ms: Seq<MappingView>, name: Seq<u8>)
    ensures
        ({
            let trimmed = without_trailing_dots(name);
            &&& resolve_spec(ms, name) is Some <==> (vstd::utf8::valid_utf8(name) && exists|i: int|
                0 <= i < ms.len() && #[trigger] names_host(ms[i], trimmed))
            &&& resolve_spec(ms, name) matches Some(a) ==> exists|i: int|
                {
                    &&& 0 <= i < ms.len()
                    &&& #[trigger] names_host(ms[i], trimmed)
                    &&& forall|j: int| 0 <= j < i ==> !names_host(#[trigger] ms[j], trimmed)
                    &&& a == address_value(ms[i].address)
                    &&& (ms[i].address.len() == 4 ==> a as int == ms[i].address[0] * 0x0100_0000
                        + ms[i].address[1] * 0x0001_0000 + ms[i].address[2] * 0x100 + ms[i].address[3])
                }
        }),
{
    lemma_first_name_match(ms, without_trailing_dots(name), 0);
}

} // verus!
