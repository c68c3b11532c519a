//! Recognising the first HTTP/1.x request that a guest writes to a socket,
//! so that its `Host` header can route the connection.
use vstd::prelude::*;
use vstd::string::*;
use vstd::utf8::valid_utf8;
use crate::parse::{find_byte, parse_unsigned, parse_unsigned_spec, position_from};

verus! {

// ---------------------------------------------------------------------------
// Byte classes
pub open spec fn is_alphanumeric(b: u8) -> bool {
    (0x30 <= b <= 0x39) || (0x41 <= b <= 0x5a) || (0x61 <= b <= 0x7a)
}

/// A byte that may appear in an HTTP token (RFC 9110 `tchar`).
pub open spec fn is_token_byte(b: u8) -> bool {
    is_alphanumeric(b) || b == 0x21 || b == 0x23 || b == 0x24 || b == 0x25 || b == 0x26 || b
        == 0x27 || b == 0x2a || b == 0x2b || b == 0x2d || b == 0x2e || b == 0x5e || b == 0x5f || b
        == 0x60 || b == 0x7c || b == 0x7e
}

/// A non-empty run of token bytes.
pub open spec fn is_token(s: Seq<u8>) -> bool {
    s.len() > 0 && forall|i: int| 0 <= i < s.len() ==> is_token_byte(#[trigger] s[i])
}

pub open spec fn is_control(b: u8) -> bool {
    b < 0x20 || b == 0x7f
}

/// ASCII whitespace as `u8::is_ascii_whitespace` has it: space, tab, line
/// feed, form feed and carriage return.
pub open spec fn is_ascii_space(b: u8) -> bool {
    b == 0x20 || b == 0x09 || b == 0x0a || b == 0x0c || b == 0x0d
}

pub open spec fn all_ascii(s: Seq<u8>) -> bool {
    forall|i: int| 0 <= i < s.len() ==> #[trigger] s[i] < 0x80
}

pub open spec fn no_control(s: Seq<u8>) -> bool {
    forall|i: int| 0 <= i < s.len() ==> !is_control(#[trigger] s[i])
}

fn token_byte(b: u8) -> (r: bool)
    ensures
        r == is_token_byte(b),
{
    (0x30 <= b && b <= 0x39) || (0x41 <= b && b <= 0x5a) || (0x61 <= b && b <= 0x7a) || b == 0x21
        || b == 0x23 || b == 0x24 || b == 0x25 || b == 0x26 || b == 0x27 || b == 0x2a || b == 0x2b
        || b == 0x2d || b == 0x2e || b == 0x5e || b == 0x5f || b == 0x60 || b == 0x7c || b == 0x7e
}

fn token_bytes(s: &[u8]) -> (r: bool)
    ensures
        r == is_token(s@),
{
    if s.len() == 0 {
        return false;
    }
    let mut i: usize = 0;
    while i < s.len()
        invariant
            i <= s@.len(),
            forall|k: int| 0 <= k < i ==> is_token_byte(#[trigger] s@[k]),
        decreases s@.len() - i,
    {
        if !token_byte(s[i]) {
            return false;
        }
        i += 1;
    }
    true
}

/// Whether `value` is a non-empty HTTP token.
pub fn is_http_token(value: &str) -> (r: bool)
    ensures
        r == is_token(value.spec_bytes()),
{
    token_bytes(value.as_bytes())
}

fn ascii_bytes(s: &[u8]) -> (r: bool)
    ensures
        r == all_ascii(s@),
{
    let mut i: usize = 0;
    while i < s.len()
        invariant
            i <= s@.len(),
            forall|k: int| 0 <= k < i ==> #[trigger] s@[k] < 0x80,
        decreases s@.len() - i,
    {
        if s[i] >= 0x80 {
            return false;
        }
        i += 1;
    }
    true
}

fn control_free(s: &[u8]) -> (r: bool)
    ensures
        r == no_control(s@),
{
    let mut i: usize = 0;
    while i < s.len()
        invariant
            i <= s@.len(),
            forall|k: int| 0 <= k < i ==> !is_control(#[trigger] s@[k]),
        decreases s@.len() - i,
    {
        if s[i] < 0x20 || s[i] == 0x7f {
            return false;
        }
        i += 1;
    }
    true
}

// ---------------------------------------------------------------------------
// Request line
pub open spec fn http_version(v: Seq<u8>) -> bool {
    v == seq![0x48u8, 0x54u8, 0x54u8, 0x50u8, 0x2fu8, 0x31u8, 0x2eu8, 0x30u8] || v == seq![
        0x48u8,
        0x54u8,
        0x54u8,
        0x50u8,
        0x2fu8,
        0x31u8,
        0x2eu8,
        0x31u8,
    ]
}

/// `METHOD TARGET VERSION`: exactly three space-separated parts, a token
/// method, a non-empty target without control bytes, and `HTTP/1.0` or
/// `HTTP/1.1`.
pub open spec fn request_line_ok(b: Seq<u8>) -> bool {
    match position_from(b, 0x20u8, 0) {
        None => false,
        Some(i) => {
            let rest = b.skip(i + 1);
            match position_from(rest, 0x20u8, 0) {
                None => false,
                Some(j) => {
                    let version = rest.skip(j + 1);
                    &&& position_from(version, 0x20u8, 0) is None
                    &&& is_token(b.take(i))
                    &&& j > 0
                    &&& no_control(rest.take(j))
                    &&& http_version(version)
                }
            }
        },
    }
}

fn version_ok(v: &[u8]) -> (r: bool)
    ensures
        r == http_version(v@),
{
    let ok = v.len() == 8 && v[0] == 0x48 && v[1] == 0x54 && v[2] == 0x54 && v[3] == 0x50 && v[4]
        == 0x2f && v[5] == 0x31 && v[6] == 0x2e && (v[7] == 0x30 || v[7] == 0x31);
    proof {
        if ok {
            if v@[7] == 0x30 {
                assert(v@ =~= seq![0x48u8, 0x54u8, 0x54u8, 0x50u8, 0x2fu8, 0x31u8, 0x2eu8, 0x30u8]);
            } else {
                assert(v@ =~= seq![0x48u8, 0x54u8, 0x54u8, 0x50u8, 0x2fu8, 0x31u8, 0x2eu8, 0x31u8]);
            }
        }
    }
    ok
}

fn request_line_bytes(b: &[u8]) -> (r: bool)
    ensures
        r == request_line_ok(b@),
{
    let n = b.len();
    let i = match find_byte(b, 0x20, 0) {
        Some(i) => i,
        None => return false,
    };
    let rest = &b[i + 1..n];
    assert(rest@ =~= b@.skip(i + 1));
    let j = match find_byte(rest, 0x20, 0) {
        Some(j) => j,
        None => return false,
    };
    let version = &rest[j + 1..rest.len()];
    assert(version@ =~= rest@.skip(j + 1));
    assert(b@.subrange(0, i as int) =~= b@.take(i as int));
    assert(rest@.subrange(0, j as int) =~= rest@.take(j as int));
    find_byte(version, 0x20, 0).is_none() && token_bytes(&b[0..i]) && j > 0 && control_free(
        &rest[0..j],
    ) && version_ok(version)
}

/// Whether `line` is an ASCII HTTP/1.x request line.
pub fn valid_http_request_line(line: &str) -> (r: bool)
    ensures
        r == (is_ascii(line) && request_line_ok(line.spec_bytes())),
{
    line.is_ascii() && request_line_bytes(line.as_bytes())
}

// ---------------------------------------------------------------------------
// Authority
/// A host name, lower-cased, and an optional port.
#[derive(Clone, Debug, PartialEq, Eq)]
pub struct HttpAuthority {
    pub host: Vec<u8>,
    pub port: Option<u16>,
}

/// The host and port of an authority, as byte strings.
pub struct AuthorityView {
    pub host: Seq<u8>,
    pub port: Option<u16>,
}

pub open spec fn authority_view(a: HttpAuthority) -> AuthorityView {
    AuthorityView { host: a.host@, port: a.port }
}

/// `s` without its trailing dots.
pub open spec fn trim_dots(s: Seq<u8>) -> Seq<u8>
    decreases s.len(),
{
    if s.len() > 0 && s.last() == 0x2e {
        trim_dots(s.drop_last())
    } else {
        s
    }
}

pub open spec fn lower_byte(b: u8) -> u8 {
    if 0x41 <= b <= 0x5a {
        (b + 0x20) as u8
    } else {
        b
    }
}

pub open spec fn ascii_lower(s: Seq<u8>) -> Seq<u8> {
    s.map_values(|b: u8| lower_byte(b))
}

/// A byte that may not appear in a host name.
pub open spec fn bad_host_byte(b: u8) -> bool {
    is_control(b) || is_ascii_space(b) || b == 0x2f || b == 0x5c || b == 0x40 || b == 0x23 || b
        == 0x3f
}

/// The host and the optional `u16` port of `host[:port]`, when there is at
/// most one colon.
pub open spec fn authority_split(b: Seq<u8>) -> Option<(Seq<u8>, Option<u16>)> {
    match position_from(b, 0x3au8, 0) {
        None => Some((b, None)),
        Some(i) => if position_from(b, 0x3au8, i + 1) is Some {
            None
        } else {
            match parse_unsigned_spec(b.skip(i + 1), 65535) {
                None => None,
                Some(p) => Some((b.take(i), Some(p as u16))),
            }
        },
    }
}

/// `host[:port]` in ASCII, not a bracketed address: at most one colon, a
/// `u16` port after it, and a host that is not empty once trailing dots are
/// dropped and holds no control, space, `/`, `\`, `@`, `#` or `?` byte.
pub open spec fn authority_spec(b: Seq<u8>) -> Option<AuthorityView> {
    if !all_ascii(b) || (b.len() > 0 && b[0] == 0x5b) {
        None
    } else {
        match authority_split(b) {
            None => None,
            Some((host, port)) => {
                let h = trim_dots(host);
                if h.len() == 0 || exists|k: int| 0 <= k < h.len() && bad_host_byte(#[trigger] h[k]) {
                    None
                } else {
                    Some(AuthorityView { host: ascii_lower(h), port })
                }
            },
        }
    }
}

pub open spec fn authority_matches(r: Option<HttpAuthority>, s: Option<AuthorityView>) -> bool {
    match s {
        None => r is None,
        Some(v) => r matches Some(a) && authority_view(a) == v,
    }
}

#[verifier::loop_isolation(false)]
fn authority_bytes(b: &[u8]) -> (r: Option<HttpAuthority>)
    ensures
        authority_matches(r, authority_spec(b@)),
{
    if !ascii_bytes(b) || (b.len() > 0 && b[0] == 0x5b) {
        return None;
    }
    let (host, port): (&[u8], Option<u16>) = match find_byte(b, 0x3a, 0) {
        None => (b, None),
        Some(i) => {
            if find_byte(b, 0x3a, i + 1).is_some() {
                return None;
            }
            let after = &b[i + 1..b.len()];
            assert(after@ =~= b@.skip(i + 1));
            match parse_unsigned(after, 65535) {
                None => return None,
                Some(p) => {
                    assert(b@.subrange(0, i as int) =~= b@.take(i as int));
                    (&b[0..i], Some(p as u16))
                },
            }
        },
    };
    let mut end = host.len();
    assert(host@.take(end as int) =~= host@);
    while end > 0 && host[end - 1] == 0x2e
        invariant
            end <= host@.len(),
            trim_dots(host@) == trim_dots(host@.take(end as int)),
        decreases end,
    {
        assert(host@.take(end as int).drop_last() =~= host@.take(end - 1));
        end -= 1;
    }
    proof {
        let t = host@.take(end as int);
        if t.len() > 0 {
            assert(t.last() != 0x2e);
        }
        assert(trim_dots(t) == t);
    }
    if end == 0 {
        return None;
    }
    let mut lower: Vec<u8> = Vec::new();
    let mut k: usize = 0;
    while k < end
        invariant
            k <= end <= host@.len(),
            lower@ == ascii_lower(host@.take(k as int)),
            forall|q: int| 0 <= q < k ==> !bad_host_byte(#[trigger] host@[q]),
        decreases end - k,
    {
        let c = host[k];
        if c < 0x20 || c == 0x7f || c == 0x20 || c == 0x09 || c == 0x0a || c == 0x0c || c == 0x0d
            || c == 0x2f || c == 0x5c || c == 0x40 || c == 0x23 || c == 0x3f {
            proof {
                let h = host@.take(end as int);
                assert(h[k as int] == c);
                assert(bad_host_byte(h[k as int]));
                assert(trim_dots(host@) == h);
                assert(exists|q: int| 0 <= q < h.len() && bad_host_byte(#[trigger] h[q]));
                assert(authority_split(b@) == Some((host@, port)));
            }
            return None;
        }
        let l = if 0x41 <= c && c <= 0x5a {
            c + 0x20
        } else {
            c
        };
        lower.push(l);
        proof {
            assert(lower@ =~= ascii_lower(host@.take(k + 1)));
        }
        k += 1;
    }
    proof {
        let h = host@.take(end as int);
        assert forall|q: int| 0 <= q < h.len() implies !bad_host_byte(#[trigger] h[q]) by {
            assert(h[q] == host@[q]);
        }
    }
    Some(HttpAuthority { host: lower, port })
}

/// Parses the `Host` header value `host[:port]`.
pub fn parse_http_authority(value: &str) -> (r: Option<HttpAuthority>)
    ensures
        !is_ascii(value) ==> r is None,
        is_ascii(value) ==> authority_matches(r, authority_spec(value.spec_bytes())),
{
    if !value.is_ascii() {
        return None;
    }
    authority_bytes(value.as_bytes())
}

// ---------------------------------------------------------------------------
// Whole requests
/// What the bytes written so far show about a connection.
#[derive(Clone, Debug, PartialEq, Eq)]
pub enum HttpRequestInspection {
    /// Not an HTTP request that can be routed; send the bytes as they are.
    Direct,
    /// A request line without the end of its header yet.
    Incomplete,
    /// A complete header with one `Host`.
    Routed(HttpAuthority),
}

pub enum InspectionView {
    Direct,
    Incomplete,
    Routed(AuthorityView),
}

pub open spec fn inspection_view(i: HttpRequestInspection) -> InspectionView {
    match i {
        HttpRequestInspection::Direct => InspectionView::Direct,
        HttpRequestInspection::Incomplete => InspectionView::Incomplete,
        HttpRequestInspection::Routed(a) => InspectionView::Routed(authority_view(a)),
    }
}

/// The index of the first `\r\n` of `s` at or after `from`.
pub open spec fn crlf_from(s: Seq<u8>, from: int) -> Option<int>
    decreases s.len() - from,
{
    if from < 0 || from + 1 >= s.len() {
        None
    } else if s[from] == 0x0d && s[from + 1] == 0x0a {
        Some(from)
    } else {
        crlf_from(s, from + 1)
    }
}

/// A `\r\n` that `crlf_from` finds lies inside the sequence.
pub proof fn lemma_crlf_bound(s: Seq<u8>, from: int)
    ensures
        crlf_from(s, from) matches Some(k) ==> from <= k && k + 1 < s.len() && s[k] == 0x0d && s[k
            + 1] == 0x0a,
    decreases s.len() - from,
{
    if 0 <= from && from + 1 < s.len() && !(s[from] == 0x0d && s[from + 1] == 0x0a) {
        lemma_crlf_bound(s, from + 1);
    }
}

/// The index of the first `\r\n\r\n` of `s` at or after `from`.
pub open spec fn header_end_from(s: Seq<u8>, from: int) -> Option<int>
    decreases s.len() - from,
{
    if from < 0 || from + 3 >= s.len() {
        None
    } else if s[from] == 0x0d && s[from + 1] == 0x0a && s[from + 2] == 0x0d && s[from + 3] == 0x0a {
        Some(from)
    } else {
        header_end_from(s, from + 1)
    }
}

/// Whether a header name is `host` in any ASCII case.
pub open spec fn is_host_name(name: Seq<u8>) -> bool {
    ascii_lower(name) == seq![0x68u8, 0x6fu8, 0x73u8, 0x74u8]
}

/// `s` without leading and trailing spaces and tabs.
pub open spec fn trim_blank(s: Seq<u8>) -> Seq<u8>
    decreases s.len(),
{
    if s.len() > 0 && (s[0] == 0x20 || s[0] == 0x09) {
        trim_blank(s.drop_first())
    } else if s.len() > 0 && (s.last() == 0x20 || s.last() == 0x09) {
        trim_blank(s.drop_last())
    } else {
        s
    }
}

/// The verdict on the header lines `rest` (what follows a `\r\n`), the
/// authority found so far being `found`.
pub open spec fn scan_headers(rest: Seq<u8>, found: Option<AuthorityView>) -> InspectionView
    decreases rest.len(),
{
    let crlf = crlf_from(rest, 0);
    let line = match crlf {
        Some(k) => rest.take(k),
        None => rest,
    };
    match position_from(line, 0x3au8, 0) {
        None => InspectionView::Direct,
        Some(c) => {
            let name = line.take(c);
            let value = line.skip(c + 1);
            if !is_token(name) {
                InspectionView::Direct
            } else {
                let next_found = if is_host_name(name) {
                    if found is Some {
                        None
                    } else {
                        match authority_spec(trim_blank(value)) {
                            None => None,
                            Some(a) => Some(Some(a)),
                        }
                    }
                } else {
                    Some(found)
                };
                match next_found {
                    None => InspectionView::Direct,
                    Some(f) => match crlf {
                        Some(k) => {
                            proof {
                                lemma_crlf_bound(rest, 0);
                            }
                            scan_headers(rest.skip(k + 2), f)
                        },
                        None => match f {
                            None => InspectionView::Direct,
                            Some(a) => InspectionView::Routed(a),
                        },
                    },
                }
            }
        },
    }
}

/// The verdict on the bytes a guest has written to a socket.
pub open spec fn inspect_spec(bytes: Seq<u8>) -> InspectionView {
    match header_end_from(bytes, 0) {
        None => match crlf_from(bytes, 0) {
            None => InspectionView::Direct,
            Some(e) => {
                let line = bytes.take(e);
                if all_ascii(line) && request_line_ok(line) {
                    InspectionView::Incomplete
                } else {
                    InspectionView::Direct
                }
            },
        },
        Some(h) => {
            let header = bytes.take(h);
            if !valid_utf8(header) {
                InspectionView::Direct
            } else {
                let crlf = crlf_from(header, 0);
                let first = match crlf {
                    Some(k) => header.take(k),
                    None => header,
                };
                if !(all_ascii(first) && request_line_ok(first)) {
                    InspectionView::Direct
                } else {
                    match crlf {
                        None => InspectionView::Direct,
                        Some(k) => scan_headers(header.skip(k + 2), None),
                    }
                }
            }
        },
    }
}

/// `std::str::from_utf8(bytes).is_ok()`: whether the bytes are well-formed
/// UTF-8.
#[verifier::external_body]
pub(crate) fn is_utf8(bytes: &[u8]) -> (r: bool)
    ensures
        r == valid_utf8(bytes@),
{
    std::str::from_utf8(bytes).is_ok()
}

fn find_crlf(s: &[u8], from: usize) -> (r: Option<usize>)
    ensures
        match r {
            Some(i) => crlf_from(s@, from as int) == Some(i as int) && from <= i && i + 1 < s@.len(),
            None => crlf_from(s@, from as int) is None,
        },
{
    if from >= s.len() {
        return None;
    }
    let mut i = from;
    while s.len() - i > 1
        invariant
            from <= i <= s@.len(),
            crlf_from(s@, from as int) == crlf_from(s@, i as int),
        decreases s@.len() - i,
    {
        if s[i] == 0x0d && s[i + 1] == 0x0a {
            return Some(i);
        }
        i += 1;
    }
    None
}

fn find_header_end(s: &[u8]) -> (r: Option<usize>)
    ensures
        match r {
            Some(i) => header_end_from(s@, 0) == Some(i as int) && i + 3 < s@.len(),
            None => header_end_from(s@, 0) is None,
        },
{
    let mut i: usize = 0;
    while s.len() - i > 3
        invariant
            i <= s@.len(),
            header_end_from(s@, 0) == header_end_from(s@, i as int),
        decreases s@.len() - i,
    {
        if s[i] == 0x0d && s[i + 1] == 0x0a && s[i + 2] == 0x0d && s[i + 3] == 0x0a {
            return Some(i);
        }
        i += 1;
    }
    None
}

fn host_name(name: &[u8]) -> (r: bool)
    ensures
        r == is_host_name(name@),
{
    let ok = name.len() == 4 && (name[0] == 0x68 || name[0] == 0x48) && (name[1] == 0x6f || name[1]
        == 0x4f) && (name[2] == 0x73 || name[2] == 0x53) && (name[3] == 0x74 || name[3] == 0x54);
    proof {
        let l = ascii_lower(name@);
        let host = seq![0x68u8, 0x6fu8, 0x73u8, 0x74u8];
        if name@.len() == 4 {
            assert(l.len() == 4);
            assert(l[0] == lower_byte(name@[0]));
            assert(l[1] == lower_byte(name@[1]));
            assert(l[2] == lower_byte(name@[2]));
            assert(l[3] == lower_byte(name@[3]));
            if ok {
                assert(l =~= host);
            } else if l == host {
                assert(l[0] == host[0] && l[1] == host[1] && l[2] == host[2] && l[3] == host[3]);
                assert(false);
            }
        } else {
            assert(l.len() != host.len());
        }
    }
    ok
}

fn trim_blank_bytes(s: &[u8]) -> (r: &[u8])
    ensures
        r@ == trim_blank(s@),
    decreases s@.len(),
{
    if s.len() > 0 && (s[0] == 0x20 || s[0] == 0x09) {
        let rest = &s[1..s.len()];
        assert(rest@ =~= s@.drop_first());
        trim_blank_bytes(rest)
    } else if s.len() > 0 && (s[s.len() - 1] == 0x20 || s[s.len() - 1] == 0x09) {
        let rest = &s[0..s.len() - 1];
        assert(rest@ =~= s@.drop_last());
        trim_blank_bytes(rest)
    } else {
        s
    }
}

/// Inspects the bytes a guest has written to a fresh connection.
pub fn inspect_http_request(bytes: &[u8]) -> (r: HttpRequestInspection)
    ensures
        inspection_view(r) == inspect_spec(bytes@),
{
    let header_end = match find_header_end(bytes) {
        Some(h) => h,
        None => {
            let line_end = match find_crlf(bytes, 0) {
                Some(e) => e,
                None => return HttpRequestInspection::Direct,
            };
            let line = &bytes[0..line_end];
            assert(line@ =~= bytes@.take(line_end as int));
            return if ascii_bytes(line) && request_line_bytes(line) {
                HttpRequestInspection::Incomplete
            } else {
                HttpRequestInspection::Direct
            };
        },
    };
    let header = &bytes[0..header_end];
    assert(header@ =~= bytes@.take(header_end as int));
    if !is_utf8(header) {
        return HttpRequestInspection::Direct;
    }
    let first_end = find_crlf(header, 0);
    let first = match first_end {
        Some(k) => &header[0..k],
        None => header,
    };
    proof {
        if let Some(k) = first_end {
            assert(first@ =~= header@.take(k as int));
        }
    }
    if !(ascii_bytes(first) && request_line_bytes(first)) {
        return HttpRequestInspection::Direct;
    }
    let mut pos = match first_end {
        Some(k) => k + 2,
        None => return HttpRequestInspection::Direct,
    };
    let mut authority: Option<HttpAuthority> = None;
    let ghost target = inspect_spec(bytes@);
    loop
        invariant
            pos <= header@.len(),
            target == inspect_spec(bytes@),
            target == scan_headers(
                header@.skip(pos as int),
                match authority {
                    Some(a) => Some(authority_view(a)),
                    None => None,
                },
            ),
        decreases header@.len() - pos,
    {
        let rest = &header[pos..header.len()];
        assert(rest@ =~= header@.skip(pos as int));
        let crlf = find_crlf(rest, 0);
        let line = match crlf {
            Some(k) => &rest[0..k],
            None => rest,
        };
        proof {
            if let Some(k) = crlf {
                assert(line@ =~= rest@.take(k as int));
            }
        }
        let colon = match find_byte(line, 0x3a, 0) {
            Some(c) => c,
            None => return HttpRequestInspection::Direct,
        };
        let name = &line[0..colon];
        let value = &line[colon + 1..line.len()];
        assert(name@ =~= line@.take(colon as int));
        assert(value@ =~= line@.skip(colon + 1));
        if !token_bytes(name) {
            return HttpRequestInspection::Direct;
        }
        if host_name(name) {
            if authority.is_some() {
                return HttpRequestInspection::Direct;
            }
            match authority_bytes(trim_blank_bytes(value)) {
                Some(a) => {
                    authority = Some(a);
                },
                None => return HttpRequestInspection::Direct,
            }
        }
        match crlf {
            Some(k) => {
                assert(rest@.skip(k + 2) =~= header@.skip(pos + k + 2));
                pos = pos + k + 2;
            },
            None => {
                return match authority {
                    Some(a) => HttpRequestInspection::Routed(a),
                    None => HttpRequestInspection::Direct,
                };
            },
        }
    }
}

} // verus!
