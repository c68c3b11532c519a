//! Command-line configuration values: screen size, memory profile and the
//! device date, each parsed from the text the user gave.
use vstd::prelude::*;
use vstd::string::*;
use vstd::utf8::encode_utf8;
use crate::error::Error;
use crate::parse::{bytes_equal, parse_unsigned, parse_unsigned_spec, position_from, str_equal};
use crate::text::{debug_quoted, debug_str, join3, split_once_char};

verus! {

// ---------------------------------------------------------------------------
// Memory profile
/// The size in MiB named by a memory profile, when it is one of the six
/// supported ones.
pub open spec fn memory_profile_mib(s: Seq<char>) -> Option<u32> {
    if s == "1M"@ {
        Some(1)
    } else if s == "2M"@ {
        Some(2)
    } else if s == "4M"@ {
        Some(4)
    } else if s == "6M"@ {
        Some(6)
    } else if s == "8M"@ {
        Some(8)
    } else if s == "16M"@ {
        Some(16)
    } else {
        None
    }
}

pub open spec fn invalid_memory_text(value: Seq<char>) -> Seq<char> {
    "invalid memory size "@ + debug_quoted(value) + "; expected 1M, 2M, 4M, 6M, 8M, or 16M"@
}

/// The guest memory limit in bytes for a profile `1M`, `2M`, `4M`, `6M`,
/// `8M` or `16M`; any other text is a configuration error.
pub fn parse_memory(value: &str) -> (r: Result<u32, Error>)
    ensures
        match memory_profile_mib(value@) {
            Some(n) => r matches Ok(bytes) && bytes == n * 1048576,
            None => r matches Err(Error::Config(m)) && m@ == invalid_memory_text(value@),
        },
{
    let mebibytes: u32 = if str_equal(value, "1M") {
        1
    } else if str_equal(value, "2M") {
        2
    } else if str_equal(value, "4M") {
        4
    } else if str_equal(value, "6M") {
        6
    } else if str_equal(value, "8M") {
        8
    } else if str_equal(value, "16M") {
        16
    } else {
        let quoted = debug_str(value);
        return Err(
            Error::Config(
                join3(
                    "invalid memory size ",
                    quoted.as_str(),
                    "; expected 1M, 2M, 4M, 6M, 8M, or 16M",
                ),
            ),
        );
    };
    Ok(mebibytes * 1024 * 1024)
}

// ---------------------------------------------------------------------------
// Screen size
/// `WIDTHxHEIGHT`, split at the first `x`, each side a `u16` and neither
/// zero; otherwise the message of the error.
pub open spec fn screen_spec(value: Seq<char>) -> Result<(u16, u16), Seq<char>> {
    match position_from(value, 'x', 0) {
        None => Err("invalid screen "@ + debug_quoted(value) + "; expected WIDTHxHEIGHT"@),
        Some(i) => {
            let w = value.take(i);
            let h = value.skip(i + 1);
            match parse_unsigned_spec(encode_utf8(w), 65535) {
                None => Err("invalid screen width "@ + debug_quoted(w)),
                Some(wv) => match parse_unsigned_spec(encode_utf8(h), 65535) {
                    None => Err("invalid screen height "@ + debug_quoted(h)),
                    Some(hv) => if wv == 0 || hv == 0 {
                        Err("screen dimensions must be non-zero"@)
                    } else {
                        Ok((wv as u16, hv as u16))
                    },
                },
            }
        },
    }
}

/// Parses a screen size written `WIDTHxHEIGHT`.
pub fn parse_screen(value: &str) -> (r: Result<(u16, u16), Error>)
    ensures
        match screen_spec(value@) {
            Ok(p) => r matches Ok(q) && q == p,
            Err(t) => r matches Err(Error::Config(m)) && m@ == t,
        },
{
    let (width, height) = match split_once_char(value, 'x') {
        Some(p) => p,
        None => {
            let quoted = debug_str(value);
            return Err(
                Error::Config(
                    join3("invalid screen ", quoted.as_str(), "; expected WIDTHxHEIGHT"),
                ),
            );
        },
    };
    let w = match parse_unsigned(width.as_bytes(), 65535) {
        Some(w) => w as u16,
        None => {
            let quoted = debug_str(width);
            return Err(
                Error::Config(String::from_str("invalid screen width ").concat(quoted.as_str())),
            );
        },
    };
    let h = match parse_unsigned(height.as_bytes(), 65535) {
        Some(h) => h as u16,
        None => {
            let quoted = debug_str(height);
            return Err(
                Error::Config(String::from_str("invalid screen height ").concat(quoted.as_str())),
            );
        },
    };
    if w == 0 || h == 0 {
        return Err(Error::Config(String::from_str("screen dimensions must be non-zero")));
    }
    Ok((w, h))
}

// ---------------------------------------------------------------------------
// Device date
/// A calendar date reported to the guest.
#[derive(Clone, Copy, Debug, PartialEq, Eq, Structural)]
pub struct DeviceDate {
    pub year: u16,
    pub month: u8,
    pub day: u8,
}

/// Gregorian leap years.
pub open spec fn is_leap_year(y: int) -> bool {
    (y % 4 == 0 && y % 100 != 0) || y % 400 == 0
}

pub open spec fn days_in_month(y: int, m: int) -> int {
    if m == 2 {
        if is_leap_year(y) {
            29
        } else {
            28
        }
    } else if m == 4 || m == 6 || m == 9 || m == 11 {
        30
    } else {
        31
    }
}

pub open spec fn valid_date(y: int, m: int, d: int) -> bool {
    1 <= m <= 12 && 1 <= d <= days_in_month(y, m)
}

pub open spec fn year_len(y: int) -> int {
    if is_leap_year(y) {
        366
    } else {
        365
    }
}

/// Days from 1970-01-01 to the first day of year `y`.
pub open spec fn days_before_year(y: int) -> int
    decreases y - 1970,
{
    if y <= 1970 {
        0
    } else {
        days_before_year(y - 1) + year_len(y - 1)
    }
}

/// Days from the first of January to the first of month `m`.
pub open spec fn days_before_month(y: int, m: int) -> int
    decreases m,
{
    if m <= 1 {
        0
    } else {
        days_before_month(y, m - 1) + days_in_month(y, m - 1)
    }
}

impl DeviceDate {
    pub open spec fn is_valid(self) -> bool {
        valid_date(self.year as int, self.month as int, self.day as int)
    }

    /// Days from 1970-01-01 to this date.
    pub open spec fn days_since_epoch(self) -> int {
        days_before_year(self.year as int) + days_before_month(self.year as int, self.month as int)
            + self.day - 1
    }

    /// The date, when it exists in the Gregorian calendar.
    pub fn new(year: u16, month: u8, day: u8) -> (r: Option<DeviceDate>)
        ensures
            r == (if valid_date(year as int, month as int, day as int) {
                Some(DeviceDate { year, month, day })
            } else {
                None
            }),
    {
        if month < 1 || month > 12 || day < 1 || day as u32 > month_length(year as u32, month) {
            None
        } else {
            Some(DeviceDate { year, month, day })
        }
    }

    /// The date that lies `days` days after 1970-01-01.  Dates after the last
    /// day of year 65535 are reported as that day.
    pub fn from_unix_days(days: u64) -> (r: DeviceDate)
        ensures
            r.is_valid(),
            r.year >= 1970,
            days < days_before_year(65536) ==> r.days_since_epoch() == days,
            days >= days_before_year(65536) ==> r == (DeviceDate { year: 65535, month: 12, day: 31 }),
    {
        let mut year: u32 = 1970;
        let mut rem: u64 = days;
        while year < 65535 && rem >= year_length(year)
            invariant
                1970 <= year <= 65535,
                rem + days_before_year(year as int) == days,
            decreases 65535 - year,
        {
            rem = rem - year_length(year);
            year = year + 1;
        }
        proof {
            lemma_days_before_year_monotone(year as int + 1, 65536);
        }
        if rem >= year_length(year) {
            return DeviceDate { year: 65535, month: 12, day: 31 };
        }
        proof {
            lemma_days_before_month_year(year as int);
        }
        let ghost rem0 = rem;
        let mut month: u8 = 1;
        while rem >= month_length(year, month) as u64
            invariant
                1 <= month <= 12,
                rem + days_before_month(year as int, month as int) == rem0,
                rem0 < year_len(year as int),
                days_before_month(year as int, 13) == year_len(year as int),
            decreases 12 - month,
        {
            rem = rem - month_length(year, month) as u64;
            month = month + 1;
        }
        DeviceDate { year: year as u16, month, day: (rem + 1) as u8 }
    }

    /// Today's date by the host clock, in UTC.
    pub fn host_today() -> (r: DeviceDate)
        ensures
            r.is_valid(),
            r.year >= 1970,
    {
        DeviceDate::from_unix_days(host_unix_seconds() / 86400)
    }
}

/// Seconds since the Unix epoch by the host clock, read with
/// `SystemTime::now().duration_since(UNIX_EPOCH)`; a clock set before the
/// epoch reads as zero.  Nothing is promised of the value.
#[verifier::external_body]
fn host_unix_seconds() -> u64 {
    match std::time::SystemTime::now().duration_since(std::time::UNIX_EPOCH) {
        Ok(elapsed) => elapsed.as_secs(),
        Err(_) => 0,
    }
}

fn year_length(y: u32) -> (r: u64)
    ensures
        r == year_len(y as int),
{
    if (y % 4 == 0 && y % 100 != 0) || y % 400 == 0 {
        366
    } else {
        365
    }
}

fn month_length(y: u32, m: u8) -> (r: u32)
    ensures
        r == days_in_month(y as int, m as int),
{
    if m == 2 {
        if (y % 4 == 0 && y % 100 != 0) || y % 400 == 0 {
            29
        } else {
            28
        }
    } else if m == 4 || m == 6 || m == 9 || m == 11 {
        30
    } else {
        31
    }
}

proof fn lemma_days_before_year_monotone(a: int, b: int)
    requires
        1970 <= a <= b,
    ensures
        days_before_year(a) <= days_before_year(b),
    decreases b - a,
{
    if a < b {
        lemma_days_before_year_monotone(a, b - 1);
    }
}

proof fn lemma_days_before_month_year(y: int)
    ensures
        days_before_month(y, 13) == year_len(y),
{
    reveal_with_fuel(days_before_month, 13);
}

pub open spec fn device_date_parts(value: Seq<char>) -> Option<(Seq<char>, Seq<char>, Seq<char>)> {
    match position_from(value, '-', 0) {
        None => None,
        Some(i) => {
            let rest = value.skip(i + 1);
            match position_from(rest, '-', 0) {
                None => None,
                Some(j) => {
                    let day = rest.skip(j + 1);
                    if position_from(day, '-', 0) is Some {
                        None
                    } else {
                        Some((value.take(i), rest.take(j), day))
                    }
                },
            }
        },
    }
}

/// `YEAR-MONTH-DAY`: three `-`-separated fields, parsed as `u16`, `u8` and
/// `u8`, that form a Gregorian date.
pub open spec fn device_date_spec(value: Seq<char>) -> Option<DeviceDate> {
    match device_date_parts(value) {
        None => None,
        Some(parts) => match (
            parse_unsigned_spec(encode_utf8(parts.0), 65535),
            parse_unsigned_spec(encode_utf8(parts.1), 255),
            parse_unsigned_spec(encode_utf8(parts.2), 255),
        ) {
            (Some(y), Some(m), Some(d)) => if valid_date(y as int, m as int, d as int) {
                Some(DeviceDate { year: y as u16, month: m as u8, day: d as u8 })
            } else {
                None
            },
            _ => None,
        },
    }
}

pub open spec fn invalid_date_text(value: Seq<char>) -> Seq<char> {
    "invalid device date '"@ + value + "'; expected YYYY-M-D or host"@
}

/// Parses `YYYY-M-D`, or `host` for today's date by the host clock.
pub fn parse_device_date(value: &str) -> (r: Result<DeviceDate, Error>)
    ensures
        value@ == "host"@ ==> (r matches Ok(d) && d.is_valid() && d.year >= 1970),
        value@ != "host"@ ==> match device_date_spec(value@) {
            Some(d) => r matches Ok(x) && x == d,
            None => r matches Err(Error::Config(m)) && m@ == invalid_date_text(value@),
        },
{
    if str_equal(value, "host") {
        return Ok(DeviceDate::host_today());
    }
    let (year, rest) = match split_once_char(value, '-') {
        Some(p) => p,
        None => return Err(invalid_date(value)),
    };
    let (month, day) = match split_once_char(rest, '-') {
        Some(p) => p,
        None => return Err(invalid_date(value)),
    };
    if split_once_char(day, '-').is_some() {
        return Err(invalid_date(value));
    }
    let y = match parse_unsigned(year.as_bytes(), 65535) {
        Some(y) => y as u16,
        None => return Err(invalid_date(value)),
    };
    let m = match parse_unsigned(month.as_bytes(), 255) {
        Some(m) => m as u8,
        None => return Err(invalid_date(value)),
    };
    let d = match parse_unsigned(day.as_bytes(), 255) {
        Some(d) => d as u8,
        None => return Err(invalid_date(value)),
    };
    match DeviceDate::new(y, m, d) {
        Some(date) => Ok(date),
        None => Err(invalid_date(value)),
    }
}

fn invalid_date(value: &str) -> (e: Error)
    ensures
        e matches Error::Config(m) && m@ == invalid_date_text(value@),
{
    Error::Config(join3("invalid device date '", value, "'; expected YYYY-M-D or host"))
}

/// Whether the end-to-end driver also shows the SDL preview window, given
/// the SDL video driver named in the environment (its bytes): everywhere
/// but under the `dummy` driver (the bytes 100, 117, 109, 109, 121).
pub fn e2e_sdl_preview_enabled(video_driver: Option<&[u8]>) -> (r: bool)
    ensures
        r == !(video_driver matches Some(d) && d@ == seq![100u8, 117u8, 109u8, 109u8, 121u8]),
{
    match video_driver {
        None => true,
        Some(d) => {
            let dummy: [u8; 5] = [100, 117, 109, 109, 121];
            assert(dummy@ =~= seq![100u8, 117u8, 109u8, 109u8, 121u8]);
            !bytes_equal(d, &dummy)
        },
    }
}

} // verus!
