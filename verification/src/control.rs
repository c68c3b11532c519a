//! The line protocol that drives the emulator in end-to-end tests: parsing a
//! control command into the action it asks for, and naming keys.
use vstd::prelude::*;
use vstd::string::*;
use vstd::utf8::encode_utf8;
use crate::parse::{
    is_digit, parse_signed, parse_signed_spec, parse_unsigned, parse_unsigned_spec,
    position_from, str_equal,
};
use crate::text::{
    ascii_upper, fields_from, split_once_char, split_whitespace_str, starts_with, strip_prefix_str,
    to_ascii_upper,
};

verus! {

/// The largest clipboard text a test may set, in bytes.
pub const MAX_CLIPBOARD_BYTES: usize = 65536;

pub open spec fn opt_view(value: Option<&str>) -> Option<Seq<char>> {
    match value {
        Some(v) => Some(v@),
        None => None,
    }
}

/// A required unsigned field: `missing_<label>` when absent,
/// `invalid_<label>` when it is not a `u64`.
#[verifier::opaque]
pub open spec fn field_u64_spec(value: Option<Seq<char>>, label: Seq<char>) -> Result<u64, Seq<char>> {
    match value {
        None => Err("missing_"@ + label),
        Some(v) => match parse_unsigned_spec(encode_utf8(v), u64::MAX as nat) {
            None => Err("invalid_"@ + label),
            Some(n) => Ok(n as u64),
        },
    }
}

/// A required signed field: `missing_<label>` when absent, `invalid_<label>`
/// when it is not an `i32`.
#[verifier::opaque]
pub open spec fn field_i32_spec(value: Option<Seq<char>>, label: Seq<char>) -> Result<i32, Seq<char>> {
    match value {
        None => Err("missing_"@ + label),
        Some(v) => match parse_signed_spec(encode_utf8(v), i32::MAX as nat) {
            None => Err("invalid_"@ + label),
            Some(n) => Ok(n as i32),
        },
    }
}

/// Parses a required `u64` field of a command.
pub fn parse_u64(value: Option<&str>, label: &str) -> (r: Result<u64, String>)
    ensures
        match field_u64_spec(opt_view(value), label@) {
            Ok(n) => r matches Ok(m) && m == n,
            Err(t) => r matches Err(e) && e@ == t,
        },
{
    proof {
        reveal(field_u64_spec);
    }
    match value {
        None => Err(String::from_str("missing_").concat(label)),
        Some(v) => match parse_unsigned(v.as_bytes(), u64::MAX) {
            Some(n) => Ok(n),
            None => Err(String::from_str("invalid_").concat(label)),
        },
    }
}

/// Parses a required `i32` field of a command.
pub fn parse_i32(value: Option<&str>, label: &str) -> (r: Result<i32, String>)
    ensures
        match field_i32_spec(opt_view(value), label@) {
            Ok(n) => r matches Ok(m) && m == n,
            Err(t) => r matches Err(e) && e@ == t,
        },
{
    proof {
        reveal(field_i32_spec);
    }
    match value {
        None => Err(String::from_str("missing_").concat(label)),
        Some(v) => match parse_signed(v.as_bytes(), 2147483647) {
            Some(n) => Ok(n as i32),
            None => Err(String::from_str("invalid_").concat(label)),
        },
    }
}

/// The keypad code that a key name stands for, ignoring ASCII case:
/// a single digit is its own value.
#[verifier::opaque]
pub open spec fn key_code_spec(name: Seq<char>) -> Result<i32, Seq<char>> {
    let u = ascii_upper(name);
    let bytes = encode_utf8(u);
    if u == "ENTER"@ || u == "SELECT"@ {
        Ok(20)
    } else if u == "ESC"@ || u == "ESCAPE"@ || u == "POWER"@ {
        Ok(16)
    } else if u == "SOFTLEFT"@ || u == "LEFT_SOFT"@ {
        Ok(17)
    } else if u == "SOFTRIGHT"@ || u == "RIGHT_SOFT"@ {
        Ok(18)
    } else if u == "UP"@ {
        Ok(12)
    } else if u == "DOWN"@ {
        Ok(13)
    } else if u == "LEFT"@ {
        Ok(14)
    } else if u == "RIGHT"@ {
        Ok(15)
    } else if u == "SEND"@ {
        Ok(19)
    } else if u == "STAR"@ || u == "*"@ {
        Ok(10)
    } else if u == "POUND"@ || u == "HASH"@ || u == "#"@ {
        Ok(11)
    } else if bytes.len() == 1 && is_digit(bytes[0]) {
        Ok((bytes[0] - 0x30) as i32)
    } else {
        Err("unknown_key "@ + name)
    }
}

/// The keypad code of a key name.
pub fn key_code(name: &str) -> (r: Result<i32, String>)
    ensures
        match key_code_spec(name@) {
            Ok(c) => r matches Ok(v) && v == c,
            Err(t) => r matches Err(e) && e@ == t,
        },
{
    proof {
        reveal(key_code_spec);
    }
    let upper = to_ascii_upper(name);
    let u = upper.as_str();
    let code: i32 = if str_equal(u, "ENTER") || str_equal(u, "SELECT") {
        20
    } else if str_equal(u, "ESC") || str_equal(u, "ESCAPE") || str_equal(u, "POWER") {
        16
    } else if str_equal(u, "SOFTLEFT") || str_equal(u, "LEFT_SOFT") {
        17
    } else if str_equal(u, "SOFTRIGHT") || str_equal(u, "RIGHT_SOFT") {
        18
    } else if str_equal(u, "UP") {
        12
    } else if str_equal(u, "DOWN") {
        13
    } else if str_equal(u, "LEFT") {
        14
    } else if str_equal(u, "RIGHT") {
        15
    } else if str_equal(u, "SEND") {
        19
    } else if str_equal(u, "STAR") || str_equal(u, "*") {
        10
    } else if str_equal(u, "POUND") || str_equal(u, "HASH") || str_equal(u, "#") {
        11
    } else {
        let bytes = u.as_bytes();
        if bytes.len() == 1 && 0x30 <= bytes[0] && bytes[0] <= 0x39 {
            (bytes[0] - 0x30) as i32
        } else {
            return Err(String::from_str("unknown_key ").concat(name));
        }
    };
    Ok(code)
}

/// What a control command asks for.
pub enum ControlCommand<'a> {
    /// Replace the clipboard text.
    SetClipboard(&'a str),
    /// Deliver the clipboard as text input.
    PasteShortcut,
    /// Report the number of frames drawn.
    DrawCount,
    /// Wait until more than `previous` frames are drawn, or the timeout.
    WaitDraw { previous: u64, timeout_ms: u64 },
    /// Save the frame with the given draw count.
    ScreenDraw { draw: u64, path: &'a str },
    /// Save the latest frame.
    Screen(&'a str),
    /// Press and release a key; `None` holds it for the default time.
    Key { code: i32, hold_ms: Option<u64> },
    /// Press and release the pointer; `None` holds it for the default time.
    Click { x: i32, y: i32, hold_ms: Option<u64> },
    /// Stop the emulator.
    Quit,
}

/// A control command with its text arguments as character sequences.
pub enum ControlView {
    SetClipboard(Seq<char>),
    PasteShortcut,
    DrawCount,
    WaitDraw { previous: u64, timeout_ms: u64 },
    ScreenDraw { draw: u64, path: Seq<char> },
    Screen(Seq<char>),
    Key { code: i32, hold_ms: Option<u64> },
    Click { x: i32, y: i32, hold_ms: Option<u64> },
    Quit,
}

pub open spec fn command_view(c: ControlCommand) -> ControlView {
    match c {
        ControlCommand::SetClipboard(t) => ControlView::SetClipboard(t@),
        ControlCommand::PasteShortcut => ControlView::PasteShortcut,
        ControlCommand::DrawCount => ControlView::DrawCount,
        ControlCommand::WaitDraw { previous, timeout_ms } => ControlView::WaitDraw {
            previous,
            timeout_ms,
        },
        ControlCommand::ScreenDraw { draw, path } => ControlView::ScreenDraw { draw, path: path@ },
        ControlCommand::Screen(p) => ControlView::Screen(p@),
        ControlCommand::Key { code, hold_ms } => ControlView::Key { code, hold_ms },
        ControlCommand::Click { x, y, hold_ms } => ControlView::Click { x, y, hold_ms },
        ControlCommand::Quit => ControlView::Quit,
    }
}

/// The field at `i`, if there is one.
pub open spec fn field(f: Seq<Seq<char>>, i: int) -> Option<Seq<char>> {
    if 0 <= i < f.len() {
        Some(f[i])
    } else {
        None
    }
}

/// An optional hold time: absent, a `u64`, or the error `bad`.
#[verifier::opaque]
pub open spec fn hold_spec(value: Option<Seq<char>>, bad: Seq<char>) -> Result<Option<u64>, Seq<char>> {
    match value {
        None => Ok(None),
        Some(v) => match parse_unsigned_spec(encode_utf8(v), u64::MAX as nat) {
            None => Err(bad),
            Some(n) => Ok(Some(n as u64)),
        },
    }
}

pub open spec fn clipboard_spec(c: Seq<char>) -> Result<ControlView, Seq<char>> {
    let text0 = c.skip(13);
    let text = if starts_with(text0, " "@) {
        text0.skip(1)
    } else {
        text0
    };
    if encode_utf8(text).len() > MAX_CLIPBOARD_BYTES {
        Err("clipboard_too_large"@)
    } else {
        Ok(ControlView::SetClipboard(text))
    }
}

pub open spec fn wait_draw_spec(f: Seq<Seq<char>>) -> Result<ControlView, Seq<char>> {
    match field_u64_spec(field(f, 0), "draw_count"@) {
        Err(t) => Err(t),
        Ok(previous) => match field_u64_spec(field(f, 1), "timeout_ms"@) {
            Err(t) => Err(t),
            Ok(timeout_ms) => if f.len() > 2 {
                Err("invalid_wait_draw"@)
            } else {
                Ok(ControlView::WaitDraw { previous, timeout_ms })
            },
        },
    }
}

pub open spec fn screen_draw_spec(a: Seq<char>) -> Result<ControlView, Seq<char>> {
    match position_from(a, ' ', 0) {
        None => Err("invalid_screen_draw"@),
        Some(i) => match parse_unsigned_spec(encode_utf8(a.take(i)), u64::MAX as nat) {
            None => Err("invalid_screen_draw_count"@),
            Some(draw) => Ok(ControlView::ScreenDraw { draw: draw as u64, path: a.skip(i + 1) }),
        },
    }
}

pub open spec fn key_spec(f: Seq<Seq<char>>) -> Result<ControlView, Seq<char>> {
    if f.len() == 0 {
        Err("missing_key_name"@)
    } else {
        match hold_spec(field(f, 1), "invalid_key_hold"@) {
            Err(t) => Err(t),
            Ok(hold_ms) => if f.len() > 2 {
                Err("invalid_key"@)
            } else {
                match key_code_spec(f[0]) {
                    Err(t) => Err(t),
                    Ok(code) => Ok(ControlView::Key { code, hold_ms }),
                }
            },
        }
    }
}

pub open spec fn click_spec(f: Seq<Seq<char>>) -> Result<ControlView, Seq<char>> {
    match field_i32_spec(field(f, 0), "pointer_x"@) {
        Err(t) => Err(t),
        Ok(x) => match field_i32_spec(field(f, 1), "pointer_y"@) {
            Err(t) => Err(t),
            Ok(y) => match hold_spec(field(f, 2), "invalid_pointer_hold"@) {
                Err(t) => Err(t),
                Ok(hold_ms) => if f.len() > 3 {
                    Err("invalid_click"@)
                } else {
                    Ok(ControlView::Click { x, y, hold_ms })
                },
            },
        },
    }
}

/// The action a control command line asks for, or the error reported for it.
pub open spec fn control_spec(c: Seq<char>) -> Result<ControlView, Seq<char>> {
    if c == "SET_CLIPBOARD"@ || starts_with(c, "SET_CLIPBOARD "@) {
        clipboard_spec(c)
    } else if c == "PASTE_SHORTCUT"@ {
        Ok(ControlView::PasteShortcut)
    } else if c == "DRAW_COUNT"@ {
        Ok(ControlView::DrawCount)
    } else if starts_with(c, "WAIT_DRAW "@) {
        wait_draw_spec(fields_from(c.skip(10), Seq::empty()))
    } else if starts_with(c, "SCREEN_DRAW "@) {
        screen_draw_spec(c.skip(12))
    } else if starts_with(c, "SCREEN "@) {
        Ok(ControlView::Screen(c.skip(7)))
    } else if starts_with(c, "KEY "@) {
        key_spec(fields_from(c.skip(4), Seq::empty()))
    } else if starts_with(c, "CLICK "@) {
        click_spec(fields_from(c.skip(6), Seq::empty()))
    } else if c == "QUIT"@ {
        Ok(ControlView::Quit)
    } else {
        Err("unknown_command"@)
    }
}

/// `r` is the parse that `s` describes.
pub open spec fn parse_matches(r: Result<ControlCommand, String>, s: Result<ControlView, Seq<char>>) -> bool {
    match s {
        Ok(v) => r matches Ok(c) && command_view(c) == v,
        Err(t) => r matches Err(e) && e@ == t,
    }
}

fn field_at<'a>(f: &Vec<&'a str>, i: usize) -> (r: Option<&'a str>)
    ensures
        opt_view(r) == field(f@.map_values(|s: &str| s@), i as int),
{
    if i < f.len() {
        Some(f[i])
    } else {
        None
    }
}

fn parse_hold(value: Option<&str>, bad: &str) -> (r: Result<Option<u64>, String>)
    ensures
        match hold_spec(opt_view(value), bad@) {
            Ok(h) => r matches Ok(v) && v == h,
            Err(t) => r matches Err(e) && e@ == t,
        },
{
    proof {
        reveal(hold_spec);
    }
    match value {
        None => Ok(None),
        Some(v) => match parse_unsigned(v.as_bytes(), u64::MAX) {
            Some(n) => Ok(Some(n)),
            None => Err(String::from_str(bad)),
        },
    }
}

fn fields_of<'a>(s: &'a str) -> (r: Vec<&'a str>)
    ensures
        r@.map_values(|t: &str| t@) == fields_from(s@, Seq::empty()),
{
    let r = split_whitespace_str(s);
    assert(r@.map_values(|t: &str| t@) =~= fields_from(s@, Seq::empty()));
    r
}

fn parse_clipboard<'a>(command: &'a str) -> (r: Result<ControlCommand<'a>, String>)
    requires
        command@ == "SET_CLIPBOARD"@ || starts_with(command@, "SET_CLIPBOARD "@),
    ensures
        parse_matches(r, clipboard_spec(command@)),
{
    proof {
        reveal_strlit("SET_CLIPBOARD");
        reveal_strlit("SET_CLIPBOARD ");
        reveal_strlit(" ");
        assert("SET_CLIPBOARD "@.take(13) =~= "SET_CLIPBOARD"@);
        if command@.len() >= 14 {
            assert(command@.take(13) =~= command@.take(14).take(13));
        } else {
            assert(command@.take(13) =~= command@);
        }
    }
    let text0 = match strip_prefix_str(command, "SET_CLIPBOARD") {
        Some(t) => t,
        None => return Err(String::from_str("unknown_command")),
    };
    let text = match strip_prefix_str(text0, " ") {
        Some(t) => t,
        None => text0,
    };
    if text.as_bytes().len() > MAX_CLIPBOARD_BYTES {
        return Err(String::from_str("clipboard_too_large"));
    }
    Ok(ControlCommand::SetClipboard(text))
}

fn parse_wait_draw<'a>(arguments: &'a str) -> (r: Result<ControlCommand<'a>, String>)
    ensures
        parse_matches(r, wait_draw_spec(fields_from(arguments@, Seq::empty()))),
{
    let fields = fields_of(arguments);
    let previous = match parse_u64(field_at(&fields, 0), "draw_count") {
        Ok(v) => v,
        Err(e) => return Err(e),
    };
    let timeout_ms = match parse_u64(field_at(&fields, 1), "timeout_ms") {
        Ok(v) => v,
        Err(e) => return Err(e),
    };
    if fields.len() > 2 {
        return Err(String::from_str("invalid_wait_draw"));
    }
    Ok(ControlCommand::WaitDraw { previous, timeout_ms })
}

fn parse_screen_draw<'a>(arguments: &'a str) -> (r: Result<ControlCommand<'a>, String>)
    ensures
        parse_matches(r, screen_draw_spec(arguments@)),
{
    let (draw, path) = match split_once_char(arguments, ' ') {
        Some(p) => p,
        None => return Err(String::from_str("invalid_screen_draw")),
    };
    let draw = match parse_unsigned(draw.as_bytes(), u64::MAX) {
        Some(d) => d,
        None => return Err(String::from_str("invalid_screen_draw_count")),
    };
    Ok(ControlCommand::ScreenDraw { draw, path })
}

fn parse_key<'a>(arguments: &'a str) -> (r: Result<ControlCommand<'a>, String>)
    ensures
        parse_matches(r, key_spec(fields_from(arguments@, Seq::empty()))),
{
    let fields = fields_of(arguments);
    if fields.len() == 0 {
        return Err(String::from_str("missing_key_name"));
    }
    let hold_ms = match parse_hold(field_at(&fields, 1), "invalid_key_hold") {
        Ok(h) => h,
        Err(e) => return Err(e),
    };
    if fields.len() > 2 {
        return Err(String::from_str("invalid_key"));
    }
    assert(fields@.map_values(|t: &str| t@)[0] == fields@[0]@);
    let code = match key_code(fields[0]) {
        Ok(c) => c,
        Err(e) => return Err(e),
    };
    Ok(ControlCommand::Key { code, hold_ms })
}

fn parse_click<'a>(arguments: &'a str) -> (r: Result<ControlCommand<'a>, String>)
    ensures
        parse_matches(r, click_spec(fields_from(arguments@, Seq::empty()))),
{
    let fields = fields_of(arguments);
    let x = match parse_i32(field_at(&fields, 0), "pointer_x") {
        Ok(v) => v,
        Err(e) => return Err(e),
    };
    let y = match parse_i32(field_at(&fields, 1), "pointer_y") {
        Ok(v) => v,
        Err(e) => return Err(e),
    };
    let hold_ms = match parse_hold(field_at(&fields, 2), "invalid_pointer_hold") {
        Ok(h) => h,
        Err(e) => return Err(e),
    };
    if fields.len() > 3 {
        return Err(String::from_str("invalid_click"));
    }
    Ok(ControlCommand::Click { x, y, hold_ms })
}

/// Parses one control command line (without its line ending).
pub fn parse_control_command<'a>(command: &'a str) -> (r: Result<ControlCommand<'a>, String>)
    ensures
        parse_matches(r, control_spec(command@)),
{
    if str_equal(command, "SET_CLIPBOARD") || strip_prefix_str(command, "SET_CLIPBOARD ").is_some() {
        return parse_clipboard(command);
    }
    if str_equal(command, "PASTE_SHORTCUT") {
        return Ok(ControlCommand::PasteShortcut);
    }
    if str_equal(command, "DRAW_COUNT") {
        return Ok(ControlCommand::DrawCount);
    }
    if let Some(arguments) = strip_prefix_str(command, "WAIT_DRAW ") {
        proof {
            reveal_strlit("WAIT_DRAW ");
        }
        return parse_wait_draw(arguments);
    }
    if let Some(arguments) = strip_prefix_str(command, "SCREEN_DRAW ") {
        proof {
            reveal_strlit("SCREEN_DRAW ");
        }
        return parse_screen_draw(arguments);
    }
    if let Some(path) = strip_prefix_str(command, "SCREEN ") {
        proof {
            reveal_strlit("SCREEN ");
        }
        return Ok(ControlCommand::Screen(path));
    }
    if let Some(arguments) = strip_prefix_str(command, "KEY ") {
        proof {
            reveal_strlit("KEY ");
        }
        return parse_key(arguments);
    }
    if let Some(arguments) = strip_prefix_str(command, "CLICK ") {
        proof {
            reveal_strlit("CLICK ");
        }
        return parse_click(arguments);
    }
    if str_equal(command, "QUIT") {
        return Ok(ControlCommand::Quit);
    }
    Err(String::from_str("unknown_command"))
}

/// Releases scheduled at `deadline` fall due once the clock reaches it.
/// Scanning from `index`, each due release is taken out by moving the last
/// release into its place; the result is the releases left and the payloads
/// taken, in the order taken.
pub open spec fn due_scan<T>(v: Seq<(u64, T)>, index: int, now: u64) -> (Seq<(u64, T)>, Seq<T>)
    decreases v.len() - index,
{
    if index < 0 || index >= v.len() {
        (v, Seq::empty())
    } else if v[index].0 <= now {
        let rest = due_scan(v.update(index, v.last()).drop_last(), index, now);
        (rest.0, seq![v[index].1] + rest.1)
    } else {
        due_scan(v, index + 1, now)
    }
}

/// Takes the releases whose deadline is not after `now` out of `releases`
/// and returns their payloads, in the order they are taken.
pub fn take_due_releases<T: Copy>(releases: &mut Vec<(u64, T)>, now: u64) -> (due: Vec<T>)
    ensures
        final(releases)@ == due_scan(old(releases)@, 0, now).0,
        due@ == due_scan(old(releases)@, 0, now).1,
        forall|i: int| 0 <= i < final(releases)@.len() ==> (#[trigger] final(releases)@[i]).0 > now,
{
    let mut due: Vec<T> = Vec::new();
    let mut index: usize = 0;
    while index < releases.len()
        invariant
            index <= releases@.len(),
            due_scan(old(releases)@, 0, now) == (
                due_scan(releases@, index as int, now).0,
                due@ + due_scan(releases@, index as int, now).1,
            ),
            forall|i: int| 0 <= i < index ==> (#[trigger] releases@[i]).0 > now,
        decreases releases@.len() - index,
    {
        if releases[index].0 <= now {
            let ghost before = releases@;
            let taken = releases.swap_remove(index);
            proof {
                assert(releases@ =~= before.update(index as int, before.last()).drop_last());
                let rest = due_scan(releases@, index as int, now);
                assert(due@ + (seq![taken.1] + rest.1) =~= due@.push(taken.1) + rest.1);
                assert forall|i: int| 0 <= i < index implies (#[trigger] releases@[i]).0 > now by {
                    assert(releases@[i] == before[i]);
                }
            }
            due.push(taken.1);
        } else {
            index += 1;
        }
    }
    assert(due@ + Seq::<T>::empty() =~= due@);
    due
}

} // verus!
