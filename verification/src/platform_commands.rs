//! The platform command tables: what a command of platform slot 37 asks the
//! runtime to do, and which media paths slot 38 accepts.
use crate::error::Error;
use crate::text::{dec_text, decimal, hex32, hex32_text};
use vstd::prelude::*;
use vstd::string::*;

verus! {

/// What a slot 37 command asks of the runtime.
#[derive(Clone, Copy, Debug, PartialEq, Eq, Structural)]
pub enum PlatformCommand {
    /// Switch to the rotated landscape screen (or back to portrait) and
    /// answer 0.
    SetOrientation { landscape: bool },
    /// Answer with the state of the native socket `handle`.
    SocketState { handle: i32 },
    /// Answer with this value.
    Reply(u32),
    /// Turn motion events on or off and answer 0.
    SetMotion { active: bool },
    /// Set the five-step multimedia volume and answer 0.
    SetVolume(u8),
    /// Answer with the position of file `handle` (see `file_position_reply`).
    FilePosition { handle: i32 },
}

/// The command `(command, argument)` of platform slot 37, or `None` for an
/// unsupported one.
pub open spec fn command_spec(command: u32, argument: u32) -> Option<PlatformCommand> {
    if command == 101 && (argument == 0 || argument == 3) {
        Some(PlatformCommand::SetOrientation { landscape: argument == 3 })
    } else if command == 1001 {
        Some(PlatformCommand::SocketState { handle: argument as i32 })
    } else if command == 1106 && argument == 0 {
        Some(PlatformCommand::Reply(0))
    } else if command == 1011 && argument <= 1 {
        Some(PlatformCommand::Reply(0))
    } else if command == 1101 && argument == 2 {
        Some(PlatformCommand::Reply(u32::MAX))
    } else if command == 1100 && argument == 0 {
        Some(PlatformCommand::Reply(u32::MAX))
    } else if command == 1218 && argument == 0 {
        Some(PlatformCommand::Reply(1001))
    } else if command == 1214 && argument <= 1 {
        Some(PlatformCommand::Reply(0))
    } else if command == 1205 && argument == 0 {
        Some(PlatformCommand::Reply(1001))
    } else if command == 1206 && argument == 0 {
        Some(PlatformCommand::SetMotion { active: false })
    } else if command == 1211 && (argument == 2 || argument == 3) {
        Some(PlatformCommand::Reply(0))
    } else if command == 4002 && argument == 0 {
        Some(PlatformCommand::Reply(0))
    } else if command == 4003 && argument == 0 {
        Some(PlatformCommand::SetMotion { active: false })
    } else if command == 4005 && argument == 2 {
        Some(PlatformCommand::SetMotion { active: true })
    } else if command == 1302 && argument <= 5 {
        Some(PlatformCommand::SetVolume(argument as u8))
    } else if (command == 1327 || command == 1328) && argument == 0 {
        Some(PlatformCommand::Reply(u32::MAX))
    } else if (command == 1016 || command == 1018 || command == 1215 || command == 1216)
        && argument == 0 {
        Some(PlatformCommand::Reply(0))
    } else if command == 2703 && argument == 0 {
        Some(PlatformCommand::Reply(0))
    } else if command == 1020 && argument == 0 {
        Some(PlatformCommand::Reply(1))
    } else if command == 1231 {
        Some(PlatformCommand::FilePosition { handle: argument as i32 })
    } else {
        None
    }
}

pub open spec fn unsupported_command_text(
    command: u32,
    argument: u32,
    module: usize,
    lr: u32,
    r2: u32,
    r3: u32,
) -> Seq<char> {
    "unsupported platform slot 37 command ("@ + dec_text(command as nat) + ", "@ + dec_text(
        argument as nat,
    ) + ") called by module "@ + dec_text(module as nat) + " at LR "@ + hex32_text(lr)
        + " (r2="@ + hex32_text(r2) + ", r3="@ + hex32_text(r3) + ")"@
}

/// What the slot 37 command `(command, argument)`, issued by `module` with
/// link register `lr` and registers `r2` and `r3`, asks of the runtime; an
/// unsupported command is refused with its registers in the message.
pub fn platform_command(command: u32, argument: u32, module: usize, lr: u32, r2: u32, r3: u32) -> (r:
    Result<PlatformCommand, Error>)
    ensures
        match command_spec(command, argument) {
            Some(c) => r == Ok::<PlatformCommand, Error>(c),
            None => r matches Err(Error::Abi(m)) && m@ == unsupported_command_text(
                command,
                argument,
                module,
                lr,
                r2,
                r3,
            ),
        },
{
    proof {
        reveal_strlit("unsupported platform slot 37 command (");
        reveal_strlit(", ");
        reveal_strlit(") called by module ");
        reveal_strlit(" at LR ");
        reveal_strlit(" (r2=");
        reveal_strlit(", r3=");
        reveal_strlit(")");
    }
    let c = if command == 101 && (argument == 0 || argument == 3) {
        PlatformCommand::SetOrientation { landscape: argument == 3 }
    } else if command == 1001 {
        PlatformCommand::SocketState { handle: argument as i32 }
    } else if command == 1106 && argument == 0 {
        PlatformCommand::Reply(0)
    } else if command == 1011 && argument <= 1 {
        PlatformCommand::Reply(0)
    } else if command == 1101 && argument == 2 {
        PlatformCommand::Reply(u32::MAX)
    } else if command == 1100 && argument == 0 {
        PlatformCommand::Reply(u32::MAX)
    } else if command == 1218 && argument == 0 {
        PlatformCommand::Reply(1001)
    } else if command == 1214 && argument <= 1 {
        PlatformCommand::Reply(0)
    } else if command == 1205 && argument == 0 {
        PlatformCommand::Reply(1001)
    } else if command == 1206 && argument == 0 {
        PlatformCommand::SetMotion { active: false }
    } else if command == 1211 && (argument == 2 || argument == 3) {
        PlatformCommand::Reply(0)
    } else if command == 4002 && argument == 0 {
        PlatformCommand::Reply(0)
    } else if command == 4003 && argument == 0 {
        PlatformCommand::SetMotion { active: false }
    } else if command == 4005 && argument == 2 {
        PlatformCommand::SetMotion { active: true }
    } else if command == 1302 && argument <= 5 {
        PlatformCommand::SetVolume(argument as u8)
    } else if (command == 1327 || command == 1328) && argument == 0 {
        PlatformCommand::Reply(u32::MAX)
    } else if (command == 1016 || command == 1018 || command == 1215 || command == 1216)
        && argument == 0 {
        PlatformCommand::Reply(0)
    } else if command == 2703 && argument == 0 {
        PlatformCommand::Reply(0)
    } else if command == 1020 && argument == 0 {
        PlatformCommand::Reply(1)
    } else if command == 1231 {
        PlatformCommand::FilePosition { handle: argument as i32 }
    } else {
        let m = String::from_str("unsupported platform slot 37 command (").concat(
            decimal(command as u64).as_str(),
        ).concat(", ").concat(decimal(argument as u64).as_str()).concat(
            ") called by module ",
        ).concat(decimal(module as u64).as_str()).concat(" at LR ").concat(hex32(lr).as_str()).concat(
            " (r2=",
        ).concat(hex32(r2).as_str()).concat(", r3=").concat(hex32(r3).as_str()).concat(")");
        return Err(Error::Abi(m));
    };
    Ok(c)
}

/// The answer to the legacy file-position query: the position biased by
/// 1000 where it is known and the sum fits `u32`, else `u32::MAX`.
pub open spec fn position_reply(position: Option<i64>) -> u32 {
    match position {
        Some(p) => if 0 <= p + 1000 <= u32::MAX {
            (p + 1000) as u32
        } else {
            u32::MAX
        },
        None => u32::MAX,
    }
}

/// The answer to the legacy file-position query for the position the file
/// service reported.
pub fn file_position_reply(position: Option<i64>) -> (r: u32)
    ensures
        r == position_reply(position),
{
    match position {
        Some(p) => match p.checked_add(1000) {
            Some(biased) => if 0 <= biased && biased <= u32::MAX as i64 {
                biased as u32
            } else {
                u32::MAX
            },
            None => u32::MAX,
        },
        None => u32::MAX,
    }
}

/// A path separator of the guest's file names.
pub open spec fn is_separator(b: u8) -> bool {
    b == 0x2f || b == 0x5c
}

/// The components of `path` between separators, from index `i` on, with
/// `current` the component being read.
pub open spec fn components_from(path: Seq<u8>, i: int, current: Seq<u8>) -> Seq<Seq<u8>>
    decreases path.len() - i,
{
    if i < 0 || i >= path.len() {
        seq![current]
    } else if is_separator(path[i]) {
        seq![current] + components_from(path, i + 1, Seq::empty())
    } else {
        components_from(path, i + 1, current.push(path[i]))
    }
}

/// The components of `path`, split at every `/` and `\`.
pub open spec fn path_components(path: Seq<u8>) -> Seq<Seq<u8>> {
    components_from(path, 0, Seq::empty())
}

pub open spec fn ascii_lower(b: u8) -> u8 {
    if 0x41 <= b <= 0x5a {
        (b + 0x20) as u8
    } else {
        b
    }
}

/// `name` is longer than `extension` and ends with it, ignoring ASCII case.
pub open spec fn has_extension(name: Seq<u8>, extension: Seq<u8>) -> bool {
    name.len() > extension.len() && forall|k: int|
        0 <= k < extension.len() ==> ascii_lower(#[trigger] name[name.len() - extension.len() + k])
            == ascii_lower(extension[k])
}

/// A path component that names something: not empty, `.` or `..`.
pub open spec fn names_something(c: Seq<u8>) -> bool {
    c.len() > 0 && c != seq![0x2eu8] && c != seq![0x2eu8, 0x2eu8]
}

/// A media path the platform accepts: no NUL byte, every component names
/// something, and the file name has `extension`.
pub open spec fn media_path_ok(path: Seq<u8>, extension: Seq<u8>) -> bool {
    let parts = path_components(path);
    &&& !path.contains(0u8)
    &&& forall|k: int| 0 <= k < parts.len() ==> names_something(#[trigger] parts[k])
    &&& has_extension(parts.last(), extension)
}

proof fn lemma_components_len(path: Seq<u8>, i: int, current: Seq<u8>)
    requires
        0 <= i,
    ensures
        components_from(path, i, current).len() >= 1,
    decreases path.len() - i,
{
    if i < path.len() {
        if is_separator(path[i]) {
            lemma_components_len(path, i + 1, Seq::empty());
        } else {
            lemma_components_len(path, i + 1, current.push(path[i]));
        }
    }
}

fn lower(b: u8) -> (r: u8)
    ensures
        r == ascii_lower(b),
{
    if 0x41 <= b && b <= 0x5a {
        b + 0x20
    } else {
        b
    }
}

fn component_ok(c: &Vec<u8>) -> (r: bool)
    ensures
        r == names_something(c@),
{
    if c.len() == 0 {
        return false;
    }
    if c.len() == 1 && c[0] == 0x2e {
        assert(c@ =~= seq![0x2eu8]);
        return false;
    }
    if c.len() == 2 && c[0] == 0x2e && c[1] == 0x2e {
        assert(c@ =~= seq![0x2eu8, 0x2eu8]);
        return false;
    }
    if c.len() == 1 {
        assert(c@[0] != seq![0x2eu8][0]);
    }
    if c.len() == 2 {
        assert(c@[0] != seq![0x2eu8, 0x2eu8][0] || c@[1] != seq![0x2eu8, 0x2eu8][1]);
    }
    true
}

fn ends_with_extension(name: &Vec<u8>, extension: &[u8]) -> (r: bool)
    ensures
        r == has_extension(name@, extension@),
{
    if name.len() <= extension.len() {
        return false;
    }
    let n = name.len();
    let start = n - extension.len();
    let mut k: usize = 0;
    while k < extension.len()
        invariant
            n == name@.len(),
            name@.len() > extension@.len(),
            start == name@.len() - extension@.len(),
            k <= extension@.len(),
            forall|j: int|
                0 <= j < k ==> ascii_lower(#[trigger] name@[name@.len() - extension@.len() + j])
                    == ascii_lower(extension@[j]),
        decreases extension.len() - k,
    {
        if lower(name[start + k]) != lower(extension[k]) {
            return false;
        }
        k = k + 1;
    }
    true
}

/// Whether `path` names a media file with `extension` (such as `.mp3`): it
/// holds no NUL byte, split at `/` and `\` no component is empty, `.` or
/// `..`, and the file name is longer than the extension and ends with it,
/// ignoring case.
pub fn media_path_accepted(path: &[u8], extension: &[u8]) -> (r: bool)
    ensures
        r == media_path_ok(path@, extension@),
{
    let ghost parts = path_components(path@);
    let mut current: Vec<u8> = Vec::new();
    let mut all_ok = true;
    let mut has_nul = false;
    let mut i: usize = 0;
    let ghost mut done: Seq<Seq<u8>> = Seq::empty();
    while i < path.len()
        invariant
            i <= path@.len(),
            parts == path_components(path@),
            parts == done + components_from(path@, i as int, current@),
            has_nul == exists|k: int| 0 <= k < i && path@[k] == 0u8,
            all_ok == forall|k: int| 0 <= k < done.len() ==> names_something(#[trigger] done[k]),
        decreases path.len() - i,
    {
        if path[i] == 0 {
            has_nul = true;
            assert(path@[i as int] == 0u8);
        }
        assert(has_nul == exists|k: int| 0 <= k < i + 1 && path@[k] == 0u8) by {
            if path@[i as int] != 0u8 {
                assert forall|k: int| 0 <= k < i + 1 && path@[k] == 0u8 implies 0 <= k < i by {}
            }
        }
        if path[i] == 0x2f || path[i] == 0x5c {
            let ok = component_ok(&current);
            proof {
                let old_done = done;
                done = done.push(current@);
                assert(done + components_from(path@, i + 1, Seq::empty()) =~= old_done + (seq![
                    current@,
                ] + components_from(path@, i + 1, Seq::empty())));
                assert forall|k: int| 0 <= k < old_done.len() implies #[trigger] done[k]
                    == old_done[k] by {}
                assert(done[old_done.len() as int] == current@);
                assert((forall|k: int| 0 <= k < done.len() ==> names_something(#[trigger] done[k]))
                    == ((forall|k: int| 0 <= k < old_done.len() ==> names_something(
                    #[trigger] old_done[k],
                )) && names_something(current@))) by {
                    if forall|k: int| 0 <= k < done.len() ==> names_something(#[trigger] done[k]) {
                        assert forall|k: int| 0 <= k < old_done.len() implies names_something(
                            #[trigger] old_done[k],
                        ) by {
                            assert(done[k] == old_done[k]);
                        }
                        assert(names_something(done[old_done.len() as int]));
                    }
                    if names_something(current@) && (forall|k: int|
                        0 <= k < old_done.len() ==> names_something(#[trigger] old_done[k])) {
                        assert forall|k: int| 0 <= k < done.len() implies names_something(
                            #[trigger] done[k],
                        ) by {
                            if k < old_done.len() {
                                assert(done[k] == old_done[k]);
                            }
                        }
                    }
                }
            }
            all_ok = all_ok && ok;
            current = Vec::new();
        } else {
            let ghost before = current@;
            current.push(path[i]);
            assert(components_from(path@, i as int, before) == components_from(
                path@,
                i + 1,
                before.push(path@[i as int]),
            ));
        }
        i = i + 1;
    }
    proof {
        assert(components_from(path@, i as int, current@) == seq![current@]);
        assert(parts =~= done.push(current@));
        assert(parts.last() == current@);
        assert forall|k: int| 0 <= k < done.len() implies #[trigger] parts[k] == done[k] by {}
        assert(parts[done.len() as int] == current@);
        if all_ok && names_something(current@) {
            assert forall|k: int| 0 <= k < parts.len() implies names_something(#[trigger] parts[k]) by {
                if k < done.len() {
                    assert(parts[k] == done[k]);
                }
            }
        }
    }
    let last_ok = component_ok(&current);
    let named = ends_with_extension(&current, extension);
    proof {
        assert(i == path@.len());
        if path@.contains(0u8) {
            let k = choose|k: int| 0 <= k < path@.len() && path@[k] == 0u8;
            assert(0 <= k < i && path@[k] == 0u8);
        }
        assert(has_nul == path@.contains(0u8));
        if forall|k: int| 0 <= k < parts.len() ==> names_something(#[trigger] parts[k]) {
            assert forall|k: int| 0 <= k < done.len() implies names_something(#[trigger] done[k]) by {
                assert(parts[k] == done[k]);
            }
            assert(names_something(parts[done.len() as int]));
        }
        assert(media_path_ok(path@, extension@) == (!has_nul && all_ok && last_ok && named));
    }
    !has_nul && all_ok && last_ok && named
}

} // verus!
