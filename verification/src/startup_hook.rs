//! Loading the launcher's hook library into the game.

use vstd::prelude::*;
use crate::paths::{join, parent};
#[allow(unused_imports)]
use crate::paths::{in_dir, parent_of};
use crate::process::to_wide_null;
use crate::text::{ascii_lower, chars_of, decimal_chars, eq_str, push_all, push_str, string_of};
#[allow(unused_imports)]
use crate::text::{ascii_lower_of, decimal, texts};
#[allow(unused_imports)]
use crate::unicode::utf16_of;

verus! {

/// How long to wait before the library is loaded, in milliseconds.
pub const INJECT_DELAY_MS: u64 = 200;

/// How long loading may take, in milliseconds.
pub const INJECT_WAIT_MS: u32 = 5000;

/// A value of `LOGIN38_STARTUP_HOOK` that keeps the library away.
pub open spec fn keeps_away(value: Option<Seq<char>>) -> bool {
    match value {
        Some(v) => v == "0"@ || ascii_lower_of(v) == "false"@,
        None => false,
    }
}

/// Whether `LOGIN38_STARTUP_HOOK` keeps the library away.
pub fn hook_disabled(value: Option<&str>) -> (r: bool)
    ensures
        r == keeps_away(
            match value {
                Some(v) => Some(v@),
                None => None,
            },
        ),
{
    match value {
        Some(v) => {
            let cs = chars_of(v);
            eq_str(cs.as_slice(), "0") || eq_str(ascii_lower(cs.as_slice()).as_slice(), "false")
        },
        None => false,
    }
}

/// The library's three names in a directory.
pub open spec fn names_in(dir: Seq<char>) -> Seq<Seq<char>> {
    seq![
        in_dir(dir, "L38Hook.dll"@),
        in_dir(dir, "startup_hook_probe.dll"@),
        in_dir(dir, "startup_hook.dll"@),
    ]
}

fn push_names(out: &mut Vec<String>, dir: &str)
    ensures
        texts(final(out)@) == texts(old(out)@) + names_in(dir@),
{
    let ghost before = texts(out@);
    out.push(join(dir, "L38Hook.dll"));
    out.push(join(dir, "startup_hook_probe.dll"));
    out.push(join(dir, "startup_hook.dll"));
    assert(texts(out@) == before + names_in(dir@));
}

/// Where the library is searched, in order: beside the launcher, in the current
/// directory, and in the game's directory.
pub open spec fn hook_places(
    exe: Option<Seq<char>>,
    cwd: Option<Seq<char>>,
    game_dir: Seq<char>,
) -> Seq<Seq<char>> {
    (match exe {
        Some(e) => match parent_of(e) {
            Some(d) => names_in(d),
            None => seq![],
        },
        None => seq![],
    }) + (match cwd {
        Some(d) => names_in(d),
        None => seq![],
    }) + names_in(game_dir)
}

/// Where the library is searched, in order.
pub fn hook_candidates(exe: Option<&str>, cwd: Option<&str>, game_dir: &str) -> (r: Vec<String>)
    ensures
        texts(r@) == hook_places(
            match exe {
                Some(e) => Some(e@),
                None => None,
            },
            match cwd {
                Some(d) => Some(d@),
                None => None,
            },
            game_dir@,
        ),
{
    let mut out: Vec<String> = Vec::new();
    assert(texts(out@) == Seq::<Seq<char>>::empty());
    match exe {
        Some(e) => match parent(e) {
            Some(d) => push_names(&mut out, d.as_str()),
            None => {},
        },
        None => {},
    }
    let ghost first = texts(out@);
    match cwd {
        Some(d) => push_names(&mut out, d),
        None => {},
    }
    push_names(&mut out, game_dir);
    assert(texts(out@) == hook_places(
        match exe {
            Some(e) => Some(e@),
            None => None,
        },
        match cwd {
            Some(d) => Some(d@),
            None => None,
        },
        game_dir@,
    ));
    out
}

/// The index of the first place that there is.
pub fn first_existing(exists_at: &[bool]) -> (r: Option<usize>)
    ensures
        match r {
            Some(i) => i < exists_at@.len() && exists_at@[i as int] && forall|k: int|
                0 <= k < i ==> !#[trigger] exists_at@[k],
            None => forall|k: int| 0 <= k < exists_at@.len() ==> !#[trigger] exists_at@[k],
        },
{
    let mut i: usize = 0;
    while i < exists_at.len()
        invariant
            i <= exists_at@.len(),
            exists_at.len() == exists_at@.len(),
            forall|k: int| 0 <= k < i ==> !#[trigger] exists_at@[k],
        decreases exists_at@.len() - i,
    {
        if exists_at[i] {
            return Some(i);
        }
        i += 1;
    }
    None
}

/// What happens to the library.
#[derive(Debug, Clone, Copy, PartialEq, Eq, Structural)]
pub enum HookPlan {
    /// It is loaded.
    Load,
    /// It is kept away by the variable.
    Disabled,
    /// It was not found.
    Missing,
}

/// What happens to the library. Where the game cannot do without it, anything but
/// loading it is an error.
pub fn plan_hook(disabled: bool, found: bool) -> (r: HookPlan)
    ensures
        r == (if disabled {
            HookPlan::Disabled
        } else if !found {
            HookPlan::Missing
        } else {
            HookPlan::Load
        }),
{
    if disabled {
        HookPlan::Disabled
    } else if !found {
        HookPlan::Missing
    } else {
        HookPlan::Load
    }
}

/// What is said where the game cannot do without the library.
pub fn required_error(plan: HookPlan) -> (r: Option<&'static str>)
    ensures
        match plan {
            HookPlan::Load => r is None,
            HookPlan::Disabled => r matches Some(s) && s@
                == "StartupHook is required but disabled by LOGIN38_STARTUP_HOOK"@,
            HookPlan::Missing => r matches Some(s) && s@
                == "StartupHook is required but L38Hook.dll/startup_hook.dll was not found"@,
        },
{
    match plan {
        HookPlan::Load => None,
        HookPlan::Disabled => Some(
            "StartupHook is required but disabled by LOGIN38_STARTUP_HOOK",
        ),
        HookPlan::Missing => Some(
            "StartupHook is required but L38Hook.dll/startup_hook.dll was not found",
        ),
    }
}

/// The bytes of a path as the game gets it: UTF-16 units and a zero, low bytes
/// first.
pub open spec fn path_bytes(path: Seq<char>) -> Seq<u8> {
    let u = utf16_of(path).push(0);
    Seq::new(
        2 * u.len(),
        |i: int|
            if i % 2 == 0 {
                (u[i / 2] % 256) as u8
            } else {
                (u[i / 2] / 256) as u8
            },
    )
}

/// The bytes of a path as the game gets it.
pub fn build_path_bytes(path: &str) -> (r: Vec<u8>)
    ensures
        r@ == path_bytes(path@),
{
    let u = to_wide_null(path);
    let mut out: Vec<u8> = Vec::new();
    let mut i: usize = 0;
    while i < u.len()
        invariant
            i <= u@.len(),
            u@ == utf16_of(path@).push(0),
            out@ == path_bytes(path@).take(2 * i as int),
        decreases u@.len() - i,
    {
        let ghost all = path_bytes(path@);
        out.push((u[i] % 256) as u8);
        out.push((u[i] / 256) as u8);
        proof {
            assert(all[2 * i as int] == (u@[i as int] % 256) as u8);
            assert(all[2 * i + 1] == (u@[i as int] / 256) as u8);
            assert(all.take(2 * (i + 1)) == all.take(2 * i as int).push(
                (u@[i as int] % 256) as u8,
            ).push((u@[i as int] / 256) as u8));
        }
        i += 1;
    }
    assert(path_bytes(path@).take(2 * i as int) == path_bytes(path@));
    out
}

/// How waiting for the loading thread ended.
#[derive(Debug, Clone, Copy, PartialEq, Eq, Structural)]
pub enum LoadWait {
    Done,
    TimedOut,
    Other(u32),
}

/// Why the library was not loaded.
#[derive(Debug, Clone, Copy, PartialEq, Eq, Structural)]
pub enum LoadError {
    /// Only that many bytes of the path were written, of so many.
    ShortWrite(usize, usize),
    /// That thread took too long.
    TimedOut(u32),
    /// Waiting for that thread ended so.
    WaitFailed(u32, u32),
    /// That thread loaded nothing.
    Null(u32),
}

impl LoadError {
    /// The error in words.
    pub fn to_string(&self) -> (r: String)
        ensures
            r@ == (match *self {
                LoadError::ShortWrite(w, n) => "WriteProcessMemory wrote "@ + decimal(w as nat)
                    + "/"@ + decimal(n as nat),
                LoadError::TimedOut(t) => "LoadLibraryW timeout 5000ms tid="@ + decimal(t as nat),
                LoadError::WaitFailed(w, t) => "LoadLibraryW wait failed: WAIT_EVENT("@ + decimal(
                    w as nat,
                ) + ") tid="@ + decimal(t as nat),
                LoadError::Null(t) => "LoadLibraryW returned NULL tid="@ + decimal(t as nat),
            }),
    {
        let mut out: Vec<char> = Vec::new();
        match *self {
            LoadError::ShortWrite(w, n) => {
                push_str(&mut out, "WriteProcessMemory wrote ");
                push_all(&mut out, decimal_chars(w as u64).as_slice());
                push_str(&mut out, "/");
                push_all(&mut out, decimal_chars(n as u64).as_slice());
            },
            LoadError::TimedOut(t) => {
                push_str(&mut out, "LoadLibraryW timeout 5000ms tid=");
                push_all(&mut out, decimal_chars(t as u64).as_slice());
            },
            LoadError::WaitFailed(w, t) => {
                push_str(&mut out, "LoadLibraryW wait failed: WAIT_EVENT(");
                push_all(&mut out, decimal_chars(w as u64).as_slice());
                push_str(&mut out, ") tid=");
                push_all(&mut out, decimal_chars(t as u64).as_slice());
            },
            LoadError::Null(t) => {
                push_str(&mut out, "LoadLibraryW returned NULL tid=");
                push_all(&mut out, decimal_chars(t as u64).as_slice());
            },
        }
        string_of(out.as_slice())
    }
}

/// Whether the whole path was written.
pub fn check_written(written: usize, wanted: usize) -> (r: Result<(), LoadError>)
    ensures
        r == (if written == wanted {
            Ok::<(), LoadError>(())
        } else {
            Err::<(), LoadError>(LoadError::ShortWrite(written, wanted))
        }),
{
    if written == wanted {
        Ok(())
    } else {
        Err(LoadError::ShortWrite(written, wanted))
    }
}

/// Whether the library was loaded, from how waiting for a thread ended and what
/// the thread gave back.
pub fn check_loaded(wait: LoadWait, hmod: u32, tid: u32) -> (r: Result<(), LoadError>)
    ensures
        r == (match wait {
            LoadWait::TimedOut => Err::<(), LoadError>(LoadError::TimedOut(tid)),
            LoadWait::Other(w) => Err::<(), LoadError>(LoadError::WaitFailed(w, tid)),
            LoadWait::Done => if hmod == 0 {
                Err::<(), LoadError>(LoadError::Null(tid))
            } else {
                Ok::<(), LoadError>(())
            },
        }),
{
    match wait {
        LoadWait::TimedOut => Err(LoadError::TimedOut(tid)),
        LoadWait::Other(w) => Err(LoadError::WaitFailed(w, tid)),
        LoadWait::Done => if hmod == 0 {
            Err(LoadError::Null(tid))
        } else {
            Ok(())
        },
    }
}

} // verus!
