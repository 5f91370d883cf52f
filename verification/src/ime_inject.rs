//! Keeping the input method's library and loading it into the game.

use vstd::prelude::*;
use crate::code::eq_bytes;
use crate::paths::{file_name, join};
#[allow(unused_imports)]
use crate::paths::{file_name_of, in_dir};
use crate::startup_hook::LoadError;
use crate::text::{decimal_chars, own, push_all, push_str, string_of};
#[allow(unused_imports)]
use crate::text::decimal;

verus! {

/// Where the library is kept below the user's local data.
pub const CACHE_SUBDIR: &'static str = "Lineage38Launcher\\ime";

/// The library's name.
pub const LIBRARY_NAME: &'static str = "lineage_ime.dll";

/// The directory that keeps the library; nothing without a place for local data.
pub fn cache_dir(local_app_data: Option<&str>) -> (r: Option<String>)
    ensures
        match local_app_data {
            Some(d) => r matches Some(s) && s@ == in_dir(d@, CACHE_SUBDIR@),
            None => r is None,
        },
{
    match local_app_data {
        Some(d) => Some(join(d, CACHE_SUBDIR)),
        None => None,
    }
}

/// The path of the library in a directory.
pub fn library_path(dir: &str) -> (r: String)
    ensures
        r@ == in_dir(dir@, LIBRARY_NAME@),
{
    join(dir, LIBRARY_NAME)
}

/// Whether a file is written: unless it is there with the same bytes.
pub fn needs_deploy(existing: Option<&[u8]>, bytes: &[u8]) -> (r: bool)
    ensures
        r == !(existing matches Some(e) && e@ == bytes@),
{
    match existing {
        Some(e) => !eq_bytes(e, bytes),
        None => true,
    }
}

/// The name of a library in a report.
pub fn shown_name(path: &str) -> (r: String)
    ensures
        r@ == (match file_name_of(path@) {
            Some(n) => n,
            None => "?"@,
        }),
{
    match file_name(path) {
        Some(n) => n,
        None => own("?"),
    }
}

/// An error of loading the library, in words.
pub fn load_error_text(e: &LoadError) -> (r: String)
    ensures
        r@ == (match *e {
            LoadError::ShortWrite(w, n) => "路徑寫入不完整 ("@ + decimal(w as nat) + "/"@ + decimal(
                n as nat,
            ) + " bytes)"@,
            LoadError::TimedOut(t) => "LoadLibraryW timeout 5000ms (tid="@ + decimal(t as nat)
                + ")"@,
            LoadError::WaitFailed(w, t) => "LoadLibraryW 等待非預期 (wait=WAIT_EVENT("@ + decimal(
                w as nat,
            ) + "), tid="@ + decimal(t as nat) + ")"@,
            LoadError::Null(t) => "LoadLibraryW 回 NULL — 載入失敗 (tid="@ + decimal(t as nat)
                + ")"@,
        }),
{
    let mut out: Vec<char> = Vec::new();
    match *e {
        LoadError::ShortWrite(w, n) => {
            push_str(&mut out, "路徑寫入不完整 (");
            push_all(&mut out, decimal_chars(w as u64).as_slice());
            push_str(&mut out, "/");
            push_all(&mut out, decimal_chars(n as u64).as_slice());
            push_str(&mut out, " bytes)");
        },
        LoadError::TimedOut(t) => {
            push_str(&mut out, "LoadLibraryW timeout 5000ms (tid=");
            push_all(&mut out, decimal_chars(t as u64).as_slice());
            push_str(&mut out, ")");
        },
        LoadError::WaitFailed(w, t) => {
            push_str(&mut out, "LoadLibraryW 等待非預期 (wait=WAIT_EVENT(");
            push_all(&mut out, decimal_chars(w as u64).as_slice());
            push_str(&mut out, "), tid=");
            push_all(&mut out, decimal_chars(t as u64).as_slice());
            push_str(&mut out, ")");
        },
        LoadError::Null(t) => {
            push_str(&mut out, "LoadLibraryW 回 NULL — 載入失敗 (tid=");
            push_all(&mut out, decimal_chars(t as u64).as_slice());
            push_str(&mut out, ")");
        },
    }
    string_of(out.as_slice())
}

} // verus!
