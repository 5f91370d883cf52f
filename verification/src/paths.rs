//! Windows paths as text.

use vstd::prelude::*;
use vstd::slice::slice_subrange;
use crate::text::{ascii_lower, chars_of, eq_str, own, push_str, rfind_char, string_of, to_chars};
#[allow(unused_imports)]
use crate::text::ascii_lower_of;

verus! {

/// A separator of the parts of a path.
pub open spec fn is_separator(c: char) -> bool {
    c == '/' || c == '\\'
}

fn separator(c: char) -> (r: bool)
    ensures
        r == is_separator(c),
{
    c == '/' || c == '\\'
}

/// A letter of a drive.
pub open spec fn is_drive(c: char) -> bool {
    'a' <= c <= 'z' || 'A' <= c <= 'Z'
}

pub(crate) fn drive(c: char) -> (r: bool)
    ensures
        r == is_drive(c),
{
    ('a' <= c && c <= 'z') || ('A' <= c && c <= 'Z')
}

/// A path without separators and dots at its end that name no part of it. The
/// separator of a root stays.
pub open spec fn bare(p: Seq<char>) -> Seq<char>
    decreases p.len(),
{
    if p.len() == 0 {
        p
    } else if is_separator(p.last()) {
        if p.len() == 1 || (p.len() == 3 && is_drive(p[0]) && p[1] == ':') {
            p
        } else {
            bare(p.drop_last())
        }
    } else if p.last() == '.' && p.len() >= 2 && is_separator(p[p.len() - 2]) {
        bare(p.drop_last())
    } else {
        p
    }
}

fn bare_len(p: &[char]) -> (r: usize)
    ensures
        r <= p@.len(),
        bare(p@) == p@.take(r as int),
{
    let mut n: usize = p.len();
    assert(p@.take(n as int) == p@);
    while n > 0
        invariant
            n <= p@.len(),
            p.len() == p@.len(),
            bare(p@) == bare(p@.take(n as int)),
        decreases n,
    {
        let ghost t = p@.take(n as int);
        assert(t.last() == p@[n - 1]);
        assert(t.drop_last() == p@.take(n - 1));
        if separator(p[n - 1]) {
            if n == 1 || (n == 3 && drive(p[0]) && p[1] == ':') {
                return n;
            }
        } else if !(p[n - 1] == '.' && n >= 2 && separator(p[n - 2])) {
            return n;
        }
        n -= 1;
    }
    n
}

/// Where the last part of a path begins.
pub open spec fn name_start(p: Seq<char>) -> int
    decreases p.len(),
{
    if p.len() == 0 {
        0
    } else if is_separator(p.last()) || (p.len() == 2 && is_drive(p[0]) && p[1] == ':') {
        p.len() as int
    } else {
        name_start(p.drop_last())
    }
}

fn find_name(p: &[char], len: usize) -> (r: usize)
    requires
        len <= p@.len(),
    ensures
        r <= len,
        r == name_start(p@.take(len as int)),
{
    let mut n: usize = len;
    while n > 0
        invariant
            n <= len <= p@.len(),
            p.len() == p@.len(),
            name_start(p@.take(len as int)) == name_start(p@.take(n as int)),
        decreases n,
    {
        let ghost t = p@.take(n as int);
        assert(t.last() == p@[n - 1]);
        assert(t.drop_last() == p@.take(n - 1));
        if separator(p[n - 1]) || (n == 2 && drive(p[0]) && p[1] == ':') {
            return n;
        }
        n -= 1;
    }
    n
}

/// The last part of a path, where it names a file or a directory.
pub open spec fn file_name_of(path: Seq<char>) -> Option<Seq<char>> {
    let t = bare(path);
    let name = t.skip(name_start(t));
    if name.len() == 0 || name == "."@ || name == ".."@ {
        None
    } else {
        Some(name)
    }
}

/// The last part of a path, where it names a file or a directory.
pub fn file_name(path: &str) -> (r: Option<String>)
    ensures
        match file_name_of(path@) {
            Some(n) => r matches Some(s) && s@ == n,
            None => r is None,
        },
{
    let p = chars_of(path);
    let end: usize = bare_len(p.as_slice());
    let start: usize = find_name(p.as_slice(), end);
    let name = slice_subrange(p.as_slice(), start, end);
    assert(name@ == bare(path@).skip(name_start(bare(path@))));
    if name.len() == 0 || eq_str(name, ".") || eq_str(name, "..") {
        None
    } else {
        Some(string_of(name))
    }
}

/// A file name without its extension.
pub open spec fn stem_of(name: Seq<char>) -> Seq<char> {
    match name.index_of_last('.') {
        Some(i) => if i > 0 {
            name.take(i)
        } else {
            name
        },
        None => name,
    }
}

/// The extension of a file name: what stands behind its last dot, unless that is
/// its first character.
pub open spec fn name_extension(name: Seq<char>) -> Option<Seq<char>> {
    match name.index_of_last('.') {
        Some(i) => if i > 0 {
            Some(name.skip(i + 1))
        } else {
            None
        },
        None => None,
    }
}

/// The extension of the file that a path names.
pub open spec fn extension_of(path: Seq<char>) -> Option<Seq<char>> {
    match file_name_of(path) {
        Some(name) => name_extension(name),
        None => None,
    }
}

/// The extension of the file that a path names.
pub fn extension(path: &str) -> (r: Option<String>)
    ensures
        match extension_of(path@) {
            Some(e) => r matches Some(s) && s@ == e,
            None => r is None,
        },
{
    match file_name(path) {
        None => None,
        Some(name) => {
            let n = chars_of(name.as_str());
            match rfind_char(n.as_slice(), '.') {
                Some(i) => if i > 0 {
                    let e = slice_subrange(n.as_slice(), i + 1, n.len());
                    assert(e@ == n@.skip(i + 1));
                    Some(string_of(e))
                } else {
                    None
                },
                None => None,
            }
        },
    }
}

/// Whether a path names a file with an extension, in any case.
pub open spec fn has_extension_of(path: Seq<char>, ext: Seq<char>) -> bool {
    match extension_of(path) {
        Some(e) => ascii_lower_of(e) == ascii_lower_of(ext),
        None => false,
    }
}

/// Whether a path names a file with an extension, in any case.
pub fn has_extension(path: &str, ext: &str) -> (r: bool)
    ensures
        r == has_extension_of(path@, ext@),
{
    match extension(path) {
        Some(e) => {
            let a = ascii_lower(chars_of(e.as_str()).as_slice());
            let b = ascii_lower(chars_of(ext).as_slice());
            crate::text::eq_chars(a.as_slice(), b.as_slice())
        },
        None => false,
    }
}

/// The stem of the file that a path names.
pub fn file_stem(path: &str) -> (r: Option<String>)
    ensures
        match file_name_of(path@) {
            Some(n) => r matches Some(s) && s@ == stem_of(n),
            None => r is None,
        },
{
    match file_name(path) {
        None => None,
        Some(name) => {
            let n = chars_of(name.as_str());
            match rfind_char(n.as_slice(), '.') {
                Some(i) => if i > 0 {
                    let e = slice_subrange(n.as_slice(), 0, i);
                    assert(e@ == n@.take(i as int));
                    Some(string_of(e))
                } else {
                    Some(name)
                },
                None => Some(name),
            }
        },
    }
}

/// A path with another extension; the path itself, where it names no file.
pub open spec fn extension_replaced(path: Seq<char>, ext: Seq<char>) -> Seq<char> {
    match file_name_of(path) {
        Some(name) => bare(path).take(name_start(bare(path))) + stem_of(name) + "."@ + ext,
        None => path,
    }
}

/// A path with another extension; the path itself, where it names no file.
pub fn with_extension(path: &str, ext: &str) -> (r: String)
    ensures
        r@ == extension_replaced(path@, ext@),
{
    match file_stem(path) {
        None => own(path),
        Some(stem) => {
            let p = chars_of(path);
            let end: usize = bare_len(p.as_slice());
            let start: usize = find_name(p.as_slice(), end);
            let head = slice_subrange(p.as_slice(), 0, start);
            assert(head@ == bare(path@).take(start as int));
            let mut out = to_chars(head);
            push_str(&mut out, stem.as_str());
            push_str(&mut out, ".");
            push_str(&mut out, ext);
            string_of(out.as_slice())
        },
    }
}

/// The directory of what a path names.
pub open spec fn parent_of(path: Seq<char>) -> Option<Seq<char>> {
    let t = bare(path);
    if name_start(t) == t.len() {
        None
    } else {
        Some(bare(t.take(name_start(t))))
    }
}

/// The directory of what a path names.
pub fn parent(path: &str) -> (r: Option<String>)
    ensures
        match parent_of(path@) {
            Some(d) => r matches Some(s) && s@ == d,
            None => r is None,
        },
{
    let p = chars_of(path);
    let end: usize = bare_len(p.as_slice());
    let start: usize = find_name(p.as_slice(), end);
    if start == end {
        return None;
    }
    let head = slice_subrange(p.as_slice(), 0, start);
    assert(head@ == bare(path@).take(start as int));
    let n: usize = bare_len(head);
    Some(string_of(slice_subrange(head, 0, n)))
}

/// The path of a name in a directory.
pub open spec fn in_dir(dir: Seq<char>, name: Seq<char>) -> Seq<char> {
    if dir.len() == 0 || is_separator(dir.last()) || (dir.len() == 2 && is_drive(dir[0]) && dir[1]
        == ':') {
        dir + name
    } else {
        dir + "\\"@ + name
    }
}

/// The path of a name in a directory.
pub fn join(dir: &str, name: &str) -> (r: String)
    ensures
        r@ == in_dir(dir@, name@),
{
    let mut out = chars_of(dir);
    let n: usize = out.len();
    if !(n == 0 || separator(out[n - 1]) || (n == 2 && drive(out[0]) && out[1] == ':')) {
        push_str(&mut out, "\\");
    }
    push_str(&mut out, name);
    string_of(out.as_slice())
}

/// The path of a name beside a program; the name alone, where the program's path
/// is not known or names no file.
pub open spec fn beside(program: Option<Seq<char>>, name: Seq<char>) -> Seq<char> {
    match program {
        Some(p) => match parent_of(p) {
            Some(d) => in_dir(d, name),
            None => name,
        },
        None => name,
    }
}

/// The path of a name beside a program.
pub fn sibling(program: Option<&str>, name: &str) -> (r: String)
    ensures
        r@ == beside(
            match program {
                Some(p) => Some(p@),
                None => None,
            },
            name@,
        ),
{
    match program {
        Some(p) => match parent(p) {
            Some(d) => join(d.as_str(), name),
            None => own(name),
        },
        None => own(name),
    }
}

} // verus!
