//! The files of the launcher's pages.

use vstd::prelude::*;
use crate::paths::{drive, extension, join};
#[allow(unused_imports)]
use crate::paths::{extension_of, in_dir, is_drive, is_separator};
use crate::text::{ascii_lower, chars_of, eq_str, own, push_str, string_of};
#[allow(unused_imports)]
use crate::text::ascii_lower_of;
use vstd::slice::slice_subrange;

verus! {

/// A path without the slashes at its beginning.
pub open spec fn unslashed(p: Seq<char>) -> Seq<char>
    decreases p.len(),
{
    if p.len() > 0 && p[0] == '/' {
        unslashed(p.skip(1))
    } else {
        p
    }
}

/// The file that a request asks for: the first page where it asks for nothing.
pub open spec fn wanted_file(raw: Seq<char>) -> Seq<char> {
    let rel = unslashed(raw);
    if rel.len() == 0 {
        "index.html"@
    } else {
        rel
    }
}

/// The parent directory stands as a part of a path from an index on.
pub open spec fn parent_at(p: Seq<char>, i: int) -> bool {
    &&& 0 <= i && i + 2 <= p.len()
    &&& p[i] == '.' && p[i + 1] == '.'
    &&& i == 0 || is_separator(p[i - 1])
    &&& i + 2 == p.len() || is_separator(p[i + 2])
}

/// A path begins at a root.
pub open spec fn is_rooted(p: Seq<char>) -> bool {
    ||| p.len() > 0 && is_separator(p[0])
    ||| p.len() > 2 && is_drive(p[0]) && p[1] == ':' && is_separator(p[2])
}

/// The parent directory stands behind the letter of a drive.
pub open spec fn is_parent_on_drive(p: Seq<char>) -> bool {
    &&& p.len() > 3 && is_drive(p[0]) && p[1] == ':'
    &&& p[2] == '.' && p[3] == '.'
    &&& p.len() == 4 || is_separator(p[4])
}

/// A path that names a root or the parent of a directory.
pub open spec fn leaves(p: Seq<char>) -> bool {
    ||| is_rooted(p)
    ||| is_parent_on_drive(p)
    ||| exists|i: int| #[trigger] parent_at(p, i)
}

fn separator(c: char) -> (r: bool)
    ensures
        r == is_separator(c),
{
    c == '/' || c == '\\'
}

fn path_leaves(p: &[char]) -> (r: bool)
    ensures
        r == leaves(p@),
{
    let n: usize = p.len();
    if n > 0 && separator(p[0]) {
        return true;
    }
    if n > 2 && drive(p[0]) && p[1] == ':' && separator(p[2]) {
        return true;
    }
    if n > 3 && drive(p[0]) && p[1] == ':' && p[2] == '.' && p[3] == '.' && (n == 4 || separator(
        p[4],
    )) {
        return true;
    }
    if n < 2 {
        return false;
    }
    let mut i: usize = 0;
    while i <= n - 2
        invariant
            n == p@.len(),
            n == p.len(),
            n >= 2,
            i <= n - 1,
            forall|k: int| 0 <= k < i ==> !#[trigger] parent_at(p@, k),
        decreases n - i,
    {
        if p[i] == '.' && p[i + 1] == '.' && (i == 0 || separator(p[i - 1])) && (i + 2 == n
            || separator(p[i + 2])) {
            assert(parent_at(p@, i as int));
            return true;
        }
        assert(!parent_at(p@, i as int));
        i += 1;
    }
    false
}

/// The kind of a file's contents, by its extension.
pub open spec fn mime_of(ext: Seq<char>) -> Seq<char> {
    if ext == "html"@ || ext == "htm"@ {
        "text/html; charset=utf-8"@
    } else if ext == "css"@ {
        "text/css; charset=utf-8"@
    } else if ext == "js"@ {
        "application/javascript; charset=utf-8"@
    } else if ext == "json"@ {
        "application/json; charset=utf-8"@
    } else if ext == "jpg"@ || ext == "jpeg"@ {
        "image/jpeg"@
    } else if ext == "png"@ {
        "image/png"@
    } else if ext == "gif"@ {
        "image/gif"@
    } else if ext == "svg"@ {
        "image/svg+xml"@
    } else if ext == "woff"@ {
        "font/woff"@
    } else if ext == "woff2"@ {
        "font/woff2"@
    } else if ext == "ttf"@ {
        "font/ttf"@
    } else {
        "application/octet-stream"@
    }
}

fn mime(ext: &[char]) -> (r: &'static str)
    ensures
        r@ == mime_of(ext@),
{
    if eq_str(ext, "html") || eq_str(ext, "htm") {
        "text/html; charset=utf-8"
    } else if eq_str(ext, "css") {
        "text/css; charset=utf-8"
    } else if eq_str(ext, "js") {
        "application/javascript; charset=utf-8"
    } else if eq_str(ext, "json") {
        "application/json; charset=utf-8"
    } else if eq_str(ext, "jpg") || eq_str(ext, "jpeg") {
        "image/jpeg"
    } else if eq_str(ext, "png") {
        "image/png"
    } else if eq_str(ext, "gif") {
        "image/gif"
    } else if eq_str(ext, "svg") {
        "image/svg+xml"
    } else if eq_str(ext, "woff") {
        "font/woff"
    } else if eq_str(ext, "woff2") {
        "font/woff2"
    } else if eq_str(ext, "ttf") {
        "font/ttf"
    } else {
        "application/octet-stream"
    }
}

/// What a request for a page's file comes to.
pub enum SkinRequest {
    /// It is refused.
    Forbidden,
    /// That file is read, with contents of that kind.
    File(String, &'static str),
}

/// The extension of a path in lower case; empty without one.
pub open spec fn plain_extension(path: Seq<char>) -> Seq<char> {
    match extension_of(path) {
        Some(e) => ascii_lower_of(e),
        None => seq![],
    }
}

/// What a request for a page's file comes to. One that names a root or the parent
/// of a directory is refused.
pub fn serve_skin_file(raw_path: &str) -> (r: SkinRequest)
    ensures
        match r {
            SkinRequest::Forbidden => leaves(wanted_file(raw_path@)),
            SkinRequest::File(rel, kind) => !leaves(wanted_file(raw_path@)) && rel@ == wanted_file(
                raw_path@,
            ) && kind@ == mime_of(plain_extension(rel@)),
        },
{
    let cs = chars_of(raw_path);
    let n: usize = cs.len();
    let mut i: usize = 0;
    assert(cs@.skip(0) == cs@);
    while i < n && cs[i] == '/'
        invariant
            i <= n,
            n == cs@.len(),
            unslashed(cs@) == unslashed(cs@.skip(i as int)),
        decreases n - i,
    {
        assert(cs@.skip(i as int).skip(1) == cs@.skip(i + 1));
        i += 1;
    }
    let rel = if i == n {
        assert(cs@.skip(i as int).len() == 0);
        own("index.html")
    } else {
        let tail = slice_subrange(cs.as_slice(), i, n);
        assert(tail@ == cs@.skip(i as int));
        string_of(tail)
    };
    assert(rel@ == wanted_file(raw_path@));
    if path_leaves(chars_of(rel.as_str()).as_slice()) {
        return SkinRequest::Forbidden;
    }
    let ext: Vec<char> = match extension(rel.as_str()) {
        Some(e) => ascii_lower(chars_of(e.as_str()).as_slice()),
        None => Vec::new(),
    };
    let kind = mime(ext.as_slice());
    SkinRequest::File(rel, kind)
}

/// The status of an answer: 403 where it was refused, 404 where the file could not
/// be read, and 200 otherwise.
pub fn skin_status(refused: bool, readable: bool) -> (r: u16)
    ensures
        r == (if refused {
            403int
        } else if readable {
            200
        } else {
            404
        }),
{
    if refused {
        403
    } else if readable {
        200
    } else {
        404
    }
}

/// No request that is answered with a file names a root or the parent of a
/// directory, not behind the letter of a drive either. A drive alone is let
/// through.
pub proof fn law_requests_do_not_climb(raw: Seq<char>)
    requires
        !leaves(wanted_file(raw)),
    ensures
        !is_rooted(wanted_file(raw)),
        !is_parent_on_drive(wanted_file(raw)),
        forall|i: int| !#[trigger] parent_at(wanted_file(raw), i),
{
}

/// The first page of a skin beside the launcher.
pub open spec fn index_page(dir: Seq<char>, skin: Seq<char>) -> Seq<char> {
    in_dir(in_dir(in_dir(dir, "skins"@), skin), "index.html"@)
}

/// The first page of a skin beside the launcher.
pub fn skin_index(dir: &str, skin: &str) -> (r: String)
    ensures
        r@ == index_page(dir@, skin@),
{
    let skins = join(dir, "skins");
    let own_dir = join(skins.as_str(), skin);
    join(own_dir.as_str(), "index.html")
}

/// What is said where a skin is missing.
pub fn missing_skin_text(index: &str, skin: &str) -> (r: String)
    ensures
        r@ == "找不到 skin："@ + index@ + "\n請確認 skins/"@ + skin@ + "/index.html 存在"@,
{
    let mut out = chars_of("找不到 skin：");
    push_str(&mut out, index);
    push_str(&mut out, "\n請確認 skins/");
    push_str(&mut out, skin);
    push_str(&mut out, "/index.html 存在");
    string_of(out.as_slice())
}

} // verus!
