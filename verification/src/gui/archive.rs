//! Unpacking the archives of an update.

use vstd::prelude::*;
use std::io::Cursor;
use std::io::Read;
use zip::result::ZipError;
use zip::ZipArchive;
use crate::paths::{join, parent};
#[allow(unused_imports)]
use crate::gui::skin::parent_at;
#[allow(unused_imports)]
use crate::paths::{in_dir, is_separator, parent_of};
use crate::text::{chars_of, decimal_chars, own, push_all, string_of};
#[allow(unused_imports)]
use crate::text::decimal;

verus! {

/// `zip::ZipArchive`, an archive that is read by the numbers of its entries.
#[verifier::external_type_specification]
#[verifier::external_body]
#[verifier::reject_recursive_types(R)]
pub struct ExZipArchive<R>(zip::ZipArchive<R>);

/// `std::io::Cursor`, a reader over bytes in memory.
#[verifier::external_type_specification]
#[verifier::external_body]
#[verifier::reject_recursive_types(T)]
pub struct ExCursor<T>(std::io::Cursor<T>);

/// `zip::result::ZipError`, what is wrong with an archive or an entry.
#[verifier::external_type_specification]
#[verifier::external_body]
pub struct ExZipError(zip::result::ZipError);

/// `std::io::Error`, why reading failed.
#[verifier::external_type_specification]
#[verifier::external_body]
pub struct ExIoError(std::io::Error);

/// The entries of an archive in their order. Of each: the name that is stored for
/// it, whether it is a directory, and what it holds, where that can be read;
/// nothing, where the entry cannot be opened.
pub uninterp spec fn zip_entries(
    archive: ZipArchive<Cursor<Vec<u8>>>,
) -> Seq<Option<(Seq<char>, bool, Option<Seq<u8>>)>>;

/// The entries of the archive that some bytes are; nothing, where they are none.
pub uninterp spec fn zip_opened(
    bytes: Seq<u8>,
) -> Option<Seq<Option<(Seq<char>, bool, Option<Seq<u8>>)>>>;

/// `zip::ZipArchive::new` over bytes in memory: the archive, or its error. Whether
/// the bytes are an archive, and of what entries, depends on them alone.
#[verifier::external_body]
fn open_archive(bytes: Vec<u8>) -> (r: Result<ZipArchive<Cursor<Vec<u8>>>, ZipError>)
    ensures
        match r {
            Ok(a) => zip_opened(bytes@) == Some(zip_entries(a)),
            Err(_) => zip_opened(bytes@) is None,
        },
{
    ZipArchive::new(Cursor::new(bytes))
}

/// `zip::ZipArchive::len`: how many entries there are.
#[verifier::external_body]
fn entry_count(archive: &ZipArchive<Cursor<Vec<u8>>>) -> (r: usize)
    ensures
        r == zip_entries(*archive).len(),
{
    archive.len()
}

/// A name that leads neither up nor to a root.
pub open spec fn stays_below(name: Seq<char>) -> bool {
    &&& name.len() > 0 ==> !is_separator(name[0])
    &&& forall|i: int| !#[trigger] parent_at(name, i)
}

/// A stored name that means the same on every machine: one or more parts with
/// slashes between them. No part is empty, `.` or `..`, and no character has a
/// meaning of its own.
pub open spec fn is_ordinary(name: Seq<char>) -> bool {
    &&& forall|i: int|
        0 <= i < name.len() ==> (#[trigger] name[i]) != '\\' && name[i] != ':' && name[i] != '\0'
    &&& forall|i: int| !#[trigger] idle_part_at(name, i)
}

/// From an index on stands a part that is empty, `.` or `..`.
pub open spec fn idle_part_at(name: Seq<char>, i: int) -> bool {
    &&& 0 <= i <= name.len()
    &&& i == 0 || name[i - 1] == '/'
    &&& {
        ||| i == name.len() || name[i] == '/'
        ||| name[i] == '.' && (i + 1 == name.len() || name[i + 1] == '/')
        ||| i + 1 < name.len() && name[i] == '.' && name[i + 1] == '.' && (i + 2 == name.len()
            || name[i + 2] == '/')
    }
}

/// A stored name without the slash at its end that makes it one of a directory.
pub open spec fn stored_place(name: Seq<char>) -> Seq<char> {
    if name.len() > 0 && name.last() == '/' {
        name.drop_last()
    } else {
        name
    }
}

/// A stored name of a directory ends with a separator.
pub open spec fn names_directory(stored: Seq<char>) -> bool {
    stored.len() > 0 && is_separator(stored.last())
}

/// The same name, but for the separators of the machine.
pub open spec fn same_place(name: Seq<char>, stored: Seq<char>) -> bool {
    &&& name.len() == stored.len()
    &&& forall|i: int|
        0 <= i < stored.len() ==> if stored[i] == '/' {
            is_separator(#[trigger] name[i])
        } else {
            name[i] == stored[i]
        }
}

/// What a stored name may be unpacked as: below the directory, and in the place
/// that is stored, where that is ordinary.
pub open spec fn unpacks_as(stored: Seq<char>, name: Seq<char>) -> bool {
    &&& stays_below(name)
    &&& is_ordinary(stored_place(stored)) ==> same_place(name, stored_place(stored))
}

/// `zip::ZipArchive::by_index`, and of the entry `is_dir`, which goes by the end of
/// the stored name, and `mangled_name`: the stored name without roots and without
/// parts that mean the parent directory, with the separators of the machine. An
/// ordinary name keeps everything else. What becomes of drive letters and other
/// prefixes depends on the machine, so no more is said of names that are not
/// ordinary. The entries stay as they are.
#[verifier::external_body]
fn entry_place(archive: &mut ZipArchive<Cursor<Vec<u8>>>, i: usize) -> (r: Result<
    (String, bool),
    ZipError,
>)
    requires
        i < zip_entries(*old(archive)).len(),
    ensures
        zip_entries(*final(archive)) == zip_entries(*old(archive)),
        match r {
            Ok(p) => {
                &&& zip_entries(*old(archive))[i as int] matches Some(e)
                &&& e.1 == p.1
                &&& p.1 == names_directory(e.0)
                &&& unpacks_as(e.0, p.0@)
            },
            Err(_) => zip_entries(*old(archive))[i as int] is None,
        },
{
    let entry = archive.by_index(i)?;
    let name = entry.mangled_name().to_string_lossy().into_owned();
    Ok((name, entry.is_dir()))
}

/// What an entry holds, where it can be opened and read.
pub open spec fn held(entry: Option<(Seq<char>, bool, Option<Seq<u8>>)>) -> Option<Seq<u8>> {
    match entry {
        Some(e) => e.2,
        None => None,
    }
}

/// `zip::ZipArchive::by_index`, and the entry read to its end. The entries stay as
/// they are.
#[verifier::external_body]
fn entry_contents(archive: &mut ZipArchive<Cursor<Vec<u8>>>, i: usize) -> (r: Result<
    Vec<u8>,
    std::io::Error,
>)
    requires
        i < zip_entries(*old(archive)).len(),
        zip_entries(*old(archive))[i as int] is Some,
    ensures
        zip_entries(*final(archive)) == zip_entries(*old(archive)),
        match r {
            Ok(d) => held(zip_entries(*old(archive))[i as int]) == Some(d@),
            Err(_) => held(zip_entries(*old(archive))[i as int]) is None,
        },
{
    let mut entry = archive.by_index(i)?;
    let mut data = Vec::new();
    entry.read_to_end(&mut data)?;
    Ok(data)
}

/// Why an archive cannot be unpacked.
#[derive(Debug)]
pub enum UnpackError {
    /// It is no archive.
    Archive(ZipError),
    /// An entry cannot be opened.
    Entry(usize, ZipError),
    /// What an entry holds cannot be read.
    Contents(std::io::Error),
}

/// What an error is about; nothing, where its cause says enough.
pub open spec fn error_heading(e: UnpackError) -> Option<Seq<char>> {
    match e {
        UnpackError::Archive(_) => Some("解析 zip 失敗"@),
        UnpackError::Entry(i, _) => Some("讀取 zip entry #"@ + decimal(i as nat)),
        UnpackError::Contents(_) => None,
    }
}

impl UnpackError {
    /// What it is about; nothing, where its cause says enough.
    pub fn heading(&self) -> (r: Option<String>)
        ensures
            match error_heading(*self) {
                Some(t) => r matches Some(s) && s@ == t,
                None => r is None,
            },
    {
        match self {
            UnpackError::Archive(_) => Some(own("解析 zip 失敗")),
            UnpackError::Entry(i, _) => {
                let mut out = chars_of("讀取 zip entry #");
                push_all(&mut out, decimal_chars(*i as u64).as_slice());
                Some(string_of(out.as_slice()))
            },
            UnpackError::Contents(_) => None,
        }
    }
}

/// What is done for an entry.
#[derive(Debug)]
pub enum UnpackStep {
    /// The directory is made, with those above it.
    Directory(String),
    /// The directory, where there is one, is made, and the file written.
    File(Option<String>, String),
}

/// What is done for an entry in a directory: a directory is made; of a file, its
/// directory is made first.
pub open spec fn step_for(step: UnpackStep, dest: Seq<char>, name: Seq<char>, dir: bool) -> bool {
    match step {
        UnpackStep::Directory(p) => dir && p@ == in_dir(dest, name),
        UnpackStep::File(d, p) => {
            &&& !dir
            &&& p@ == in_dir(dest, name)
            &&& match parent_of(in_dir(dest, name)) {
                Some(t) => d matches Some(u) && u@ == t,
                None => d is None,
            }
        },
    }
}

/// What is done for an entry in a directory.
pub fn unpack_step(dest: &str, name: &str, dir: bool) -> (r: UnpackStep)
    ensures
        step_for(r, dest@, name@, dir),
{
    let path = join(dest, name);
    if dir {
        UnpackStep::Directory(path)
    } else {
        UnpackStep::File(parent(path.as_str()), path)
    }
}

/// An entry that can be opened and is no directory.
pub open spec fn is_file(entry: Option<(Seq<char>, bool, Option<Seq<u8>>)>) -> bool {
    entry matches Some(e) && !e.1
}

/// One where something holds, and nothing where not.
pub open spec fn as_count(b: bool) -> nat {
    if b {
        1
    } else {
        0
    }
}

/// How many of some entries are files.
pub open spec fn files_among(entries: Seq<Option<(Seq<char>, bool, Option<Seq<u8>>)>>) -> nat
    decreases entries.len(),
{
    if entries.len() == 0 {
        0
    } else {
        files_among(entries.drop_last()) + as_count(is_file(entries.last()))
    }
}

/// An archive on its way into a directory.
pub struct Unpacking {
    /// The archive.
    pub archive: ZipArchive<Cursor<Vec<u8>>>,
    /// The entries so far.
    pub at: usize,
    /// The files that were read.
    pub count: usize,
    /// Whether the last entry is a file that is still to be read.
    pub pending: bool,
}

impl Unpacking {
    /// What the archive holds.
    pub open spec fn entries(self) -> Seq<Option<(Seq<char>, bool, Option<Seq<u8>>)>> {
        zip_entries(self.archive)
    }

    /// Every file so far was read, but for one that is still to be.
    pub open spec fn inv(self) -> bool {
        &&& self.at <= self.entries().len()
        &&& self.count + as_count(self.pending) == files_among(self.entries().take(self.at as int))
        &&& self.pending ==> self.at > 0 && is_file(self.entries()[self.at - 1])
    }

    /// The next entry and what is done for it; nothing behind the last one.
    pub fn step(&mut self, dest: &str) -> (r: Result<Option<UnpackStep>, UnpackError>)
        requires
            old(self).inv(),
            !old(self).pending,
        ensures
            final(self).inv(),
            final(self).entries() == old(self).entries(),
            final(self).count == old(self).count,
            match r {
                Ok(None) => {
                    &&& old(self).at == old(self).entries().len()
                    &&& final(self).at == old(self).at
                    &&& !final(self).pending
                },
                Ok(Some(s)) => {
                    &&& old(self).at < old(self).entries().len()
                    &&& old(self).entries()[old(self).at as int] matches Some(e)
                    &&& final(self).at == old(self).at + 1
                    &&& e.1 == names_directory(e.0)
                    &&& final(self).pending == !e.1
                    &&& exists|name: Seq<char>| #[trigger]
                        unpacks_as(e.0, name) && step_for(s, dest@, name, e.1)
                },
                Err(e) => {
                    &&& old(self).at < old(self).entries().len()
                    &&& old(self).entries()[old(self).at as int] is None
                    &&& e matches UnpackError::Entry(i, _)
                    &&& i == old(self).at
                    &&& final(self).at == old(self).at
                    &&& !final(self).pending
                },
            },
    {
        let i: usize = self.at;
        if i == entry_count(&self.archive) {
            return Ok(None);
        }
        match entry_place(&mut self.archive, i) {
            Err(e) => Err(UnpackError::Entry(i, e)),
            Ok((name, dir)) => {
                proof {
                    let all = zip_entries(self.archive);
                    assert(all.take(i + 1).drop_last() == all.take(i as int));
                    assert(all.take(i + 1).last() == all[i as int]);
                }
                self.at = i + 1;
                self.pending = !dir;
                Ok(Some(unpack_step(dest, name.as_str(), dir)))
            },
        }
    }

    /// Reads the file that was come to last.
    pub fn contents(&mut self) -> (r: Result<Vec<u8>, UnpackError>)
        requires
            old(self).inv(),
            old(self).pending,
        ensures
            final(self).inv(),
            final(self).entries() == old(self).entries(),
            final(self).at == old(self).at,
            match r {
                Ok(d) => {
                    &&& held(old(self).entries()[old(self).at - 1]) == Some(d@)
                    &&& !final(self).pending
                    &&& final(self).count == old(self).count + 1
                },
                Err(e) => {
                    &&& held(old(self).entries()[old(self).at - 1]) is None
                    &&& e is Contents
                    &&& final(self).pending
                    &&& final(self).count == old(self).count
                },
            },
    {
        proof {
            lemma_files_fit(self.entries().take(self.at as int));
        }
        match entry_contents(&mut self.archive, self.at - 1) {
            Err(e) => Err(UnpackError::Contents(e)),
            Ok(d) => {
                self.pending = false;
                self.count = self.count + 1;
                Ok(d)
            },
        }
    }
}

proof fn lemma_files_fit(entries: Seq<Option<(Seq<char>, bool, Option<Seq<u8>>)>>)
    ensures
        files_among(entries) <= entries.len(),
    decreases entries.len(),
{
    if entries.len() > 0 {
        lemma_files_fit(entries.drop_last());
    }
}

/// Opens an archive that is in memory.
pub fn begin_unpack(bytes: Vec<u8>) -> (r: Result<Unpacking, UnpackError>)
    ensures
        match r {
            Ok(u) => {
                &&& zip_opened(bytes@) == Some(u.entries())
                &&& u.inv()
                &&& u.at == 0 && u.count == 0 && !u.pending
            },
            Err(e) => zip_opened(bytes@) is None && e is Archive,
        },
{
    match open_archive(bytes) {
        Err(e) => Err(UnpackError::Archive(e)),
        Ok(archive) => {
            let u = Unpacking { archive, at: 0, count: 0, pending: false };
            assert(u.entries().take(0).len() == 0);
            Ok(u)
        },
    }
}

/// What is made for an entry.
pub open spec fn made_path(step: UnpackStep) -> Seq<char> {
    match step {
        UnpackStep::Directory(p) => p@,
        UnpackStep::File(_, p) => p@,
    }
}

/// Nothing is unpacked outside its directory: the path of an entry begins with
/// the directory, and behind it no part means the parent directory and none
/// begins at a root.
pub proof fn law_unpacked_stay_inside(dest: Seq<char>, name: Seq<char>, dir: bool, step: UnpackStep)
    requires
        stays_below(name),
        step_for(step, dest, name, dir),
    ensures
        made_path(step) == in_dir(dest, Seq::empty()) + name,
        dest.is_prefix_of(in_dir(dest, Seq::empty())),
        forall|i: int|
            i >= in_dir(dest, Seq::empty()).len() ==> !#[trigger] parent_at(made_path(step), i),
        name.len() > 0 ==> !is_separator(name[0]),
{
    let head = in_dir(dest, Seq::empty());
    let path = made_path(step);
    assert(path == head + name);
    assert(head.take(dest.len() as int) == dest);
    assert forall|i: int| i >= head.len() implies !#[trigger] parent_at(path, i) by {
        assert(!parent_at(name, i - head.len()));
    }
}

/// Entries with different ordinary names go to different places.
pub proof fn law_entries_stay_apart(
    dest: Seq<char>,
    a: Seq<char>,
    b: Seq<char>,
    step_a: UnpackStep,
    step_b: UnpackStep,
    name_a: Seq<char>,
    name_b: Seq<char>,
    dir_a: bool,
    dir_b: bool,
)
    requires
        is_ordinary(stored_place(a)),
        is_ordinary(stored_place(b)),
        unpacks_as(a, name_a),
        unpacks_as(b, name_b),
        step_for(step_a, dest, name_a, dir_a),
        step_for(step_b, dest, name_b, dir_b),
        made_path(step_a) == made_path(step_b),
    ensures
        stored_place(a) == stored_place(b),
{
    let head = in_dir(dest, Seq::empty());
    law_unpacked_stay_inside(dest, name_a, dir_a, step_a);
    law_unpacked_stay_inside(dest, name_b, dir_b, step_b);
    assert(name_a == (head + name_a).skip(head.len() as int));
    assert(name_b == (head + name_b).skip(head.len() as int));
    assert(name_a == name_b);
    let x = stored_place(a);
    let y = stored_place(b);
    assert forall|i: int| 0 <= i < x.len() implies x[i] == y[i] by {
        assert(name_a[i] == name_b[i]);
        assert(x[i] != '\\' && y[i] != '\\');
    }
    assert(x =~= y);
}

/// Behind the last entry every file was read: as many as the archive holds.
pub proof fn law_all_files_are_counted(u: Unpacking)
    requires
        u.inv(),
        !u.pending,
        u.at == u.entries().len(),
    ensures
        u.count == files_among(u.entries()),
{
    assert(u.entries().take(u.at as int) == u.entries());
}

} // verus!
