//! How the parts of a path go together.

use crate::paths::{
    bare, beside, extension_of, extension_replaced, file_name_of, has_extension_of, in_dir,
    is_drive, is_separator, name_extension, name_start, parent_of, stem_of,
};
use crate::text::ascii_lower_of;
use vstd::prelude::*;

verus! {

/// The name of a file: one character at least, no separator, and neither `.` nor `..`.
pub open spec fn plain_name(name: Seq<char>) -> bool {
    &&& name.len() > 0
    &&& forall|i: int| 0 <= i < name.len() ==> !is_separator(#[trigger] name[i])
    &&& name != seq!['.']
    &&& name != seq!['.', '.']
}

/// A directory that is named by its last part: neither a root nor a drive alone, and
/// with nothing idle at its end.
pub open spec fn plain_dir(dir: Seq<char>) -> bool {
    &&& dir.len() > 0
    &&& !is_separator(dir[dir.len() - 1])
    &&& !(dir.len() == 2 && is_drive(dir[0]) && dir[1] == ':')
    &&& !(dir[dir.len() - 1] == '.' && dir.len() >= 2 && is_separator(dir[dir.len() - 2]))
}

proof fn lemma_name_start(front: Seq<char>, name: Seq<char>, k: nat)
    requires
        front.len() > 0,
        is_separator(front[front.len() - 1]),
        k <= name.len(),
        forall|i: int| 0 <= i < name.len() ==> !is_separator(#[trigger] name[i]),
    ensures
        name_start(front + name.take(k as int)) == front.len(),
    decreases k,
{
    let p = front + name.take(k as int);
    if k == 0 {
        assert(p =~= front);
    } else {
        lemma_name_start(front, name, (k - 1) as nat);
        assert(p.drop_last() =~= front + name.take(k - 1));
        assert(p.last() == name[k - 1]);
        if p.len() == 2 {
            assert(p[0] == front[0]);
        }
    }
}

proof fn lemma_bare_file(dir: Seq<char>, c: char, name: Seq<char>)
    requires
        is_separator(c),
        plain_name(name),
    ensures
        bare(dir + seq![c] + name) == dir + seq![c] + name,
        name_start(dir + seq![c] + name) == dir.len() + 1,
        (dir + seq![c] + name).skip(dir.len() as int + 1) == name,
        (dir + seq![c] + name).take(dir.len() as int + 1) == dir + seq![c],
{
    let front = dir + seq![c];
    let p = front + name;
    assert(p.last() == name[name.len() - 1]);
    if p.last() == '.' && is_separator(p[p.len() - 2]) {
        if name.len() > 1 {
            assert(p[p.len() - 2] == name[name.len() - 2]);
        } else {
            assert(name =~= seq!['.']);
        }
    }
    assert(front[front.len() - 1] == c);
    lemma_name_start(front, name, name.len());
    assert(name.take(name.len() as int) =~= name);
    assert(p.skip(dir.len() as int + 1) =~= name);
    assert(p.take(dir.len() as int + 1) =~= front);
}

/// The name of a file is the part behind the last separator, of either kind.
pub proof fn law_file_name(dir: Seq<char>, c: char, name: Seq<char>)
    requires
        c == '/' || c == '\\',
        plain_name(name),
    ensures
        file_name_of(dir + seq![c] + name) == Some(name),
        extension_of(dir + seq![c] + name) == name_extension(name),
{
    reveal_strlit(".");
    reveal_strlit("..");
    assert("."@ =~= seq!['.']);
    assert(".."@ =~= seq!['.', '.']);
    lemma_bare_file(dir, c, name);
}

proof fn lemma_bare_dir(dir: Seq<char>, c: char)
    requires
        plain_dir(dir),
        is_separator(c),
    ensures
        bare(dir) == dir,
        bare(dir + seq![c]) == dir,
{
    let p = dir + seq![c];
    assert(p.last() == c);
    assert(p.drop_last() =~= dir);
    if p.len() == 3 {
        assert(p[0] == dir[0] && p[1] == dir[1]);
    }
}

/// The directory of a file is what stands in front of the last separator.
pub proof fn law_directory(dir: Seq<char>, c: char, name: Seq<char>)
    requires
        c == '/' || c == '\\',
        plain_name(name),
        plain_dir(dir),
    ensures
        parent_of(dir + seq![c] + name) == Some(dir),
        file_name_of(dir + seq![c]) == file_name_of(dir),
{
    lemma_bare_file(dir, c, name);
    lemma_bare_dir(dir, c);
}

/// A name in a directory stands behind a backslash, and directly behind a separator or
/// the letter of a drive; the directory and the name are found again.
pub proof fn law_name_in_a_directory(dir: Seq<char>, c: char, name: Seq<char>, d: char)
    requires
        c == '/' || c == '\\',
        plain_name(name),
        plain_dir(dir),
        is_drive(d),
    ensures
        in_dir(dir, name) == dir + seq!['\\'] + name,
        in_dir(dir + seq![c], name) == dir + seq![c] + name,
        in_dir(Seq::empty(), name) == name,
        in_dir(seq![d, ':'], name) == seq![d, ':'] + name,
        file_name_of(in_dir(dir, name)) == Some(name),
        parent_of(in_dir(dir, name)) == Some(dir),
{
    reveal_strlit("\\");
    assert("\\"@ =~= seq!['\\']);
    assert((dir + seq![c]).last() == c);
    assert(Seq::<char>::empty() + name =~= name);
    law_file_name(dir, '\\', name);
    law_directory(dir, '\\', name);
    assert(dir.last() == dir[dir.len() - 1]);
}

/// The ending of a name stands behind its last dot, where something stands in front of
/// that dot.
pub proof fn law_ending(stem: Seq<char>, ext: Seq<char>)
    requires
        !ext.contains('.'),
    ensures
        stem.len() > 0 ==> stem_of(stem + seq!['.'] + ext) == stem,
        stem.len() > 0 ==> name_extension(stem + seq!['.'] + ext) == Some(ext),
        name_extension(seq!['.'] + ext) is None,
        stem_of(seq!['.'] + ext) == seq!['.'] + ext,
        name_extension(ext) is None,
        stem_of(ext) == ext,
{
    let p = stem + seq!['.'] + ext;
    lemma_last_dot(stem, ext);
    assert(p.take(stem.len() as int) =~= stem);
    assert(p.skip(stem.len() as int + 1) =~= ext);
    let e = Seq::<char>::empty();
    lemma_last_dot(e, ext);
    assert(e + seq!['.'] + ext =~= seq!['.'] + ext);
    ext.index_of_last_ensures('.');
}

proof fn lemma_last_dot(stem: Seq<char>, ext: Seq<char>)
    requires
        !ext.contains('.'),
    ensures
        (stem + seq!['.'] + ext).index_of_last('.') == Some(stem.len() as int),
{
    let p = stem + seq!['.'] + ext;
    let n = stem.len() as int;
    assert(p[n] == '.');
    assert(p.contains('.'));
    p.index_of_last_ensures('.');
    let k = p.index_of_last('.')->0;
    if k > n {
        assert(ext[k - n - 1] == '.');
        assert(ext.contains('.'));
    }
}

/// An ending counts in capitals and small letters alike.
pub proof fn law_has_ending(dir: Seq<char>, c: char, stem: Seq<char>, ext: Seq<char>, e: Seq<char>)
    requires
        c == '/' || c == '\\',
        stem.len() > 0,
        !ext.contains('.'),
        plain_name(stem + seq!['.'] + ext),
    ensures
        has_extension_of(dir + seq![c] + (stem + seq!['.'] + ext), e) <==> ascii_lower_of(ext)
            == ascii_lower_of(e),
{
    law_file_name(dir, c, stem + seq!['.'] + ext);
    law_ending(stem, ext);
}

/// A new ending takes the place of the old one, and nothing else of the path changes.
pub proof fn law_new_ending(
    dir: Seq<char>,
    c: char,
    stem: Seq<char>,
    ext: Seq<char>,
    e: Seq<char>,
)
    requires
        c == '/' || c == '\\',
        stem.len() > 0,
        !ext.contains('.'),
        plain_name(stem + seq!['.'] + ext),
        plain_name(stem),
    ensures
        extension_replaced(dir + seq![c] + (stem + seq!['.'] + ext), e) == dir + seq![c] + stem
            + seq!['.'] + e,
        !stem.contains('.') ==> extension_replaced(dir + seq![c] + stem, e) == dir + seq![c] + stem
            + seq!['.'] + e,
{
    reveal_strlit(".");
    assert("."@ =~= seq!['.']);
    let name = stem + seq!['.'] + ext;
    law_file_name(dir, c, name);
    lemma_bare_file(dir, c, name);
    law_ending(stem, ext);
    if !stem.contains('.') {
        law_file_name(dir, c, stem);
        lemma_bare_file(dir, c, stem);
        law_ending(stem, stem);
    }
}

/// What lies beside a program is in the program's directory.
pub proof fn law_beside(dir: Seq<char>, c: char, program: Seq<char>, name: Seq<char>)
    requires
        c == '/' || c == '\\',
        plain_name(program) && plain_name(name),
        plain_dir(dir),
    ensures
        beside(Some(dir + seq![c] + program), name) == dir + seq!['\\'] + name,
        beside(None, name) == name,
{
    law_directory(dir, c, program);
    law_name_in_a_directory(dir, c, name, 'c');
}

} // verus!
