//! Starting the game, its modules, and the functions that a module exports.

use vstd::prelude::*;
use vstd::slice::slice_subrange;
use crate::code::{address, eq_bytes, read16, read32};
#[allow(unused_imports)]
use crate::code::{from_le16, from_le32, offset};
use crate::inject::hex8_chars;
#[allow(unused_imports)]
use crate::inject::hex8;
use crate::legacy_text::cut_at_zero;
#[allow(unused_imports)]
use crate::legacy_text::until_zero;
use crate::text::{
    chars_of, eq_chars, own, push_all, push_str, string_of, to_lowercase, trim,
};
#[allow(unused_imports)]
use crate::text::{lower_of, trim_of};
use crate::unicode::{encode_utf16, utf8_bytes};
#[allow(unused_imports)]
use crate::unicode::{law_utf16_reads_back, lossy_utf16, utf16_of};
#[allow(unused_imports)]
use vstd::utf8::encode_utf8;

verus! {

/// The code of a snapshot that came while the modules changed.
pub const ERROR_BAD_LENGTH_HRESULT: i32 = -2147024872;

/// How often a snapshot is tried.
pub const MODULE_SNAPSHOT_RETRIES: usize = 50;

/// How long to wait between two tries, in milliseconds.
pub const MODULE_SNAPSHOT_RETRY_DELAY_MS: u64 = 20;

/// A text as the system takes it: its UTF-16 units and a zero.
pub fn to_wide_null(value: &str) -> (r: Vec<u16>)
    ensures
        r@ == utf16_of(value@).push(0),
{
    let mut out = encode_utf16(chars_of(value).as_slice());
    out.push(0);
    out
}

/// The units in front of the zero give the text back.
pub proof fn law_wide_reads_back(value: Seq<char>)
    ensures
        lossy_utf16(utf16_of(value).push(0).drop_last()) == value,
{
    assert(utf16_of(value).push(0).drop_last() == utf16_of(value));
    law_utf16_reads_back(value);
}

/// The command line of a program: its path, in quotes where arguments follow.
pub open spec fn command_text(exe: Seq<char>, extra: Option<Seq<char>>) -> Seq<char> {
    match extra {
        Some(a) => if trim_of(a).len() > 0 {
            "\""@ + exe + "\" "@ + a
        } else {
            exe
        },
        None => exe,
    }
}

/// The command line of a program.
pub fn command_line(exe_path: &str, extra_args: Option<&str>) -> (r: String)
    ensures
        r@ == command_text(
            exe_path@,
            match extra_args {
                Some(a) => Some(a@),
                None => None,
            },
        ),
{
    match extra_args {
        Some(a) => {
            if trim(chars_of(a).as_slice()).len() > 0 {
                let mut out = chars_of("\"");
                push_str(&mut out, exe_path);
                push_str(&mut out, "\" ");
                push_str(&mut out, a);
                return string_of(out.as_slice());
            }
            own(exe_path)
        },
        None => own(exe_path),
    }
}

/// Whether a snapshot that failed with a code is worth another try.
pub fn should_retry_module_snapshot_error(code: i32) -> (r: bool)
    ensures
        r == (code == ERROR_BAD_LENGTH_HRESULT),
{
    code == ERROR_BAD_LENGTH_HRESULT
}

/// Whether a snapshot is tried again after the try of an index failed with a
/// code.
pub fn retries_snapshot(attempt: usize, code: i32) -> (r: bool)
    requires
        attempt < MODULE_SNAPSHOT_RETRIES,
    ensures
        r == (code == ERROR_BAD_LENGTH_HRESULT && attempt + 1 < MODULE_SNAPSHOT_RETRIES),
{
    should_retry_module_snapshot_error(code) && attempt + 1 < MODULE_SNAPSHOT_RETRIES
}

/// Whether a module has a name, in any case.
pub fn is_module(module: &str, name: &str) -> (r: bool)
    ensures
        r == (lower_of(module@) == lower_of(name@)),
{
    let a = to_lowercase(chars_of(module).as_slice());
    let b = to_lowercase(chars_of(name).as_slice());
    eq_chars(a.as_slice(), b.as_slice())
}

/// What is wrong with a module.
#[derive(Debug, Clone, Copy, PartialEq, Eq, Structural)]
pub enum ModuleError {
    /// No module begins at that address.
    DosHeader(u32),
    /// No header stands at that address.
    PeHeader(u32),
    /// Fewer bytes could be read than were asked for.
    ShortRead,
    /// A name leads to no function.
    Ordinal,
}

impl ModuleError {
    /// The error in words.
    pub fn to_string(&self) -> (r: String)
        ensures
            r@ == (match *self {
                ModuleError::DosHeader(a) => "無效的 DOS header @ 0x"@ + hex8(a),
                ModuleError::PeHeader(a) => "無效的 PE header @ 0x"@ + hex8(a),
                ModuleError::ShortRead => "could not convert slice to array"@,
                ModuleError::Ordinal => "range end index out of range"@,
            }),
    {
        match *self {
            ModuleError::DosHeader(a) => {
                let mut out = chars_of("無效的 DOS header @ 0x");
                push_all(&mut out, hex8_chars(a).as_slice());
                string_of(out.as_slice())
            },
            ModuleError::PeHeader(a) => {
                let mut out = chars_of("無效的 PE header @ 0x");
                push_all(&mut out, hex8_chars(a).as_slice());
                string_of(out.as_slice())
            },
            ModuleError::ShortRead => own("could not convert slice to array"),
            ModuleError::Ordinal => own("range end index out of range"),
        }
    }
}

/// The 32-bit number at an offset.
pub open spec fn dword(d: Seq<u8>, at: int) -> u32 {
    from_le32(d.subrange(at, at + 4))
}

/// The 16-bit number at an offset.
pub open spec fn word(d: Seq<u8>, at: int) -> u16 {
    from_le16(d.subrange(at, at + 2))
}

/// A module's table of exported functions: how many functions and names it has,
/// and where its parts lie within the module.
#[derive(Debug, Clone, Copy, PartialEq, Eq, Structural)]
pub struct ExportTable {
    pub num_funcs: u32,
    pub num_names: u32,
    pub addr_rva: u32,
    pub name_rva: u32,
    pub ordinal_rva: u32,
}

/// Where the header of a module lies, from the module's first bytes.
pub fn pe_offset(dll_base: u32, dos: &[u8]) -> (r: Result<u32, ModuleError>)
    ensures
        r == (if dos@.len() < 64 {
            Err::<u32, ModuleError>(ModuleError::ShortRead)
        } else if dos@[0] != 0x4D || dos@[1] != 0x5A {
            Err::<u32, ModuleError>(ModuleError::DosHeader(dll_base))
        } else {
            Ok::<u32, ModuleError>(dword(dos@, 60))
        }),
{
    if dos.len() < 64 {
        return Err(ModuleError::ShortRead);
    }
    if dos[0] != 0x4D || dos[1] != 0x5A {
        return Err(ModuleError::DosHeader(dll_base));
    }
    Ok(read32(dos, 60))
}

/// Where the export directory of a module lies, from the module's header at an
/// address; nowhere, where the module exports nothing.
pub fn export_offset(pe_addr: u32, pe: &[u8]) -> (r: Result<Option<u32>, ModuleError>)
    ensures
        r == (if pe@.len() < 124 {
            Err::<Option<u32>, ModuleError>(ModuleError::ShortRead)
        } else if pe@.take(4) != seq![0x50u8, 0x45, 0, 0] {
            Err::<Option<u32>, ModuleError>(ModuleError::PeHeader(pe_addr))
        } else if dword(pe@, 120) == 0 {
            Ok::<Option<u32>, ModuleError>(None)
        } else {
            Ok::<Option<u32>, ModuleError>(Some(dword(pe@, 120)))
        }),
{
    if pe.len() < 124 {
        return Err(ModuleError::ShortRead);
    }
    let head = slice_subrange(pe, 0, 4);
    assert(head@ == pe@.take(4));
    let mark: [u8; 4] = [0x50, 0x45, 0, 0];
    assert(mark@ == seq![0x50u8, 0x45, 0, 0]);
    if !eq_bytes(head, &mark) {
        return Err(ModuleError::PeHeader(pe_addr));
    }
    let rva: u32 = read32(pe, 120);
    if rva == 0 {
        Ok(None)
    } else {
        Ok(Some(rva))
    }
}

/// The table of exported functions, from the export directory.
pub fn export_table(dir: &[u8]) -> (r: Result<ExportTable, ModuleError>)
    ensures
        r == (if dir@.len() < 40 {
            Err::<ExportTable, ModuleError>(ModuleError::ShortRead)
        } else {
            Ok::<ExportTable, ModuleError>(
                ExportTable {
                    num_funcs: dword(dir@, 20),
                    num_names: dword(dir@, 24),
                    addr_rva: dword(dir@, 28),
                    name_rva: dword(dir@, 32),
                    ordinal_rva: dword(dir@, 36),
                },
            )
        }),
{
    if dir.len() < 40 {
        return Err(ModuleError::ShortRead);
    }
    Ok(
        ExportTable {
            num_funcs: read32(dir, 20),
            num_names: read32(dir, 24),
            addr_rva: read32(dir, 28),
            name_rva: read32(dir, 32),
            ordinal_rva: read32(dir, 36),
        },
    )
}

/// A search for an exported function by its name.
pub struct ExportSearch {
    pub base: u32,
    pub target: Vec<u8>,
    pub name_ptrs: Vec<u8>,
    pub ordinals: Vec<u8>,
    pub addrs: Vec<u8>,
    pub num_names: u32,
    /// The index of the next name.
    pub at: u32,
}

/// What a search does next.
#[derive(Debug, Clone, Copy, PartialEq, Eq, Structural)]
pub enum SearchStep {
    /// Look at the 64 bytes at that address.
    Look(u32),
    /// The function stands at that address.
    Found(u32),
    /// There is no such function.
    Missing,
    /// The module is broken.
    Broken(ModuleError),
}

impl ExportSearch {
    /// A search that has read a name's place for each of its names.
    pub open spec fn ready(self) -> bool {
        &&& self.at <= self.num_names
        &&& self.name_ptrs@.len() >= 4 * self.num_names
        &&& self.ordinals@.len() >= 2 * self.num_names
    }

    /// Where the i-th name stands.
    pub open spec fn name_addr(self, i: int) -> u32 {
        offset(self.base, dword(self.name_ptrs@, 4 * i) as int)
    }

    /// Where the function of the i-th name stands, if the module has it.
    pub open spec fn function(self, i: int) -> Option<u32> {
        let n = word(self.ordinals@, 2 * i) as int;
        if 4 * n + 4 <= self.addrs@.len() {
            Some(offset(self.base, dword(self.addrs@, 4 * n) as int))
        } else {
            None
        }
    }

    /// What comes next where a search stands at a name.
    pub open spec fn next(self) -> SearchStep {
        if self.at < self.num_names {
            SearchStep::Look(self.name_addr(self.at as int))
        } else {
            SearchStep::Missing
        }
    }

    /// A search over a module's tables, from the bytes of the tables.
    pub fn begin(
        dll_base: u32,
        func_name: &str,
        table: ExportTable,
        name_ptrs: Vec<u8>,
        ordinals: Vec<u8>,
        addrs: Vec<u8>,
    ) -> (r: Result<ExportSearch, ModuleError>)
        ensures
            match r {
                Ok(s) => {
                    &&& s.ready()
                    &&& s.base == dll_base
                    &&& s.target@ == encode_utf8(func_name@)
                    &&& s.name_ptrs@ == name_ptrs@
                    &&& s.ordinals@ == ordinals@
                    &&& s.addrs@ == addrs@
                    &&& s.num_names == table.num_names
                    &&& s.at == 0
                },
                Err(e) => e == ModuleError::ShortRead && (name_ptrs@.len() < 4 * table.num_names
                    || ordinals@.len() < 2 * table.num_names),
            },
    {
        let n: u64 = table.num_names as u64;
        if (name_ptrs.len() as u64) < 4 * n || (ordinals.len() as u64) < 2 * n {
            return Err(ModuleError::ShortRead);
        }
        Ok(
            ExportSearch {
                base: dll_base,
                target: utf8_bytes(func_name),
                name_ptrs,
                ordinals,
                addrs,
                num_names: table.num_names,
                at: 0,
            },
        )
    }

    /// What comes next.
    pub fn look(&self) -> (r: SearchStep)
        requires
            self.ready(),
        ensures
            r == self.next(),
    {
        if self.at < self.num_names {
            let n: usize = self.name_ptrs.len();
            assert(4 * self.at < n);
            let rva: u32 = read32(self.name_ptrs.as_slice(), 4 * (self.at as usize));
            SearchStep::Look(address(self.base, rva))
        } else {
            SearchStep::Missing
        }
    }

    /// Takes the bytes at the current name: the function where they spell the
    /// name that is searched for, and the next name otherwise.
    pub fn take(&mut self, name_data: &[u8]) -> (r: SearchStep)
        requires
            old(self).ready(),
            old(self).at < old(self).num_names,
        ensures
            final(self).ready(),
            *final(self) == (ExportSearch { at: final(self).at, ..*old(self) }),
            if until_zero(name_data@) == old(self).target@ {
                final(self).at == old(self).at && r == (match old(self).function(
                    old(self).at as int,
                ) {
                    Some(a) => SearchStep::Found(a),
                    None => SearchStep::Broken(ModuleError::Ordinal),
                })
            } else {
                final(self).at == old(self).at + 1 && r == final(self).next()
            },
    {
        let name = cut_at_zero(name_data);
        if eq_bytes(name, self.target.as_slice()) {
            let len: usize = self.ordinals.len();
            assert(2 * self.at < len);
            let n: usize = read16(self.ordinals.as_slice(), 2 * (self.at as usize)) as usize;
            if 4 * n + 4 > self.addrs.len() {
                return SearchStep::Broken(ModuleError::Ordinal);
            }
            let rva: u32 = read32(self.addrs.as_slice(), 4 * n);
            return SearchStep::Found(address(self.base, rva));
        }
        self.at += 1;
        self.look()
    }
}

/// The end of a search that is given the bytes at each name in turn.
pub open spec fn searched(s: ExportSearch, names: Seq<Seq<u8>>) -> SearchStep
    decreases s.num_names - s.at,
{
    if s.at >= s.num_names {
        SearchStep::Missing
    } else if until_zero(names[s.at as int]) == s.target@ {
        match s.function(s.at as int) {
            Some(a) => SearchStep::Found(a),
            None => SearchStep::Broken(ModuleError::Ordinal),
        }
    } else {
        searched(ExportSearch { at: (s.at + 1) as u32, ..s }, names)
    }
}

/// A search finds the function of the first name that is the one searched for,
/// and nothing where no name is.
pub proof fn law_search_finds_first(s: ExportSearch, names: Seq<Seq<u8>>, k: int)
    requires
        s.at <= k <= s.num_names,
        forall|i: int| s.at <= i < k ==> until_zero(#[trigger] names[i]) != s.target@,
        k < s.num_names ==> until_zero(names[k]) == s.target@,
    ensures
        searched(s, names) == (if k == s.num_names {
            SearchStep::Missing
        } else {
            match s.function(k) {
                Some(a) => SearchStep::Found(a),
                None => SearchStep::Broken(ModuleError::Ordinal),
            }
        }),
    decreases k - s.at,
{
    if s.at < k {
        assert(until_zero(names[s.at as int]) != s.target@);
        law_search_finds_first(ExportSearch { at: (s.at + 1) as u32, ..s }, names, k);
    }
}

} // verus!
