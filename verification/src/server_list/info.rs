//! The 213 bytes of a server.
//!
//! | at   | bytes | what                          |
//! |------|-------|-------------------------------|
//! | 0x00 | 64    | the name, UTF-16              |
//! | 0x40 | 32    | the address                   |
//! | 0x60 | 4     | the port                      |
//! | 0x64 | 1     | in use                        |
//! | 0x65 | 16    | a key                         |
//! | 0x75 | 3     | flags                         |
//! | 0x78 | 64    | a file name, UTF-16           |
//! | 0xB8 | 1     | a flag                        |
//! | 0xB9 | 12    | three numbers of the RSA key  |
//! | 0xC5 | 16    | zeros                         |

use vstd::prelude::*;
use vstd::slice::slice_subrange;
#[allow(unused_imports)]
use vstd::utf8::{decode_utf8, encode_utf8, valid_utf8};
use crate::block_cipher::block_at;
use crate::code::{emit, emit32, read16, read32};
#[allow(unused_imports)]
use crate::code::{from_le16, from_le32, le16, le32};
use crate::legacy_text::cut_at_zero;
#[allow(unused_imports)]
use crate::legacy_text::until_zero;
#[allow(unused_imports)]
use crate::memory::zeros;
use crate::text::{chars_of, decimal_chars, own, push_all, push_str, string_of};
#[allow(unused_imports)]
use crate::text::decimal;
use crate::unicode::{decode_utf16, encode_utf16, read_lossy, utf8_bytes};
#[allow(unused_imports)]
use crate::unicode::{lossy_utf16, lossy_utf8, utf16_of};

verus! {

/// The length of a server's bytes.
pub const SIZEOF_SERVER_INFO: usize = 213;

/// Why a server list cannot be read or written.
#[derive(Debug, Clone, PartialEq, Eq)]
pub enum ListError {
    /// There are fewer bytes than a server takes.
    TooShort(usize),
    /// The value of this key is no base64.
    Base64(String),
    /// There are more servers than a list holds.
    TooMany(usize),
    /// The settings are no base64.
    ConfigBase64,
    /// The settings are no UTF-8.
    ConfigUtf8,
    /// The settings are neither encrypted nor plain.
    ConfigFormat,
}

impl ListError {
    /// The message for the user.
    pub fn to_string(&self) -> (r: String)
        ensures
            r@ == (match *self {
                ListError::TooShort(n) => "資料太短："@ + decimal(n as nat) + " < 213"@,
                ListError::Base64(k) => "base64 解碼失敗："@ + k@,
                ListError::TooMany(n) => "最多 8 個伺服器，傳入 "@ + decimal(n as nat) + " 個"@,
                ListError::ConfigBase64 => "config.ini base64 解碼失敗"@,
                ListError::ConfigUtf8 => "config.ini 解密後不是有效 UTF-8"@,
                ListError::ConfigFormat =>
                    "config.ini 格式無法辨識（既非 ENC1: 加密也非 INI 明文）"@,
            }),
    {
        match self {
            ListError::TooShort(n) => {
                let mut out = chars_of("資料太短：");
                push_all(&mut out, decimal_chars(*n as u64).as_slice());
                push_str(&mut out, " < 213");
                string_of(out.as_slice())
            },
            ListError::Base64(k) => crate::text::joined("base64 解碼失敗：", k.as_str()),
            ListError::TooMany(n) => {
                let mut out = chars_of("最多 8 個伺服器，傳入 ");
                push_all(&mut out, decimal_chars(*n as u64).as_slice());
                push_str(&mut out, " 個");
                string_of(out.as_slice())
            },
            ListError::ConfigBase64 => own("config.ini base64 解碼失敗"),
            ListError::ConfigUtf8 => own("config.ini 解密後不是有效 UTF-8"),
            ListError::ConfigFormat => own(
                "config.ini 格式無法辨識（既非 ENC1: 加密也非 INI 明文）",
            ),
        }
    }
}

/// A server.
#[derive(Debug, Clone)]
pub struct ServerInfo {
    pub name: String,
    pub ip: String,
    pub port: i32,
    pub used: bool,
    pub key: [u8; 16],
    pub encrypt: bool,
    pub usehelper: bool,
    pub usebd: bool,
    pub bdfile: String,
    pub randkey: bool,
    pub rsa_e: u32,
    pub rsa_d: u32,
    pub rsa_n: u32,
}

/// What a server is.
#[verifier::ext_equal]
pub struct ServerModel {
    pub name: Seq<char>,
    pub ip: Seq<char>,
    pub port: int,
    pub used: bool,
    pub key: Seq<u8>,
    pub encrypt: bool,
    pub usehelper: bool,
    pub usebd: bool,
    pub bdfile: Seq<char>,
    pub randkey: bool,
    pub rsa_e: u32,
    pub rsa_d: u32,
    pub rsa_n: u32,
}

impl View for ServerInfo {
    type V = ServerModel;

    open spec fn view(&self) -> ServerModel {
        ServerModel {
            name: self.name@,
            ip: self.ip@,
            port: self.port as int,
            used: self.used,
            key: self.key@,
            encrypt: self.encrypt,
            usehelper: self.usehelper,
            usebd: self.usebd,
            bdfile: self.bdfile@,
            randkey: self.randkey,
            rsa_e: self.rsa_e,
            rsa_d: self.rsa_d,
            rsa_n: self.rsa_n,
        }
    }
}

/// A server of which nothing is known but these.
pub open spec fn plain_server(name: Seq<char>, ip: Seq<char>, port: int, used: bool) -> ServerModel {
    ServerModel {
        name,
        ip,
        port,
        used,
        key: zeros(16),
        encrypt: false,
        usehelper: false,
        usebd: false,
        bdfile: seq![],
        randkey: false,
        rsa_e: 0,
        rsa_d: 0,
        rsa_n: 0,
    }
}

/// A server of which nothing is known but these.
pub fn server_with(name: String, ip: String, port: i32, used: bool) -> (r: ServerInfo)
    ensures
        r@ == plain_server(name@, ip@, port as int, used),
{
    let key: [u8; 16] = [0, 0, 0, 0, 0, 0, 0, 0, 0, 0, 0, 0, 0, 0, 0, 0];
    assert(key@ == zeros(16));
    ServerInfo {
        name,
        ip,
        port,
        used,
        key,
        encrypt: false,
        usehelper: false,
        usebd: false,
        bdfile: String::new(),
        randkey: false,
        rsa_e: 0,
        rsa_d: 0,
        rsa_n: 0,
    }
}

impl Default for ServerInfo {
    fn default() -> (r: ServerInfo)
        ensures
            r@ == plain_server(seq![], seq![], 0, false),
    {
        server_with(String::new(), String::new(), 0, false)
    }
}

/// A number without a sign that has the same bits.
pub open spec fn unsigned(x: int) -> u32 {
    if x >= 0 {
        x as u32
    } else {
        (x + 0x1_0000_0000) as u32
    }
}

/// A number with a sign that has the same bits.
pub open spec fn signed(x: u32) -> int {
    if x < 0x8000_0000 {
        x as int
    } else {
        x - 0x1_0000_0000
    }
}

/// One byte for a flag.
pub open spec fn flag(b: bool) -> u8 {
    if b {
        1
    } else {
        0
    }
}

/// How many units of a text are stored.
pub open spec fn kept_units(n: nat) -> nat {
    if n <= 31 {
        n
    } else {
        31
    }
}

/// A text in 64 bytes: its first 31 units, and zeros behind them.
pub open spec fn wide_field(s: Seq<char>) -> Seq<u8> {
    let u = utf16_of(s);
    Seq::new(
        64,
        |i: int|
            if i / 2 < kept_units(u.len()) {
                le16(u[i / 2])[i % 2]
            } else {
                0u8
            },
    )
}

/// A text in 32 bytes: its first 31 bytes, and zeros behind them.
pub open spec fn narrow_field(s: Seq<char>) -> Seq<u8> {
    let b = encode_utf8(s);
    Seq::new(
        32,
        |i: int|
            if i < 31 && i < b.len() {
                b[i]
            } else {
                0u8
            },
    )
}

/// The bytes of a server.
pub open spec fn info_bytes(m: ServerModel) -> Seq<u8> {
    wide_field(m.name) + narrow_field(m.ip) + le32(unsigned(m.port)) + seq![flag(m.used)] + m.key
        + seq![flag(m.encrypt), flag(m.usehelper), flag(m.usebd)] + wide_field(m.bdfile) + seq![
        flag(m.randkey),
    ] + le32(m.rsa_e) + le32(m.rsa_d) + le32(m.rsa_n) + zeros(16)
}

fn emit_wide(out: &mut Vec<u8>, s: &str)
    ensures
        final(out)@ == old(out)@ + wide_field(s@),
{
    let ghost start = out@;
    let u = encode_utf16(chars_of(s).as_slice());
    let n: usize = if u.len() <= 31 {
        u.len()
    } else {
        31
    };
    let mut i: usize = 0;
    while i < 32
        invariant
            i <= 32,
            n == kept_units(u@.len()),
            u@ == utf16_of(s@),
            out@ == start + wide_field(s@).take(2 * i as int),
        decreases 32 - i,
    {
        let x: u16 = if i < n {
            u[i]
        } else {
            0
        };
        let ghost before = out@;
        out.push((x % 256) as u8);
        out.push((x / 256) as u8);
        proof {
            let w = wide_field(s@);
            assert(w[2 * i as int] == (x % 256) as u8);
            assert(w[2 * i + 1] == (x / 256) as u8);
            assert(w.take(2 * (i + 1)) == w.take(2 * i as int).push((x % 256) as u8).push(
                (x / 256) as u8,
            ));
        }
        i += 1;
    }
    assert(wide_field(s@).take(64) == wide_field(s@));
}

fn emit_narrow(out: &mut Vec<u8>, s: &str)
    ensures
        final(out)@ == old(out)@ + narrow_field(s@),
{
    let ghost start = out@;
    let b = utf8_bytes(s);
    let mut i: usize = 0;
    while i < 32
        invariant
            i <= 32,
            b@ == encode_utf8(s@),
            out@ == start + narrow_field(s@).take(i as int),
        decreases 32 - i,
    {
        if i < 31 && i < b.len() {
            out.push(b[i]);
        } else {
            out.push(0);
        }
        assert(narrow_field(s@).take(i + 1) == narrow_field(s@).take(i as int).push(
            narrow_field(s@)[i as int],
        ));
        i += 1;
    }
    assert(narrow_field(s@).take(32) == narrow_field(s@));
}

fn flag_byte(b: bool) -> (r: u8)
    ensures
        r == flag(b),
{
    if b {
        1
    } else {
        0
    }
}

fn unsigned_of(x: i32) -> (r: u32)
    ensures
        r == unsigned(x as int),
{
    if x >= 0 {
        x as u32
    } else {
        (x as i64 + 0x1_0000_0000) as u32
    }
}

fn signed_of(x: u32) -> (r: i32)
    ensures
        r == signed(x),
{
    if x < 0x8000_0000 {
        x as i32
    } else {
        (x as i64 - 0x1_0000_0000) as i32
    }
}

/// Units in front of the first zero.
pub open spec fn units_until_zero(bytes: Seq<u8>) -> Seq<u16>
    decreases bytes.len(),
{
    if bytes.len() < 2 || from_le16(bytes.take(2)) == 0 {
        seq![]
    } else {
        seq![from_le16(bytes.take(2))] + units_until_zero(bytes.skip(2))
    }
}

/// A text of UTF-16 up to its terminator.
pub open spec fn wide_text(bytes: Seq<u8>) -> Seq<char> {
    lossy_utf16(units_until_zero(bytes))
}

/// A text of bytes up to its terminator.
pub open spec fn narrow_text(bytes: Seq<u8>) -> Seq<char> {
    let b = until_zero(bytes);
    if valid_utf8(b) {
        decode_utf8(b)
    } else {
        lossy_utf8(b)
    }
}

/// A text of UTF-16 up to its terminator.
pub fn decode_utf16_z(buf: &[u8]) -> (r: String)
    ensures
        r@ == wide_text(buf@),
{
    let n: usize = buf.len();
    let mut units: Vec<u16> = Vec::new();
    let mut i: usize = 0;
    assert(buf@.skip(0) == buf@);
    assert(Seq::<u16>::empty() + units_until_zero(buf@) == units_until_zero(buf@));
    while n - i >= 2
        invariant_except_break
            i <= n,
            n == buf@.len(),
            n == buf.len(),
            units@ + units_until_zero(buf@.skip(i as int)) == units_until_zero(buf@),
        ensures
            units@ == units_until_zero(buf@),
        decreases n - i,
    {
        let u: u16 = read16(buf, i);
        let ghost before = units@;
        proof {
            let rest = buf@.skip(i as int);
            assert(rest.take(2) == buf@.subrange(i as int, i + 2));
            assert(rest.skip(2) == buf@.skip(i + 2));
        }
        if u == 0 {
            assert(units@ + Seq::<u16>::empty() == units@);
            break;
        }
        units.push(u);
        proof {
            let rest = buf@.skip(i as int);
            assert(before + (seq![u] + units_until_zero(rest.skip(2))) == units@
                + units_until_zero(rest.skip(2)));
        }
        i += 2;
        if n - i < 2 {
            assert(units@ + Seq::<u16>::empty() == units@);
        }
    }
    string_of(decode_utf16(units.as_slice()).as_slice())
}

/// A text of bytes up to its terminator.
pub fn decode_ascii_z(buf: &[u8]) -> (r: String)
    ensures
        r@ == narrow_text(buf@),
{
    read_lossy(cut_at_zero(buf))
}

/// The server of some bytes.
pub open spec fn parsed_info(d: Seq<u8>) -> ServerModel {
    ServerModel {
        name: wide_text(d.subrange(0, 64)),
        ip: narrow_text(d.subrange(64, 96)),
        port: signed(from_le32(d.subrange(96, 100))),
        used: d[100] != 0,
        key: d.subrange(101, 117),
        encrypt: d[117] != 0,
        usehelper: d[118] != 0,
        usebd: d[119] != 0,
        bdfile: wide_text(d.subrange(120, 184)),
        randkey: d[184] != 0,
        rsa_e: from_le32(d.subrange(185, 189)),
        rsa_d: from_le32(d.subrange(189, 193)),
        rsa_n: from_le32(d.subrange(193, 197)),
    }
}

impl ServerInfo {
    /// A server in use.
    pub fn new(name: &str, ip: &str, port: i32) -> (r: ServerInfo)
        ensures
            r@ == plain_server(name@, ip@, port as int, true),
    {
        server_with(own(name), own(ip), port, true)
    }

    /// The bytes of a server.
    pub fn to_bytes(&self) -> (r: [u8; SIZEOF_SERVER_INFO])
        ensures
            r@ == info_bytes(self@),
    {
        let mut out: Vec<u8> = Vec::new();
        emit_wide(&mut out, self.name.as_str());
        emit_narrow(&mut out, self.ip.as_str());
        emit32(&mut out, unsigned_of(self.port));
        out.push(flag_byte(self.used));
        emit(&mut out, &self.key);
        out.push(flag_byte(self.encrypt));
        out.push(flag_byte(self.usehelper));
        out.push(flag_byte(self.usebd));
        emit_wide(&mut out, self.bdfile.as_str());
        out.push(flag_byte(self.randkey));
        emit32(&mut out, self.rsa_e);
        emit32(&mut out, self.rsa_d);
        emit32(&mut out, self.rsa_n);
        let tail: [u8; 16] = [0, 0, 0, 0, 0, 0, 0, 0, 0, 0, 0, 0, 0, 0, 0, 0];
        assert(tail@ == zeros(16));
        emit(&mut out, &tail);
        assert(out@ == info_bytes(self@));
        let mut bytes: [u8; SIZEOF_SERVER_INFO] = [0; SIZEOF_SERVER_INFO];
        let mut i: usize = 0;
        while i < SIZEOF_SERVER_INFO
            invariant
                i <= SIZEOF_SERVER_INFO,
                out@.len() == SIZEOF_SERVER_INFO,
                forall|k: int| 0 <= k < i ==> bytes@[k] == out@[k],
            decreases SIZEOF_SERVER_INFO - i,
        {
            bytes[i] = out[i];
            i += 1;
        }
        assert(bytes@ == out@);
        bytes
    }

    /// The server of some bytes.
    pub fn from_bytes(data: &[u8]) -> (r: Result<ServerInfo, ListError>)
        ensures
            match r {
                Ok(s) => data@.len() >= SIZEOF_SERVER_INFO && s@ == parsed_info(data@),
                Err(ListError::TooShort(n)) => data@.len() < SIZEOF_SERVER_INFO && n
                    == data@.len(),
                Err(_) => false,
            },
    {
        let n: usize = data.len();
        if n < SIZEOF_SERVER_INFO {
            return Err(ListError::TooShort(n));
        }
        let key = block_at(data, 101);
        Ok(
            ServerInfo {
                name: decode_utf16_z(slice_subrange(data, 0, 64)),
                ip: decode_ascii_z(slice_subrange(data, 64, 96)),
                port: signed_of(read32(data, 96)),
                used: data[100] != 0,
                key,
                encrypt: data[117] != 0,
                usehelper: data[118] != 0,
                usebd: data[119] != 0,
                bdfile: decode_utf16_z(slice_subrange(data, 120, 184)),
                randkey: data[184] != 0,
                rsa_e: read32(data, 185),
                rsa_d: read32(data, 189),
                rsa_n: read32(data, 193),
            },
        )
    }
}

} // verus!
