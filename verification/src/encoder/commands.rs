//! The encoder's command line.

use vstd::prelude::*;
use crate::encoder::options::lock_encoder_server_options;
#[allow(unused_imports)]
use crate::encoder::options::locked;
use crate::paths::with_extension;
#[allow(unused_imports)]
use crate::paths::extension_replaced;
use crate::server_list::info::{ListError, ServerInfo};
#[allow(unused_imports)]
use crate::server_list::info::{plain_server, ServerModel};
use crate::server_list::list::{build_list_txt, MAX_SERVERS};
#[allow(unused_imports)]
use crate::server_list::config::server_models;
#[allow(unused_imports)]
use crate::server_list::list::list_text;
use crate::text::{
    chars_of, decimal_chars, eq_str, joined, own, parse_i32, parse_u32, push_all, push_str,
    signed_decimal_chars, starts_with, string_of,
};
#[allow(unused_imports)]
use crate::text::{decimal, parse_dec, parse_signed, signed_decimal, texts};

verus! {

/// What the encoder is asked for.
#[derive(Debug, Clone)]
pub enum Command {
    Window,
    Gen,
    Dec,
    Morph,
    Verify,
    Help,
    Unknown(String),
}

/// What the encoder is asked for by its arguments, the program's name first.
pub fn command_of(args: &[String]) -> (r: Command)
    ensures
        if args@.len() <= 1 {
            r == Command::Window
        } else {
            let c = args@[1]@;
            if c == "gen"@ {
                r == Command::Gen
            } else if c == "dec"@ {
                r == Command::Dec
            } else if c == "morph"@ {
                r == Command::Morph
            } else if c == "verify"@ {
                r == Command::Verify
            } else if c == "-h"@ || c == "--help"@ {
                r == Command::Help
            } else {
                r matches Command::Unknown(s) && s@ == c
            }
        },
{
    if args.len() <= 1 {
        return Command::Window;
    }
    let cs = chars_of(args[1].as_str());
    let c = cs.as_slice();
    if eq_str(c, "gen") {
        Command::Gen
    } else if eq_str(c, "dec") {
        Command::Dec
    } else if eq_str(c, "morph") {
        Command::Morph
    } else if eq_str(c, "verify") {
        Command::Verify
    } else if eq_str(c, "-h") || eq_str(c, "--help") {
        Command::Help
    } else {
        Command::Unknown(own(args[1].as_str()))
    }
}

/// What is wrong with some arguments.
#[derive(Debug, Clone)]
pub enum CmdError {
    Unknown(String),
    MissingIp,
    MissingPort,
    MissingInput,
    BadLevel,
}

impl CmdError {
    /// The error in words.
    pub fn to_string(&self) -> (r: String)
        ensures
            r@ == (match *self {
                CmdError::Unknown(s) => "未知參數："@ + s@,
                CmdError::MissingIp => "缺少 --ip"@,
                CmdError::MissingPort => "缺少 --port"@,
                CmdError::MissingInput => "缺少輸入檔"@,
                CmdError::BadLevel => "--level 需要數字 0-9"@,
            }),
    {
        match self {
            CmdError::Unknown(s) => joined("未知參數：", s.as_str()),
            CmdError::MissingIp => own("缺少 --ip"),
            CmdError::MissingPort => own("缺少 --port"),
            CmdError::MissingInput => own("缺少輸入檔"),
            CmdError::BadLevel => own("--level 需要數字 0-9"),
        }
    }
}

/// What the arguments of `gen` have said.
#[verifier::ext_equal]
pub struct GenModel {
    pub ip: Option<Seq<char>>,
    pub port: Option<int>,
    pub name: Seq<char>,
    pub output: Seq<char>,
}

/// The argument at an index, where there is one.
pub open spec fn arg_at(args: Seq<Seq<char>>, i: int) -> Option<Seq<char>> {
    if 0 <= i < args.len() {
        Some(args[i])
    } else {
        None
    }
}

/// What the arguments of `gen` from an index on say. The first unknown one, where
/// there is one.
pub open spec fn gen_from(args: Seq<Seq<char>>, i: int, m: GenModel) -> Result<GenModel, Seq<char>>
    decreases args.len() + 2 - i,
{
    if i < 0 || i >= args.len() {
        Ok(m)
    } else {
        let a = args[i];
        let next = arg_at(args, i + 1);
        if a == "--ip"@ {
            gen_from(args, i + 2, GenModel { ip: next, ..m })
        } else if a == "--port"@ {
            gen_from(
                args,
                i + 2,
                GenModel {
                    port: match next {
                        Some(s) => parse_signed(s),
                        None => None,
                    },
                    ..m
                },
            )
        } else if a == "--name"@ {
            gen_from(
                args,
                i + 2,
                GenModel {
                    name: match next {
                        Some(s) => s,
                        None => m.name,
                    },
                    ..m
                },
            )
        } else if a == "-o"@ || a == "--output"@ {
            gen_from(
                args,
                i + 2,
                GenModel {
                    output: match next {
                        Some(s) => s,
                        None => m.output,
                    },
                    ..m
                },
            )
        } else {
            Err(a)
        }
    }
}

/// What `gen` takes without arguments.
pub open spec fn gen_default() -> GenModel {
    GenModel { ip: None, port: None, name: "Server"@, output: "config.ini"@ }
}

/// The arguments of `gen`.
#[derive(Debug, Clone)]
pub struct GenArgs {
    pub ip: String,
    pub port: i32,
    pub name: String,
    pub output: String,
}

fn copy_arg(args: &[String], i: usize) -> (r: Option<String>)
    ensures
        match r {
            Some(s) => arg_at(texts(args@), i as int) == Some(s@),
            None => arg_at(texts(args@), i as int) is None,
        },
{
    if i < args.len() {
        assert(texts(args@)[i as int] == args@[i as int]@);
        Some(own(args[i].as_str()))
    } else {
        None
    }
}

/// What optional texts are.
pub open spec fn text_of(s: Option<String>) -> Option<Seq<char>> {
    match s {
        Some(t) => Some(t@),
        None => None,
    }
}

/// What optional numbers are.
pub open spec fn number_of(n: Option<i32>) -> Option<int> {
    match n {
        Some(v) => Some(v as int),
        None => None,
    }
}

/// Reads the arguments of `gen`.
pub fn parse_gen_args(args: &[String]) -> (r: Result<GenArgs, CmdError>)
    requires
        args@.len() < usize::MAX,
    ensures
        match gen_from(texts(args@), 0, gen_default()) {
            Err(a) => r matches Err(CmdError::Unknown(s)) && s@ == a,
            Ok(m) => match m.ip {
                None => r == Err::<GenArgs, CmdError>(CmdError::MissingIp),
                Some(ip) => match m.port {
                    None => r == Err::<GenArgs, CmdError>(CmdError::MissingPort),
                    Some(port) => r matches Ok(g) && g.ip@ == ip && g.port == port && g.name@
                        == m.name && g.output@ == m.output,
                },
            },
        },
{
    let n: usize = args.len();
    let mut ip: Option<String> = None;
    let mut port: Option<i32> = None;
    let mut name = own("Server");
    let mut output = own("config.ini");
    let mut i: usize = 0;
    while i < n
        invariant
            n == args@.len(),
            n == args.len(),
            n < usize::MAX,
            gen_from(texts(args@), 0, gen_default()) == gen_from(
                texts(args@),
                i as int,
                (GenModel {
                    ip: text_of(ip),
                    port: number_of(port),
                    name: name@,
                    output: output@,
                }),
            ),
        decreases n - i,
    {
        let cs = chars_of(args[i].as_str());
        let a = cs.as_slice();
        assert(texts(args@)[i as int] == args@[i as int]@);
        let next = copy_arg(args, i + 1);
        if eq_str(a, "--ip") {
            ip = next;
        } else if eq_str(a, "--port") {
            port = match next {
                Some(s) => parse_i32(chars_of(s.as_str()).as_slice()),
                None => None,
            };
        } else if eq_str(a, "--name") {
            match next {
                Some(s) => {
                    name = s;
                },
                None => {},
            }
        } else if eq_str(a, "-o") || eq_str(a, "--output") {
            match next {
                Some(s) => {
                    output = s;
                },
                None => {},
            }
        } else {
            return Err(CmdError::Unknown(own(args[i].as_str())));
        }
        if n - i <= 2 {
            proof {
                let m = GenModel {
                    ip: text_of(ip),
                    port: number_of(port),
                    name: name@,
                    output: output@,
                };
                assert(gen_from(texts(args@), i + 2, m) == Ok::<GenModel, Seq<char>>(m));
                assert(gen_from(texts(args@), n as int, m) == Ok::<GenModel, Seq<char>>(m));
            }
            i = n;
        } else {
            i += 2;
        }
    }
    match ip {
        None => Err(CmdError::MissingIp),
        Some(ip) => match port {
            None => Err(CmdError::MissingPort),
            Some(port) => Ok(GenArgs { ip, port, name, output }),
        },
    }
}

/// The server list of `gen`: one server.
pub fn gen_list(args: &GenArgs) -> (r: Result<String, ListError>)
    ensures
        r matches Ok(s) && s@ == list_text(
            seq![locked(plain_server(args.name@, args.ip@, args.port as int, true))],
        ),
{
    let server = ServerInfo::new(args.name.as_str(), args.ip.as_str(), args.port);
    let mut one: Vec<ServerInfo> = Vec::new();
    one.push(lock_encoder_server_options(server));
    assert(server_models(one@) == seq![
        locked(plain_server(args.name@, args.ip@, args.port as int, true)),
    ]);
    build_list_txt(one.as_slice())
}

/// What the arguments of `morph` have said.
#[verifier::ext_equal]
pub struct MorphModel {
    pub input: Option<Seq<char>>,
    pub output: Option<Seq<char>>,
    pub compress: bool,
    pub level: nat,
}

/// What is wrong with the arguments of `morph`: an unknown one, or a level that
/// is no number from 0 to 9.
#[verifier::ext_equal]
pub enum MorphFault {
    Unknown(Seq<char>),
    BadLevel,
}

/// What the arguments of `morph` from an index on say.
pub open spec fn morph_from(args: Seq<Seq<char>>, i: int, m: MorphModel) -> Result<
    MorphModel,
    MorphFault,
>
    decreases args.len() + 2 - i,
{
    if i < 0 || i >= args.len() {
        Ok(m)
    } else {
        let a = args[i];
        let next = arg_at(args, i + 1);
        if a == "-o"@ || a == "--output"@ {
            morph_from(
                args,
                i + 2,
                MorphModel {
                    output: match next {
                        Some(s) => Some(s),
                        None => m.output,
                    },
                    ..m
                },
            )
        } else if a == "--no-compress"@ {
            morph_from(args, i + 1, MorphModel { compress: false, ..m })
        } else if a == "--compress"@ {
            morph_from(args, i + 1, MorphModel { compress: true, ..m })
        } else if a == "-l"@ || a == "--level"@ {
            match next {
                Some(s) => match parse_dec(s, 9) {
                    Some(level) => morph_from(args, i + 2, MorphModel { level, ..m }),
                    None => Err(MorphFault::BadLevel),
                },
                None => Err(MorphFault::BadLevel),
            }
        } else if m.input is None && !"-"@.is_prefix_of(a) {
            morph_from(args, i + 1, MorphModel { input: Some(a), ..m })
        } else {
            Err(MorphFault::Unknown(a))
        }
    }
}

/// What `morph` takes without arguments.
pub open spec fn morph_default() -> MorphModel {
    MorphModel { input: None, output: None, compress: true, level: 1 }
}

/// The arguments of `morph`.
#[derive(Debug, Clone)]
pub struct MorphArgs {
    pub input: String,
    pub output: String,
    pub compress: bool,
    pub level: u32,
}

/// Reads the arguments of `morph`. Without an output, the packed file lies beside
/// the input.
pub fn parse_morph_args(args: &[String]) -> (r: Result<MorphArgs, CmdError>)
    requires
        args@.len() < usize::MAX,
    ensures
        match morph_from(texts(args@), 0, morph_default()) {
            Err(MorphFault::Unknown(a)) => r matches Err(CmdError::Unknown(s)) && s@ == a,
            Err(MorphFault::BadLevel) => r == Err::<MorphArgs, CmdError>(CmdError::BadLevel),
            Ok(m) => match m.input {
                None => r == Err::<MorphArgs, CmdError>(CmdError::MissingInput),
                Some(input) => r matches Ok(g) && g.input@ == input && g.compress == m.compress
                    && g.level == m.level && g.level <= 9 && g.output@ == (match m.output {
                    Some(o) => o,
                    None => extension_replaced(input, "pak"@),
                }),
            },
        },
{
    let n: usize = args.len();
    let mut input: Option<String> = None;
    let mut output: Option<String> = None;
    let mut compress: bool = true;
    let mut level: u32 = 1;
    let mut i: usize = 0;
    while i < n
        invariant
            n == args@.len(),
            n == args.len(),
            n < usize::MAX,
            level <= 9,
            morph_from(texts(args@), 0, morph_default()) == morph_from(
                texts(args@),
                i as int,
                (MorphModel {
                    input: text_of(input),
                    output: text_of(output),
                    compress,
                    level: level as nat,
                }),
            ),
        decreases n - i,
    {
        let cs = chars_of(args[i].as_str());
        let a = cs.as_slice();
        assert(texts(args@)[i as int] == args@[i as int]@);
        let next = copy_arg(args, i + 1);
        let mut two: bool = true;
        if eq_str(a, "-o") || eq_str(a, "--output") {
            match next {
                Some(s) => {
                    output = Some(s);
                },
                None => {},
            }
        } else if eq_str(a, "--no-compress") {
            compress = false;
            two = false;
        } else if eq_str(a, "--compress") {
            compress = true;
            two = false;
        } else if eq_str(a, "-l") || eq_str(a, "--level") {
            match next {
                Some(s) => match parse_u32(chars_of(s.as_str()).as_slice()) {
                    Some(v) => if v <= 9 {
                        level = v;
                    } else {
                        return Err(CmdError::BadLevel);
                    },
                    None => {
                        return Err(CmdError::BadLevel);
                    },
                },
                None => {
                    return Err(CmdError::BadLevel);
                },
            }
        } else if input.is_none() && !starts_with(a, "-") {
            input = Some(own(args[i].as_str()));
            two = false;
        } else {
            return Err(CmdError::Unknown(own(args[i].as_str())));
        }
        if two && n - i <= 2 {
            proof {
                let m = MorphModel {
                    input: text_of(input),
                    output: text_of(output),
                    compress,
                    level: level as nat,
                };
                assert(morph_from(texts(args@), i + 2, m) == Ok::<MorphModel, MorphFault>(m));
                assert(morph_from(texts(args@), n as int, m) == Ok::<MorphModel, MorphFault>(m));
            }
            i = n;
        } else if two {
            i += 2;
        } else {
            i += 1;
        }
    }
    match input {
        None => Err(CmdError::MissingInput),
        Some(input) => {
            let output = match output {
                Some(o) => o,
                None => with_extension(input.as_str(), "pak"),
            };
            Ok(MorphArgs { input, output, compress, level })
        },
    }
}

/// A yes or no.
pub open spec fn yes_no(b: bool) -> Seq<char> {
    if b {
        "true"@
    } else {
        "false"@
    }
}

/// The i-th server in words.
pub open spec fn described(i: nat, m: ServerModel) -> Seq<char> {
    "\n=== 伺服器 "@ + decimal(i) + " ===\n  名稱:     "@ + m.name + "\n  IP:       "@ + m.ip
        + "\n  端口:     "@ + signed_decimal(m.port) + "\n  啟用:     "@ + yes_no(m.used) + "\n"@
}

/// The first `k` servers in words.
pub open spec fn descriptions(servers: Seq<ServerModel>, k: nat) -> Seq<char>
    decreases k,
{
    if k == 0 {
        seq![]
    } else {
        descriptions(servers, (k - 1) as nat) + described((k - 1) as nat, servers[k - 1])
    }
}

/// A server list in words.
pub fn describe_servers(servers: &[ServerInfo]) -> (r: String)
    ensures
        r@ == (if servers@.len() == 0 {
            "[警告] 沒有找到任何 ServerData\n"@
        } else {
            descriptions(server_models(servers@), servers@.len()) + "\n共 "@ + decimal(
                servers@.len(),
            ) + " 個伺服器（上限 "@ + decimal(MAX_SERVERS as nat) + "）\n"@
        }),
{
    let n: usize = servers.len();
    if n == 0 {
        return own("[警告] 沒有找到任何 ServerData\n");
    }
    let ghost all = server_models(servers@);
    let mut out: Vec<char> = Vec::new();
    let mut i: usize = 0;
    while i < n
        invariant
            i <= n,
            n == servers@.len(),
            n == servers.len(),
            all == server_models(servers@),
            out@ == descriptions(all, i as nat),
        decreases n - i,
    {
        let ghost before = out@;
        push_str(&mut out, "\n=== 伺服器 ");
        push_all(&mut out, decimal_chars(i as u64).as_slice());
        push_str(&mut out, " ===\n  名稱:     ");
        push_str(&mut out, servers[i].name.as_str());
        push_str(&mut out, "\n  IP:       ");
        push_str(&mut out, servers[i].ip.as_str());
        push_str(&mut out, "\n  端口:     ");
        push_all(&mut out, signed_decimal_chars(servers[i].port).as_slice());
        push_str(&mut out, "\n  啟用:     ");
        push_str(
            &mut out,
            if servers[i].used {
                "true"
            } else {
                "false"
            },
        );
        push_str(&mut out, "\n");
        proof {
            assert(all[i as int] == servers@[i as int]@);
            assert(out@ == before + described(i as nat, all[i as int]));
        }
        i += 1;
    }
    push_str(&mut out, "\n共 ");
    push_all(&mut out, decimal_chars(n as u64).as_slice());
    push_str(&mut out, " 個伺服器（上限 ");
    push_all(&mut out, decimal_chars(MAX_SERVERS as u64).as_slice());
    push_str(&mut out, "）\n");
    string_of(out.as_slice())
}

} // verus!
