//! What a start of the game needs.

use vstd::prelude::*;
use crate::packet_proxy::{packet_encrypt_config_from_server, PacketEncryptConfig};
use crate::paths::join;
#[allow(unused_imports)]
use crate::paths::in_dir;
use crate::server_list::config::AuxConfig;
use crate::server_list::info::ServerInfo;
use crate::text::{
    chars_of, joined, own, push_all, push_str, remove_all, signed_decimal_chars, string_of,
};
#[allow(unused_imports)]
use crate::text::{signed_decimal, without};

verus! {

/// A start of the game.
#[derive(Debug, Clone)]
pub struct LaunchRequest {
    pub ip: String,
    pub port: u16,
    pub game_dir: String,
    pub inject_buffer: Option<Vec<u8>>,
    pub inject_source_path: Option<String>,
    pub packet_encrypt: Option<PacketEncryptConfig>,
    pub windowed: bool,
    pub window_mode: u8,
}

/// Why the game is not started.
#[derive(Debug, Clone)]
pub enum LaunchError {
    /// There is no such server.
    NoServer,
    /// The server has that port.
    PortRange(i32),
    /// The game is not there.
    NoGame(String),
    /// Neither of the tables is there.
    NoTable(String, String),
    /// The table could not be loaded.
    Table(String),
    /// The server has no key.
    NoKey(String),
}

impl LaunchError {
    /// The error in words.
    pub fn to_string(&self) -> (r: String)
        ensures
            r@ == (match *self {
                LaunchError::NoServer => "無效的伺服器索引"@,
                LaunchError::PortRange(p) => "Port 超出範圍："@ + signed_decimal(p as int),
                LaunchError::NoGame(p) => "找不到遊戲主程式："@ + p@
                    + "\n請將 launcher.exe 放在遊戲目錄下"@,
                LaunchError::NoTable(t, p) => "找不到變身檔："@ + t@ + " 或 "@ + p@
                    + "\n請先用 encoder.exe 產出變身檔到此目錄"@,
                LaunchError::Table(e) => "載入變身檔失敗："@ + e@,
                LaunchError::NoKey(e) => e@,
            }),
    {
        match self {
            LaunchError::NoServer => own("無效的伺服器索引"),
            LaunchError::PortRange(p) => {
                let mut out = chars_of("Port 超出範圍：");
                push_all(&mut out, signed_decimal_chars(*p).as_slice());
                string_of(out.as_slice())
            },
            LaunchError::NoGame(p) => {
                let head = joined("找不到遊戲主程式：", p.as_str());
                joined(head.as_str(), "\n請將 launcher.exe 放在遊戲目錄下")
            },
            LaunchError::NoTable(t, p) => {
                let mut out = chars_of("找不到變身檔：");
                push_str(&mut out, t.as_str());
                push_str(&mut out, " 或 ");
                push_str(&mut out, p.as_str());
                push_str(&mut out, "\n請先用 encoder.exe 產出變身檔到此目錄");
                string_of(out.as_slice())
            },
            LaunchError::Table(e) => joined("載入變身檔失敗：", e.as_str()),
            LaunchError::NoKey(e) => own(e.as_str()),
        }
    }
}

/// The port of the server of an index.
pub fn check_server(servers: &[ServerInfo], idx: usize) -> (r: Result<u16, LaunchError>)
    ensures
        match r {
            Ok(p) => idx < servers@.len() && p == servers@[idx as int].port,
            Err(e) => {
                if idx >= servers@.len() {
                    e == LaunchError::NoServer
                } else {
                    !(0 <= servers@[idx as int].port <= 65535) && e == LaunchError::PortRange(
                        servers@[idx as int].port,
                    )
                }
            },
        },
{
    if idx >= servers.len() {
        return Err(LaunchError::NoServer);
    }
    let port: i32 = servers[idx].port;
    if port < 0 || port > 65535 {
        return Err(LaunchError::PortRange(port));
    }
    Ok(port as u16)
}

/// The path of a table of the game: the game's name without `.bin`, with another
/// ending.
pub open spec fn table_path_of(dir: Seq<char>, game_exe: Seq<char>, ending: Seq<char>) -> Seq<char> {
    in_dir(dir, without(game_exe, ".bin"@) + ending)
}

/// The path of a table of the game.
pub fn table_path(dir: &str, game_exe: &str, ending: &str) -> (r: String)
    ensures
        r@ == table_path_of(dir@, game_exe@, ending@),
{
    proof {
        reveal_strlit(".bin");
    }
    let mut name = remove_all(chars_of(game_exe).as_slice(), chars_of(".bin").as_slice());
    push_str(&mut name, ending);
    let name = string_of(name.as_slice());
    join(dir, name.as_str())
}

/// Which table the game is given.
#[derive(Debug, Clone, Copy, PartialEq, Eq, Structural)]
pub enum TableChoice {
    /// Its own.
    Own,
    /// The packed one.
    Packed,
    /// The plain one.
    Plain,
    /// One that is not there.
    Missing,
}

/// Which table the game is given. A packed one that is valid is taken even where
/// the settings ask for none.
pub fn choose_table(
    transform_file: bool,
    pak_exists: bool,
    pak_valid: bool,
    txt_exists: bool,
) -> (r: TableChoice)
    ensures
        r == (if pak_exists && pak_valid {
            TableChoice::Packed
        } else if !transform_file {
            TableChoice::Own
        } else if txt_exists {
            TableChoice::Plain
        } else {
            TableChoice::Missing
        }),
{
    let forced: bool = !transform_file && pak_exists && pak_valid;
    if transform_file || forced {
        if pak_exists && pak_valid {
            TableChoice::Packed
        } else if txt_exists {
            TableChoice::Plain
        } else {
            TableChoice::Missing
        }
    } else {
        TableChoice::Own
    }
}

/// A start of the game on a server, with a table where there is one. It fails
/// where packets are to be encrypted and the server has no key.
pub fn build_launch_event(
    server: &ServerInfo,
    port: u16,
    game_dir: &str,
    table: Option<(Vec<u8>, String)>,
    aux: &AuxConfig,
    windowed: bool,
    window_mode: u8,
) -> (r: Result<LaunchRequest, LaunchError>)
    ensures
        match r {
            Ok(q) => {
                &&& q.ip@ == server.ip@
                &&& q.port == port
                &&& q.game_dir@ == game_dir@
                &&& match table {
                    Some(t) => q.inject_buffer == Some(t.0) && q.inject_source_path == Some(t.1),
                    None => q.inject_buffer is None && q.inject_source_path is None,
                }
                &&& q.packet_encrypt == (if aux.packet_encrypt {
                    Some(PacketEncryptConfig { rsa_d: server.rsa_d, rsa_n: server.rsa_n })
                } else {
                    None
                })
                &&& q.windowed == windowed
                &&& q.window_mode == window_mode
                &&& aux.packet_encrypt ==> server.rsa_d != 0 && server.rsa_n != 0
            },
            Err(e) => {
                &&& aux.packet_encrypt
                &&& server.rsa_d == 0 || server.rsa_n == 0
                &&& e matches LaunchError::NoKey(m)
                &&& m@
                    == "封包加密已開啟，但所選伺服器沒有 D/N 金鑰；請先在編碼器產生金鑰並重新編碼。"@
            },
        },
{
    let packet_encrypt = match packet_encrypt_config_from_server(aux, server) {
        Ok(p) => p,
        Err(e) => {
            return Err(LaunchError::NoKey(e));
        },
    };
    let (inject_buffer, inject_source_path) = match table {
        Some(t) => (Some(t.0), Some(t.1)),
        None => (None, None),
    };
    Ok(
        LaunchRequest {
            ip: own(server.ip.as_str()),
            port,
            game_dir: own(game_dir),
            inject_buffer,
            inject_source_path,
            packet_encrypt,
            windowed,
            window_mode,
        },
    )
}

/// A patch of the running game.
#[derive(Debug, Clone, Copy, PartialEq, Eq, Structural)]
pub enum Patch {
    /// The check for cheating.
    AcCheck,
    /// The crash reporter.
    CrtWatson,
    /// How many pictures there may be.
    ImgLimit(u32),
    /// How many pictures of the other kind there may be.
    PngLimit(u32),
    /// How many things can be carried.
    Inventory(u32),
    /// More slots in the equipment window.
    EquipUi,
    /// Moves are sent without encryption.
    MovePackets,
    /// Running on alternating feet.
    SmoothRun,
    /// Account and password.
    Login,
}

/// The patches of a game, in their order. Some are made always, and others where
/// the settings ask for them.
pub open spec fn patches_of(aux: AuxConfig) -> Seq<Patch> {
    seq![Patch::AcCheck, Patch::CrtWatson] + (if aux.img_limit_enabled {
        seq![Patch::ImgLimit(aux.img_limit_value), Patch::PngLimit(aux.img_limit_value)]
    } else {
        seq![]
    }) + (if aux.inventory_limit_enabled {
        seq![Patch::Inventory(aux.inventory_limit_value)]
    } else {
        seq![]
    }) + (if aux.equip_ui_enabled {
        seq![Patch::EquipUi]
    } else {
        seq![]
    }) + (if aux.move_packet_no_encrypt {
        seq![Patch::MovePackets]
    } else {
        seq![]
    }) + seq![Patch::SmoothRun, Patch::Login]
}

/// The patches of a game, in their order.
pub fn wanted_patches(aux: &AuxConfig) -> (r: Vec<Patch>)
    ensures
        r@ == patches_of(*aux),
{
    let mut out: Vec<Patch> = Vec::new();
    out.push(Patch::AcCheck);
    out.push(Patch::CrtWatson);
    if aux.img_limit_enabled {
        out.push(Patch::ImgLimit(aux.img_limit_value));
        out.push(Patch::PngLimit(aux.img_limit_value));
    }
    if aux.inventory_limit_enabled {
        out.push(Patch::Inventory(aux.inventory_limit_value));
    }
    if aux.equip_ui_enabled {
        out.push(Patch::EquipUi);
    }
    if aux.move_packet_no_encrypt {
        out.push(Patch::MovePackets);
    }
    out.push(Patch::SmoothRun);
    out.push(Patch::Login);
    out
}

} // verus!
