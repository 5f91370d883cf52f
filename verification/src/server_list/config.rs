//! The launcher's settings.

use vstd::prelude::*;
use crate::legacy_text::{mode_of, TextEncodingMode};
#[allow(unused_imports)]
use crate::legacy_text::mode_named;
use crate::server_list::info::ServerInfo;
#[allow(unused_imports)]
use crate::server_list::info::ServerModel;
use crate::text::{ascii_lower, chars_of, eq_str, own, parse_u32, string_of, trim};
#[allow(unused_imports)]
use crate::text::{ascii_lower_of, parse_dec, trim_of};

verus! {

pub const DEFAULT_INVENTORY_LIMIT_VALUE: u32 = 255;

pub const MIN_INVENTORY_LIMIT_VALUE: u32 = 1;

pub const MAX_INVENTORY_LIMIT_VALUE: u32 = 999;

pub const DEFAULT_IMG_LIMIT_VALUE: u32 = 50000;

pub const MIN_IMG_LIMIT_VALUE: u32 = 6295;

pub const MAX_IMG_LIMIT_VALUE: u32 = 500000;

/// Which of the launcher's functions are switched on.
#[derive(Debug, Clone, Copy, PartialEq, Eq, Structural)]
pub struct AuxConfig {
    pub packet_encrypt: bool,
    pub anti_cheat_basic: bool,
    pub anti_cheat_advanced: bool,
    pub transform_file: bool,
    pub multi_instance: bool,
    pub move_packet_no_encrypt: bool,
    pub lhx_aux_enabled: bool,
    pub hp_mp_limit_enabled: bool,
    pub inventory_limit_enabled: bool,
    pub equip_ui_enabled: bool,
    pub img_limit_enabled: bool,
    pub dynamic_dialog_enabled: bool,
    pub pickup_toast_enabled: bool,
    pub exp_drift_enabled: bool,
    pub inventory_limit_value: u32,
    pub img_limit_value: u32,
    pub text_encoding: TextEncodingMode,
}

/// The functions that are switched on without any setting.
pub open spec fn default_aux() -> AuxConfig {
    AuxConfig {
        packet_encrypt: false,
        anti_cheat_basic: false,
        anti_cheat_advanced: false,
        transform_file: false,
        multi_instance: false,
        move_packet_no_encrypt: false,
        lhx_aux_enabled: true,
        hp_mp_limit_enabled: true,
        inventory_limit_enabled: true,
        equip_ui_enabled: true,
        img_limit_enabled: true,
        dynamic_dialog_enabled: true,
        pickup_toast_enabled: true,
        exp_drift_enabled: true,
        inventory_limit_value: DEFAULT_INVENTORY_LIMIT_VALUE,
        img_limit_value: DEFAULT_IMG_LIMIT_VALUE,
        text_encoding: TextEncodingMode::Big5,
    }
}

impl Default for AuxConfig {
    fn default() -> (r: AuxConfig)
        ensures
            r == default_aux(),
    {
        AuxConfig {
            packet_encrypt: false,
            anti_cheat_basic: false,
            anti_cheat_advanced: false,
            transform_file: false,
            multi_instance: false,
            move_packet_no_encrypt: false,
            lhx_aux_enabled: true,
            hp_mp_limit_enabled: true,
            inventory_limit_enabled: true,
            equip_ui_enabled: true,
            img_limit_enabled: true,
            dynamic_dialog_enabled: true,
            pickup_toast_enabled: true,
            exp_drift_enabled: true,
            inventory_limit_value: DEFAULT_INVENTORY_LIMIT_VALUE,
            img_limit_value: DEFAULT_IMG_LIMIT_VALUE,
            text_encoding: TextEncodingMode::Big5,
        }
    }
}

/// Settings with the two switches off that have no function any more.
pub open spec fn normalized(a: AuxConfig) -> AuxConfig {
    AuxConfig { anti_cheat_basic: false, anti_cheat_advanced: false, ..a }
}

/// Switches off what has no function any more.
pub fn normalize_aux_config(aux: AuxConfig) -> (r: AuxConfig)
    ensures
        r == normalized(aux),
{
    let mut a = aux;
    a.anti_cheat_basic = false;
    a.anti_cheat_advanced = false;
    a
}

impl AuxConfig {
    /// Whether the HOME key is listened to: where the built-in aid is on.
    pub fn needs_home_listener(&self) -> (r: bool)
        ensures
            r == self.lhx_aux_enabled,
    {
        self.lhx_aux_enabled
    }
}

/// How the launcher looks and where it finds its pages.
#[derive(Debug, Clone)]
pub struct LauncherConfig {
    pub active_skin: String,
    pub announcement_enabled: bool,
    pub announcement_url: String,
    pub list_update_enabled: bool,
    pub list_update_url: String,
    pub auto_update_enabled: bool,
    pub auto_update_url: String,
    pub official_url: String,
    pub customer_service_url: String,
}

/// What a launcher's configuration is.
#[verifier::ext_equal]
pub struct LauncherModel {
    pub active_skin: Seq<char>,
    pub announcement_enabled: bool,
    pub announcement_url: Seq<char>,
    pub list_update_enabled: bool,
    pub list_update_url: Seq<char>,
    pub auto_update_enabled: bool,
    pub auto_update_url: Seq<char>,
    pub official_url: Seq<char>,
    pub customer_service_url: Seq<char>,
}

impl View for LauncherConfig {
    type V = LauncherModel;

    open spec fn view(&self) -> LauncherModel {
        LauncherModel {
            active_skin: self.active_skin@,
            announcement_enabled: self.announcement_enabled,
            announcement_url: self.announcement_url@,
            list_update_enabled: self.list_update_enabled,
            list_update_url: self.list_update_url@,
            auto_update_enabled: self.auto_update_enabled,
            auto_update_url: self.auto_update_url@,
            official_url: self.official_url@,
            customer_service_url: self.customer_service_url@,
        }
    }
}

/// The configuration without any setting.
pub open spec fn default_launcher() -> LauncherModel {
    LauncherModel {
        active_skin: "default"@,
        announcement_enabled: true,
        announcement_url: "http://tw.beanfun.com/lineage/patch/main_defaultTemplate.asp"@,
        list_update_enabled: false,
        list_update_url: "http://dl.dropbox.com/u/5114050/Login.ini"@,
        auto_update_enabled: false,
        auto_update_url: "http://dl.dropbox.com/u/5114050/LoginUpdate/Update.ini"@,
        official_url: "http://tw.beanfun.com/lineage/"@,
        customer_service_url: "http://tw.beanfun.com/beanfun_help/"@,
    }
}

impl Default for LauncherConfig {
    fn default() -> (r: LauncherConfig)
        ensures
            r@ == default_launcher(),
    {
        LauncherConfig {
            active_skin: own("default"),
            announcement_enabled: true,
            announcement_url: own(
                "http://tw.beanfun.com/lineage/patch/main_defaultTemplate.asp",
            ),
            list_update_enabled: false,
            list_update_url: own("http://dl.dropbox.com/u/5114050/Login.ini"),
            auto_update_enabled: false,
            auto_update_url: own("http://dl.dropbox.com/u/5114050/LoginUpdate/Update.ini"),
            official_url: own("http://tw.beanfun.com/lineage/"),
            customer_service_url: own("http://tw.beanfun.com/beanfun_help/"),
        }
    }
}

/// The servers and all settings.
#[derive(Debug, Clone)]
pub struct ListFile {
    pub servers: Vec<ServerInfo>,
    pub aux: AuxConfig,
    pub launcher: LauncherConfig,
}

/// What the servers and all settings are.
#[verifier::ext_equal]
pub struct ListModel {
    pub servers: Seq<ServerModel>,
    pub aux: AuxConfig,
    pub launcher: LauncherModel,
}

/// What a list of servers is.
pub open spec fn server_models(v: Seq<ServerInfo>) -> Seq<ServerModel> {
    v.map_values(|s: ServerInfo| s@)
}

impl View for ListFile {
    type V = ListModel;

    open spec fn view(&self) -> ListModel {
        ListModel {
            servers: server_models(self.servers@),
            aux: self.aux,
            launcher: self.launcher@,
        }
    }
}

impl Default for ListFile {
    fn default() -> (r: ListFile)
        ensures
            r@ == (ListModel {
                servers: seq![],
                aux: default_aux(),
                launcher: default_launcher(),
            }),
    {
        let r = ListFile {
            servers: Vec::new(),
            aux: AuxConfig::default(),
            launcher: LauncherConfig::default(),
        };
        assert(server_models(r.servers@) == Seq::<ServerModel>::empty());
        r
    }
}

/// A value that stands for true.
#[verifier::opaque]
pub open spec fn says_true(s: Seq<char>) -> bool {
    let v = ascii_lower_of(trim_of(s));
    v == "true"@ || v == "1"@ || v == "yes"@ || v == "on"@
}

/// Whether a value stands for true.
pub fn parse_bool(s: &str) -> (r: bool)
    ensures
        r == says_true(s@),
{
    read_bool(chars_of(s).as_slice())
}

/// Whether a value stands for true.
pub fn read_bool(s: &[char]) -> (r: bool)
    ensures
        r == says_true(s@),
{
    reveal(says_true);
    let v = ascii_lower(trim(s));
    let v = v.as_slice();
    eq_str(v, "true") || eq_str(v, "1") || eq_str(v, "yes") || eq_str(v, "on")
}

/// A number within bounds.
pub open spec fn clamped(v: int, min: u32, max: u32) -> u32 {
    if v < min {
        min
    } else if v > max {
        max
    } else {
        v as u32
    }
}

/// The number of a value, brought within bounds; another number where the value
/// is none.
#[verifier::opaque]
pub open spec fn limit_of(s: Seq<char>, default: u32, min: u32, max: u32) -> u32 {
    match parse_dec(trim_of(s), u32::MAX as nat) {
        Some(v) => clamped(v as int, min, max),
        None => default,
    }
}

/// The number of a value, brought within bounds; another number where the value
/// is none.
pub fn parse_u32_clamped(s: &str, default: u32, min: u32, max: u32) -> (r: u32)
    requires
        min <= max,
    ensures
        r == limit_of(s@, default, min, max),
{
    read_limit(chars_of(s).as_slice(), default, min, max)
}

/// The number of a value, brought within bounds.
pub fn read_limit(s: &[char], default: u32, min: u32, max: u32) -> (r: u32)
    requires
        min <= max,
    ensures
        r == limit_of(s@, default, min, max),
{
    reveal(limit_of);
    match parse_u32(trim(s)) {
        Some(v) => if v < min {
            min
        } else if v > max {
            max
        } else {
            v
        },
        None => default,
    }
}

/// A switch after one more setting: what the setting says, where it has the
/// switch's name.
pub open spec fn switched(before: bool, name: Seq<char>, key: Seq<char>, value: Seq<char>) -> bool {
    if key == name {
        says_true(value)
    } else {
        before
    }
}

fn switch(before: bool, name: &str, key: &[char], value: &[char]) -> (r: bool)
    ensures
        r == switched(before, name@, key@, value@),
{
    if eq_str(key, name) {
        read_bool(value)
    } else {
        before
    }
}

/// A number after one more setting: the setting's number within bounds, where it
/// has the number's name.
pub open spec fn relimited(
    before: u32,
    name: Seq<char>,
    key: Seq<char>,
    value: Seq<char>,
    default: u32,
    min: u32,
    max: u32,
) -> u32 {
    if key == name {
        limit_of(value, default, min, max)
    } else {
        before
    }
}

fn relimit(
    before: u32,
    name: &str,
    key: &[char],
    value: &[char],
    default: u32,
    min: u32,
    max: u32,
) -> (r: u32)
    requires
        min <= max,
    ensures
        r == relimited(before, name@, key@, value@, default, min, max),
{
    if eq_str(key, name) {
        read_limit(value, default, min, max)
    } else {
        before
    }
}

/// The settings after one more; a key that is none of theirs changes nothing.
#[verifier::opaque]
pub open spec fn aux_with(a: AuxConfig, key: Seq<char>, value: Seq<char>) -> AuxConfig {
    AuxConfig {
        packet_encrypt: switched(a.packet_encrypt, "packet_encrypt"@, key, value),
        anti_cheat_basic: switched(a.anti_cheat_basic, "anti_cheat_basic"@, key, value),
        anti_cheat_advanced: switched(a.anti_cheat_advanced, "anti_cheat_advanced"@, key, value),
        transform_file: switched(a.transform_file, "transform_file"@, key, value),
        multi_instance: switched(a.multi_instance, "multi_instance"@, key, value),
        move_packet_no_encrypt: switched(a.move_packet_no_encrypt, "move_packet_no_encrypt"@, key, value),
        lhx_aux_enabled: switched(a.lhx_aux_enabled, "lhx_aux_enabled"@, key, value),
        hp_mp_limit_enabled: switched(a.hp_mp_limit_enabled, "hp_mp_limit_enabled"@, key, value),
        inventory_limit_enabled: switched(a.inventory_limit_enabled, "inventory_limit_enabled"@, key, value),
        equip_ui_enabled: switched(a.equip_ui_enabled, "equip_ui_enabled"@, key, value),
        img_limit_enabled: switched(a.img_limit_enabled, "img_limit_enabled"@, key, value),
        dynamic_dialog_enabled: switched(a.dynamic_dialog_enabled, "dynamic_dialog_enabled"@, key, value),
        pickup_toast_enabled: switched(a.pickup_toast_enabled, "pickup_toast_enabled"@, key, value),
        exp_drift_enabled: switched(a.exp_drift_enabled, "exp_drift_enabled"@, key, value),
        inventory_limit_value: relimited(
            a.inventory_limit_value,
            "inventory_limit_value"@,
            key,
            value,
            DEFAULT_INVENTORY_LIMIT_VALUE,
            MIN_INVENTORY_LIMIT_VALUE,
            MAX_INVENTORY_LIMIT_VALUE,
        ),
        img_limit_value: relimited(
            a.img_limit_value,
            "img_limit_value"@,
            key,
            value,
            DEFAULT_IMG_LIMIT_VALUE,
            MIN_IMG_LIMIT_VALUE,
            MAX_IMG_LIMIT_VALUE,
        ),
        text_encoding: if key == "text_encoding"@ {
            mode_named(value)
        } else {
            a.text_encoding
        },
    }
}

/// Takes one more setting.
pub fn set_aux(a: &mut AuxConfig, key: &[char], value: &[char])
    ensures
        *final(a) == aux_with(*old(a), key@, value@),
{
    reveal(aux_with);
    *a = AuxConfig {
        packet_encrypt: switch(a.packet_encrypt, "packet_encrypt", key, value),
        anti_cheat_basic: switch(a.anti_cheat_basic, "anti_cheat_basic", key, value),
        anti_cheat_advanced: switch(a.anti_cheat_advanced, "anti_cheat_advanced", key, value),
        transform_file: switch(a.transform_file, "transform_file", key, value),
        multi_instance: switch(a.multi_instance, "multi_instance", key, value),
        move_packet_no_encrypt: switch(a.move_packet_no_encrypt, "move_packet_no_encrypt", key, value),
        lhx_aux_enabled: switch(a.lhx_aux_enabled, "lhx_aux_enabled", key, value),
        hp_mp_limit_enabled: switch(a.hp_mp_limit_enabled, "hp_mp_limit_enabled", key, value),
        inventory_limit_enabled: switch(a.inventory_limit_enabled, "inventory_limit_enabled", key, value),
        equip_ui_enabled: switch(a.equip_ui_enabled, "equip_ui_enabled", key, value),
        img_limit_enabled: switch(a.img_limit_enabled, "img_limit_enabled", key, value),
        dynamic_dialog_enabled: switch(a.dynamic_dialog_enabled, "dynamic_dialog_enabled", key, value),
        pickup_toast_enabled: switch(a.pickup_toast_enabled, "pickup_toast_enabled", key, value),
        exp_drift_enabled: switch(a.exp_drift_enabled, "exp_drift_enabled", key, value),
        inventory_limit_value: relimit(
            a.inventory_limit_value,
            "inventory_limit_value",
            key,
            value,
            DEFAULT_INVENTORY_LIMIT_VALUE,
            MIN_INVENTORY_LIMIT_VALUE,
            MAX_INVENTORY_LIMIT_VALUE,
        ),
        img_limit_value: relimit(
            a.img_limit_value,
            "img_limit_value",
            key,
            value,
            DEFAULT_IMG_LIMIT_VALUE,
            MIN_IMG_LIMIT_VALUE,
            MAX_IMG_LIMIT_VALUE,
        ),
        text_encoding: if eq_str(key, "text_encoding") {
            mode_of(value)
        } else {
            a.text_encoding
        },
    };
}

/// The configuration after one more setting.
pub open spec fn launcher_with(l: LauncherModel, key: Seq<char>, value: Seq<char>) -> LauncherModel {
    if key == "active_skin"@ {
        LauncherModel { active_skin: value, ..l }
    } else if key == "announcement_enabled"@ {
        LauncherModel { announcement_enabled: says_true(value), ..l }
    } else if key == "announcement_url"@ {
        LauncherModel { announcement_url: value, ..l }
    } else if key == "list_update_enabled"@ {
        LauncherModel { list_update_enabled: says_true(value), ..l }
    } else if key == "list_update_url"@ {
        LauncherModel { list_update_url: value, ..l }
    } else if key == "auto_update_enabled"@ {
        LauncherModel { auto_update_enabled: says_true(value), ..l }
    } else if key == "auto_update_url"@ {
        LauncherModel { auto_update_url: value, ..l }
    } else if key == "official_url"@ {
        LauncherModel { official_url: value, ..l }
    } else if key == "customer_service_url"@ {
        LauncherModel { customer_service_url: value, ..l }
    } else {
        l
    }
}

/// Takes one more setting.
pub fn set_launcher(l: &mut LauncherConfig, key: &[char], value: &[char])
    ensures
        final(l)@ == launcher_with(old(l)@, key@, value@),
{
    if eq_str(key, "active_skin") {
        l.active_skin = string_of(value);
    } else if eq_str(key, "announcement_enabled") {
        l.announcement_enabled = read_bool(value);
    } else if eq_str(key, "announcement_url") {
        l.announcement_url = string_of(value);
    } else if eq_str(key, "list_update_enabled") {
        l.list_update_enabled = read_bool(value);
    } else if eq_str(key, "list_update_url") {
        l.list_update_url = string_of(value);
    } else if eq_str(key, "auto_update_enabled") {
        l.auto_update_enabled = read_bool(value);
    } else if eq_str(key, "auto_update_url") {
        l.auto_update_url = string_of(value);
    } else if eq_str(key, "official_url") {
        l.official_url = string_of(value);
    } else if eq_str(key, "customer_service_url") {
        l.customer_service_url = string_of(value);
    }
}

} // verus!
