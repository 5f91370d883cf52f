//! The window's events: what a message from its page leads to, and what each
//! event does.

use vstd::prelude::*;
use crate::config::UserPrefs;
use crate::gui::launch::LaunchRequest;
use crate::gui::scripts::{
    build_alert_script, build_fill_script, build_lock_script, build_message_script,
    build_progress_script, build_status_script,
};
#[allow(unused_imports)]
use crate::gui::scripts::{
    alert_script, fill_script, lock_script, message_script, progress_script, status_script,
};
use crate::http::UpdateInfo;
use crate::server_list::config::LauncherConfig;
use crate::server_list::info::ServerInfo;
#[allow(unused_imports)]
use crate::server_list::config::server_models;
use crate::text::{chars_of, decimal_chars, joined, own, push_all, push_str, string_of, trim};
#[allow(unused_imports)]
use crate::text::{decimal, trim_of};

verus! {

/// A message from the window's page.
#[derive(Debug, Clone)]
pub enum JsMessage {
    /// The page is there.
    Ready,
    /// A server was chosen.
    Select { index: usize },
    /// The game is to be started.
    Launch { server_idx: usize, windowed: bool, window_mode: Option<u8> },
    /// The player's preferences have changed.
    SavePrefs { windowed: bool, window_mode: u8 },
    /// The window is to be closed.
    Cancel,
    /// The window is to be moved.
    Drag,
    /// A page is to be opened in the browser.
    OpenUrl { url: String },
}

/// An event of the window.
#[derive(Debug, Clone)]
pub enum UserEvent {
    PushServers,
    ShowError(String),
    LaunchGame(LaunchRequest),
    Close,
    DragWindow,
    OpenExternal(String),
    PushProgress { current_pct: u8, total_pct: u8 },
    AutoUpdatePrompt(UpdateInfo),
    SetLocked(bool),
    SetStatus(String),
    PushServerStatus { index: usize, online: bool },
    SetWindowVisible(bool),
}

/// What an event is.
#[verifier::ext_equal]
pub enum EventModel {
    PushServers,
    ShowError(Seq<char>),
    LaunchGame(LaunchRequest),
    Close,
    DragWindow,
    OpenExternal(Seq<char>),
    PushProgress(u8, u8),
    AutoUpdatePrompt(UpdateInfo),
    SetLocked(bool),
    SetStatus(Seq<char>),
    PushServerStatus(usize, bool),
    SetWindowVisible(bool),
}

impl View for UserEvent {
    type V = EventModel;

    open spec fn view(&self) -> EventModel {
        match *self {
            UserEvent::PushServers => EventModel::PushServers,
            UserEvent::ShowError(s) => EventModel::ShowError(s@),
            UserEvent::LaunchGame(q) => EventModel::LaunchGame(q),
            UserEvent::Close => EventModel::Close,
            UserEvent::DragWindow => EventModel::DragWindow,
            UserEvent::OpenExternal(s) => EventModel::OpenExternal(s@),
            UserEvent::PushProgress { current_pct, total_pct } => EventModel::PushProgress(
                current_pct,
                total_pct,
            ),
            UserEvent::AutoUpdatePrompt(u) => EventModel::AutoUpdatePrompt(u),
            UserEvent::SetLocked(b) => EventModel::SetLocked(b),
            UserEvent::SetStatus(s) => EventModel::SetStatus(s@),
            UserEvent::PushServerStatus { index, online } => EventModel::PushServerStatus(
                index,
                online,
            ),
            UserEvent::SetWindowVisible(b) => EventModel::SetWindowVisible(b),
        }
    }
}

/// What some events are.
pub open spec fn event_models(v: Seq<UserEvent>) -> Seq<EventModel> {
    v.map_values(|e: UserEvent| e@)
}

/// What a message leads to.
#[derive(Debug, Clone)]
pub enum Reply {
    /// An event is sent.
    Send(UserEvent),
    /// The preferences are kept.
    Save(UserPrefs),
    /// A start of the game is built for a server.
    Launch { server_idx: usize, windowed: bool, window_mode: u8 },
}

/// What a reply is.
#[verifier::ext_equal]
pub enum ReplyModel {
    Send(EventModel),
    Save(UserPrefs),
    Launch(usize, bool, u8),
}

impl View for Reply {
    type V = ReplyModel;

    open spec fn view(&self) -> ReplyModel {
        match *self {
            Reply::Send(e) => ReplyModel::Send(e@),
            Reply::Save(p) => ReplyModel::Save(p),
            Reply::Launch { server_idx, windowed, window_mode } => ReplyModel::Launch(
                server_idx,
                windowed,
                window_mode,
            ),
        }
    }
}

/// What some replies are.
pub open spec fn reply_models(v: Seq<Reply>) -> Seq<ReplyModel> {
    v.map_values(|r: Reply| r@)
}

/// A size of the window that the game can have; 800x600 in place of any other.
pub open spec fn valid_mode(mode: Option<u8>) -> u8 {
    match mode {
        Some(m) => if 4 <= m <= 7 {
            m
        } else {
            5
        },
        None => 5,
    }
}

/// A size of the window that the game can have.
pub fn window_mode_or_default(mode: Option<u8>) -> (r: u8)
    ensures
        r == valid_mode(mode),
        4 <= r <= 7,
{
    match mode {
        Some(m) => if 4 <= m && m <= 7 {
            m
        } else {
            5
        },
        None => 5,
    }
}

/// What a message leads to, given an update that waits.
pub open spec fn replies_to(msg: JsMessage, pending: Option<UpdateInfo>) -> Seq<ReplyModel> {
    match msg {
        JsMessage::Ready => seq![
            ReplyModel::Send(EventModel::PushServers),
            match pending {
                Some(u) => ReplyModel::Send(EventModel::AutoUpdatePrompt(u)),
                None => ReplyModel::Send(EventModel::PushProgress(100, 100)),
            },
        ],
        JsMessage::Select { index } => seq![],
        JsMessage::Launch { server_idx, windowed, window_mode } => seq![
            ReplyModel::Save(UserPrefs { windowed, window_mode: valid_mode(window_mode) }),
            ReplyModel::Launch(server_idx, windowed, valid_mode(window_mode)),
        ],
        JsMessage::SavePrefs { windowed, window_mode } => seq![
            ReplyModel::Save(UserPrefs { windowed, window_mode: valid_mode(Some(window_mode)) }),
        ],
        JsMessage::Cancel => seq![ReplyModel::Send(EventModel::Close)],
        JsMessage::Drag => seq![ReplyModel::Send(EventModel::DragWindow)],
        JsMessage::OpenUrl { url } => if trim_of(url@).len() > 0 {
            seq![ReplyModel::Send(EventModel::OpenExternal(trim_of(url@)))]
        } else {
            seq![]
        },
    }
}

/// What a message leads to. An update that waits is offered once, when the page is
/// there.
pub fn handle_message(msg: JsMessage, pending: &mut Option<UpdateInfo>) -> (r: Vec<Reply>)
    ensures
        reply_models(r@) == replies_to(msg, *old(pending)),
        *final(pending) == (if msg is Ready {
            None
        } else {
            *old(pending)
        }),
{
    let mut out: Vec<Reply> = Vec::new();
    match msg {
        JsMessage::Ready => {
            out.push(Reply::Send(UserEvent::PushServers));
            match pending.take() {
                Some(info) => {
                    out.push(Reply::Send(UserEvent::AutoUpdatePrompt(info)));
                },
                None => {
                    out.push(
                        Reply::Send(UserEvent::PushProgress { current_pct: 100, total_pct: 100 }),
                    );
                },
            }
        },
        JsMessage::Select { index: _ } => {},
        JsMessage::Launch { server_idx, windowed, window_mode } => {
            let mode: u8 = window_mode_or_default(window_mode);
            out.push(Reply::Save(UserPrefs { windowed, window_mode: mode }));
            out.push(Reply::Launch { server_idx, windowed, window_mode: mode });
        },
        JsMessage::SavePrefs { windowed, window_mode } => {
            let mode: u8 = window_mode_or_default(Some(window_mode));
            out.push(Reply::Save(UserPrefs { windowed, window_mode: mode }));
        },
        JsMessage::Cancel => {
            out.push(Reply::Send(UserEvent::Close));
        },
        JsMessage::Drag => {
            out.push(Reply::Send(UserEvent::DragWindow));
        },
        JsMessage::OpenUrl { url } => {
            let cs = chars_of(url.as_str());
            let t = trim(cs.as_slice());
            if t.len() > 0 {
                out.push(Reply::Send(UserEvent::OpenExternal(string_of(t))));
            }
        },
    }
    assert(reply_models(out@) == replies_to(msg, *old(pending)));
    out
}

/// What the page is filled with.
pub struct PageData {
    pub servers: Vec<ServerInfo>,
    pub announcement_url: String,
    pub official_url: String,
    pub customer_url: String,
    pub prefs: UserPrefs,
}

/// What the page is filled with: an announcement only where it is switched on.
pub fn page_data(servers: Vec<ServerInfo>, cfg: &LauncherConfig, prefs: UserPrefs) -> (r: PageData)
    ensures
        r.servers == servers,
        r.announcement_url@ == (if cfg.announcement_enabled {
            cfg.announcement_url@
        } else {
            seq![]
        }),
        r.official_url@ == cfg.official_url@,
        r.customer_url@ == cfg.customer_service_url@,
        r.prefs == prefs,
{
    PageData {
        servers,
        announcement_url: if cfg.announcement_enabled {
            own(cfg.announcement_url.as_str())
        } else {
            String::new()
        },
        official_url: own(cfg.official_url.as_str()),
        customer_url: own(cfg.customer_service_url.as_str()),
        prefs,
    }
}

/// What an event does.
pub enum Effect {
    /// The window is shown or hidden.
    Visible(bool),
    /// The launcher ends.
    Exit,
    /// The page runs a script.
    Script(String),
    /// The servers are tried.
    Probe,
    /// The window is moved.
    Drag,
    /// A page is opened in the browser.
    Open(String),
    /// Another event is sent.
    Send(UserEvent),
    /// The game is started.
    Launch(LaunchRequest),
    /// An update is installed.
    Update(UpdateInfo),
}

/// What an effect is.
#[verifier::ext_equal]
pub enum EffectModel {
    Visible(bool),
    Exit,
    Script(Seq<char>),
    Probe,
    Drag,
    Open(Seq<char>),
    Send(EventModel),
    Launch(LaunchRequest),
    Update(UpdateInfo),
}

impl View for Effect {
    type V = EffectModel;

    open spec fn view(&self) -> EffectModel {
        match *self {
            Effect::Visible(b) => EffectModel::Visible(b),
            Effect::Exit => EffectModel::Exit,
            Effect::Script(s) => EffectModel::Script(s@),
            Effect::Probe => EffectModel::Probe,
            Effect::Drag => EffectModel::Drag,
            Effect::Open(s) => EffectModel::Open(s@),
            Effect::Send(e) => EffectModel::Send(e@),
            Effect::Launch(q) => EffectModel::Launch(q),
            Effect::Update(u) => EffectModel::Update(u),
        }
    }
}

/// What some effects are.
pub open spec fn effect_models(v: Seq<Effect>) -> Seq<EffectModel> {
    v.map_values(|e: Effect| e@)
}

/// What is shown while the game starts.
pub open spec fn starting_text(q: LaunchRequest) -> Seq<char> {
    "遊戲啟動中 → "@ + q.ip@ + ":"@ + decimal(q.port as nat)
}

fn build_starting_text(q: &LaunchRequest) -> (r: String)
    ensures
        r@ == starting_text(*q),
{
    let mut out = chars_of("遊戲啟動中 → ");
    push_str(&mut out, q.ip.as_str());
    push_str(&mut out, ":");
    push_all(&mut out, decimal_chars(q.port as u64).as_slice());
    string_of(out.as_slice())
}

/// What an event does while the game runs or does not.
pub open spec fn effects_of(ev: EventModel, page: PageData, game_running: bool) -> Seq<EffectModel> {
    match ev {
        EventModel::Close => if game_running {
            seq![EffectModel::Visible(false)]
        } else {
            seq![EffectModel::Exit]
        },
        EventModel::PushServers => seq![
            EffectModel::Script(
                fill_script(
                    server_models(page.servers@),
                    page.announcement_url@,
                    page.official_url@,
                    page.customer_url@,
                    page.prefs,
                ),
            ),
            EffectModel::Probe,
        ],
        EventModel::PushServerStatus(index, online) => seq![
            EffectModel::Script(status_script(index as nat, online)),
        ],
        EventModel::ShowError(msg) => seq![EffectModel::Script(alert_script(msg))],
        EventModel::LaunchGame(q) => seq![
            EffectModel::Send(EventModel::SetLocked(true)),
            EffectModel::Send(EventModel::SetStatus(starting_text(q))),
            EffectModel::Launch(q),
        ],
        EventModel::DragWindow => seq![EffectModel::Drag],
        EventModel::SetWindowVisible(v) => seq![EffectModel::Visible(v)],
        EventModel::OpenExternal(url) => seq![EffectModel::Open(url)],
        EventModel::PushProgress(c, t) => seq![EffectModel::Script(progress_script(c, t))],
        EventModel::SetLocked(b) => seq![EffectModel::Script(lock_script(b))],
        EventModel::SetStatus(text) => seq![EffectModel::Script(message_script(text))],
        EventModel::AutoUpdatePrompt(u) => seq![
            EffectModel::Send(EventModel::SetLocked(true)),
            EffectModel::Update(u),
        ],
    }
}

/// What an event does. Closing the window while the game runs hides it, and the
/// game runs from the event that starts it on.
pub fn handle_event(ev: UserEvent, page: &PageData, game_running: &mut bool) -> (r: Vec<Effect>)
    ensures
        effect_models(r@) == effects_of(ev@, *page, *old(game_running)),
        *final(game_running) == (*old(game_running) || ev is LaunchGame),
{
    let mut out: Vec<Effect> = Vec::new();
    let ghost running = *game_running;
    match ev {
        UserEvent::Close => {
            if *game_running {
                out.push(Effect::Visible(false));
            } else {
                out.push(Effect::Exit);
            }
        },
        UserEvent::PushServers => {
            let script = build_fill_script(
                page.servers.as_slice(),
                page.announcement_url.as_str(),
                page.official_url.as_str(),
                page.customer_url.as_str(),
                &page.prefs,
            );
            out.push(Effect::Script(script));
            out.push(Effect::Probe);
        },
        UserEvent::PushServerStatus { index, online } => {
            out.push(Effect::Script(build_status_script(index, online)));
        },
        UserEvent::ShowError(msg) => {
            out.push(Effect::Script(build_alert_script(msg.as_str())));
        },
        UserEvent::LaunchGame(q) => {
            *game_running = true;
            out.push(Effect::Send(UserEvent::SetLocked(true)));
            out.push(Effect::Send(UserEvent::SetStatus(build_starting_text(&q))));
            out.push(Effect::Launch(q));
        },
        UserEvent::DragWindow => {
            out.push(Effect::Drag);
        },
        UserEvent::SetWindowVisible(v) => {
            out.push(Effect::Visible(v));
        },
        UserEvent::OpenExternal(url) => {
            out.push(Effect::Open(url));
        },
        UserEvent::PushProgress { current_pct, total_pct } => {
            out.push(Effect::Script(build_progress_script(current_pct, total_pct)));
        },
        UserEvent::SetLocked(b) => {
            out.push(Effect::Script(build_lock_script(b)));
        },
        UserEvent::SetStatus(text) => {
            out.push(Effect::Script(build_message_script(text.as_str())));
        },
        UserEvent::AutoUpdatePrompt(u) => {
            out.push(Effect::Send(UserEvent::SetLocked(true)));
            out.push(Effect::Update(u));
        },
    }
    assert(effect_models(out@) == effects_of(ev@, *page, running));
    out
}

/// The events after the game was started: the window closes where the game has
/// ended, and comes back with the error where starting it failed.
pub open spec fn after_game(error: Option<(Seq<char>, Seq<char>)>) -> Seq<EventModel> {
    match error {
        None => seq![EventModel::Close, EventModel::Close],
        Some(e) => seq![
            EventModel::SetWindowVisible(true),
            EventModel::ShowError("啟動遊戲失敗：\n"@ + e.0),
            EventModel::SetStatus("啟動失敗："@ + e.1),
            EventModel::SetLocked(false),
        ],
    }
}

/// The events after the game was started, given the error in full and in one line
/// where there was one.
pub fn game_ended(error: Option<(String, String)>) -> (r: Vec<UserEvent>)
    ensures
        event_models(r@) == after_game(
            match error {
                Some(e) => Some((e.0@, e.1@)),
                None => None,
            },
        ),
{
    let mut out: Vec<UserEvent> = Vec::new();
    match error {
        None => {
            out.push(UserEvent::Close);
            out.push(UserEvent::Close);
        },
        Some(e) => {
            out.push(UserEvent::SetWindowVisible(true));
            out.push(UserEvent::ShowError(joined("啟動遊戲失敗：\n", e.0.as_str())));
            out.push(UserEvent::SetStatus(joined("啟動失敗：", e.1.as_str())));
            out.push(UserEvent::SetLocked(false));
        },
    }
    assert(event_models(out@) == after_game(
        match error {
            Some(e) => Some((e.0@, e.1@)),
            None => None,
        },
    ));
    out
}

/// The launcher ends on a request to close it exactly where no game runs.
pub proof fn law_close_spares_the_game(page: PageData, game_running: bool)
    ensures
        effects_of(EventModel::Close, page, game_running).contains(EffectModel::Exit)
            == !game_running,
{
    let e = effects_of(EventModel::Close, page, game_running);
    assert(e.len() == 1);
    if !game_running {
        assert(e[0] == EffectModel::Exit);
    }
}

} // verus!
