//! Installing an update: one archive after the other, then the tool, where there
//! is one, and only then the new version.

use vstd::prelude::*;
use crate::gui::events::UserEvent;
#[allow(unused_imports)]
use crate::gui::events::{event_models, EventModel};
use crate::gui::update::{
    archive_file, begin_update, download_text, end_update, installed_percent,
    missing_archive_text, plan_update, progress, unpack_text,
};
#[allow(unused_imports)]
use crate::gui::update::{archive_of, download_percent, share, stage_text, total_percent};
use crate::http::{base_url_of, resolve_zip_url, UpdateInfo};
#[allow(unused_imports)]
use crate::http::{base_of, zip_url};
use crate::text::{decimal_chars, own, push_all, push_str, string_of};
#[allow(unused_imports)]
use crate::text::decimal;

verus! {

/// What is done next.
#[derive(Debug, Clone, Copy, PartialEq, Eq, Structural)]
pub enum Stage {
    /// An archive is fetched.
    Fetch,
    /// It is written beside the launcher.
    Keep,
    /// It is unpacked.
    Unpack,
    /// Its file is removed.
    Remove,
    /// The tool that installs files runs, where there is one.
    Tool,
    /// The new version is recorded.
    Record,
    /// All is done.
    Done,
    /// Something went wrong.
    Failed,
}

/// How far an update of some archives is.
pub struct RunModel {
    /// How many archives there are.
    pub count: nat,
    /// The archive at hand.
    pub at: nat,
    /// What is done next.
    pub stage: Stage,
}

/// Where an update of some archives starts.
pub open spec fn started(count: nat) -> RunModel {
    RunModel {
        count,
        at: 0,
        stage: if count == 0 {
            Stage::Tool
        } else {
            Stage::Fetch
        },
    }
}

/// Where an update is once a step has gone well or not. That a file could not be
/// removed stops nothing.
pub open spec fn stepped(m: RunModel, went_well: bool) -> RunModel {
    if m.stage == Stage::Done || m.stage == Stage::Failed {
        m
    } else if m.stage == Stage::Remove {
        RunModel {
            at: m.at + 1,
            stage: if m.at + 1 < m.count {
                Stage::Fetch
            } else {
                Stage::Tool
            },
            ..m
        }
    } else if !went_well {
        RunModel { stage: Stage::Failed, ..m }
    } else {
        RunModel {
            stage: match m.stage {
                Stage::Fetch => Stage::Keep,
                Stage::Keep => Stage::Unpack,
                Stage::Unpack => Stage::Remove,
                Stage::Tool => Stage::Record,
                _ => Stage::Done,
            },
            ..m
        }
    }
}

/// Where an update is after some steps, given how each went.
pub open spec fn after_steps(count: nat, went: Seq<bool>) -> RunModel
    decreases went.len(),
{
    if went.len() == 0 {
        started(count)
    } else {
        stepped(after_steps(count, went.drop_last()), went.last())
    }
}

/// Whether every step that has to go well went well: all but the removals.
pub open spec fn all_well(count: nat, went: Seq<bool>) -> bool {
    forall|k: int|
        0 <= k < went.len() && k < 4 * count + 2 && !(k < 4 * count && k % 4 == 3)
            ==> #[trigger] went[k]
}

/// Where an update is after so many steps that went well.
pub open spec fn placed(count: nat, k: int) -> RunModel {
    if k < 4 * count {
        RunModel {
            count,
            at: (k / 4) as nat,
            stage: if k % 4 == 0 {
                Stage::Fetch
            } else if k % 4 == 1 {
                Stage::Keep
            } else if k % 4 == 2 {
                Stage::Unpack
            } else {
                Stage::Remove
            },
        }
    } else {
        RunModel {
            count,
            at: count,
            stage: if k == 4 * count {
                Stage::Tool
            } else if k == 4 * count + 1 {
                Stage::Record
            } else {
                Stage::Done
            },
        }
    }
}

/// The steps come in a fixed order: each archive is fetched, kept, unpacked and
/// removed before the next, and the tool runs once, behind them all. The first
/// step that goes wrong ends the update.
pub proof fn law_steps_in_order(count: nat, went: Seq<bool>)
    ensures
        all_well(count, went) ==> after_steps(count, went) == placed(count, went.len() as int),
        !all_well(count, went) ==> after_steps(count, went).stage == Stage::Failed,
    decreases went.len(),
{
    if went.len() > 0 {
        let before = went.drop_last();
        let k = before.len() as int;
        law_steps_in_order(count, before);
        assert(went[k] == went.last());
        assert forall|j: int| 0 <= j < k implies before[j] == went[j] by {}
        if all_well(count, went) {
            assert forall|j: int|
                0 <= j < before.len() && j < 4 * count + 2 && !(j < 4 * count && j % 4
                    == 3) implies #[trigger] before[j] by {
                assert(went[j]);
            }
        } else if all_well(count, before) {
            let j = choose|j: int|
                0 <= j < went.len() && j < 4 * count + 2 && !(j < 4 * count && j % 4 == 3)
                    && !(#[trigger] went[j]);
            assert(j == k) by {
                if j < k {
                    assert(before[j]);
                }
            }
        }
    }
}

/// The new version is recorded only once every archive was fetched and unpacked
/// and the tool, where there is one, has run; whatever failed before keeps the old
/// version.
pub proof fn law_version_is_recorded_last(count: nat, went: Seq<bool>)
    requires
        after_steps(count, went).stage == Stage::Record || after_steps(count, went).stage
            == Stage::Done,
    ensures
        went.len() > 4 * count,
        went[4 * count as int],
        forall|i: int|
            0 <= i < count ==> #[trigger] went[4 * i] && went[4 * i + 1] && went[4 * i + 2],
{
    law_steps_in_order(count, went);
    assert forall|i: int| 0 <= i < count implies #[trigger] went[4 * i] && went[4 * i + 1]
        && went[4 * i + 2] by {
        assert((4 * i) % 4 == 0);
        assert((4 * i + 1) % 4 == 1);
        assert((4 * i + 2) % 4 == 2);
    }
}

/// An update on its way.
#[derive(Debug, Clone)]
pub struct UpdateRun {
    /// The archives, with the version of each.
    pub need: Vec<(u32, String)>,
    /// What the archives' names stand behind.
    pub base: String,
    /// The version that is installed.
    pub target: u32,
    /// The archive at hand.
    pub at: usize,
    /// What is done next.
    pub stage: Stage,
}

impl View for UpdateRun {
    type V = RunModel;

    open spec fn view(&self) -> RunModel {
        RunModel { count: self.need@.len(), at: self.at as nat, stage: self.stage }
    }
}

/// Whether a stage works on one archive.
pub open spec fn on_archive(stage: Stage) -> bool {
    stage == Stage::Fetch || stage == Stage::Keep || stage == Stage::Unpack || stage
        == Stage::Remove
}

/// Begins to install an update over a version. It needs an archive of every version
/// that is missing.
pub fn begin_install(info: &UpdateInfo, local: u32) -> (r: Result<UpdateRun, String>)
    ensures
        match r {
            Ok(run) => {
                &&& forall|v: u32| local < v <= info.server_version ==> #[trigger] archive_of(
                    info.zips@,
                    v,
                ) is Some
                &&& run.inv()
                &&& run@ == started(run.need@.len())
                &&& run.target == info.server_version
                &&& run.base@ == base_of(info.source_url@)
                &&& run.need@.len() == (if info.server_version > local {
                    info.server_version - local
                } else {
                    0
                })
                &&& forall|i: int|
                    0 <= i < run.need@.len() ==> (#[trigger] run.need@[i]).0 == local + 1 + i
                        && archive_of(info.zips@, run.need@[i].0) == Some(run.need@[i].1@)
            },
            Err(e) => exists|v: u32| #[trigger]
                first_missing(info, local, v) && e@ == "Update.ini 缺少版本 "@ + decimal(v as nat)
                    + " 的 zip 條目"@,
        },
{
    match plan_update(info, local) {
        Ok(need) => {
            proof {
                assert forall|v: u32| local < v <= info.server_version implies #[trigger] archive_of(
                    info.zips@,
                    v,
                ) is Some by {
                    assert(need@[v - local - 1].0 == v);
                }
            }
            let stage = if need.len() == 0 {
                Stage::Tool
            } else {
                Stage::Fetch
            };
            let base = base_url_of(info.source_url.as_str());
            Ok(UpdateRun { need, base, target: info.server_version, at: 0, stage })
        },
        Err(v) => {
            assert(first_missing(info, local, v));
            Err(missing_archive_text(v))
        },
    }
}

/// Whether a version is the first one behind another that has no archive.
pub open spec fn first_missing(info: &UpdateInfo, local: u32, v: u32) -> bool {
    &&& local < v <= info.server_version
    &&& archive_of(info.zips@, v) is None
    &&& forall|w: u32| local < w < v ==> #[trigger] archive_of(info.zips@, w) is Some
}

impl UpdateRun {
    /// There is an archive at hand while one is worked on.
    pub open spec fn inv(&self) -> bool {
        &&& self.at <= self.need@.len()
        &&& on_archive(self.stage) ==> self.at < self.need@.len()
    }

    /// Where the archive at hand is fetched.
    pub fn url(&self) -> (r: String)
        requires
            self.at < self.need@.len(),
        ensures
            r@ == zip_url(self.base@, self.need@[self.at as int].1@),
    {
        resolve_zip_url(self.base.as_str(), self.need[self.at].1.as_str())
    }

    /// The name of the file that keeps the archive at hand.
    pub fn file(&self) -> (r: String)
        requires
            self.at < self.need@.len(),
        ensures
            r@ == "patch_v"@ + decimal(self.need@[self.at as int].0 as nat) + ".zip"@,
    {
        archive_file(self.need[self.at].0)
    }

    /// Whether the tool runs: once, behind all archives, where there is one by then.
    pub fn runs_tool(&self, tool_is_there: bool) -> (r: bool)
        ensures
            r == (self.stage == Stage::Tool && tool_is_there),
    {
        match self.stage {
            Stage::Tool => tool_is_there,
            _ => false,
        }
    }

    /// What is said when a step begins. Nothing is said of a tool that is not there.
    pub fn status(&self, tool_is_there: bool) -> (r: Option<String>)
        requires
            self.inv(),
        ensures
            match self.stage {
                Stage::Fetch => r matches Some(s) && s@ == stage_text(
                    "下載"@,
                    self.need@[self.at as int].0,
                    self.at as nat,
                    self.need@.len(),
                ),
                Stage::Unpack => r matches Some(s) && s@ == stage_text(
                    "解壓"@,
                    self.need@[self.at as int].0,
                    self.at as nat,
                    self.need@.len(),
                ),
                Stage::Tool => if tool_is_there {
                    r matches Some(s) && s@ == "吃檔工具執行中..."@
                } else {
                    r is None
                },
                _ => r is None,
            },
    {
        match self.stage {
            Stage::Fetch => Some(
                download_text(self.need[self.at].0, self.at, self.need.len()),
            ),
            Stage::Unpack => Some(unpack_text(self.need[self.at].0, self.at, self.need.len())),
            Stage::Tool => if tool_is_there {
                Some(own("吃檔工具執行中..."))
            } else {
                None
            },
            _ => None,
        }
    }

    /// How far the archive at hand and all of them are while it is fetched, in
    /// percent.
    pub fn fetched(&self, downloaded: u64, total: u64) -> (r: (u8, u8))
        requires
            self.at < self.need@.len(),
        ensures
            r.0 == download_percent(downloaded as int, total as int),
            r.1 == total_percent(self.at as int, self.need@.len() as int, r.0 as int),
            r.0 <= 100,
            r.1 <= 80,
    {
        progress(self.at, self.need.len(), downloaded, total)
    }

    /// What stands before the cause where a step goes wrong.
    pub fn failure(&self, dir_path: &str) -> (r: String)
        requires
            self.inv(),
        ensures
            r@ == (match self.stage {
                Stage::Fetch => "下載 v"@ + decimal(self.need@[self.at as int].0 as nat)
                    + " 失敗："@ + zip_url(self.base@, self.need@[self.at as int].1@),
                Stage::Keep => "寫入 "@ + dir_path@ + " 失敗"@,
                Stage::Unpack => "解壓 v"@ + decimal(self.need@[self.at as int].0 as nat)
                    + " 失敗"@,
                Stage::Tool => "啟動 eat.exe 失敗"@,
                Stage::Record => "寫回 Login.ini.Updated = v"@ + decimal(self.target as nat)
                    + " 失敗"@,
                _ => seq![],
            }),
    {
        let mut out: Vec<char> = Vec::new();
        match self.stage {
            Stage::Fetch => {
                push_str(&mut out, "下載 v");
                push_all(&mut out, decimal_chars(self.need[self.at].0 as u64).as_slice());
                push_str(&mut out, " 失敗：");
                push_str(&mut out, self.url().as_str());
            },
            Stage::Keep => {
                push_str(&mut out, "寫入 ");
                push_str(&mut out, dir_path);
                push_str(&mut out, " 失敗");
            },
            Stage::Unpack => {
                push_str(&mut out, "解壓 v");
                push_all(&mut out, decimal_chars(self.need[self.at].0 as u64).as_slice());
                push_str(&mut out, " 失敗");
            },
            Stage::Tool => {
                push_str(&mut out, "啟動 eat.exe 失敗");
            },
            Stage::Record => {
                push_str(&mut out, "寫回 Login.ini.Updated = v");
                push_all(&mut out, decimal_chars(self.target as u64).as_slice());
                push_str(&mut out, " 失敗");
            },
            _ => {},
        }
        string_of(out.as_slice())
    }

    /// Takes how the step at hand went: what progress is shown, where it changes.
    pub fn advance(&mut self, went_well: bool) -> (r: Option<(u8, u8)>)
        requires
            old(self).inv(),
        ensures
            final(self).inv(),
            final(self)@ == stepped(old(self)@, went_well),
            final(self).need == old(self).need,
            final(self).base == old(self).base,
            final(self).target == old(self).target,
            match old(self).stage {
                Stage::Remove => r matches Some(p) && p.0 == 100 && p.1 == (old(self).at + 1)
                    * share(old(self).need@.len() as int),
                Stage::Record => if went_well {
                    r == Some((100u8, 100u8))
                } else {
                    r is None
                },
                _ => r is None,
            },
    {
        match self.stage {
            Stage::Done => None,
            Stage::Failed => None,
            Stage::Remove => {
                let all: u8 = installed_percent(self.at, self.need.len());
                self.at += 1;
                if self.at < self.need.len() {
                    self.stage = Stage::Fetch;
                } else {
                    self.stage = Stage::Tool;
                }
                Some((100, all))
            },
            Stage::Fetch => {
                self.stage = if went_well {
                    Stage::Keep
                } else {
                    Stage::Failed
                };
                None
            },
            Stage::Keep => {
                self.stage = if went_well {
                    Stage::Unpack
                } else {
                    Stage::Failed
                };
                None
            },
            Stage::Unpack => {
                self.stage = if went_well {
                    Stage::Remove
                } else {
                    Stage::Failed
                };
                None
            },
            Stage::Tool => {
                self.stage = if went_well {
                    Stage::Record
                } else {
                    Stage::Failed
                };
                None
            },
            Stage::Record => {
                if went_well {
                    self.stage = Stage::Done;
                    Some((100, 100))
                } else {
                    self.stage = Stage::Failed;
                    None
                }
            },
        }
    }
}

/// Whether an update is installed, and what the window is told first. Without any
/// archive there is nothing to install.
pub fn update_begun(info: &UpdateInfo) -> (r: (bool, Vec<UserEvent>))
    ensures
        r.0 == (info.zips@.len() > 0),
        event_models(r.1@) == (if info.zips@.len() == 0 {
            seq![
                EventModel::SetStatus(
                    "發現新資源版本 v"@ + decimal(info.server_version as nat)
                        + " 但 Update.ini 沒有 zip 條目，請聯絡管理者"@,
                ),
                EventModel::SetLocked(false),
            ]
        } else {
            seq![
                EventModel::SetStatus(
                    "發現新資源版本 v"@ + decimal(info.server_version as nat)
                        + "，正在下載更新..."@,
                ),
            ]
        }),
{
    let (begins, text) = begin_update(info);
    let mut out: Vec<UserEvent> = Vec::new();
    let ghost said = text@;
    out.push(UserEvent::SetStatus(text));
    if !begins {
        out.push(UserEvent::SetLocked(false));
        assert(event_models(out@) == seq![
            EventModel::SetStatus(said),
            EventModel::SetLocked(false),
        ]);
    } else {
        assert(event_models(out@) == seq![EventModel::SetStatus(said)]);
    }
    (begins, out)
}

/// What the window is told once an update is done, or has failed for a reason.
pub fn update_ended(version: u32, error: Option<&str>) -> (r: Vec<UserEvent>)
    ensures
        event_models(r@) == (match error {
            None => seq![
                EventModel::SetStatus(
                    "更新完成 ✓  資源版本 v"@ + decimal(version as nat)
                        + " 已就緒，可以進入遊戲"@,
                ),
                EventModel::SetLocked(false),
            ],
            Some(e) => seq![
                EventModel::SetStatus("更新失敗："@ + e@ + "（可重試或聯絡管理者）"@),
                EventModel::PushProgress(0, 0),
                EventModel::SetLocked(false),
            ],
        }),
{
    let text = end_update(version, error);
    let ghost said = text@;
    let mut out: Vec<UserEvent> = Vec::new();
    out.push(UserEvent::SetStatus(text));
    match error {
        None => {
            out.push(UserEvent::SetLocked(false));
            assert(event_models(out@) == seq![
                EventModel::SetStatus(said),
                EventModel::SetLocked(false),
            ]);
        },
        Some(_) => {
            out.push(UserEvent::PushProgress { current_pct: 0, total_pct: 0 });
            out.push(UserEvent::SetLocked(false));
            assert(event_models(out@) == seq![
                EventModel::SetStatus(said),
                EventModel::PushProgress(0, 0),
                EventModel::SetLocked(false),
            ]);
        },
    }
    out
}

} // verus!
