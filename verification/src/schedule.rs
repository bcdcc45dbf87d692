//! Timing decisions of the background work: when the dashboard is refreshed next,
//! what the update check reports at each step, and when a downloaded update may be
//! installed.

use vstd::prelude::*;
use vstd::string::*;
use crate::text::{decimal, push_decimal};

verus! {

/// Interval between background refreshes that succeed.
pub const AUTO_REFRESH_INTERVAL_SECS: u64 = 600;
/// First retry delay after a failed refresh.
pub const RETRY_BASE_DELAY_SECS: u64 = 60;
/// Longest retry delay after repeated failures.
pub const RETRY_MAX_DELAY_SECS: u64 = 300;
/// Delay of the first update check after start.
pub const FIRST_UPDATE_CHECK_DELAY_SECS: u64 = 15;
/// Interval between update checks: the app may stay in the tray for weeks.
pub const UPDATE_CHECK_INTERVAL_SECS: u64 = 86400;
/// With the window in view, the user counts as idle after this long without activity.
pub const IDLE_AFTER_SECS: u64 = 90;
/// How often the installer looks for an idle moment.
pub const IDLE_INSTALL_POLL_SECS: u64 = 5;

/// Retry state of the background refresh: failures retry sooner than the regular
/// interval, doubling the delay each time up to a ceiling; a success starts over.
pub struct RefreshBackoff {
    retry_delay: u64,
}

impl RefreshBackoff {
    #[verifier::type_invariant]
    spec fn bounded(self) -> bool {
        RETRY_BASE_DELAY_SECS <= self.retry_delay <= RETRY_MAX_DELAY_SECS
    }

    /// The delay that the next failure will wait.
    pub closed spec fn retry_delay(self) -> u64 {
        self.retry_delay
    }

    pub fn new() -> (res: Self)
        ensures
            res.retry_delay() == RETRY_BASE_DELAY_SECS,
    {
        RefreshBackoff { retry_delay: RETRY_BASE_DELAY_SECS }
    }

    /// The wait before the next refresh, after one that succeeded or failed: the
    /// regular interval after a success, otherwise the current retry delay, which
    /// then doubles up to the ceiling.
    pub fn next_delay(&mut self, success: bool) -> (delay: u64)
        ensures
            success ==> delay == AUTO_REFRESH_INTERVAL_SECS && final(self).retry_delay() == RETRY_BASE_DELAY_SECS,
            !success ==> delay == old(self).retry_delay() && final(self).retry_delay() == if old(self).retry_delay() * 2
                <= RETRY_MAX_DELAY_SECS {
                (old(self).retry_delay() * 2) as u64
            } else {
                RETRY_MAX_DELAY_SECS
            },
            RETRY_BASE_DELAY_SECS <= delay <= AUTO_REFRESH_INTERVAL_SECS,
            RETRY_BASE_DELAY_SECS <= final(self).retry_delay() <= RETRY_MAX_DELAY_SECS,
    {
        proof {
            use_type_invariant(&*self);
        }
        if success {
            self.retry_delay = RETRY_BASE_DELAY_SECS;
            AUTO_REFRESH_INTERVAL_SECS
        } else {
            let current = self.retry_delay;
            let doubled = current * 2;
            self.retry_delay = if doubled <= RETRY_MAX_DELAY_SECS { doubled } else { RETRY_MAX_DELAY_SECS };
            current
        }
    }
}

pub open spec fn staged_notice_text(version: Seq<char>) -> Seq<char> {
    "v"@ + version + " 已下载并验签，将在应用空闲时自动安装并重启（约 "@ + decimal(IDLE_AFTER_SECS as nat)
        + " 秒无操作）"@
}

/// The notice that an update was downloaded and verified and waits for an idle moment.
pub fn staged_notice(version: &str) -> (res: String)
    ensures
        res@ == staged_notice_text(version@),
{
    let mut text = String::from_str("v");
    text.append(version);
    text.append(" 已下载并验签，将在应用空闲时自动安装并重启（约 ");
    push_decimal(&mut text, IDLE_AFTER_SECS);
    text.append(" 秒无操作）");
    text
}

/// Whether a staged update may be installed now: not while the user may be looking
/// at the window (in view and active within `IDLE_AFTER_SECS`), and not while a
/// refresh runs.
pub fn install_is_idle(window_in_view: bool, idle_for_secs: u64, refresh_running: bool) -> (res: bool)
    ensures
        res == (!(window_in_view && idle_for_secs < IDLE_AFTER_SECS) && !refresh_running),
{
    if window_in_view && idle_for_secs < IDLE_AFTER_SECS {
        return false;
    }
    !refresh_running
}

/// The state an update check reports to the page.
#[derive(PartialEq, Eq, Structural, Clone, Copy, Debug)]
pub enum UpdateState {
    Disabled,
    Checking,
    UpToDate,
    Downloading,
    Staged,
    Error,
}

/// What the caller does next in an update check.
#[derive(PartialEq, Eq, Structural, Clone, Copy, Debug)]
pub enum UpdateWork {
    /// Set up the updater and ask for a newer release.
    CheckRelease,
    /// Download and verify the release, then stage it for the idle installer.
    Download,
    /// The check is over.
    Finish,
}

/// What an update check has learnt, step by step.
pub enum UpdateEvent {
    /// The check begins: whether this is a development build (which does not check),
    /// and the version of an update staged by an earlier check.
    Begin { dev_build: bool, staged: Option<String> },
    /// The updater could not be set up.
    UpdaterUnavailable { detail: String },
    /// Asking for a release failed.
    CheckFailed { detail: String },
    /// No newer release exists.
    NoUpdate,
    /// A newer release exists.
    Found { version: String },
    /// Downloading or verifying the release failed.
    DownloadFailed { version: String, detail: String },
    /// The downloaded release could not be staged.
    StageFailed,
    /// The release is downloaded, verified and staged.
    Staged { version: String },
}

/// The answer to an event: the status for the page, a system notification
/// (title and body) if one is due, and the next piece of work.
pub struct UpdateStep {
    pub state: UpdateState,
    pub version: Option<String>,
    pub message: Option<String>,
    pub notice: Option<(String, String)>,
    pub next: UpdateWork,
}

pub open spec fn text_of(text: Option<String>) -> Option<Seq<char>> {
    match text {
        Some(t) => Some(t@),
        None => None,
    }
}

pub open spec fn notice_of(notice: Option<(String, String)>) -> Option<(Seq<char>, Seq<char>)> {
    match notice {
        Some(n) => Some((n.0@, n.1@)),
        None => None,
    }
}

/// The step as plain values.
pub open spec fn step_view(step: UpdateStep) -> (
    UpdateState,
    Option<Seq<char>>,
    Option<Seq<char>>,
    Option<(Seq<char>, Seq<char>)>,
    UpdateWork,
) {
    (step.state, text_of(step.version), text_of(step.message), notice_of(step.notice), step.next)
}

/// A notice that is shown only when the caller asked for the result to be announced.
pub open spec fn announced(announce: bool, title: Seq<char>, body: Seq<char>) -> Option<(Seq<char>, Seq<char>)> {
    if announce {
        Some((title, body))
    } else {
        None
    }
}

/// A failed check: the error and its message on the page, always announced as well.
pub open spec fn failure(message: Seq<char>) -> (
    UpdateState,
    Option<Seq<char>>,
    Option<Seq<char>>,
    Option<(Seq<char>, Seq<char>)>,
    UpdateWork,
) {
    (UpdateState::Error, None, Some(message), Some(("⚠️ AMAX Dashboard 更新失败"@, message)), UpdateWork::Finish)
}

/// The answer to each event. Conclusions that need no action (a development build, an
/// update staged before, no newer release) are notified only when `announce` asks for
/// it; a newly staged update and a failure are always notified.
pub open spec fn update_step_of(announce: bool, event: UpdateEvent) -> (
    UpdateState,
    Option<Seq<char>>,
    Option<Seq<char>>,
    Option<(Seq<char>, Seq<char>)>,
    UpdateWork,
) {
    match event {
        UpdateEvent::Begin { dev_build, staged } => if dev_build {
            (
                UpdateState::Disabled,
                None,
                Some("开发构建不检查更新"@),
                announced(announce, "ℹ️ AMAX Dashboard"@, "开发构建不检查更新"@),
                UpdateWork::Finish,
            )
        } else {
            match staged {
                Some(v) => (
                    UpdateState::Staged,
                    Some(v@),
                    Some(staged_notice_text(v@)),
                    announced(announce, "⬇️ AMAX Dashboard 更新已就绪"@, staged_notice_text(v@)),
                    UpdateWork::Finish,
                ),
                None => (UpdateState::Checking, None, None, None, UpdateWork::CheckRelease),
            }
        },
        UpdateEvent::UpdaterUnavailable { detail } => failure(
            "初始化更新器失败（多为 pubkey 配置有误）: "@ + detail@,
        ),
        UpdateEvent::CheckFailed { detail } => failure("检查更新失败: "@ + detail@),
        UpdateEvent::NoUpdate => (
            UpdateState::UpToDate,
            None,
            None,
            announced(announce, "✅ AMAX Dashboard"@, "当前已是最新版本"@),
            UpdateWork::Finish,
        ),
        UpdateEvent::Found { version } => (UpdateState::Downloading, Some(version@), None, None, UpdateWork::Download),
        UpdateEvent::DownloadFailed { version, detail } => failure("下载 v"@ + version@ + " 失败: "@ + detail@),
        UpdateEvent::StageFailed => failure("更新状态锁不可用"@),
        UpdateEvent::Staged { version } => (
            UpdateState::Staged,
            Some(version@),
            Some(staged_notice_text(version@)),
            Some(("⬇️ AMAX Dashboard 更新已就绪"@, staged_notice_text(version@))),
            UpdateWork::Finish,
        ),
    }
}

fn announce_if(announce: bool, title: &str, body: &str) -> (res: Option<(String, String)>)
    ensures
        notice_of(res) == announced(announce, title@, body@),
{
    if announce {
        Some((String::from_str(title), String::from_str(body)))
    } else {
        None
    }
}

fn failed(message: String) -> (res: UpdateStep)
    ensures
        step_view(res) == failure(message@),
{
    let title = String::from_str("⚠️ AMAX Dashboard 更新失败");
    let body = message.clone();
    UpdateStep { state: UpdateState::Error, version: None, message: Some(message), notice: Some((title, body)), next: UpdateWork::Finish }
}

/// The next step of an update check (see `update_step_of`): the caller performs the
/// work, reports what came of it, and shows what the step says.
pub fn update_step(announce: bool, event: UpdateEvent) -> (res: UpdateStep)
    ensures
        step_view(res) == update_step_of(announce, event),
{
    match event {
        UpdateEvent::Begin { dev_build, staged } => {
            if dev_build {
                UpdateStep {
                    state: UpdateState::Disabled,
                    version: None,
                    message: Some(String::from_str("开发构建不检查更新")),
                    notice: announce_if(announce, "ℹ️ AMAX Dashboard", "开发构建不检查更新"),
                    next: UpdateWork::Finish,
                }
            } else {
                match staged {
                    Some(version) => {
                        let body = staged_notice(version.as_str());
                        UpdateStep {
                            state: UpdateState::Staged,
                            notice: announce_if(announce, "⬇️ AMAX Dashboard 更新已就绪", body.as_str()),
                            message: Some(body),
                            version: Some(version),
                            next: UpdateWork::Finish,
                        }
                    },
                    None => UpdateStep {
                        state: UpdateState::Checking,
                        version: None,
                        message: None,
                        notice: None,
                        next: UpdateWork::CheckRelease,
                    },
                }
            }
        },
        UpdateEvent::UpdaterUnavailable { detail } => {
            let mut message = String::from_str("初始化更新器失败（多为 pubkey 配置有误）: ");
            message.append(detail.as_str());
            failed(message)
        },
        UpdateEvent::CheckFailed { detail } => {
            let mut message = String::from_str("检查更新失败: ");
            message.append(detail.as_str());
            failed(message)
        },
        UpdateEvent::NoUpdate => UpdateStep {
            state: UpdateState::UpToDate,
            version: None,
            message: None,
            notice: announce_if(announce, "✅ AMAX Dashboard", "当前已是最新版本"),
            next: UpdateWork::Finish,
        },
        UpdateEvent::Found { version } => UpdateStep {
            state: UpdateState::Downloading,
            version: Some(version),
            message: None,
            notice: None,
            next: UpdateWork::Download,
        },
        UpdateEvent::DownloadFailed { version, detail } => {
            let mut message = String::from_str("下载 v");
            message.append(version.as_str());
            message.append(" 失败: ");
            message.append(detail.as_str());
            failed(message)
        },
        UpdateEvent::StageFailed => failed(String::from_str("更新状态锁不可用")),
        UpdateEvent::Staged { version } => {
            let body = staged_notice(version.as_str());
            let title = String::from_str("⬇️ AMAX Dashboard 更新已就绪");
            let shown = body.clone();
            UpdateStep {
                state: UpdateState::Staged,
                version: Some(version),
                message: Some(body),
                notice: Some((title, shown)),
                next: UpdateWork::Finish,
            }
        },
    }
}

} // verus!
