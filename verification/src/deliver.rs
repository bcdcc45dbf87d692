//! Alert delivery channels: system notification, MeoW push and SMTP mail.
//!
//! This module decides which channels can deliver, validates channel settings,
//! and turns what a channel reported into a receipt that says sent, failed for good,
//! or retryable. The daily cap and de-duplication are kept elsewhere.
//!
//! Only the SMTP authorization code is a credential. Error texts that may carry it go
//! through `redact` before they are shown or stored.

use vstd::prelude::*;
use vstd::string::*;
use crate::error::{AppError, ErrorCode};
use crate::text::{
    all_stars, chars_eq, chars_of, decimal, is_control, is_ctrl, is_whitespace, is_ws,
    lemma_replace_adds_no_occurrence, lemma_replace_removes_pattern, lower, lowered, occurs,
    push_char, push_decimal, replace_all, replace_chars, str_eq, string_of, trim, trimmed, views,
};

verus! {

/// MeoW routes by nickname without authentication: `POST /{nickname}/{title}`.
pub const MEOW_BASE_URL: &'static str = "https://api.chuckfang.com";
/// Failed delivery rows allowed per rule and day before the rule is given up for the day.
pub const MAX_FAILED_DELIVERIES_PER_RULE: i64 = 3;

/// Result of one message on one channel.
#[derive(Debug, Clone, Copy, PartialEq, Eq, Structural)]
pub enum Outcome {
    Sent,
    Failed,
    Retryable,
}

impl Outcome {
    pub fn is_success(self) -> (res: bool)
        ensures
            res == (self == Outcome::Sent),
    {
        self == Outcome::Sent
    }
}

#[derive(Debug, Clone, Copy, PartialEq, Eq, Structural)]
pub enum Channel {
    Notification,
    Meow,
    Mail,
}

#[derive(Debug, Clone)]
pub struct Receipt {
    pub channel: Channel,
    pub outcome: Outcome,
    /// Redacted failure reason; `None` on success.
    pub error: Option<String>,
}

impl Receipt {
    pub fn sent(channel: Channel) -> (res: Self)
        ensures
            res.channel == channel,
            res.outcome == Outcome::Sent,
            res.error is None,
    {
        Receipt { channel, outcome: Outcome::Sent, error: None }
    }

    pub fn failed(channel: Channel, error: &str) -> (res: Self)
        ensures
            res.channel == channel,
            res.outcome == Outcome::Failed,
            res.error matches Some(e) && e@ == error@,
    {
        Receipt { channel, outcome: Outcome::Failed, error: Some(String::from_str(error)) }
    }

    pub fn retryable(channel: Channel, error: &str) -> (res: Self)
        ensures
            res.channel == channel,
            res.outcome == Outcome::Retryable,
            res.error matches Some(e) && e@ == error@,
    {
        Receipt { channel, outcome: Outcome::Retryable, error: Some(String::from_str(error)) }
    }
}

pub open spec fn all_channels() -> Seq<Channel> {
    seq![Channel::Notification, Channel::Meow, Channel::Mail]
}

/// Stable identifier stored with each delivery row.
pub open spec fn channel_key_of(channel: Channel) -> Seq<char> {
    match channel {
        Channel::Notification => "notification"@,
        Channel::Meow => "meow"@,
        Channel::Mail => "mail"@,
    }
}

pub open spec fn channel_label_of(channel: Channel) -> Seq<char> {
    match channel {
        Channel::Notification => "系统通知"@,
        Channel::Meow => "MeoW 推送"@,
        Channel::Mail => "邮件"@,
    }
}

pub open spec fn channel_named(key: Seq<char>) -> Option<Channel> {
    if key == "notification"@ {
        Some(Channel::Notification)
    } else if key == "meow"@ {
        Some(Channel::Meow)
    } else if key == "mail"@ {
        Some(Channel::Mail)
    } else {
        None
    }
}

impl Channel {
    pub const ALL: [Channel; 3] = [Channel::Notification, Channel::Meow, Channel::Mail];

    pub fn key(self) -> (res: &'static str)
        ensures
            res@ == channel_key_of(self),
    {
        match self {
            Channel::Notification => "notification",
            Channel::Meow => "meow",
            Channel::Mail => "mail",
        }
    }

    pub fn label(self) -> (res: &'static str)
        ensures
            res@ == channel_label_of(self),
    {
        match self {
            Channel::Notification => "系统通知",
            Channel::Meow => "MeoW 推送",
            Channel::Mail => "邮件",
        }
    }

    pub fn from_key(key: &str) -> (res: Option<Channel>)
        ensures
            res == channel_named(key@),
    {
        if str_eq(key, "notification") {
            Some(Channel::Notification)
        } else if str_eq(key, "meow") {
            Some(Channel::Meow)
        } else if str_eq(key, "mail") {
            Some(Channel::Mail)
        } else {
            None
        }
    }
}

/// Each channel is found again by its key.
pub proof fn lemma_channel_keys_identify_channels(channel: Channel)
    ensures
        channel_named(channel_key_of(channel)) == Some(channel),
{
    reveal_strlit("notification");
    reveal_strlit("meow");
    reveal_strlit("mail");
    assert("notification"@.len() != "meow"@.len());
    assert("notification"@.len() != "mail"@.len());
    assert("meow"@[1] != "mail"@[1]);
}

#[derive(Debug, Clone, Copy, PartialEq, Eq, Structural)]
pub enum TlsMode {
    /// Port 465: TLS from the first byte.
    Implicit,
    /// Port 587: plain connection upgraded with STARTTLS.
    StartTls,
}

pub open spec fn tls_text_of(mode: TlsMode) -> Seq<char> {
    match mode {
        TlsMode::Implicit => "implicit"@,
        TlsMode::StartTls => "starttls"@,
    }
}

/// Reading of a TLS mode: trimmed and ASCII lower-cased, `implicit`, `tls` and
/// `smtps` mean implicit TLS and `starttls` means STARTTLS.
pub open spec fn tls_mode_named(value: Seq<char>) -> Option<TlsMode> {
    let t = lower(trim(value));
    if t == "implicit"@ || t == "tls"@ || t == "smtps"@ {
        Some(TlsMode::Implicit)
    } else if t == "starttls"@ {
        Some(TlsMode::StartTls)
    } else {
        None
    }
}

impl TlsMode {
    pub fn as_str(self) -> (res: &'static str)
        ensures
            res@ == tls_text_of(self),
    {
        match self {
            TlsMode::Implicit => "implicit",
            TlsMode::StartTls => "starttls",
        }
    }

    pub fn parse(value: &str) -> (res: Option<TlsMode>)
        ensures
            res == tls_mode_named(value@),
    {
        let t = lowered(trimmed(value).as_slice());
        if chars_eq(t.as_slice(), chars_of("implicit").as_slice()) || chars_eq(t.as_slice(), chars_of("tls").as_slice())
            || chars_eq(t.as_slice(), chars_of("smtps").as_slice()) {
            Some(TlsMode::Implicit)
        } else if chars_eq(t.as_slice(), chars_of("starttls").as_slice()) {
            Some(TlsMode::StartTls)
        } else {
            None
        }
    }
}

impl Default for TlsMode {
    fn default() -> (res: Self)
        ensures
            res == TlsMode::Implicit,
    {
        TlsMode::Implicit
    }
}

/// A mode's own text reads back as that mode.
pub proof fn lemma_tls_mode_round_trip(mode: TlsMode)
    ensures
        tls_mode_named(tls_text_of(mode)) == Some(mode),
{
    reveal_strlit("implicit");
    reveal_strlit("starttls");
    reveal_strlit("tls");
    reveal_strlit("smtps");
    let s = tls_text_of(mode);
    assert(trim(s) == s);
    assert(lower(s) =~= s);
    assert("implicit"@ != "starttls"@) by {
        assert("implicit"@[0] != "starttls"@[0]);
    }
    assert("starttls"@ != "tls"@ && "starttls"@ != "smtps"@) by {
        assert("starttls"@.len() != "tls"@.len());
        assert("starttls"@.len() != "smtps"@.len());
    }
}


/// A complete mail target, derived from `DeliveryConfig::mail_target`.
#[derive(Clone, PartialEq, Eq)]
pub struct MailTarget {
    pub host: String,
    pub port: u16,
    pub tls: TlsMode,
    pub user: String,
    pub auth_code: String,
    pub to: String,
}

/// Stored plain SMTP fields, kept even while the mail setup is incomplete.
#[derive(Debug, Clone, PartialEq, Eq)]
pub struct SmtpStored {
    pub host: String,
    pub port: u16,
    pub tls: TlsMode,
    pub user: String,
    pub to: String,
}

impl Default for SmtpStored {
    fn default() -> (res: Self)
        ensures
            res.host@.len() == 0,
            res.port == 465,
            res.tls == TlsMode::Implicit,
            res.user@.len() == 0,
            res.to@.len() == 0,
    {
        SmtpStored {
            host: String::new(),
            port: 465,
            tls: TlsMode::Implicit,
            user: String::new(),
            to: String::new(),
        }
    }
}

#[derive(Clone)]
pub struct DeliveryConfig {
    pub notification: bool,
    pub meow: bool,
    /// MeoW nickname, plain configuration like the SMTP host.
    pub meow_nickname: Option<String>,
    pub mail: bool,
    pub smtp: SmtpStored,
    /// Decrypted authorization code; `None` when absent or undecryptable.
    pub mail_auth_code: Option<String>,
    /// Keys of secrets stored but not decryptable on this machine.
    pub undecryptable: Vec<String>,
    /// Stored fields that could not be read, for display only.
    pub problems: Vec<String>,
}

impl Default for DeliveryConfig {
    fn default() -> (res: Self)
        ensures
            !res.notification && !res.meow && !res.mail,
            res.meow_nickname is None,
            res.mail_auth_code is None,
            res.smtp.host@.len() == 0 && res.smtp.user@.len() == 0 && res.smtp.to@.len() == 0,
            res.smtp.port == 465 && res.smtp.tls == TlsMode::Implicit,
            res.undecryptable@.len() == 0,
            res.problems@.len() == 0,
    {
        DeliveryConfig {
            notification: false,
            meow: false,
            meow_nickname: None,
            mail: false,
            smtp: SmtpStored::default(),
            mail_auth_code: None,
            undecryptable: Vec::new(),
            problems: Vec::new(),
        }
    }
}

#[derive(Debug, Clone, Copy, PartialEq, Eq, Structural)]
pub enum Availability {
    /// Switched off.
    Off,
    /// Switched on but missing or undecryptable credentials.
    Incomplete,
    Ready,
}

pub open spec fn switched_on_channel(config: DeliveryConfig, channel: Channel) -> bool {
    match channel {
        Channel::Notification => config.notification,
        Channel::Meow => config.meow,
        Channel::Mail => config.mail,
    }
}

/// The plain fields are all filled and the authorization code is usable.
pub open spec fn mail_complete(config: DeliveryConfig) -> bool {
    &&& config.mail_auth_code is Some
    &&& config.smtp.host@.len() > 0
    &&& config.smtp.user@.len() > 0
    &&& config.smtp.to@.len() > 0
    &&& config.smtp.port != 0
}

pub open spec fn availability_of(config: DeliveryConfig, channel: Channel) -> Availability {
    if !switched_on_channel(config, channel) {
        Availability::Off
    } else {
        match channel {
            Channel::Notification => Availability::Ready,
            Channel::Meow => if config.meow_nickname is Some { Availability::Ready } else { Availability::Incomplete },
            Channel::Mail => if mail_complete(config) { Availability::Ready } else { Availability::Incomplete },
        }
    }
}

/// The ready channels, in the order notification, MeoW, mail.
pub open spec fn usable_channels(config: DeliveryConfig) -> Seq<Channel> {
    let a = if availability_of(config, Channel::Notification) == Availability::Ready { seq![Channel::Notification] } else { Seq::empty() };
    let b = if availability_of(config, Channel::Meow) == Availability::Ready { seq![Channel::Meow] } else { Seq::empty() };
    let c = if availability_of(config, Channel::Mail) == Availability::Ready { seq![Channel::Mail] } else { Seq::empty() };
    a + b + c
}

/// The stored authorization code is marked undecryptable.
pub open spec fn auth_code_undecryptable(config: DeliveryConfig) -> bool {
    views(config.undecryptable@).contains("smtp_auth_code"@)
}

/// Why a switched-on channel cannot deliver; `None` when nothing needs saying.
pub open spec fn notice_of(config: DeliveryConfig, channel: Channel) -> Option<Seq<char>> {
    if availability_of(config, channel) != Availability::Incomplete {
        None
    } else {
        match channel {
            Channel::Meow => Some("尚未填写 MeoW 昵称"@),
            Channel::Mail => if auth_code_undecryptable(config) {
                Some("凭据无法解密（换过机器或 Windows 用户），请重新填写"@)
            } else {
                Some("邮件配置不完整（主机、账号、授权码、收件地址）"@)
            },
            Channel::Notification => None,
        }
    }
}

pub open spec fn availability_key_of(availability: Availability) -> Seq<char> {
    match availability {
        Availability::Off => "off"@,
        Availability::Incomplete => "incomplete"@,
        Availability::Ready => "ready"@,
    }
}

fn text_empty(s: &String) -> (res: bool)
    ensures
        res == (s@.len() == 0),
{
    s.as_str().is_empty()
}

fn list_contains(list: &Vec<String>, key: &str) -> (res: bool)
    ensures
        res == views(list@).contains(key@),
{
    let mut j: usize = 0;
    while j < list.len()
        invariant
            j <= list@.len(),
            forall|k: int| 0 <= k < j ==> list@[k]@ != key@,
        decreases list@.len() - j,
    {
        if str_eq(list[j].as_str(), key) {
            assert(views(list@)[j as int] == key@);
            return true;
        }
        j = j + 1;
    }
    assert(!views(list@).contains(key@)) by {
        if views(list@).contains(key@) {
            let k = choose|k: int| 0 <= k < views(list@).len() && views(list@)[k] == key@;
            assert(list@[k]@ == key@);
        }
    }
    false
}

impl DeliveryConfig {
    pub fn availability(&self, channel: Channel) -> (res: Availability)
        ensures
            res == availability_of(*self, channel),
    {
        let enabled = match channel {
            Channel::Notification => self.notification,
            Channel::Meow => self.meow,
            Channel::Mail => self.mail,
        };
        if !enabled {
            return Availability::Off;
        }
        match channel {
            Channel::Notification => Availability::Ready,
            Channel::Meow => match &self.meow_nickname {
                Some(_) => Availability::Ready,
                None => Availability::Incomplete,
            },
            Channel::Mail => match self.mail_target() {
                Some(_) => Availability::Ready,
                None => Availability::Incomplete,
            },
        }
    }

    /// The mail target, present exactly when the mail setup is complete.
    pub fn mail_target(&self) -> (res: Option<MailTarget>)
        ensures
            res is Some <==> mail_complete(*self),
            res matches Some(t) ==> {
                &&& t.host@ == self.smtp.host@
                &&& t.port == self.smtp.port
                &&& t.tls == self.smtp.tls
                &&& t.user@ == self.smtp.user@
                &&& t.auth_code@ == self.mail_auth_code->0@
                &&& t.to@ == self.smtp.to@
            },
    {
        let auth_code = match &self.mail_auth_code {
            Some(code) => code,
            None => return None,
        };
        let smtp = &self.smtp;
        if text_empty(&smtp.host) || text_empty(&smtp.user) || text_empty(&smtp.to) || smtp.port == 0 {
            return None;
        }
        Some(MailTarget {
            host: smtp.host.clone(),
            port: smtp.port,
            tls: smtp.tls,
            user: smtp.user.clone(),
            auth_code: auth_code.clone(),
            to: smtp.to.clone(),
        })
    }

    pub fn usable(&self) -> (res: Vec<Channel>)
        ensures
            res@ == usable_channels(*self),
    {
        let mut out: Vec<Channel> = Vec::new();
        if self.availability(Channel::Notification) == Availability::Ready {
            out.push(Channel::Notification);
        }
        if self.availability(Channel::Meow) == Availability::Ready {
            out.push(Channel::Meow);
        }
        if self.availability(Channel::Mail) == Availability::Ready {
            out.push(Channel::Mail);
        }
        assert(out@ =~= usable_channels(*self));
        out
    }

    pub fn notice(&self, channel: Channel) -> (res: Option<String>)
        ensures
            match notice_of(*self, channel) {
                Some(m) => res matches Some(t) && t@ == m,
                None => res is None,
            },
    {
        if self.availability(channel) != Availability::Incomplete {
            return None;
        }
        match channel {
            Channel::Meow => Some(String::from_str("尚未填写 MeoW 昵称")),
            Channel::Mail => if list_contains(&self.undecryptable, "smtp_auth_code") {
                Some(String::from_str("凭据无法解密（换过机器或 Windows 用户），请重新填写"))
            } else {
                Some(String::from_str("邮件配置不完整（主机、账号、授权码、收件地址）"))
            },
            Channel::Notification => None,
        }
    }

    /// An authorization code is on record: usable, or stored but undecryptable.
    pub fn auth_code_configured(&self) -> (res: bool)
        ensures
            res == (self.mail_auth_code is Some || auth_code_undecryptable(*self)),
    {
        self.mail_auth_code.is_some() || list_contains(&self.undecryptable, "smtp_auth_code")
    }
}

pub fn availability_key(availability: Availability) -> (res: &'static str)
    ensures
        res@ == availability_key_of(availability),
{
    match availability {
        Availability::Off => "off",
        Availability::Incomplete => "incomplete",
        Availability::Ready => "ready",
    }
}

/// Whether a rule has failed often enough today that it is not tried again.
pub fn retries_exhausted(failures_today: i64) -> (res: bool)
    ensures
        res == (failures_today >= MAX_FAILED_DELIVERIES_PER_RULE),
{
    failures_today >= MAX_FAILED_DELIVERIES_PER_RULE
}

/// The log row of one channel's attempt: the reason is kept only for a failure.
pub struct AttemptRow {
    pub channel: &'static str,
    pub ok: bool,
    pub error: Option<String>,
}

pub open spec fn row_of(row: AttemptRow, receipt: Receipt) -> bool {
    &&& row.channel@ == channel_key_of(receipt.channel)
    &&& row.ok == (receipt.outcome == Outcome::Sent)
    &&& crate::alert::opt_view(row.error) == if row.ok {
        None
    } else {
        crate::alert::opt_view(receipt.error)
    }
}

/// What one alert's delivery attempt records.
pub struct AttemptRecord {
    pub rows: Vec<AttemptRow>,
    /// Whether the attempt uses up one of the day's deliveries.
    pub consume: bool,
}

/// Records an attempt: one row per receipt, in order. The attempt uses up one of the
/// day's deliveries unless it is worth retrying: any success, or only permanent
/// failures, count as delivered (an attempt with no receipts too).
pub fn attempt_record(receipts: &[Receipt]) -> (res: AttemptRecord)
    ensures
        res.rows@.len() == receipts@.len(),
        forall|i: int| 0 <= i < receipts@.len() ==> row_of(#[trigger] res.rows@[i], receipts@[i]),
        res.consume == (summary_of(receipts@) != Outcome::Retryable),
{
    let mut rows: Vec<AttemptRow> = Vec::new();
    let mut i: usize = 0;
    while i < receipts.len()
        invariant
            i <= receipts@.len(),
            rows@.len() == i,
            forall|j: int| 0 <= j < i ==> row_of(#[trigger] rows@[j], receipts@[j]),
        decreases receipts@.len() - i,
    {
        let receipt = &receipts[i];
        let ok = receipt.outcome.is_success();
        let error = if ok {
            None
        } else {
            match &receipt.error {
                Some(e) => Some(e.clone()),
                None => None,
            }
        };
        rows.push(AttemptRow { channel: receipt.channel.key(), ok, error });
        i = i + 1;
    }
    let consume = summarize(receipts) != Outcome::Retryable;
    AttemptRecord { rows, consume }
}

pub open spec fn test_body_of(channel: Channel) -> Seq<char> {
    "这是一条来自 AMAX Dashboard 的测试消息（"@ + channel_label_of(channel) + "渠道），用于确认凭据与网络可用。"@
}

/// The channel and message body of a test delivery, which a channel gets only when it
/// is switched on and complete; otherwise its notice (or a general one) is the error.
pub fn test_delivery(channel_key: &str, config: &DeliveryConfig) -> (res: Result<(Channel, String), AppError>)
    ensures
        match channel_named(channel_key@) {
            None => res matches Err(e) && e.code == ErrorCode::Input
                && e.message@ == "未知渠道，只能是 notification / meow / mail"@,
            Some(channel) => if availability_of(*config, channel) == Availability::Ready {
                res matches Ok((c, body)) && c == channel && body@ == test_body_of(channel)
            } else {
                res matches Err(e) && e.code == ErrorCode::Input && e.message@ == match notice_of(*config, channel) {
                    Some(m) => m,
                    None => "该渠道未开启或配置不完整"@,
                }
            },
        },
{
    let channel = match Channel::from_key(channel_key) {
        Some(channel) => channel,
        None => return Err(AppError::input("未知渠道，只能是 notification / meow / mail")),
    };
    if config.availability(channel) != Availability::Ready {
        return match config.notice(channel) {
            Some(text) => Err(AppError::input(text.as_str())),
            None => Err(AppError::input("该渠道未开启或配置不完整")),
        };
    }
    let mut body = String::from_str("这是一条来自 AMAX Dashboard 的测试消息（");
    body.append(channel.label());
    body.append("渠道），用于确认凭据与网络可用。");
    Ok((channel, body))
}

/// A row of the delivery log.
#[derive(Debug, Clone)]
pub struct DeliveryLog {
    pub rule: String,
    pub channel: String,
    pub ok: bool,
    pub error: Option<String>,
    pub at: String,
}

/// Overall outcome over channels: sent if any channel sent, else retryable if any
/// channel may be retried, else failed.
pub open spec fn summary_of(receipts: Seq<Receipt>) -> Outcome {
    if exists|i: int| 0 <= i < receipts.len() && (#[trigger] receipts[i]).outcome == Outcome::Sent {
        Outcome::Sent
    } else if exists|i: int| 0 <= i < receipts.len() && (#[trigger] receipts[i]).outcome == Outcome::Retryable {
        Outcome::Retryable
    } else {
        Outcome::Failed
    }
}

/// The overall outcome depends only on which outcomes occur, never on their order: one
/// channel that sent makes the alert sent (so it uses up one of the day's deliveries);
/// it is worth retrying exactly when nothing sent and some channel may be retried; and
/// it failed exactly when every channel failed for good.
pub proof fn lemma_summary_by_outcomes(receipts: Seq<Receipt>)
    ensures
        (exists|i: int| 0 <= i < receipts.len() && (#[trigger] receipts[i]).outcome == Outcome::Sent)
            ==> summary_of(receipts) == Outcome::Sent,
        (summary_of(receipts) == Outcome::Retryable) <==> ((forall|i: int|
            0 <= i < receipts.len() ==> (#[trigger] receipts[i]).outcome != Outcome::Sent) && exists|i: int|
            0 <= i < receipts.len() && (#[trigger] receipts[i]).outcome == Outcome::Retryable),
        (summary_of(receipts) == Outcome::Failed) <==> forall|i: int|
            0 <= i < receipts.len() ==> (#[trigger] receipts[i]).outcome == Outcome::Failed,
{
}

/// Some receipt has outcome `o`.
pub open spec fn outcome_occurs(receipts: Seq<Receipt>, o: Outcome) -> bool {
    exists|i: int| 0 <= i < receipts.len() && (#[trigger] receipts[i]).outcome == o
}

/// Reordering the receipts (any permutation, as a one-to-one index map) does not change
/// the overall outcome.
pub proof fn lemma_summary_ignores_order(receipts: Seq<Receipt>, shuffled: Seq<Receipt>, to: spec_fn(int) -> int)
    requires
        shuffled.len() == receipts.len(),
        forall|i: int| 0 <= i < receipts.len() ==> 0 <= #[trigger] to(i) < receipts.len(),
        forall|i: int| 0 <= i < receipts.len() ==> shuffled[#[trigger] to(i)] == receipts[i],
        forall|i: int, j: int| 0 <= i < j < receipts.len() ==> #[trigger] to(i) != #[trigger] to(j),
    ensures
        summary_of(shuffled) == summary_of(receipts),
{
    lemma_summary_by_outcomes(receipts);
    lemma_summary_by_outcomes(shuffled);
    assert forall|o: Outcome| #[trigger] outcome_occurs(receipts, o) == outcome_occurs(shuffled, o) by {
        if outcome_occurs(receipts, o) {
            let i = choose|i: int| 0 <= i < receipts.len() && (#[trigger] receipts[i]).outcome == o;
            assert(shuffled[to(i)] == receipts[i]);
        }
        if outcome_occurs(shuffled, o) {
            let j = choose|j: int| 0 <= j < shuffled.len() && (#[trigger] shuffled[j]).outcome == o;
            lemma_injection_onto(to, receipts.len() as int, j);
            let i = choose|i: int| 0 <= i < receipts.len() && #[trigger] to(i) == j;
            assert(receipts[i] == shuffled[to(i)]);
        }
    }
    assert(outcome_occurs(receipts, Outcome::Sent) == outcome_occurs(shuffled, Outcome::Sent));
    assert(outcome_occurs(receipts, Outcome::Retryable) == outcome_occurs(shuffled, Outcome::Retryable));
}

/// A one-to-one map from `0..n` into `0..n` reaches every index of `0..n`.
pub proof fn lemma_injection_onto(to: spec_fn(int) -> int, n: int, j: int)
    requires
        0 <= j < n,
        forall|i: int| 0 <= i < n ==> 0 <= #[trigger] to(i) < n,
        forall|i: int, k: int| 0 <= i < k < n ==> #[trigger] to(i) != #[trigger] to(k),
    ensures
        exists|i: int| 0 <= i < n && #[trigger] to(i) == j,
    decreases n,
{
    if !(exists|i: int| 0 <= i < n && #[trigger] to(i) == j) {
        // Without `j`, `to` maps `0..n` one-to-one into the `n - 1` other indices.
        let squeezed = |i: int| if to(i) > j { to(i) - 1 } else { to(i) };
        if n > 1 {
            let last = squeezed(n - 1);
            assert forall|i: int| 0 <= i < n - 1 implies 0 <= #[trigger] squeezed(i) < n - 1 by {
                assert(to(i) != j);
            }
            assert forall|i: int, k: int| 0 <= i < k < n - 1 implies #[trigger] squeezed(i) != #[trigger] squeezed(k) by {
                assert(to(i) != to(k));
                assert(to(i) != j && to(k) != j);
            }
            assert(0 <= last < n - 1) by {
                assert(to(n - 1) != j);
            }
            lemma_injection_onto(squeezed, n - 1, last);
            let i = choose|i: int| 0 <= i < n - 1 && #[trigger] squeezed(i) == last;
            assert(to(i) != to(n - 1));
            assert(to(i) != j && to(n - 1) != j);
        } else {
            assert(to(0) != j);
        }
    }
}

pub fn summarize(receipts: &[Receipt]) -> (res: Outcome)
    ensures
        res == summary_of(receipts@),
{
    let mut any_retryable = false;
    let mut i: usize = 0;
    while i < receipts.len()
        invariant
            i <= receipts@.len(),
            forall|j: int| 0 <= j < i ==> (#[trigger] receipts@[j]).outcome != Outcome::Sent,
            any_retryable == exists|j: int| 0 <= j < i && (#[trigger] receipts@[j]).outcome == Outcome::Retryable,
        decreases receipts@.len() - i,
    {
        if receipts[i].outcome.is_success() {
            return Outcome::Sent;
        }
        if receipts[i].outcome == Outcome::Retryable {
            any_retryable = true;
        }
        i = i + 1;
    }
    if any_retryable {
        Outcome::Retryable
    } else {
        Outcome::Failed
    }
}


/// Channel settings as submitted. Switches, the MeoW nickname and the plain SMTP
/// fields overwrite what is stored; the authorization code is kept when `None` and
/// deleted when empty.
#[derive(Debug, Clone)]
pub struct ChannelInput {
    pub notification: bool,
    pub meow: bool,
    pub mail: bool,
    pub meow_nickname: String,
    pub smtp: Option<SmtpInput>,
}

#[derive(Debug, Clone)]
pub struct SmtpInput {
    pub host: String,
    pub port: u16,
    pub tls: String,
    pub user: String,
    pub auth_code: Option<String>,
    pub to: String,
}

/// The verdict of `lettre::Address`'s parser on a text.
pub uninterp spec fn is_email_address(text: Seq<char>) -> bool;

/// `<lettre::Address as FromStr>::from_str`, reduced to whether it accepts `text`.
/// The contract claims the verdict depends on the text alone, and that a text
/// without `@` is refused (the parser splits at the last `@` and reports a missing
/// part). What else it accepts is not stated here.
#[verifier::external_body]
fn email_address_accepted(text: &str) -> (ok: bool)
    ensures
        ok == is_email_address(text@),
        !text@.contains('@') ==> !ok,
{
    text.parse::<lettre::Address>().is_ok()
}

pub open spec fn any_ws(s: Seq<char>) -> bool {
    exists|i: int| 0 <= i < s.len() && is_ws(#[trigger] s[i])
}

pub open spec fn any_ctrl(s: Seq<char>) -> bool {
    exists|i: int| 0 <= i < s.len() && is_ctrl(#[trigger] s[i])
}

fn has_whitespace(s: &[char]) -> (res: bool)
    ensures
        res == any_ws(s@),
{
    let mut i: usize = 0;
    while i < s.len()
        invariant
            i <= s@.len(),
            forall|j: int| 0 <= j < i ==> !is_ws(#[trigger] s@[j]),
        decreases s@.len() - i,
    {
        if is_whitespace(s[i]) {
            return true;
        }
        i = i + 1;
    }
    false
}

fn has_control(s: &[char]) -> (res: bool)
    ensures
        res == any_ctrl(s@),
{
    let mut i: usize = 0;
    while i < s.len()
        invariant
            i <= s@.len(),
            forall|j: int| 0 <= j < i ==> !is_ctrl(#[trigger] s@[j]),
        decreases s@.len() - i,
    {
        if is_control(s[i]) {
            return true;
        }
        i = i + 1;
    }
    false
}

pub open spec fn address_problem(value: Seq<char>, label: Seq<char>) -> Option<Seq<char>> {
    if is_email_address(trim(value)) {
        None
    } else {
        Some(label + "不是合法邮箱地址"@)
    }
}

/// The first problem of a submitted SMTP setup, checked in the order host, port,
/// TLS mode, sender, recipient.
pub open spec fn smtp_problem(smtp: SmtpInput) -> Option<Seq<char>> {
    let host = trim(smtp.host@);
    if host.len() == 0 {
        Some("SMTP 主机不能为空"@)
    } else if any_ws(host) {
        Some("SMTP 主机不能含空格"@)
    } else if smtp.port == 0 {
        Some("SMTP 端口非法"@)
    } else if tls_mode_named(smtp.tls@) is None {
        Some("SMTP 加密方式只能是 implicit(465) 或 starttls(587)"@)
    } else if address_problem(smtp.user@, "发件账号"@) is Some {
        address_problem(smtp.user@, "发件账号"@)
    } else {
        address_problem(smtp.to@, "收件地址"@)
    }
}

/// An authorization code can be used: a non-blank one is submitted, or one is
/// stored for the same (trimmed) host. A code issued for another host does not count.
pub open spec fn auth_code_usable(smtp: SmtpInput, existing: DeliveryConfig) -> bool {
    ||| (smtp.auth_code matches Some(code) && trim(code@).len() > 0)
    ||| (existing.mail_auth_code is Some && trim(existing.smtp.host@) == trim(smtp.host@))
}

pub open spec fn nickname_problem(input: ChannelInput) -> Option<Seq<char>> {
    let nickname = trim(input.meow_nickname@);
    if !input.meow {
        None
    } else if nickname.len() == 0 {
        Some("开启 MeoW 推送需要先填写昵称"@)
    } else if nickname.len() > 100 {
        Some("MeoW 昵称过长"@)
    } else if any_ctrl(nickname) {
        Some("MeoW 昵称含控制字符"@)
    } else {
        None
    }
}

/// The first problem of submitted channel settings; `None` when they are acceptable.
/// The SMTP format is checked even while mail is switched off.
pub open spec fn channel_input_problem(input: ChannelInput, existing: DeliveryConfig) -> Option<Seq<char>> {
    if nickname_problem(input) is Some {
        nickname_problem(input)
    } else {
        match input.smtp {
            Some(smtp) => if smtp_problem(smtp) is Some {
                smtp_problem(smtp)
            } else if input.mail && !auth_code_usable(smtp, existing) {
                Some("开启邮件通知需要先填写授权码"@)
            } else {
                None
            },
            None => if input.mail {
                Some("开启邮件通知需要提交 SMTP 配置"@)
            } else {
                None
            },
        }
    }
}

/// Accepted settings carry SMTP addresses that the address parser accepts, the sender's
/// and the recipient's alike (after trimming); and an SMTP setup that is otherwise in
/// order but names a recipient the parser refuses is refused with the recipient's
/// message (a refused sender likewise, with the sender's).
pub proof fn lemma_accepted_mail_addresses_parse(input: ChannelInput, existing: DeliveryConfig)
    ensures
        channel_input_problem(input, existing) is None && input.smtp is Some ==> {
            &&& is_email_address(trim(input.smtp->0.user@))
            &&& is_email_address(trim(input.smtp->0.to@))
        },
        input.smtp matches Some(smtp) && !is_email_address(trim(smtp.to@))
            ==> channel_input_problem(input, existing) is Some,
        input.smtp matches Some(smtp) && !is_email_address(trim(smtp.user@))
            ==> channel_input_problem(input, existing) is Some,
        forall|smtp: SmtpInput|
            #![trigger smtp_problem(smtp)]
            {
                &&& trim(smtp.host@).len() > 0
                &&& !any_ws(trim(smtp.host@))
                &&& smtp.port != 0
                &&& tls_mode_named(smtp.tls@) is Some
            } ==> smtp_problem(smtp) == if !is_email_address(trim(smtp.user@)) {
                Some("发件账号"@ + "不是合法邮箱地址"@)
            } else if !is_email_address(trim(smtp.to@)) {
                Some("收件地址"@ + "不是合法邮箱地址"@)
            } else {
                None::<Seq<char>>
            },
{
}

fn validate_address(value: &str, label: &str) -> (res: Result<(), AppError>)
    ensures
        match address_problem(value@, label@) {
            None => res is Ok,
            Some(m) => res matches Err(e) && e.code == ErrorCode::Input && e.message@ == m,
        },
{
    let trimmed_value = string_of(trimmed(value).as_slice());
    if email_address_accepted(trimmed_value.as_str()) {
        Ok(())
    } else {
        let mut message = String::from_str(label);
        message.append("不是合法邮箱地址");
        Err(AppError::input(message.as_str()))
    }
}

fn validate_smtp(smtp: &SmtpInput) -> (res: Result<(), AppError>)
    ensures
        match smtp_problem(*smtp) {
            None => res is Ok,
            Some(m) => res matches Err(e) && e.code == ErrorCode::Input && e.message@ == m,
        },
{
    let host = trimmed(smtp.host.as_str());
    if host.len() == 0 {
        return Err(AppError::input("SMTP 主机不能为空"));
    }
    if has_whitespace(host.as_slice()) {
        return Err(AppError::input("SMTP 主机不能含空格"));
    }
    if smtp.port == 0 {
        return Err(AppError::input("SMTP 端口非法"));
    }
    if TlsMode::parse(smtp.tls.as_str()).is_none() {
        return Err(AppError::input("SMTP 加密方式只能是 implicit(465) 或 starttls(587)"));
    }
    match validate_address(smtp.user.as_str(), "发件账号") {
        Err(e) => return Err(e),
        Ok(()) => {},
    }
    validate_address(smtp.to.as_str(), "收件地址")
}

fn auth_code_available(smtp: &SmtpInput, existing: &DeliveryConfig) -> (res: bool)
    ensures
        res == auth_code_usable(*smtp, *existing),
{
    match &smtp.auth_code {
        Some(code) => {
            if trimmed(code.as_str()).len() > 0 {
                return true;
            }
        },
        None => {},
    }
    existing.mail_auth_code.is_some() && chars_eq(
        trimmed(existing.smtp.host.as_str()).as_slice(),
        trimmed(smtp.host.as_str()).as_slice(),
    )
}

impl ChannelInput {
    /// Checks submitted settings against the stored ones (`existing` supplies the
    /// authorization code that the form never echoes back).
    pub fn validate(&self, existing: &DeliveryConfig) -> (res: Result<(), AppError>)
        ensures
            match channel_input_problem(*self, *existing) {
                None => res is Ok,
                Some(m) => res matches Err(e) && e.code == ErrorCode::Input && e.message@ == m,
            },
    {
        if self.meow {
            let nickname = trimmed(self.meow_nickname.as_str());
            if nickname.len() == 0 {
                return Err(AppError::input("开启 MeoW 推送需要先填写昵称"));
            }
            if nickname.len() > 100 {
                return Err(AppError::input("MeoW 昵称过长"));
            }
            if has_control(nickname.as_slice()) {
                return Err(AppError::input("MeoW 昵称含控制字符"));
            }
        }
        match &self.smtp {
            Some(smtp) => {
                match validate_smtp(smtp) {
                    Err(e) => return Err(e),
                    Ok(()) => {},
                }
                if self.mail && !auth_code_available(smtp, existing) {
                    return Err(AppError::input("开启邮件通知需要先填写授权码"));
                }
            },
            None => {
                if self.mail {
                    return Err(AppError::input("开启邮件通知需要提交 SMTP 配置"));
                }
            },
        }
        Ok(())
    }
}


pub open spec fn mask() -> Seq<char> {
    seq!['*', '*', '*']
}

/// `text` with each non-empty secret, in turn, replaced by `***` wherever it occurs.
pub open spec fn redacted(text: Seq<char>, secrets: Seq<Seq<char>>) -> Seq<char>
    decreases secrets.len(),
{
    if secrets.len() == 0 {
        text
    } else {
        let before = redacted(text, secrets.drop_last());
        if secrets.last().len() == 0 {
            before
        } else {
            replace_all(before, secrets.last(), mask())
        }
    }
}

/// Replaces every occurrence of each non-empty credential by `***`. Applied before
/// an error text is shown, logged or stored.
pub fn redact(text: &str, secrets: &[&str]) -> (res: String)
    ensures
        res@ == redacted(text@, secrets@.map_values(|s: &str| s@)),
{
    let ghost ss = secrets@.map_values(|s: &str| s@);
    let stars: Vec<char> = vec!['*', '*', '*'];
    assert(stars@ =~= mask());
    let mut current = chars_of(text);
    let mut i: usize = 0;
    while i < secrets.len()
        invariant
            i <= secrets@.len(),
            ss == secrets@.map_values(|s: &str| s@),
            stars@ == mask(),
            current@ == redacted(text@, ss.take(i as int)),
        decreases secrets@.len() - i,
    {
        assert(ss.take(i + 1).drop_last() =~= ss.take(i as int));
        assert(ss.take(i + 1).last() == secrets@[i as int]@);
        let secret = chars_of(secrets[i]);
        if secret.len() > 0 {
            current = replace_chars(current.as_slice(), secret.as_slice(), stars.as_slice());
        }
        i = i + 1;
    }
    assert(ss.take(secrets@.len() as int) =~= ss);
    string_of(current.as_slice())
}

/// No non-empty secret free of `*` survives redaction anywhere in the text.
pub proof fn lemma_redaction_hides_secrets(text: Seq<char>, secrets: Seq<Seq<char>>, k: int)
    requires
        0 <= k < secrets.len(),
        secrets[k].len() > 0,
        !secrets[k].contains('*'),
    ensures
        !occurs(redacted(text, secrets), secrets[k]),
    decreases secrets.len(),
{
    let q = secrets[k];
    let last = secrets.last();
    let before = redacted(text, secrets.drop_last());
    assert(all_stars(mask()));
    if k == secrets.len() - 1 {
        lemma_replace_removes_pattern(before, q, mask());
    } else {
        assert(secrets.drop_last()[k] == q);
        lemma_redaction_hides_secrets(text, secrets.drop_last(), k);
        if last.len() > 0 && occurs(replace_all(before, last, mask()), q) {
            lemma_replace_adds_no_occurrence(before, last, mask(), q);
        }
    }
}

/// Failure receipt for a mail setup that could not be built; the text is redacted.
pub fn setup_failure(target: &MailTarget, text: &str) -> (res: Receipt)
    ensures
        res.channel == Channel::Mail,
        res.outcome == Outcome::Failed,
        res.error matches Some(e) && e@ == redacted("邮件配置不可用: "@ + text@, seq![target.auth_code@]),
{
    let mut detail = String::from_str("邮件配置不可用: ");
    detail.append(text);
    let secrets: Vec<&str> = vec![target.auth_code.as_str()];
    assert(secrets@.map_values(|s: &str| s@) =~= seq![target.auth_code@]);
    let redacted_detail = redact(detail.as_str(), secrets.as_slice());
    Receipt::failed(Channel::Mail, redacted_detail.as_str())
}

/// Receipt for a mail the server refused: retryable when the error is transient or a
/// timeout, failed otherwise; the error text is redacted.
pub fn mail_failure(transient: bool, timeout: bool, error_text: &str, auth_code: &str) -> (res: Receipt)
    ensures
        res.channel == Channel::Mail,
        res.outcome == if transient || timeout { Outcome::Retryable } else { Outcome::Failed },
        res.error matches Some(e) && e@ == redacted("邮件发送失败: "@ + error_text@, seq![auth_code@]),
{
    let mut detail = String::from_str("邮件发送失败: ");
    detail.append(error_text);
    let secrets: Vec<&str> = vec![auth_code];
    assert(secrets@.map_values(|s: &str| s@) =~= seq![auth_code@]);
    let redacted_detail = redact(detail.as_str(), secrets.as_slice());
    if transient || timeout {
        Receipt::retryable(Channel::Mail, redacted_detail.as_str())
    } else {
        Receipt::failed(Channel::Mail, redacted_detail.as_str())
    }
}

/// Receipt of a system notification: sent, or failed for good with the reported error.
pub fn notification_receipt(error: Option<&str>) -> (res: Receipt)
    ensures
        res.channel == Channel::Notification,
        match error {
            None => res.outcome == Outcome::Sent && res.error is None,
            Some(t) => res.outcome == Outcome::Failed && (res.error matches Some(e) && e@ == "系统通知发送失败: "@ + t@),
        },
{
    match error {
        None => Receipt::sent(Channel::Notification),
        Some(text) => {
            let mut detail = String::from_str("系统通知发送失败: ");
            detail.append(text);
            Receipt::failed(Channel::Notification, detail.as_str())
        },
    }
}

/// What `serde_json` reads from a MeoW reply body: `None` when the body is not JSON;
/// otherwise the `status` member as an `i64` and the `data` member as a `bool`, each
/// `None` when missing or of another type.
pub uninterp spec fn meow_reply_fields(body: Seq<char>) -> Option<(Option<i64>, Option<bool>)>;

/// `serde_json::from_str::<serde_json::Value>`, with the two members MeoW replies carry
/// picked out (`Value::get` then `as_i64` / `as_bool`). The result is named, as a
/// function of the body alone.
#[verifier::external_body]
fn read_meow_reply(body: &str) -> (res: Option<(Option<i64>, Option<bool>)>)
    ensures
        res == meow_reply_fields(body@),
{
    serde_json::from_str::<serde_json::Value>(body).ok().map(
        |value| (value.get("status").and_then(serde_json::Value::as_i64), value.get("data").and_then(serde_json::Value::as_bool)),
    )
}

/// Classification of a MeoW reply: 429 and 5xx may be retried; other non-2xx fail;
/// a 2xx body that is not JSON counts as sent; a JSON body is accepted when its
/// `status` is 200 or its `data` is `true`.
pub open spec fn meow_outcome(status: u16, reply: Option<(Option<i64>, Option<bool>)>) -> Outcome {
    if status == 429 || status >= 500 {
        Outcome::Retryable
    } else if !(200 <= status < 300) {
        Outcome::Failed
    } else {
        match reply {
            None => Outcome::Sent,
            Some((code, data)) => if code == Some(200i64) || data == Some(true) { Outcome::Sent } else { Outcome::Failed },
        }
    }
}

/// Classifies a MeoW reply whose body has already been read as JSON fields.
pub fn classify_meow_reply(status: u16, reply: Option<(Option<i64>, Option<bool>)>) -> (res: Outcome)
    ensures
        res == meow_outcome(status, reply),
{
    if status == 429 || status >= 500 {
        return Outcome::Retryable;
    }
    if !(200 <= status && status < 300) {
        return Outcome::Failed;
    }
    match reply {
        None => Outcome::Sent,
        Some((code, data)) => {
            let accepted = match code {
                Some(c) => c == 200,
                None => false,
            } || match data {
                Some(d) => d,
                None => false,
            };
            if accepted {
                Outcome::Sent
            } else {
                Outcome::Failed
            }
        },
    }
}

/// Classifies a MeoW reply from its HTTP status and body.
pub fn classify_meow(status: u16, body: &str) -> (res: Outcome)
    ensures
        res == meow_outcome(status, meow_reply_fields(body@)),
{
    if status == 429 || status >= 500 || !(200 <= status && status < 300) {
        return classify_meow_reply(status, None);
    }
    classify_meow_reply(status, read_meow_reply(body))
}

/// At most the first 200 characters of `text`.
pub open spec fn brief(text: Seq<char>) -> Seq<char> {
    if text.len() <= 200 { text } else { text.take(200) }
}

/// Receipt of a MeoW request that got a reply: sent when classified as sent;
/// otherwise the status and the start of the body, retryable or failed as classified.
pub fn meow_receipt(status: u16, body: &str) -> (res: Receipt)
    ensures
        res.channel == Channel::Meow,
        res.outcome == meow_outcome(status, meow_reply_fields(body@)),
        res.outcome == Outcome::Sent ==> res.error is None,
        res.outcome != Outcome::Sent ==> (res.error matches Some(e)
            && e@ == "MeoW 响应 "@ + decimal(status as nat) + ": "@ + brief(body@)),
{
    let outcome = classify_meow(status, body);
    if outcome.is_success() {
        return Receipt::sent(Channel::Meow);
    }
    let chars = chars_of(body);
    let n = if chars.len() <= 200 { chars.len() } else { 200 };
    let mut detail = String::from_str("MeoW 响应 ");
    push_decimal(&mut detail, status as u64);
    detail.append(": ");
    let ghost head = detail@;
    let mut i: usize = 0;
    while i < n
        invariant
            n <= chars@.len(),
            n == if chars@.len() <= 200 { chars@.len() } else { 200 },
            i <= n,
            detail@ == head + chars@.take(i as int),
        decreases n - i,
    {
        push_char(&mut detail, chars[i]);
        i = i + 1;
        assert(detail@ =~= head + chars@.take(i as int));
    }
    assert(chars@.take(n as int) =~= brief(body@));
    if outcome == Outcome::Retryable {
        Receipt::retryable(Channel::Meow, detail.as_str())
    } else {
        Receipt::failed(Channel::Meow, detail.as_str())
    }
}

/// What `url::Url::parse` makes of `text`: the URL's serialization (`Url::as_str`), or
/// the display text of the parse error.
pub uninterp spec fn parsed_url(text: Seq<char>) -> Result<Seq<char>, Seq<char>>;

/// What `url::Url::path_segments_mut` with two `push`es makes of the URL serialized as
/// `text`: the new serialization, `None` when the URL cannot take path segments, or
/// the display text of the error of reading `text` as a URL.
pub uninterp spec fn url_with_segments(text: Seq<char>, first: Seq<char>, second: Seq<char>) -> Result<
    Option<Seq<char>>,
    Seq<char>,
>;

/// What `url::Url::query_pairs_mut` with one `append_pair` makes of the URL serialized
/// as `text`: the new serialization, or the display text of the error of reading
/// `text` as a URL.
pub uninterp spec fn url_with_query_pair(text: Seq<char>, key: Seq<char>, value: Seq<char>) -> Result<
    Seq<char>,
    Seq<char>,
>;

/// `url::Url::parse`, the URL given by its serialization and a parse error by its
/// display text. The result is named, as a function of the text alone.
#[verifier::external_body]
fn parse_url(text: &str) -> (res: Result<String, String>)
    ensures
        match res {
            Ok(url) => parsed_url(text@) == Ok::<Seq<char>, Seq<char>>(url@),
            Err(error) => parsed_url(text@) == Err::<Seq<char>, Seq<char>>(error@),
        },
{
    url::Url::parse(text).map(|url| url.as_str().to_string()).map_err(|error| error.to_string())
}

/// `url::Url::path_segments_mut` on the URL serialized as `url_text`, pushing two
/// segments (which `url` percent-encodes). The result is named, as a function of the
/// three texts alone.
#[verifier::external_body]
fn push_path_segments(url_text: &str, first: &str, second: &str) -> (res: Result<Option<String>, String>)
    ensures
        match res {
            Ok(Some(url)) => url_with_segments(url_text@, first@, second@) == Ok::<Option<Seq<char>>, Seq<char>>(
                Some(url@),
            ),
            Ok(None) => url_with_segments(url_text@, first@, second@) == Ok::<Option<Seq<char>>, Seq<char>>(None),
            Err(error) => url_with_segments(url_text@, first@, second@) == Err::<Option<Seq<char>>, Seq<char>>(
                error@,
            ),
        },
{
    let mut url = url::Url::parse(url_text).map_err(|error| error.to_string())?;
    match url.path_segments_mut() {
        Ok(mut segments) => {
            segments.push(first).push(second);
        },
        Err(()) => return Ok(None),
    }
    Ok(Some(url.as_str().to_string()))
}

/// `url::Url::query_pairs_mut` with one `append_pair` on the URL serialized as
/// `url_text`. The result is named, as a function of the three texts alone.
#[verifier::external_body]
fn append_query_pair(url_text: &str, key: &str, value: &str) -> (res: Result<String, String>)
    ensures
        match res {
            Ok(url) => url_with_query_pair(url_text@, key@, value@) == Ok::<Seq<char>, Seq<char>>(url@),
            Err(error) => url_with_query_pair(url_text@, key@, value@) == Err::<Seq<char>, Seq<char>>(error@),
        },
{
    let mut url = url::Url::parse(url_text).map_err(|error| error.to_string())?;
    url.query_pairs_mut().append_pair(key, value);
    Ok(url.as_str().to_string())
}

pub open spec fn base_problem(detail: Seq<char>) -> Seq<char> {
    "MeoW 基址配置异常: "@ + detail
}

/// The MeoW endpoint for `nickname` and `title`, or the error text: the base address
/// read as a URL, both texts pushed as path segments, then the query `msgType=markdown`.
pub open spec fn meow_url_of(nickname: Seq<char>, title: Seq<char>) -> Result<Seq<char>, Seq<char>> {
    match parsed_url(MEOW_BASE_URL@) {
        Err(detail) => Err(base_problem(detail)),
        Ok(base) => match url_with_segments(base, nickname, title) {
            Err(detail) => Err(base_problem(detail)),
            Ok(None) => Err("MeoW 基址无法拼接路径"@),
            Ok(Some(path)) => match url_with_query_pair(path, "msgType"@, "markdown"@) {
                Err(detail) => Err(base_problem(detail)),
                Ok(url) => Ok(url),
            },
        },
    }
}

fn base_error(detail: &String) -> (res: AppError)
    ensures
        res.code == ErrorCode::Storage,
        res.message@ == base_problem(detail@),
{
    let mut message = String::from_str("MeoW 基址配置异常: ");
    message.append(detail.as_str());
    AppError::storage(message.as_str())
}

/// MeoW endpoint for `nickname` and `title`: both become percent-encoded path
/// segments of the base address, with the query `msgType=markdown`; the URL is given
/// by its serialization. A failure is a `Storage` error.
pub fn meow_endpoint(nickname: &str, title: &str) -> (res: Result<String, AppError>)
    ensures
        match meow_url_of(nickname@, title@) {
            Ok(url) => res matches Ok(text) && text@ == url,
            Err(message) => res matches Err(e) && e.code == ErrorCode::Storage && e.message@ == message,
        },
{
    let base = match parse_url(MEOW_BASE_URL) {
        Ok(url) => url,
        Err(detail) => return Err(base_error(&detail)),
    };
    let path = match push_path_segments(base.as_str(), nickname, title) {
        Ok(Some(url)) => url,
        Ok(None) => return Err(AppError::storage("MeoW 基址无法拼接路径")),
        Err(detail) => return Err(base_error(&detail)),
    };
    match append_query_pair(path.as_str(), "msgType", "markdown") {
        Ok(url) => Ok(url),
        Err(detail) => Err(base_error(&detail)),
    }
}

} // verus!
