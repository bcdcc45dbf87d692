//! Stored settings: how credentials and channel settings are kept as text values
//! and how they read back.
//!
//! A credential is stored as `dpapi:v1:` followed by the protected bytes in hex; a
//! value without that prefix is a plain value kept from before encryption was used.
//! A stored value that cannot be opened on this machine must not look the same as
//! one that was never set: the user has to be told to enter it again.
//!
//! The protection itself is the operating system's service and bound to the user and
//! machine; its outcomes come in as arguments (`protected_part` names what it has to
//! open, `auth_code_to_protect` what it has to protect), and everything around them
//! is decided here.

use vstd::prelude::*;
use vstd::string::*;
use crate::deliver::{ChannelInput, DeliveryConfig, SmtpInput, SmtpStored, TlsMode, tls_mode_named};
use crate::error::{AppError, ErrorCode};
use crate::text::{
    chars_eq, chars_of, decimal, matches_at, push_decimal, slice_chars, string_of, starts_with, trim,
    trimmed, views,
};

verus! {

/// Marks a stored value as protected.
pub const ENCRYPTED_PREFIX: &'static str = "dpapi:v1:";

pub open spec fn encrypted_prefix() -> Seq<char> {
    "dpapi:v1:"@
}

/// What a stored credential reads as.
#[derive(Debug, Clone)]
pub enum Secret {
    /// Never set, or set to the empty text.
    Absent,
    Value(String),
    /// Stored, but not readable on this machine (another user or another machine).
    Undecryptable,
}

impl View for Secret {
    /// `Ok(None)` absent, `Ok(Some(text))` a value, `Err(())` not readable here.
    type V = Result<Option<Seq<char>>, ()>;

    open spec fn view(&self) -> Result<Option<Seq<char>>, ()> {
        match self {
            Secret::Absent => Ok(None),
            Secret::Value(text) => Ok(Some(text@)),
            Secret::Undecryptable => Err(()),
        }
    }
}

/// The plain text of a stored value: a value without the prefix is kept as it is; a
/// protected one is what the protection service opened (`opened`, the bytes it gave
/// back for the hex after the prefix) read as UTF-8, and nothing when it could not.
pub open spec fn plain_secret(raw: Seq<char>, opened: Option<Seq<u8>>) -> Option<Seq<char>> {
    if starts_with(raw, encrypted_prefix()) {
        match opened {
            Some(bytes) => if vstd::utf8::valid_utf8(bytes) {
                Some(vstd::utf8::decode_utf8(bytes))
            } else {
                None
            },
            None => None,
        }
    } else {
        Some(raw)
    }
}

/// What a stored credential reads as, from the stored text (`None` when no row exists)
/// and what the protection service opened of it.
pub open spec fn stored_secret(raw: Option<Seq<char>>, opened: Option<Seq<u8>>) -> Result<Option<Seq<char>>, ()> {
    match raw {
        None => Ok(None),
        Some(r) => if r.len() == 0 {
            Ok(None)
        } else {
            match plain_secret(r, opened) {
                Some(v) => if v.len() == 0 { Ok(None) } else { Ok(Some(v)) },
                None => Err(()),
            }
        },
    }
}

/// The hex after the prefix of a protected value; `None` for a plain value.
pub open spec fn protected_text(raw: Seq<char>) -> Option<Seq<char>> {
    if starts_with(raw, encrypted_prefix()) {
        Some(raw.skip(encrypted_prefix().len() as int))
    } else {
        None
    }
}

pub open spec fn encryption_failure(detail: Seq<char>) -> Seq<char> {
    "凭据加密失败: "@ + detail
}

pub open spec fn opt_bytes(value: Option<Vec<u8>>) -> Option<Seq<u8>> {
    match value {
        Some(b) => Some(b@),
        None => None,
    }
}

/// `String::from_utf8`: `Some` exactly when the bytes are valid UTF-8, holding the text
/// they encode.
#[verifier::external_body]
fn utf8_text(bytes: Vec<u8>) -> (res: Option<String>)
    ensures
        res is Some <==> vstd::utf8::valid_utf8(bytes@),
        res matches Some(s) ==> s@ == vstd::utf8::decode_utf8(bytes@),
{
    String::from_utf8(bytes).ok()
}

/// Whether `chars` begins with the protection prefix.
fn has_prefix(chars: &Vec<char>, prefix: &Vec<char>) -> (res: bool)
    ensures
        res == starts_with(chars@, prefix@),
{
    if prefix.len() > chars.len() {
        false
    } else {
        matches_at(chars.as_slice(), 0, prefix.as_slice())
    }
}

/// The hex text that the protection service has to open for a stored value; `None`
/// for a plain value.
pub fn protected_part(raw: &str) -> (res: Option<String>)
    ensures
        opt_text(res) == protected_text(raw@),
{
    let chars = chars_of(raw);
    let prefix = chars_of(ENCRYPTED_PREFIX);
    if !has_prefix(&chars, &prefix) {
        return None;
    }
    let rest = slice_chars(chars.as_slice(), prefix.len(), chars.len());
    assert(rest@ =~= raw@.skip(encrypted_prefix().len() as int));
    Some(string_of(rest.as_slice()))
}

/// Reads a stored value back: a plain value as it is, a protected one from what the
/// protection service opened of it (`None` when it could not), decoded as UTF-8.
pub fn decrypt_secret(raw: String, opened: Option<Vec<u8>>) -> (res: Option<String>)
    ensures
        opt_text(res) == plain_secret(raw@, opt_bytes(opened)),
{
    let chars = chars_of(raw.as_str());
    let prefix = chars_of(ENCRYPTED_PREFIX);
    if !has_prefix(&chars, &prefix) {
        return Some(raw);
    }
    match opened {
        Some(bytes) => utf8_text(bytes),
        None => None,
    }
}

pub open spec fn opt_text(value: Option<String>) -> Option<Seq<char>> {
    match value {
        Some(s) => Some(s@),
        None => None,
    }
}

/// The stored form of a credential from what the protection service made of it: the
/// prefix followed by the protected hex, or a `Storage` error naming why it refused.
pub fn encrypt_secret(protected: Result<String, String>) -> (res: Result<String, AppError>)
    ensures
        match protected {
            Ok(hex) => res matches Ok(stored) && stored@ == encrypted_prefix() + hex@,
            Err(detail) => res matches Err(e) && e.code == ErrorCode::Storage && e.message@ == encryption_failure(detail@),
        },
{
    match protected {
        Ok(hex) => {
            let mut stored = String::from_str(ENCRYPTED_PREFIX);
            stored.append(hex.as_str());
            Ok(stored)
        },
        Err(detail) => {
            let mut message = String::from_str("凭据加密失败: ");
            message.append(detail.as_str());
            Err(AppError::storage(message.as_str()))
        },
    }
}

/// Reads a stored credential (`None` when no row exists), telling an absent value
/// from one that cannot be opened here.
pub fn secret_from_stored(raw: Option<String>, opened: Option<Vec<u8>>) -> (res: Secret)
    ensures
        res@ == stored_secret(opt_text(raw), opt_bytes(opened)),
{
    let raw = match raw {
        None => return Secret::Absent,
        Some(r) => r,
    };
    if raw.as_str().is_empty() {
        return Secret::Absent;
    }
    match decrypt_secret(raw, opened) {
        Some(value) => if value.as_str().is_empty() {
            Secret::Absent
        } else {
            Secret::Value(value)
        },
        None => Secret::Undecryptable,
    }
}

/// A credential reads back as written: a protected value whose bytes the protection
/// service gives back reads as the text; a plain value that does not look protected
/// reads as itself; a protected value the service cannot open reads as unreadable,
/// never as absent.
pub proof fn lemma_secret_reads_back(text: Seq<char>, hex: Seq<char>)
    requires
        text.len() > 0,
    ensures
        stored_secret(Some(encrypted_prefix() + hex), Some(vstd::utf8::encode_utf8(text))) == Ok::<
            Option<Seq<char>>,
            (),
        >(Some(text)),
        stored_secret(Some(encrypted_prefix() + hex), None) == Err::<Option<Seq<char>>, ()>(()),
        !starts_with(text, encrypted_prefix()) ==> stored_secret(Some(text), None) == Ok::<
            Option<Seq<char>>,
            (),
        >(Some(text)),
        protected_text(encrypted_prefix() + hex) == Some(hex),
{
    let raw = encrypted_prefix() + hex;
    assert(raw.subrange(0, encrypted_prefix().len() as int) =~= encrypted_prefix());
    assert(raw.skip(encrypted_prefix().len() as int) =~= hex);
    vstd::utf8::encode_utf8_valid_utf8(text);
    vstd::utf8::encode_utf8_decode_utf8(text);
    reveal_strlit("dpapi:v1:");
}

/// Keys of the stored channel settings.
pub const KEY_ALERT_CH_NOTIFICATION: &'static str = "alert_ch_notification";
pub const KEY_ALERT_CH_MEOW: &'static str = "alert_ch_meow";
pub const KEY_ALERT_CH_MAIL: &'static str = "alert_ch_mail";
pub const KEY_MEOW_NICKNAME: &'static str = "meow_nickname";
pub const KEY_SMTP_HOST: &'static str = "smtp_host";
pub const KEY_SMTP_PORT: &'static str = "smtp_port";
pub const KEY_SMTP_TLS: &'static str = "smtp_tls";
pub const KEY_SMTP_USER: &'static str = "smtp_user";
pub const KEY_SMTP_AUTH_CODE: &'static str = "smtp_auth_code";
pub const KEY_SMTP_TO: &'static str = "smtp_to";

/// A stored switch: on exactly when it reads `1` once trimmed; `default` when absent.
pub open spec fn flag_reading(value: Option<Seq<char>>, default: bool) -> bool {
    match value {
        Some(v) => trim(v) == "1"@,
        None => default,
    }
}

pub open spec fn is_digit(c: char) -> bool {
    '0' <= c <= '9'
}

pub open spec fn all_digits(s: Seq<char>) -> bool {
    forall|i: int| 0 <= i < s.len() ==> is_digit(#[trigger] s[i])
}

/// Value of a string of decimal digits, most significant first.
pub open spec fn digits_value(s: Seq<char>) -> nat
    decreases s.len(),
{
    if s.len() == 0 {
        0
    } else {
        digits_value(s.drop_last()) * 10 + ((s.last() as nat) - 48) as nat
    }
}

pub open spec fn unsigned_digits(s: Seq<char>) -> Seq<char> {
    if s.len() > 0 && s[0] == '+' {
        s.drop_first()
    } else {
        s
    }
}

/// `str::parse::<u16>`: an optional `+`, then at least one decimal digit, with a value
/// that fits in 16 bits.
pub open spec fn u16_reading(s: Seq<char>) -> Option<u16> {
    let d = unsigned_digits(s);
    if d.len() > 0 && all_digits(d) && digits_value(d) <= 65535 {
        Some(digits_value(d) as u16)
    } else {
        None
    }
}

/// The stored SMTP port and the problem it reports: absent means the default 465;
/// zero and unreadable text keep the default and report a problem.
pub open spec fn port_reading(value: Option<Seq<char>>) -> (u16, Option<Seq<char>>) {
    match value {
        None => (465, None),
        Some(v) => match u16_reading(trim(v)) {
            Some(p) => if p == 0 {
                (465, Some("SMTP 端口非法: "@ + v))
            } else {
                (p, None)
            },
            None => (465, Some("SMTP 端口无法识别: "@ + v)),
        },
    }
}

/// The stored TLS mode and the problem it reports: absent means implicit TLS; an
/// unknown mode keeps that default and reports a problem.
pub open spec fn tls_reading(value: Option<Seq<char>>) -> (TlsMode, Option<Seq<char>>) {
    match value {
        None => (TlsMode::Implicit, None),
        Some(v) => match tls_mode_named(v) {
            Some(mode) => (mode, None),
            None => (TlsMode::Implicit, Some("SMTP 加密方式无法识别: "@ + v)),
        },
    }
}

pub open spec fn problem_list(problem: Option<Seq<char>>) -> Seq<Seq<char>> {
    match problem {
        Some(p) => seq![p],
        None => Seq::empty(),
    }
}

/// The value a credential contributes to the configuration.
pub open spec fn secret_value(secret: Result<Option<Seq<char>>, ()>) -> Option<Seq<char>> {
    match secret {
        Ok(Some(v)) => Some(v),
        _ => None,
    }
}

pub open spec fn text_or_empty(value: Option<Seq<char>>) -> Seq<char> {
    match value {
        Some(v) => v,
        None => Seq::empty(),
    }
}

/// The stored rows behind the channel settings, `None` where no row exists.
#[derive(Debug, Clone, Default)]
pub struct StoredChannels {
    pub notification: Option<String>,
    pub meow: Option<String>,
    pub mail: Option<String>,
    pub meow_nickname: Option<String>,
    pub smtp_auth_code: Option<String>,
    pub smtp_host: Option<String>,
    pub smtp_user: Option<String>,
    pub smtp_to: Option<String>,
    pub smtp_tls: Option<String>,
    pub smtp_port: Option<String>,
    /// What the protection service opened of a protected nickname (see `protected_part`).
    pub meow_nickname_opened: Option<Vec<u8>>,
    /// What the protection service opened of a protected authorization code.
    pub smtp_auth_code_opened: Option<Vec<u8>>,
}

/// A stored switch (`true` when it reads `1` once trimmed; `default` when absent).
pub fn stored_flag(value: &Option<String>, default: bool) -> (res: bool)
    ensures
        res == flag_reading(opt_text(*value), default),
{
    match value {
        None => default,
        Some(v) => {
            let t = trimmed(v.as_str());
            let one = chars_of("1");
            chars_eq(t.as_slice(), one.as_slice())
        },
    }
}

/// `str::parse::<u16>` on characters.
pub fn parse_u16(s: &[char]) -> (res: Option<u16>)
    ensures
        res == u16_reading(s@),
{
    let start: usize = if s.len() > 0 && s[0] == '+' { 1 } else { 0 };
    let ghost d = unsigned_digits(s@);
    assert(d =~= s@.subrange(start as int, s@.len() as int));
    if start >= s.len() {
        return None;
    }
    let mut acc: u32 = 0;
    let mut i: usize = start;
    while i < s.len()
        invariant
            start <= i <= s@.len(),
            d == unsigned_digits(s@),
            d == s@.subrange(start as int, s@.len() as int),
            all_digits(s@.subrange(start as int, i as int)),
            acc == if digits_value(s@.subrange(start as int, i as int)) < 65536 {
                digits_value(s@.subrange(start as int, i as int))
            } else {
                65536
            },
        decreases s@.len() - i,
    {
        let c = s[i];
        if !('0' <= c && c <= '9') {
            assert(d[i - start] == c);
            assert(!is_digit(d[i - start]));
            assert(!all_digits(d));
            return None;
        }
        let digit = (c as u32) - 48;
        let ghost before = s@.subrange(start as int, i as int);
        let ghost after = s@.subrange(start as int, i + 1);
        assert(after.drop_last() =~= before);
        assert(after.last() == c);
        acc = if acc * 10 + digit > 65536 { 65536 } else { acc * 10 + digit };
        i = i + 1;
        assert(all_digits(after)) by {
            assert forall|j: int| 0 <= j < after.len() implies is_digit(#[trigger] after[j]) by {
                if j < before.len() {
                    assert(after[j] == before[j]);
                }
            }
        }
    }
    assert(s@.subrange(start as int, s@.len() as int) == d);
    if acc <= 65535 {
        Some(acc as u16)
    } else {
        None
    }
}

fn problem_text(head: &str, value: &String) -> (res: String)
    ensures
        res@ == head@ + value@,
{
    let mut text = String::from_str(head);
    text.append(value.as_str());
    text
}

/// Reads the channel configuration from its stored rows. A dirty field (an unknown
/// TLS mode, a port that is zero or not a number) keeps its default and is only
/// listed in `problems`; a credential that cannot be opened here is listed in
/// `undecryptable`. Notification is on unless switched off; MeoW and mail are off
/// unless switched on.
pub fn delivery_config_from_stored(stored: StoredChannels) -> (res: DeliveryConfig)
    ensures
        res.notification == flag_reading(opt_text(stored.notification), true),
        res.meow == flag_reading(opt_text(stored.meow), false),
        res.mail == flag_reading(opt_text(stored.mail), false),
        opt_text(res.meow_nickname) == secret_value(
            stored_secret(opt_text(stored.meow_nickname), opt_bytes(stored.meow_nickname_opened)),
        ),
        opt_text(res.mail_auth_code) == secret_value(
            stored_secret(opt_text(stored.smtp_auth_code), opt_bytes(stored.smtp_auth_code_opened)),
        ),
        views(res.undecryptable@) == (if stored_secret(
            opt_text(stored.smtp_auth_code),
            opt_bytes(stored.smtp_auth_code_opened),
        ) is Err {
            seq!["smtp_auth_code"@]
        } else {
            Seq::<Seq<char>>::empty()
        }),
        res.smtp.host@ == text_or_empty(opt_text(stored.smtp_host)),
        res.smtp.user@ == text_or_empty(opt_text(stored.smtp_user)),
        res.smtp.to@ == text_or_empty(opt_text(stored.smtp_to)),
        res.smtp.tls == tls_reading(opt_text(stored.smtp_tls)).0,
        res.smtp.port == port_reading(opt_text(stored.smtp_port)).0,
        views(res.problems@) == problem_list(tls_reading(opt_text(stored.smtp_tls)).1) + problem_list(
            port_reading(opt_text(stored.smtp_port)).1,
        ),
{
    let notification = stored_flag(&stored.notification, true);
    let meow = stored_flag(&stored.meow, false);
    let mail = stored_flag(&stored.mail, false);
    let meow_nickname = match secret_from_stored(stored.meow_nickname, stored.meow_nickname_opened) {
        Secret::Value(value) => Some(value),
        _ => None,
    };
    let mut undecryptable: Vec<String> = Vec::new();
    let mail_auth_code = match secret_from_stored(stored.smtp_auth_code, stored.smtp_auth_code_opened) {
        Secret::Value(value) => Some(value),
        Secret::Undecryptable => {
            undecryptable.push(String::from_str("smtp_auth_code"));
            None
        },
        Secret::Absent => None,
    };
    let host = match stored.smtp_host {
        Some(v) => v,
        None => String::new(),
    };
    let user = match stored.smtp_user {
        Some(v) => v,
        None => String::new(),
    };
    let to = match stored.smtp_to {
        Some(v) => v,
        None => String::new(),
    };
    let mut problems: Vec<String> = Vec::new();
    let mut tls = TlsMode::Implicit;
    if let Some(value) = &stored.smtp_tls {
        match TlsMode::parse(value.as_str()) {
            Some(mode) => tls = mode,
            None => problems.push(problem_text("SMTP 加密方式无法识别: ", value)),
        }
    }
    let ghost after_tls = views(problems@);
    assert(after_tls == problem_list(tls_reading(opt_text(stored.smtp_tls)).1));
    let mut port: u16 = 465;
    if let Some(value) = &stored.smtp_port {
        let t = trimmed(value.as_str());
        match parse_u16(t.as_slice()) {
            Some(p) => if p == 0 {
                problems.push(problem_text("SMTP 端口非法: ", value));
            } else {
                port = p;
            },
            None => problems.push(problem_text("SMTP 端口无法识别: ", value)),
        }
    }
    assert(views(problems@) =~= after_tls + problem_list(port_reading(opt_text(stored.smtp_port)).1));
    proof {
        reveal_strlit("smtp_auth_code");
    }
    assert(views(undecryptable@) =~= (if stored_secret(
        opt_text(stored.smtp_auth_code),
        opt_bytes(stored.smtp_auth_code_opened),
    ) is Err {
        seq!["smtp_auth_code"@]
    } else {
        Seq::<Seq<char>>::empty()
    }));
    DeliveryConfig {
        notification,
        meow,
        mail,
        meow_nickname,
        smtp: SmtpStored { host, port, tls, user, to },
        mail_auth_code,
        undecryptable,
        problems,
    }
}


/// One change to the stored settings: the new text of `key`, or `None` to delete it.
#[derive(Debug, Clone)]
pub struct ConfigWrite {
    pub key: &'static str,
    pub value: Option<String>,
}

pub open spec fn write_view(write: ConfigWrite) -> (Seq<char>, Option<Seq<char>>) {
    (write.key@, opt_text(write.value))
}

/// The changes that saving channel settings makes, in order, and the error that ends
/// the save after them, if any.
#[derive(Debug)]
pub struct WritePlan {
    pub writes: Vec<ConfigWrite>,
    pub failure: Option<AppError>,
}

pub open spec fn switch_text(on: bool) -> Seq<char> {
    if on {
        "1"@
    } else {
        "0"@
    }
}

/// Whether saving `input` has to store a new authorization code.
pub open spec fn stores_auth_code(input: ChannelInput) -> bool {
    input.smtp matches Some(smtp) && smtp.auth_code matches Some(code) && trim(code@).len() > 0
}

/// What saving `input` writes, given what the protection service made of a new
/// authorization code. Switches, the trimmed nickname (deleted when empty) and the
/// plain SMTP fields are overwritten; the authorization code is left alone when not
/// submitted, deleted when submitted empty, and otherwise stored protected (not
/// written when the service refused).
pub open spec fn planned_writes(input: ChannelInput, protected: Option<Result<Seq<char>, Seq<char>>>) -> Seq<
    (Seq<char>, Option<Seq<char>>),
> {
    match input.smtp {
        None => base_writes(input),
        Some(smtp) => base_writes(input) + smtp_writes(smtp) + auth_writes(smtp, protected),
    }
}

pub open spec fn protection_view(protected: Option<Result<String, String>>) -> Option<Result<Seq<char>, Seq<char>>> {
    match protected {
        Some(Ok(hex)) => Some(Ok(hex@)),
        Some(Err(detail)) => Some(Err(detail@)),
        None => None,
    }
}

/// The switches and the nickname.
pub open spec fn base_writes(input: ChannelInput) -> Seq<(Seq<char>, Option<Seq<char>>)> {
    let nickname = trim(input.meow_nickname@);
    Seq::empty()
        .push(("alert_ch_notification"@, Some(switch_text(input.notification))))
        .push(("alert_ch_meow"@, Some(switch_text(input.meow))))
        .push(("alert_ch_mail"@, Some(switch_text(input.mail))))
        .push(("meow_nickname"@, if nickname.len() == 0 { None } else { Some(nickname) }))
}

/// The plain SMTP fields.
pub open spec fn smtp_writes(smtp: SmtpInput) -> Seq<(Seq<char>, Option<Seq<char>>)> {
    Seq::empty()
        .push(("smtp_host"@, Some(trim(smtp.host@))))
        .push(("smtp_port"@, Some(decimal(smtp.port as nat))))
        .push(("smtp_tls"@, Some(smtp.tls@)))
        .push(("smtp_user"@, Some(trim(smtp.user@))))
        .push(("smtp_to"@, Some(trim(smtp.to@))))
}

/// The authorization code: deleted when submitted empty, stored protected when the
/// service protected it, otherwise not written.
pub open spec fn auth_writes(smtp: SmtpInput, protected: Option<Result<Seq<char>, Seq<char>>>) -> Seq<
    (Seq<char>, Option<Seq<char>>),
> {
    match smtp.auth_code {
        Some(code) => if trim(code@).len() == 0 {
            Seq::empty().push(("smtp_auth_code"@, None::<Seq<char>>))
        } else {
            match protected {
                Some(Ok(hex)) => Seq::empty().push(("smtp_auth_code"@, Some(encrypted_prefix() + hex))),
                _ => Seq::empty(),
            }
        },
        None => Seq::empty(),
    }
}

/// The authorization code that saving `input` has to protect: the trimmed code, when
/// a non-empty one is submitted.
pub fn auth_code_to_protect(input: &ChannelInput) -> (res: Option<String>)
    ensures
        res is Some <==> stores_auth_code(*input),
        res matches Some(code) ==> (input.smtp matches Some(smtp) && smtp.auth_code matches Some(submitted)
            && code@ == trim(submitted@)),
{
    match &input.smtp {
        Some(smtp) => match &smtp.auth_code {
            Some(code) => {
                let code = trimmed_string(code);
                if code.as_str().is_empty() {
                    None
                } else {
                    Some(code)
                }
            },
            None => None,
        },
        None => None,
    }
}

fn switch_value(on: bool) -> (res: Option<String>)
    ensures
        opt_text(res) == Some(switch_text(on)),
{
    if on {
        Some(String::from_str("1"))
    } else {
        Some(String::from_str("0"))
    }
}

fn trimmed_string(s: &String) -> (res: String)
    ensures
        res@ == trim(s@),
{
    string_of(trimmed(s.as_str()).as_slice())
}

/// Plans the save of channel settings (see `planned_writes`). `protected` is what the
/// protection service made of `auth_code_to_protect(input)`; a refusal ends the save
/// with a `Storage` error after the other writes.
pub fn channel_writes(input: &ChannelInput, protected: Option<Result<String, String>>) -> (res: WritePlan)
    requires
        stores_auth_code(*input) ==> protected is Some,
    ensures
        res.writes@.map_values(|w: ConfigWrite| write_view(w)) == planned_writes(*input, protection_view(protected)),
        res.failure is Some <==> (stores_auth_code(*input) && protected matches Some(Err(_))),
        res.failure matches Some(e) ==> e.code == ErrorCode::Storage && e.message@ == encryption_failure(
            protected->0->Err_0@,
        ),
{
    let mut writes: Vec<ConfigWrite> = Vec::new();
    writes.push(ConfigWrite { key: KEY_ALERT_CH_NOTIFICATION, value: switch_value(input.notification) });
    writes.push(ConfigWrite { key: KEY_ALERT_CH_MEOW, value: switch_value(input.meow) });
    writes.push(ConfigWrite { key: KEY_ALERT_CH_MAIL, value: switch_value(input.mail) });
    let nickname = trimmed_string(&input.meow_nickname);
    let nickname_value = if nickname.as_str().is_empty() { None } else { Some(nickname) };
    writes.push(ConfigWrite { key: KEY_MEOW_NICKNAME, value: nickname_value });
    let smtp = match &input.smtp {
        None => {
            assert(writes@.map_values(|w: ConfigWrite| write_view(w)) =~= planned_writes(
                *input,
                protection_view(protected),
            ));
            return WritePlan { writes, failure: None };
        },
        Some(smtp) => smtp,
    };
    writes.push(ConfigWrite { key: KEY_SMTP_HOST, value: Some(trimmed_string(&smtp.host)) });
    let mut port = String::new();
    push_decimal(&mut port, smtp.port as u64);
    assert(port@ =~= decimal(smtp.port as nat));
    writes.push(ConfigWrite { key: KEY_SMTP_PORT, value: Some(port) });
    writes.push(ConfigWrite { key: KEY_SMTP_TLS, value: Some(smtp.tls.clone()) });
    writes.push(ConfigWrite { key: KEY_SMTP_USER, value: Some(trimmed_string(&smtp.user)) });
    writes.push(ConfigWrite { key: KEY_SMTP_TO, value: Some(trimmed_string(&smtp.to)) });
    let mut failure: Option<AppError> = None;
    if let Some(code) = &smtp.auth_code {
        let code = trimmed_string(code);
        if code.as_str().is_empty() {
            writes.push(ConfigWrite { key: KEY_SMTP_AUTH_CODE, value: None });
        } else {
            match protected {
                Some(outcome) => match encrypt_secret(outcome) {
                    Ok(stored) => writes.push(ConfigWrite { key: KEY_SMTP_AUTH_CODE, value: Some(stored) }),
                    Err(e) => failure = Some(e),
                },
                None => {},
            }
        }
    }
    assert(writes@.map_values(|w: ConfigWrite| write_view(w)) =~= planned_writes(*input, protection_view(protected)));
    WritePlan { writes, failure }
}


/// The stored settings as a map from key to text.
pub open spec fn stored_at(store: Map<Seq<char>, Seq<char>>, key: Seq<char>) -> Option<Seq<char>> {
    if store.dom().contains(key) {
        Some(store[key])
    } else {
        None
    }
}

pub open spec fn apply_write(store: Map<Seq<char>, Seq<char>>, write: (Seq<char>, Option<Seq<char>>)) -> Map<
    Seq<char>,
    Seq<char>,
> {
    match write.1 {
        Some(value) => store.insert(write.0, value),
        None => store.remove(write.0),
    }
}

/// `store` after `writes`, applied in order.
pub open spec fn applied(store: Map<Seq<char>, Seq<char>>, writes: Seq<(Seq<char>, Option<Seq<char>>)>) -> Map<
    Seq<char>,
    Seq<char>,
>
    decreases writes.len(),
{
    if writes.len() == 0 {
        store
    } else {
        apply_write(applied(store, writes.drop_last()), writes.last())
    }
}

/// The last write to `key` among `writes`, if any.
pub open spec fn last_write(writes: Seq<(Seq<char>, Option<Seq<char>>)>, key: Seq<char>) -> Option<Option<Seq<char>>>
    decreases writes.len(),
{
    if writes.len() == 0 {
        None
    } else if writes.last().0 == key {
        Some(writes.last().1)
    } else {
        last_write(writes.drop_last(), key)
    }
}

proof fn lemma_applied_reads(store: Map<Seq<char>, Seq<char>>, writes: Seq<(Seq<char>, Option<Seq<char>>)>, key: Seq<char>)
    ensures
        stored_at(applied(store, writes), key) == match last_write(writes, key) {
            Some(value) => value,
            None => stored_at(store, key),
        },
    decreases writes.len(),
{
    if writes.len() > 0 {
        lemma_applied_reads(store, writes.drop_last(), key);
    }
}

broadcast proof fn lemma_last_write_push(
    writes: Seq<(Seq<char>, Option<Seq<char>>)>,
    write: (Seq<char>, Option<Seq<char>>),
    key: Seq<char>,
)
    ensures
        #[trigger] last_write(writes.push(write), key) == if write.0 == key {
            Some(write.1)
        } else {
            last_write(writes, key)
        },
{
    assert(writes.push(write).drop_last() =~= writes);
}

broadcast proof fn lemma_last_write_concat(
    first: Seq<(Seq<char>, Option<Seq<char>>)>,
    second: Seq<(Seq<char>, Option<Seq<char>>)>,
    key: Seq<char>,
)
    ensures
        #[trigger] last_write(first + second, key) == match last_write(second, key) {
            Some(value) => Some(value),
            None => last_write(first, key),
        },
    decreases second.len(),
{
    if second.len() == 0 {
        assert(first + second =~= first);
    } else {
        assert((first + second).drop_last() =~= first + second.drop_last());
        lemma_last_write_concat(first, second.drop_last(), key);
    }
}

proof fn lemma_decimal_reads_back(n: nat)
    ensures
        decimal(n).len() > 0,
        all_digits(decimal(n)),
        digits_value(decimal(n)) == n,
        trim(decimal(n)) == decimal(n),
        unsigned_digits(decimal(n)) == decimal(n),
    decreases n,
{
    let d = decimal(n);
    let c = crate::text::digit_char((n % 10) as int);
    assert(c as nat == 48 + n % 10);
    if n < 10 {
        assert(d.drop_last() =~= Seq::<char>::empty());
        assert(d.last() == c);
        assert(digits_value(Seq::<char>::empty()) == 0);
        assert(digits_value(d) == digits_value(d.drop_last()) * 10 + ((d.last() as nat) - 48) as nat);
    }
    if n >= 10 {
        lemma_decimal_reads_back(n / 10);
        let head = decimal(n / 10);
        assert(d == head.push(crate::text::digit_char((n % 10) as int)));
        assert(d.drop_last() =~= head);
        assert forall|i: int| 0 <= i < d.len() implies is_digit(#[trigger] d[i]) by {
            if i < head.len() {
                assert(d[i] == head[i]);
            }
        }
        assert(d[0] == head[0]);
        assert(d.last() == crate::text::digit_char((n % 10) as int));
        assert(digits_value(d) == digits_value(head) * 10 + (n % 10));
        assert(n / 10 * 10 + n % 10 == n);
    }
    assert(is_digit(d[0]));
    assert(is_digit(d.last()));
}

proof fn lemma_port_reads_back(port: u16)
    ensures
        port_reading(Some(decimal(port as nat))) == (if port == 0 {
            (465u16, Some("SMTP 端口非法: "@ + decimal(0)))
        } else {
            (port, None)
        }),
{
    lemma_decimal_reads_back(port as nat);
}

proof fn lemma_switch_reads_back(on: bool, default: bool)
    ensures
        flag_reading(Some(switch_text(on)), default) == on,
{
    reveal_strlit("1");
    reveal_strlit("0");
    assert(trim("1"@) == "1"@);
    assert(trim("0"@) == "0"@);
}

/// Saved channel settings read back as they were saved, whatever was stored before:
/// each switch reads as submitted; the nickname reads as its trimmed text (none when
/// that is empty or looks like a protected value); the SMTP host, user and recipient
/// read as trimmed; the port reads as submitted unless it is zero; the TLS mode reads
/// as the submitted text reads; an authorization code that was not submitted, or could
/// not be stored, stays as it was, and one submitted empty is gone. Without SMTP fields
/// none of the SMTP settings change.
pub proof fn lemma_channel_settings_read_back(
    store: Map<Seq<char>, Seq<char>>,
    input: ChannelInput,
    protected: Option<Result<Seq<char>, Seq<char>>>,
)
    ensures
        ({
            let after = applied(store, planned_writes(input, protected));
            let nickname = trim(input.meow_nickname@);
            &&& flag_reading(stored_at(after, "alert_ch_notification"@), true) == input.notification
            &&& flag_reading(stored_at(after, "alert_ch_meow"@), false) == input.meow
            &&& flag_reading(stored_at(after, "alert_ch_mail"@), false) == input.mail
            &&& secret_value(stored_secret(stored_at(after, "meow_nickname"@), None)) == (if nickname.len() == 0
                || starts_with(nickname, encrypted_prefix()) {
                None
            } else {
                Some(nickname)
            })
            &&& match input.smtp {
                None => {
                    &&& stored_at(after, "smtp_host"@) == stored_at(store, "smtp_host"@)
                    &&& stored_at(after, "smtp_port"@) == stored_at(store, "smtp_port"@)
                    &&& stored_at(after, "smtp_tls"@) == stored_at(store, "smtp_tls"@)
                    &&& stored_at(after, "smtp_user"@) == stored_at(store, "smtp_user"@)
                    &&& stored_at(after, "smtp_to"@) == stored_at(store, "smtp_to"@)
                    &&& stored_at(after, "smtp_auth_code"@) == stored_at(store, "smtp_auth_code"@)
                },
                Some(smtp) => {
                    &&& text_or_empty(stored_at(after, "smtp_host"@)) == trim(smtp.host@)
                    &&& text_or_empty(stored_at(after, "smtp_user"@)) == trim(smtp.user@)
                    &&& text_or_empty(stored_at(after, "smtp_to"@)) == trim(smtp.to@)
                    &&& tls_reading(stored_at(after, "smtp_tls"@)) == tls_reading(Some(smtp.tls@))
                    &&& port_reading(stored_at(after, "smtp_port"@)) == (if smtp.port == 0 {
                        (465u16, Some("SMTP 端口非法: "@ + decimal(0)))
                    } else {
                        (smtp.port, None)
                    })
                    &&& stored_at(after, "smtp_auth_code"@) == (match smtp.auth_code {
                        Some(code) => if trim(code@).len() == 0 {
                            None
                        } else {
                            match protected {
                                Some(Ok(hex)) => Some(encrypted_prefix() + hex),
                                _ => stored_at(store, "smtp_auth_code"@),
                            }
                        },
                        None => stored_at(store, "smtp_auth_code"@),
                    })
                    &&& (smtp.auth_code matches Some(code) && trim(code@).len() > 0 && protected matches Some(Ok(hex)))
                        ==> secret_value(
                        stored_secret(
                            stored_at(after, "smtp_auth_code"@),
                            Some(vstd::utf8::encode_utf8(trim(smtp.auth_code->0@))),
                        ),
                    ) == Some(trim(smtp.auth_code->0@))
                },
            }
        }),
{
    broadcast use lemma_last_write_push, lemma_last_write_concat;
    lemma_key_letters();
    let writes = planned_writes(input, protected);
    let after = applied(store, writes);
    lemma_applied_reads(store, writes, "alert_ch_notification"@);
    lemma_applied_reads(store, writes, "alert_ch_meow"@);
    lemma_applied_reads(store, writes, "alert_ch_mail"@);
    lemma_applied_reads(store, writes, "meow_nickname"@);
    lemma_applied_reads(store, writes, "smtp_host"@);
    lemma_applied_reads(store, writes, "smtp_port"@);
    lemma_applied_reads(store, writes, "smtp_tls"@);
    lemma_applied_reads(store, writes, "smtp_user"@);
    lemma_applied_reads(store, writes, "smtp_to"@);
    lemma_applied_reads(store, writes, "smtp_auth_code"@);
    match input.smtp {
        None => {
            assert(writes == base_writes(input));
        },
        Some(smtp) => {
            assert(writes == base_writes(input) + smtp_writes(smtp) + auth_writes(smtp, protected));
            lemma_auth_last_write(smtp, protected, "alert_ch_notification"@);
            lemma_auth_last_write(smtp, protected, "alert_ch_meow"@);
            lemma_auth_last_write(smtp, protected, "alert_ch_mail"@);
            lemma_auth_last_write(smtp, protected, "meow_nickname"@);
            lemma_auth_last_write(smtp, protected, "smtp_host"@);
            lemma_auth_last_write(smtp, protected, "smtp_port"@);
            lemma_auth_last_write(smtp, protected, "smtp_tls"@);
            lemma_auth_last_write(smtp, protected, "smtp_user"@);
            lemma_auth_last_write(smtp, protected, "smtp_to"@);
            lemma_auth_last_write(smtp, protected, "smtp_auth_code"@);
            lemma_port_reads_back(smtp.port);
            if let (Some(code), Some(Ok(hex))) = (smtp.auth_code, protected) {
                if trim(code@).len() > 0 {
                    lemma_secret_reads_back(trim(code@), hex);
                }
            }
            lemma_smtp_last_write(smtp, "alert_ch_notification"@);
            lemma_smtp_last_write(smtp, "alert_ch_meow"@);
            lemma_smtp_last_write(smtp, "alert_ch_mail"@);
            lemma_smtp_last_write(smtp, "meow_nickname"@);
            lemma_smtp_last_write(smtp, "smtp_host"@);
            lemma_smtp_last_write(smtp, "smtp_port"@);
            lemma_smtp_last_write(smtp, "smtp_tls"@);
            lemma_smtp_last_write(smtp, "smtp_user"@);
            lemma_smtp_last_write(smtp, "smtp_to"@);
            lemma_smtp_last_write(smtp, "smtp_auth_code"@);
        },
    }
    lemma_switch_reads_back(input.notification, true);
    lemma_switch_reads_back(input.meow, false);
    lemma_switch_reads_back(input.mail, false);
}

/// Letters that tell the setting keys apart.
proof fn lemma_key_letters()
    ensures
        "alert_ch_notification"@[0] == 'a',
        "alert_ch_notification"@[5] == '_',
        "alert_ch_notification"@[6] == 'c',
        "alert_ch_notification"@[10] == 'o',
        "alert_ch_meow"@[0] == 'a',
        "alert_ch_meow"@[5] == '_',
        "alert_ch_meow"@[6] == 'c',
        "alert_ch_meow"@[10] == 'e',
        "alert_ch_mail"@[0] == 'a',
        "alert_ch_mail"@[5] == '_',
        "alert_ch_mail"@[6] == 'c',
        "alert_ch_mail"@[10] == 'a',
        "meow_nickname"@[0] == 'm',
        "meow_nickname"@[5] == 'n',
        "meow_nickname"@[6] == 'i',
        "meow_nickname"@[10] == 'a',
        "smtp_host"@[0] == 's',
        "smtp_host"@[5] == 'h',
        "smtp_host"@[6] == 'o',
        "smtp_port"@[0] == 's',
        "smtp_port"@[5] == 'p',
        "smtp_port"@[6] == 'o',
        "smtp_tls"@[0] == 's',
        "smtp_tls"@[5] == 't',
        "smtp_tls"@[6] == 'l',
        "smtp_user"@[0] == 's',
        "smtp_user"@[5] == 'u',
        "smtp_user"@[6] == 's',
        "smtp_to"@[0] == 's',
        "smtp_to"@[5] == 't',
        "smtp_to"@[6] == 'o',
        "smtp_auth_code"@[0] == 's',
        "smtp_auth_code"@[5] == 'a',
        "smtp_auth_code"@[6] == 'u',
        "smtp_auth_code"@[10] == 'c',
{
    reveal_strlit("alert_ch_notification");
    reveal_strlit("alert_ch_meow");
    reveal_strlit("alert_ch_mail");
    reveal_strlit("meow_nickname");
    reveal_strlit("smtp_host");
    reveal_strlit("smtp_port");
    reveal_strlit("smtp_tls");
    reveal_strlit("smtp_user");
    reveal_strlit("smtp_to");
    reveal_strlit("smtp_auth_code");
}

proof fn lemma_smtp_last_write(smtp: SmtpInput, key: Seq<char>)
    ensures
        last_write(smtp_writes(smtp), key) == (if key == "smtp_host"@ {
            Some(Some(trim(smtp.host@)))
        } else if key == "smtp_port"@ {
            Some(Some(decimal(smtp.port as nat)))
        } else if key == "smtp_tls"@ {
            Some(Some(smtp.tls@))
        } else if key == "smtp_user"@ {
            Some(Some(trim(smtp.user@)))
        } else if key == "smtp_to"@ {
            Some(Some(trim(smtp.to@)))
        } else {
            None
        }),
{
    broadcast use lemma_last_write_push;
    lemma_key_letters();
    let none = Seq::<(Seq<char>, Option<Seq<char>>)>::empty();
    assert(last_write(none, key) is None);
}

proof fn lemma_auth_last_write(smtp: SmtpInput, protected: Option<Result<Seq<char>, Seq<char>>>, key: Seq<char>)
    ensures
        last_write(auth_writes(smtp, protected), key) == (if key == "smtp_auth_code"@ && (smtp.auth_code matches Some(
            code,
        ) && trim(code@).len() == 0) {
            Some(None::<Seq<char>>)
        } else if key == "smtp_auth_code"@ && (smtp.auth_code matches Some(code) && trim(code@).len() > 0
            && protected matches Some(Ok(hex))) {
            Some(Some(encrypted_prefix() + protected->0->Ok_0))
        } else {
            None
        }),
{
    broadcast use lemma_last_write_push;
    let none = Seq::<(Seq<char>, Option<Seq<char>>)>::empty();
    assert(last_write(none, key) is None);
}


/// Key of the stored expiry of the session cookie: plain text, for display only.
pub const KEY_COOKIE_EXPIRES_AT: &'static str = "cookie_expires_at";
pub const KEY_COOKIE: &'static str = "cookie";
pub const KEY_API_KEY: &'static str = "api_key";

/// Saving credentials needs at least one of the two.
pub fn check_credentials(cookie: &str, api_key: &str) -> (res: Result<(), AppError>)
    ensures
        res is Ok <==> (cookie@.len() > 0 || api_key@.len() > 0),
        res matches Err(e) ==> e.code == ErrorCode::Input && e.message@ == "请至少填写一项认证信息"@,
{
    if cookie.is_empty() && api_key.is_empty() {
        Err(AppError::input("请至少填写一项认证信息"))
    } else {
        Ok(())
    }
}

/// Whether a non-empty credential was refused protection.
pub open spec fn refused(credential: Seq<char>, protected: Option<Result<String, String>>) -> bool {
    credential.len() > 0 && (protected matches Some(Err(_)))
}

/// The writes of saving credentials, as (key, new text or `None` to delete).
pub open spec fn credential_plan(
    cookie: Seq<char>,
    api_key: Seq<char>,
    expires_at: Option<Seq<char>>,
    cookie_hex: Seq<char>,
    key_hex: Seq<char>,
) -> Seq<(Seq<char>, Option<Seq<char>>)> {
    (if cookie.len() > 0 {
        Seq::empty().push(("cookie"@, Some(encrypted_prefix() + cookie_hex))).push(("cookie_expires_at"@, expires_at))
    } else {
        Seq::empty()
    }) + (if api_key.len() > 0 {
        Seq::empty().push(("api_key"@, Some(encrypted_prefix() + key_hex)))
    } else {
        Seq::empty()
    })
}

/// What saving credentials writes, given what the protection service made of each
/// non-empty one (`protected_cookie`, `protected_key`). Each is stored protected; with
/// a new cookie its expiry is written too, or deleted when none came with it, so that
/// an older expiry never describes a newer cookie. Nothing is written when both are
/// empty, and nothing at all when the service refused one (the cookie's refusal first).
pub fn credential_writes(
    cookie: &str,
    api_key: &str,
    expires_at: Option<&str>,
    protected_cookie: Option<Result<String, String>>,
    protected_key: Option<Result<String, String>>,
) -> (res: Result<Vec<ConfigWrite>, AppError>)
    requires
        cookie@.len() > 0 ==> protected_cookie is Some,
        api_key@.len() > 0 ==> protected_key is Some,
    ensures
        protected_cookie matches Some(Err(d)) ==> (cookie@.len() > 0 ==> (res matches Err(e) && e.code
            == ErrorCode::Storage && e.message@ == encryption_failure(d@))),
        protected_key matches Some(Err(d)) ==> (api_key@.len() > 0 && !refused(cookie@, protected_cookie)
            ==> (res matches Err(e) && e.code == ErrorCode::Storage && e.message@ == encryption_failure(d@))),
        res is Ok <==> (!refused(cookie@, protected_cookie) && !refused(api_key@, protected_key)),
        res matches Ok(writes) ==> writes@.map_values(|w: ConfigWrite| write_view(w)) == credential_plan(
            cookie@,
            api_key@,
            match expires_at {
                Some(t) => Some(t@),
                None => None,
            },
            match protected_cookie {
                Some(Ok(h)) => h@,
                _ => Seq::empty(),
            },
            match protected_key {
                Some(Ok(h)) => h@,
                _ => Seq::empty(),
            },
        ),
{
    let stored_cookie = if cookie.is_empty() {
        None
    } else {
        match protected_cookie {
            Some(outcome) => match encrypt_secret(outcome) {
                Ok(value) => Some(value),
                Err(e) => return Err(e),
            },
            None => None,
        }
    };
    let stored_key = if api_key.is_empty() {
        None
    } else {
        match protected_key {
            Some(outcome) => match encrypt_secret(outcome) {
                Ok(value) => Some(value),
                Err(e) => return Err(e),
            },
            None => None,
        }
    };
    let mut writes: Vec<ConfigWrite> = Vec::new();
    if let Some(value) = stored_cookie {
        writes.push(ConfigWrite { key: KEY_COOKIE, value: Some(value) });
        let expiry = match expires_at {
            Some(text) => Some(String::from_str(text)),
            None => None,
        };
        writes.push(ConfigWrite { key: KEY_COOKIE_EXPIRES_AT, value: expiry });
    }
    if let Some(value) = stored_key {
        writes.push(ConfigWrite { key: KEY_API_KEY, value: Some(value) });
    }
    proof {
        reveal_strlit("cookie");
        reveal_strlit("cookie_expires_at");
        reveal_strlit("api_key");
    }
    assert(writes@.map_values(|w: ConfigWrite| write_view(w)) =~= credential_plan(
        cookie@,
        api_key@,
        match expires_at {
            Some(t) => Some(t@),
            None => None,
        },
        match protected_cookie {
            Some(Ok(h)) => h@,
            _ => Seq::empty(),
        },
        match protected_key {
            Some(Ok(h)) => h@,
            _ => Seq::empty(),
        },
    ));
    Ok(writes)
}

/// A stored credential (`None` when no row exists) with what the protection service
/// opened of it; `None` when it cannot be read.
pub fn stored_credential(raw: Option<String>, opened: Option<Vec<u8>>) -> (res: Option<String>)
    ensures
        opt_text(res) == match opt_text(raw) {
            Some(r) => plain_secret(r, opt_bytes(opened)),
            None => None,
        },
{
    match raw {
        Some(r) => decrypt_secret(r, opened),
        None => None,
    }
}

/// Whether a readable, non-empty credential is stored.
pub fn has_credential(raw: Option<String>, opened: Option<Vec<u8>>) -> (res: bool)
    ensures
        res == (match opt_text(raw) {
            Some(r) => (plain_secret(r, opt_bytes(opened)) matches Some(v) && v.len() > 0),
            None => false,
        }),
{
    match stored_credential(raw, opened) {
        Some(value) => !value.as_str().is_empty(),
        None => false,
    }
}

/// The stored cookie expiry, an empty row counting as none.
pub fn stored_expiry(raw: Option<String>) -> (res: Option<String>)
    ensures
        opt_text(res) == match opt_text(raw) {
            Some(r) => if r.len() == 0 { None } else { Some(r) },
            None => None,
        },
{
    match raw {
        Some(r) => if r.as_str().is_empty() {
            None
        } else {
            Some(r)
        },
        None => None,
    }
}


/// Saved credentials read back as they were saved, whatever was stored before: a saved
/// cookie is stored protected and reads as itself when the protection service gives
/// its bytes back, and its expiry is the one saved with it (none when none came); a
/// credential left empty keeps what was stored.
pub proof fn lemma_credentials_read_back(
    store: Map<Seq<char>, Seq<char>>,
    cookie: Seq<char>,
    api_key: Seq<char>,
    expires_at: Option<Seq<char>>,
    cookie_hex: Seq<char>,
    key_hex: Seq<char>,
)
    ensures
        ({
            let after = applied(store, credential_plan(cookie, api_key, expires_at, cookie_hex, key_hex));
            &&& cookie.len() > 0 ==> {
                &&& stored_at(after, "cookie"@) == Some(encrypted_prefix() + cookie_hex)
                &&& stored_secret(stored_at(after, "cookie"@), Some(vstd::utf8::encode_utf8(cookie)))
                    == Ok::<Option<Seq<char>>, ()>(Some(cookie))
                &&& stored_at(after, "cookie_expires_at"@) == expires_at
            }
            &&& cookie.len() == 0 ==> {
                &&& stored_at(after, "cookie"@) == stored_at(store, "cookie"@)
                &&& stored_at(after, "cookie_expires_at"@) == stored_at(store, "cookie_expires_at"@)
            }
            &&& api_key.len() > 0 ==> {
                &&& stored_at(after, "api_key"@) == Some(encrypted_prefix() + key_hex)
                &&& stored_secret(stored_at(after, "api_key"@), Some(vstd::utf8::encode_utf8(api_key)))
                    == Ok::<Option<Seq<char>>, ()>(Some(api_key))
            }
            &&& api_key.len() == 0 ==> stored_at(after, "api_key"@) == stored_at(store, "api_key"@)
        }),
{
    broadcast use lemma_last_write_push, lemma_last_write_concat;
    reveal_strlit("cookie");
    reveal_strlit("cookie_expires_at");
    reveal_strlit("api_key");
    assert("cookie"@[0] != "api_key"@[0]);
    assert("cookie_expires_at"@[0] != "api_key"@[0]);
    assert("cookie"@.len() != "cookie_expires_at"@.len());
    let writes = credential_plan(cookie, api_key, expires_at, cookie_hex, key_hex);
    let none = Seq::<(Seq<char>, Option<Seq<char>>)>::empty();
    assert(last_write(none, "cookie"@) is None);
    assert(last_write(none, "cookie_expires_at"@) is None);
    assert(last_write(none, "api_key"@) is None);
    lemma_applied_reads(store, writes, "cookie"@);
    lemma_applied_reads(store, writes, "cookie_expires_at"@);
    lemma_applied_reads(store, writes, "api_key"@);
    if cookie.len() > 0 {
        lemma_secret_reads_back(cookie, cookie_hex);
    }
    if api_key.len() > 0 {
        lemma_secret_reads_back(api_key, key_hex);
    }
}

} // verus!
