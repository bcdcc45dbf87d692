use amax_lib::crypto::{decrypt, encrypt, hex_decode, hex_encode};
use amax_lib::deliver::{Availability, Channel, ChannelInput, SmtpInput, TlsMode};
use amax_lib::error::ErrorCode;
use amax_lib::settings::{
    auth_code_to_protect, channel_writes, check_credentials, credential_writes, decrypt_secret,
    delivery_config_from_stored, encrypt_secret, has_credential, parse_u16, protected_part,
    secret_from_stored, stored_credential, stored_expiry, stored_flag, ConfigWrite, Secret,
    StoredChannels, ENCRYPTED_PREFIX, KEY_MEOW_NICKNAME, KEY_SMTP_AUTH_CODE,
};
use std::collections::BTreeMap;

/// A stand-in protection service for tests: the "protected" bytes are the plaintext
/// reversed, so that they differ from it but open again.
fn test_protect(plaintext: &[u8]) -> Result<String, String> {
    Ok(hex_encode(&plaintext.iter().rev().copied().collect::<Vec<u8>>()))
}

fn test_open(hex: &str) -> Result<Vec<u8>, String> {
    hex_decode(hex).map(|bytes| bytes.into_iter().rev().collect())
}

fn opened_by(open: fn(&str) -> Result<Vec<u8>, String>, raw: Option<&str>) -> Option<Vec<u8>> {
    let hex = protected_part(raw?)?;
    open(&hex).ok()
}

fn smtp_input() -> SmtpInput {
    SmtpInput {
        host: "smtp.qq.com".to_string(),
        port: 465,
        tls: "implicit".to_string(),
        user: "bot@qq.com".to_string(),
        auth_code: Some("qq-auth-code".to_string()),
        to: "me@qq.com".to_string(),
    }
}

fn channel_input(meow: bool, mail: bool, nickname: &str) -> ChannelInput {
    ChannelInput {
        notification: true,
        meow,
        mail,
        meow_nickname: nickname.to_string(),
        smtp: Some(smtp_input()),
    }
}

/// Applies writes to an in-memory store, as the database does row by row.
fn apply(store: &mut BTreeMap<String, String>, writes: Vec<ConfigWrite>) {
    for write in writes {
        match write.value {
            Some(value) => {
                store.insert(write.key.to_string(), value);
            }
            None => {
                store.remove(write.key);
            }
        }
    }
}

fn save(store: &mut BTreeMap<String, String>, input: &ChannelInput, protect: fn(&[u8]) -> Result<String, String>) -> Option<amax_lib::error::AppError> {
    let code = auth_code_to_protect(input);
    let plan = channel_writes(input, code.map(|code| protect(code.as_bytes())));
    apply(store, plan.writes);
    plan.failure
}

fn read(store: &BTreeMap<String, String>, open: fn(&str) -> Result<Vec<u8>, String>) -> StoredChannels {
    let get = |key: &str| store.get(key).cloned();
    StoredChannels {
        notification: get("alert_ch_notification"),
        meow: get("alert_ch_meow"),
        mail: get("alert_ch_mail"),
        meow_nickname: get("meow_nickname"),
        smtp_auth_code: get("smtp_auth_code"),
        smtp_host: get("smtp_host"),
        smtp_user: get("smtp_user"),
        smtp_to: get("smtp_to"),
        smtp_tls: get("smtp_tls"),
        smtp_port: get("smtp_port"),
        meow_nickname_opened: opened_by(open, store.get("meow_nickname").map(String::as_str)),
        smtp_auth_code_opened: opened_by(open, store.get("smtp_auth_code").map(String::as_str)),
    }
}

fn empty_rows() -> StoredChannels {
    read(&BTreeMap::new(), test_open)
}

#[test]
fn decrypt_secret_reads_legacy_plaintext() {
    let value = "session=legacy-cookie".to_string();
    assert_eq!(decrypt_secret(value.clone(), None), Some(value));
}

#[test]
fn decrypt_secret_rejects_invalid_encrypted_value() {
    let raw = "dpapi:v1:invalid";
    let opened = opened_by(decrypt, Some(raw));
    assert_eq!(decrypt_secret(raw.to_string(), opened), None);
}

#[test]
fn encrypt_secret_round_trips() {
    let stored = encrypt_secret(test_protect("session=encrypted-cookie".as_bytes())).expect("应成功");
    assert!(stored.starts_with(ENCRYPTED_PREFIX));
    assert!(!stored.contains("session"));
    let opened = opened_by(test_open, Some(&stored));
    assert_eq!(decrypt_secret(stored, opened).as_deref(), Some("session=encrypted-cookie"));
    assert_eq!(protected_part("dpapi:v1:00ff").as_deref(), Some("00ff"));
    assert_eq!(protected_part("plain"), None);
}

#[test]
fn a_refused_protection_is_a_storage_error() {
    let error = encrypt_secret(encrypt(b"secret")).unwrap_err();
    assert_eq!(error.code, ErrorCode::Storage);
    assert_eq!(error.message, "凭据加密失败: 当前平台不支持 DPAPI 安全存储");
    assert_eq!(ENCRYPTED_PREFIX, "dpapi:v1:");
}

#[test]
fn stored_secrets_tell_absent_from_unreadable() {
    assert!(matches!(secret_from_stored(None, None), Secret::Absent));
    assert!(matches!(secret_from_stored(Some(String::new()), None), Secret::Absent));
    match secret_from_stored(Some("plain".to_string()), None) {
        Secret::Value(value) => assert_eq!(value, "plain"),
        _ => panic!("明文旧值应原样读出"),
    }
    assert!(matches!(
        secret_from_stored(Some("dpapi:v1:not-from-this-machine".to_string()), None),
        Secret::Undecryptable
    ));
    assert!(matches!(
        secret_from_stored(Some("dpapi:v1:00".to_string()), Some(Vec::new())),
        Secret::Absent
    ));
    assert!(matches!(
        secret_from_stored(Some("dpapi:v1:ff".to_string()), Some(vec![0xff])),
        Secret::Undecryptable
    ));
}

#[test]
fn stored_flags_and_ports_read_like_the_database_rows() {
    assert!(stored_flag(&None, true));
    assert!(!stored_flag(&None, false));
    assert!(stored_flag(&Some(" 1 ".to_string()), false));
    assert!(!stored_flag(&Some("true".to_string()), true));
    let chars = |text: &str| text.chars().collect::<Vec<char>>();
    assert_eq!(parse_u16(&chars("465")), Some(465));
    assert_eq!(parse_u16(&chars("+587")), Some(587));
    assert_eq!(parse_u16(&chars("0065535")), Some(65535));
    assert_eq!(parse_u16(&chars("65536")), None);
    assert_eq!(parse_u16(&chars("465a")), None);
    assert_eq!(parse_u16(&chars("")), None);
    assert_eq!(parse_u16(&chars("+")), None);
    assert_eq!(parse_u16(&chars("-1")), None);
}

#[test]
fn stored_dirty_smtp_fields_degrade_to_defaults_and_only_record_problems() {
    let mut rows = empty_rows();
    rows.smtp_tls = Some("plaintext".to_string());
    rows.smtp_port = Some("465a".to_string());
    let config = delivery_config_from_stored(rows);
    assert_eq!(config.smtp.tls, TlsMode::Implicit);
    assert_eq!(config.smtp.port, 465);
    assert_eq!(config.problems.len(), 2, "{:?}", config.problems);
    assert_eq!(config.problems[0], "SMTP 加密方式无法识别: plaintext");
    assert_eq!(config.problems[1], "SMTP 端口无法识别: 465a");
    assert!(config.notification);

    let mut zero = empty_rows();
    zero.smtp_port = Some("0".to_string());
    zero.smtp_tls = Some(" STARTTLS ".to_string());
    let config = delivery_config_from_stored(zero);
    assert_eq!(config.problems, vec!["SMTP 端口非法: 0".to_string()]);
    assert_eq!(config.smtp.tls, TlsMode::StartTls);
}

#[test]
fn stored_notification_channel_defaults_on() {
    let config = delivery_config_from_stored(empty_rows());
    assert!(config.notification);
    assert!(!config.meow);
    assert!(!config.mail);
    assert!(config.undecryptable.is_empty());
    assert!(config.problems.is_empty());
    assert_eq!(config.smtp.port, 465);
}

#[test]
fn stored_mail_auth_code_stays_protected_while_the_nickname_is_plain() {
    let mut store = BTreeMap::new();
    assert!(save(&mut store, &channel_input(true, true, "  小明  "), test_protect).is_none());
    let config = delivery_config_from_stored(read(&store, test_open));
    assert_eq!(config.meow_nickname.as_deref(), Some("小明"));
    assert_eq!(config.mail_auth_code.as_deref(), Some("qq-auth-code"));
    assert_eq!(config.smtp.user, "bot@qq.com");
    assert_eq!(config.smtp.to, "me@qq.com");
    assert!(config.undecryptable.is_empty());
    assert!(config.problems.is_empty());
    let raw = store.get(KEY_SMTP_AUTH_CODE).cloned().unwrap_or_default();
    assert!(raw.starts_with(ENCRYPTED_PREFIX));
    assert!(!raw.contains("qq-auth-code"));
    assert_eq!(store.get(KEY_MEOW_NICKNAME).map(String::as_str), Some("小明"));
}

#[test]
fn stored_undecryptable_auth_code_is_reported() {
    let mut store = BTreeMap::new();
    save(&mut store, &channel_input(false, true, ""), test_protect);
    store.insert(KEY_SMTP_AUTH_CODE.to_string(), "dpapi:v1:not-from-this-machine".to_string());
    let config = delivery_config_from_stored(read(&store, test_open));
    assert_eq!(config.mail_auth_code, None);
    assert_eq!(config.undecryptable, vec![KEY_SMTP_AUTH_CODE.to_string()]);
    assert_eq!(config.availability(Channel::Mail), Availability::Incomplete);
    assert!(config.notice(Channel::Mail).unwrap_or_default().contains("重新填写"));
}

#[test]
fn saved_channel_settings_read_back() {
    let mut store = BTreeMap::new();
    let mut input = channel_input(true, true, "  小明  ");
    input.smtp.as_mut().unwrap().auth_code = None;
    input.smtp.as_mut().unwrap().host = " smtp.163.com ".to_string();
    assert!(save(&mut store, &input, test_protect).is_none());
    let config = delivery_config_from_stored(read(&store, test_open));
    assert!(config.notification && config.meow && config.mail);
    assert_eq!(config.meow_nickname.as_deref(), Some("小明"));
    assert_eq!(config.smtp.host, "smtp.163.com");
    assert_eq!(config.smtp.port, 465);
    assert_eq!(config.smtp.tls, TlsMode::Implicit);
    assert_eq!(config.mail_auth_code, None);
    assert!(config.problems.is_empty());
}

#[test]
fn omitted_auth_code_is_kept_and_empty_one_is_deleted() {
    let mut store = BTreeMap::new();
    save(&mut store, &channel_input(true, true, "pika"), test_protect);
    let mut keep = channel_input(true, true, "pika");
    keep.smtp.as_mut().unwrap().host = "smtp.163.com".into();
    keep.smtp.as_mut().unwrap().auth_code = None;
    save(&mut store, &keep, test_protect);
    let config = delivery_config_from_stored(read(&store, test_open));
    assert_eq!(config.meow_nickname.as_deref(), Some("pika"));
    assert_eq!(config.mail_auth_code.as_deref(), Some("qq-auth-code"));
    assert_eq!(config.smtp.host, "smtp.163.com");

    let mut cleared = channel_input(false, false, "");
    cleared.smtp.as_mut().unwrap().auth_code = Some("  ".to_string());
    assert!(save(&mut store, &cleared, test_protect).is_none());
    assert!(store.get(KEY_SMTP_AUTH_CODE).is_none());
    assert!(store.get(KEY_MEOW_NICKNAME).is_none());
    let config = delivery_config_from_stored(read(&store, test_open));
    assert_eq!(config.mail_auth_code, None);
    assert_eq!(config.meow_nickname, None);
}

#[test]
fn a_new_auth_code_is_not_stored_when_protection_is_refused() {
    let mut store = BTreeMap::new();
    let error = save(&mut store, &channel_input(true, true, "pika"), encrypt).expect("保护失败时保存授权码应失败");
    assert_eq!(error.code, ErrorCode::Storage);
    assert_eq!(error.message, "凭据加密失败: 当前平台不支持 DPAPI 安全存储");
    assert!(store.get(KEY_SMTP_AUTH_CODE).is_none());
    assert_eq!(store.len(), 9);

    let without_smtp = ChannelInput { smtp: None, ..channel_input(false, false, "x") };
    assert_eq!(auth_code_to_protect(&without_smtp), None);
    let plan = channel_writes(&without_smtp, None);
    assert!(plan.failure.is_none());
    assert_eq!(plan.writes.len(), 4);
}

#[test]
fn credentials_need_one_of_the_two_and_protection() {
    let error = check_credentials("", "").unwrap_err();
    assert_eq!(error.code, ErrorCode::Input);
    assert_eq!(error.message, "请至少填写一项认证信息");
    assert!(check_credentials("session=x", "").is_ok());
    assert!(check_credentials("", "key").is_ok());

    assert_eq!(credential_writes("", "", None, None, None).unwrap().len(), 0);
    let refused = credential_writes("session=x", "", Some("2030-01-01T00:00:00+08:00"), Some(encrypt(b"session=x")), None);
    assert_eq!(refused.unwrap_err().code, ErrorCode::Storage);

    let writes = credential_writes("session=x", "", None, Some(test_protect(b"session=x")), None).unwrap();
    assert_eq!(writes.len(), 2);
    assert_eq!(writes[0].key, "cookie");
    assert!(writes[0].value.as_deref().unwrap().starts_with(ENCRYPTED_PREFIX));
    assert_eq!(writes[1].key, "cookie_expires_at");
    assert_eq!(writes[1].value, None);

    let both = credential_writes("c", "k", Some("2030"), Some(test_protect(b"c")), Some(test_protect(b"k"))).unwrap();
    assert_eq!(both.iter().map(|w| w.key).collect::<Vec<_>>(), vec!["cookie", "cookie_expires_at", "api_key"]);
    assert_eq!(both[1].value.as_deref(), Some("2030"));
}

#[test]
fn stored_credentials_read_back() {
    assert_eq!(stored_credential(None, None), None);
    assert_eq!(stored_credential(Some("session=legacy".to_string()), None).as_deref(), Some("session=legacy"));
    assert_eq!(stored_credential(Some("dpapi:v1:00ff".to_string()), None), None);
    let stored = encrypt_secret(test_protect(b"session=new")).unwrap();
    let opened = opened_by(test_open, Some(&stored));
    assert_eq!(stored_credential(Some(stored.clone()), opened.clone()).as_deref(), Some("session=new"));
    assert!(has_credential(Some(stored), opened));
    assert!(has_credential(Some("session=legacy".to_string()), None));
    assert!(!has_credential(Some(String::new()), None));
    assert!(!has_credential(Some("dpapi:v1:00ff".to_string()), None));
    assert!(!has_credential(None, None));
    assert_eq!(stored_expiry(Some(String::new())), None);
    assert_eq!(stored_expiry(None), None);
    assert_eq!(stored_expiry(Some("2030-01-01".to_string())).as_deref(), Some("2030-01-01"));
}

#[test]
fn stored_protected_nickname_reads_and_saves_plain() {
    let mut store = BTreeMap::new();
    store.insert(
        KEY_MEOW_NICKNAME.to_string(),
        encrypt_secret(test_protect("小明".as_bytes())).unwrap(),
    );
    let config = delivery_config_from_stored(read(&store, test_open));
    assert_eq!(config.meow_nickname.as_deref(), Some("小明"));

    save(&mut store, &ChannelInput { smtp: None, ..channel_input(true, false, "小明") }, test_protect);
    assert_eq!(store.get(KEY_MEOW_NICKNAME).map(String::as_str), Some("小明"));
}
