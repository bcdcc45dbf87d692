use amax_lib::deliver::{
    attempt_record, availability_key, classify_meow, classify_meow_reply, mail_failure,
    meow_endpoint, meow_receipt, notification_receipt, redact, retries_exhausted, setup_failure,
    summarize, test_delivery, Availability, Channel, ChannelInput, DeliveryConfig, Outcome, Receipt, SmtpInput,
    SmtpStored, TlsMode, MAX_FAILED_DELIVERIES_PER_RULE,
};
use amax_lib::error::ErrorCode;

fn config_with_mail(auth_code: Option<&str>, host: &str) -> DeliveryConfig {
    DeliveryConfig {
        mail: true,
        smtp: SmtpStored {
            host: host.to_string(),
            port: 465,
            tls: TlsMode::Implicit,
            user: "bot@qq.com".to_string(),
            to: "me@qq.com".to_string(),
        },
        mail_auth_code: auth_code.map(str::to_string),
        ..DeliveryConfig::default()
    }
}

fn input(meow: bool, mail: bool) -> ChannelInput {
    ChannelInput {
        notification: true,
        meow,
        mail,
        meow_nickname: "pika".into(),
        smtp: Some(SmtpInput {
            host: "smtp.qq.com".into(),
            port: 465,
            tls: "implicit".into(),
            user: "bot@qq.com".into(),
            auth_code: Some("secret".into()),
            to: "me@qq.com".into(),
        }),
    }
}

#[test]
fn channel_keys_are_stable_identifiers() {
    assert_eq!(
        Channel::ALL.map(|channel| channel.key()),
        ["notification", "meow", "mail"]
    );
    for channel in Channel::ALL {
        assert_eq!(Channel::from_key(channel.key()), Some(channel));
    }
    assert_eq!(Channel::from_key("sms"), None);
}

#[test]
fn tls_mode_round_trips() {
    for (text, mode) in [
        ("implicit", TlsMode::Implicit),
        ("SMTPS", TlsMode::Implicit),
        (" starttls ", TlsMode::StartTls),
    ] {
        assert_eq!(TlsMode::parse(text), Some(mode), "{text}");
        assert_eq!(TlsMode::parse(mode.as_str()), Some(mode));
    }
    assert_eq!(TlsMode::parse("none"), None);
    assert_eq!(TlsMode::default(), TlsMode::Implicit);
}

#[test]
fn notification_needs_no_credential_but_network_channels_do() {
    let config = DeliveryConfig {
        notification: true,
        meow: true,
        mail: true,
        ..DeliveryConfig::default()
    };
    assert_eq!(
        config.availability(Channel::Notification),
        Availability::Ready
    );
    assert_eq!(config.availability(Channel::Meow), Availability::Incomplete);
    assert_eq!(config.availability(Channel::Mail), Availability::Incomplete);
    assert_eq!(config.usable(), vec![Channel::Notification]);
    assert_eq!(
        config.notice(Channel::Meow).as_deref(),
        Some("尚未填写 MeoW 昵称")
    );
}

#[test]
fn disabled_channel_is_off_regardless_of_credential() {
    let config = DeliveryConfig {
        meow: false,
        meow_nickname: Some("xyx".into()),
        ..DeliveryConfig::default()
    };
    assert_eq!(config.availability(Channel::Meow), Availability::Off);
    assert_eq!(config.notice(Channel::Meow), None);
    assert!(config.usable().is_empty());
}

#[test]
fn incomplete_mail_lists_which_piece_is_missing() {
    let mut config = config_with_mail(Some("secret"), "smtp.qq.com");
    config.smtp.to.clear();
    assert_eq!(config.availability(Channel::Mail), Availability::Incomplete);
    assert!(
        config
            .notice(Channel::Mail)
            .unwrap_or_default()
            .contains("不完整")
    );
    assert!(config.mail_target().is_none());
}

#[test]
fn undecryptable_auth_code_says_reenter_not_missing() {
    let config = DeliveryConfig {
        mail: true,
        smtp: SmtpStored {
            host: "smtp.qq.com".into(),
            port: 465,
            tls: TlsMode::Implicit,
            user: "bot@qq.com".into(),
            to: "me@qq.com".into(),
        },
        undecryptable: vec!["smtp_auth_code".into()],
        ..DeliveryConfig::default()
    };
    assert_eq!(config.availability(Channel::Mail), Availability::Incomplete);
    assert!(
        config
            .notice(Channel::Mail)
            .unwrap_or_default()
            .contains("重新填写")
    );
}

#[test]
fn summarize_prefers_success_then_retryable() {
    let receipt = |channel, outcome| Receipt {
        channel,
        outcome,
        error: None,
    };
    assert_eq!(
        summarize(&[
            receipt(Channel::Mail, Outcome::Failed),
            receipt(Channel::Meow, Outcome::Sent)
        ]),
        Outcome::Sent
    );
    assert_eq!(
        summarize(&[
            receipt(Channel::Mail, Outcome::Failed),
            receipt(Channel::Meow, Outcome::Retryable)
        ]),
        Outcome::Retryable
    );
    assert_eq!(
        summarize(&[receipt(Channel::Mail, Outcome::Failed)]),
        Outcome::Failed
    );
    assert_eq!(summarize(&[]), Outcome::Failed);
}

#[test]
fn redact_replaces_every_credential_occurrence() {
    let text = "auth failed for abcdefghijkl, retry with abdefghijkl";
    assert_eq!(
        redact(text, &["abcdefghijkl", "abdefghijkl"]),
        "auth failed for ***, retry with ***"
    );
    assert_eq!(redact("keep me", &[""]), "keep me");
}

#[test]
fn enabling_a_channel_without_its_credential_is_rejected() {
    let mut bare = input(true, false);
    bare.meow_nickname = String::new();
    let error = bare
        .validate(&DeliveryConfig::default())
        .expect_err("缺昵称应拒绝");
    assert!(error.message.contains("昵称"), "{:?}", error);

    let stored = DeliveryConfig {
        meow_nickname: Some("stored".into()),
        ..DeliveryConfig::default()
    };
    let error = bare
        .validate(&stored)
        .expect_err("开启 MeoW 必须随本次提交带上昵称");
    assert!(error.message.contains("昵称"), "{:?}", error);
}

#[test]
fn mail_format_is_validated_even_when_mail_is_off() {
    let mut bad = input(false, false);
    bad.smtp.as_mut().expect("应有 smtp").host = "smtp qq".into();
    let error = bad
        .validate(&DeliveryConfig::default())
        .expect_err("主机含空格应拒绝");
    assert!(error.message.contains("空格"), "{:?}", error);

    for broken in ["port", "tls", "user"] {
        let mut variant = input(false, false);
        let smtp = variant.smtp.as_mut().expect("应有 smtp");
        match broken {
            "port" => smtp.port = 0,
            "tls" => smtp.tls = "plaintext".into(),
            _ => smtp.user = "not-an-address".into(),
        }
        let error = variant
            .validate(&DeliveryConfig::default())
            .expect_err("非法应拒绝");
        assert_eq!(error.code, ErrorCode::Input, "{broken}");
    }
}

#[test]
fn stored_auth_code_satisfies_validation_only_for_the_same_host() {
    let existing = config_with_mail(Some("secret"), "smtp.qq.com");
    let mut variant = input(false, true);
    variant.smtp.as_mut().expect("应有 smtp").auth_code = None;
    variant
        .validate(&existing)
        .expect("同主机已有授权码，不必重新提交");

    let other = config_with_mail(Some("secret"), "smtp.163.com");
    let error = variant
        .validate(&other)
        .expect_err("换主机后旧授权码不算数");
    assert!(error.message.contains("授权码"), "{:?}", error);

    assert!(
        variant.validate(&DeliveryConfig::default()).is_err(),
        "全新的邮件配置必须带授权码"
    );
}

#[test]
fn clearing_the_nickname_is_allowed_while_the_channel_is_off() {
    let mut variant = input(false, false);
    variant.meow_nickname = String::new();
    variant
        .validate(&DeliveryConfig::default())
        .expect("清空昵称但不是要开启渠道");
}

#[test]
fn mail_target_is_derived_only_from_a_complete_config() {
    let config = config_with_mail(Some("secret"), "smtp.qq.com");
    let derived = config.mail_target().expect("齐全应可用");
    assert_eq!(derived.port, 465);
    assert_eq!(derived.auth_code, "secret");
    assert!(config.mail_target() == Some(derived));
}

#[test]
fn meow_endpoint_percent_encodes_both_segments() {
    let text = meow_endpoint("张三/pika", "⚠️ AMAX 额度不足").expect("应可构造");
    let url = url::Url::parse(&text).expect("端点应是合法 URL");
    assert_eq!(url.scheme(), "https");
    assert_eq!(url.host_str(), Some("api.chuckfang.com"));
    assert!(!url.path().contains(' '), "路径不应含裸空格: {}", url);
    assert_eq!(url.query(), Some("msgType=markdown"));
    assert_eq!(url.path_segments().unwrap().count(), 2);
    assert!(url.path().contains("%2F"));
}

#[test]
fn meow_response_classification() {
    assert_eq!(
        classify_meow(200, r#"{"status":200,"msg":"ok"}"#),
        Outcome::Sent
    );
    assert_eq!(classify_meow(200, r#"{"data":true}"#), Outcome::Sent);
    assert_eq!(
        classify_meow(200, r#"{"status":500,"msg":"no such user"}"#),
        Outcome::Failed
    );
    assert_eq!(classify_meow(429, "slow down"), Outcome::Retryable);
    assert_eq!(classify_meow(502, "bad gateway"), Outcome::Retryable);
    assert_eq!(classify_meow(404, "not found"), Outcome::Failed);
    assert_eq!(classify_meow(200, "not json"), Outcome::Sent);
}

#[test]
fn meow_reply_fields_decide_the_outcome() {
    assert_eq!(classify_meow_reply(200, None), Outcome::Sent);
    assert_eq!(classify_meow_reply(200, Some((Some(200), None))), Outcome::Sent);
    assert_eq!(classify_meow_reply(200, Some((Some(500), None))), Outcome::Failed);
    assert_eq!(classify_meow_reply(200, Some((None, Some(false)))), Outcome::Failed);
    assert_eq!(classify_meow_reply(200, Some((None, None))), Outcome::Failed);
    assert_eq!(classify_meow_reply(503, Some((Some(200), None))), Outcome::Retryable);
    assert_eq!(classify_meow_reply(301, None), Outcome::Failed);
}

#[test]
fn meow_receipt_quotes_the_reply_briefly() {
    let sent = meow_receipt(200, r#"{"status":200}"#);
    assert_eq!(sent.channel, Channel::Meow);
    assert_eq!(sent.outcome, Outcome::Sent);
    assert_eq!(sent.error, None);

    let refused = meow_receipt(404, "not found");
    assert_eq!(refused.outcome, Outcome::Failed);
    assert_eq!(refused.error.as_deref(), Some("MeoW 响应 404: not found"));

    let long = "x".repeat(300);
    let busy = meow_receipt(502, &long);
    assert_eq!(busy.outcome, Outcome::Retryable);
    assert_eq!(busy.error.unwrap(), format!("MeoW 响应 502: {}", "x".repeat(200)));
}

#[test]
fn mail_failures_hide_the_auth_code() {
    let receipt = mail_failure(true, false, "535 bad credentials qq-code", "qq-code");
    assert_eq!(receipt.channel, Channel::Mail);
    assert_eq!(receipt.outcome, Outcome::Retryable);
    assert_eq!(receipt.error.as_deref(), Some("邮件发送失败: 535 bad credentials ***"));
    assert_eq!(mail_failure(false, true, "timed out", "c").outcome, Outcome::Retryable);
    assert_eq!(mail_failure(false, false, "rejected", "c").outcome, Outcome::Failed);

    let target = config_with_mail(Some("secret"), "smtp.qq.com").mail_target().unwrap();
    let setup = setup_failure(&target, "bad address secret");
    assert_eq!(setup.outcome, Outcome::Failed);
    assert_eq!(setup.error.as_deref(), Some("邮件配置不可用: bad address ***"));
}

#[test]
fn notification_receipt_reports_the_failure_text() {
    let sent = notification_receipt(None);
    assert_eq!(sent.outcome, Outcome::Sent);
    assert_eq!(sent.channel, Channel::Notification);
    let failed = notification_receipt(Some("no permission"));
    assert_eq!(failed.outcome, Outcome::Failed);
    assert_eq!(failed.error.as_deref(), Some("系统通知发送失败: no permission"));
}

#[test]
fn availability_keys_and_auth_code_presence() {
    assert_eq!(availability_key(Availability::Off), "off");
    assert_eq!(availability_key(Availability::Incomplete), "incomplete");
    assert_eq!(availability_key(Availability::Ready), "ready");
    assert!(config_with_mail(Some("secret"), "h").auth_code_configured());
    assert!(!config_with_mail(None, "h").auth_code_configured());
    let mut locked = config_with_mail(None, "h");
    locked.undecryptable.push("smtp_auth_code".into());
    assert!(locked.auth_code_configured());
    assert_eq!(
        config_with_mail(Some("secret"), "smtp.qq.com").usable(),
        vec![Channel::Mail]
    );
}

#[test]
fn retries_stop_after_the_daily_failure_limit() {
    assert!(!retries_exhausted(MAX_FAILED_DELIVERIES_PER_RULE - 1));
    assert!(retries_exhausted(MAX_FAILED_DELIVERIES_PER_RULE));
    assert!(retries_exhausted(MAX_FAILED_DELIVERIES_PER_RULE + 5));
}

#[test]
fn only_an_all_retryable_attempt_keeps_the_budget() {
    let retry = Receipt::retryable(Channel::Mail, "timeout");
    let sent = Receipt::sent(Channel::Notification);
    let failed = Receipt::failed(Channel::Meow, "no such user");

    let record = attempt_record(&[retry.clone(), sent.clone()]);
    assert!(record.consume);
    assert_eq!(record.rows.len(), 2);
    assert_eq!(record.rows[0].channel, "mail");
    assert!(!record.rows[0].ok);
    assert_eq!(record.rows[0].error.as_deref(), Some("timeout"));
    assert_eq!(record.rows[1].channel, "notification");
    assert!(record.rows[1].ok);
    assert_eq!(record.rows[1].error, None);

    assert!(!attempt_record(&[retry.clone()]).consume);
    assert!(attempt_record(&[failed]).consume);
    assert!(attempt_record(&[]).consume);
}

#[test]
fn test_delivery_needs_a_ready_channel() {
    let error = test_delivery("sms", &DeliveryConfig::default()).unwrap_err();
    assert_eq!(error.code, ErrorCode::Input);
    assert_eq!(error.message, "未知渠道，只能是 notification / meow / mail");

    let off = test_delivery("notification", &DeliveryConfig::default()).unwrap_err();
    assert_eq!(off.message, "该渠道未开启或配置不完整");

    let half = DeliveryConfig { meow: true, ..DeliveryConfig::default() };
    assert_eq!(test_delivery("meow", &half).unwrap_err().message, "尚未填写 MeoW 昵称");

    let ready = DeliveryConfig { notification: true, ..DeliveryConfig::default() };
    let (channel, body) = test_delivery("notification", &ready).expect("系统通知已开启");
    assert_eq!(channel, Channel::Notification);
    assert_eq!(
        body,
        "这是一条来自 AMAX Dashboard 的测试消息（系统通知渠道），用于确认凭据与网络可用。"
    );
}

#[test]
fn meow_endpoint_is_the_base_with_two_segments_and_the_markdown_query() {
    assert_eq!(
        meow_endpoint("pika", "hi there").unwrap(),
        "https://api.chuckfang.com/pika/hi%20there?msgType=markdown"
    );
    assert_eq!(
        meow_endpoint("a/b", "t").unwrap(),
        "https://api.chuckfang.com/a%2Fb/t?msgType=markdown"
    );
}
