use amax_lib::alert::{
    alert_state_name, all_rule_keys, load_rules_enabled, plan_alert_round, resolve_rules_enabled, rule_keys,
    rule_switch_texts, rules_enabled_from_switches, select_firing, DayState, Finding, Rule,
};
use amax_lib::error::{AppError, ErrorCode};

fn all_rules() -> Vec<String> {
    rule_keys().into_iter().map(String::from).collect()
}

fn counts(rows: &[(&str, i64)]) -> Vec<(String, i64)> {
    rows.iter().map(|(key, count)| (key.to_string(), *count)).collect()
}

#[test]
fn cap_resumes_next_day_because_state_is_keyed_by_day() {
    let yesterday = DayState::from_counts(&[("quota_low".to_string(), 1)]);
    let today = DayState::from_counts(&[]);
    assert_eq!(yesterday.total, 1);
    assert_eq!(today, DayState::default());
}

#[test]
fn day_state_ignores_unknown_rule_keys() {
    let state = DayState::from_counts(&[("legacy_rule".to_string(), 7)]);
    assert_eq!(state.total, 0, "已删除规则的历史行不该吃掉当日额度");
}

#[test]
fn rules_enabled_rejects_unknown_key() {
    let error = resolve_rules_enabled(&all_rules(), Some(vec!["nope".to_string()]))
        .expect_err("未知规则应拒绝");
    assert_eq!(error.code, ErrorCode::Input);
    assert!(error.message.contains("nope"));
}

#[test]
fn rules_enabled_accepts_subset_in_canonical_order() {
    let resolved = resolve_rules_enabled(
        &[],
        Some(vec!["spike".to_string(), "quota_low".to_string()]),
    )
    .expect("子集应接受");
    assert_eq!(resolved, vec!["quota_low".to_string(), "spike".to_string()]);
}

#[test]
fn rules_enabled_none_keeps_current() {
    let current = vec!["quota_low".to_string()];
    assert_eq!(
        resolve_rules_enabled(&current, None).expect("未传应保留"),
        current
    );
}

#[test]
fn rule_keys_are_unique_and_match_declaration_order() {
    let keys = rule_keys();
    assert_eq!(keys.len(), Rule::ALL.len());
    assert_eq!(keys, vec!["quota_low", "runout_soon", "spike"]);
    assert!(
        Rule::ALL.iter().all(|rule| !rule.title().is_empty()),
        "每条规则都要有标题"
    );
}

#[test]
fn unknown_rule_keys_are_all_listed_in_the_message() {
    let error = resolve_rules_enabled(
        &[],
        Some(vec!["a".to_string(), "spike".to_string(), "b".to_string()]),
    )
    .expect_err("未知规则应拒绝");
    assert_eq!(error.message, "未知告警规则: a, b");
    let duplicated = resolve_rules_enabled(
        &[],
        Some(vec!["spike".to_string(), "spike".to_string()]),
    )
    .expect("重复的已知规则只算一次");
    assert_eq!(duplicated, vec!["spike".to_string()]);
}

#[test]
fn rule_keys_read_back_as_their_rules() {
    for rule in Rule::ALL {
        assert_eq!(Rule::from_key(rule.key()), Some(rule));
        assert_eq!(Rule::ALL[rule.index()], rule);
    }
    assert_eq!(Rule::from_key("nope"), None);
    assert_eq!(all_rule_keys(), all_rules());
}

#[test]
fn finding_carries_the_rule_key_and_title() {
    let finding = Finding::of(Rule::Spike, "今日花费异常".to_string());
    assert_eq!(finding.rule, "spike");
    assert_eq!(finding.title, Rule::Spike.title());
    assert_eq!(finding.message, "今日花费异常");
}

#[test]
fn day_state_counts_each_known_rule() {
    let state = DayState::from_counts(&counts(&[("quota_low", 1), ("legacy", 5), ("spike", 2)]));
    assert_eq!(state.total, 3);
    assert_eq!(state.count_of(Rule::QuotaLow), 1);
    assert_eq!(state.count_of(Rule::RunoutSoon), 0);
    assert_eq!(state.count_of(Rule::Spike), 2);
}

#[test]
fn firing_takes_breaching_rules_in_order_up_to_the_cap() {
    let empty = DayState::default();
    let breached = [Rule::Spike, Rule::QuotaLow, Rule::RunoutSoon];
    assert_eq!(
        select_firing(true, 2, &all_rules(), &empty, &breached),
        vec![Rule::QuotaLow, Rule::RunoutSoon]
    );
    assert_eq!(
        select_firing(true, 1, &all_rules(), &empty, &breached),
        vec![Rule::QuotaLow]
    );
    assert_eq!(
        select_firing(true, 10, &all_rules(), &empty, &breached),
        vec![Rule::QuotaLow, Rule::RunoutSoon, Rule::Spike]
    );
}

#[test]
fn firing_is_silenced_by_master_switch_zero_cap_and_exhausted_budget() {
    let empty = DayState::default();
    let breached = [Rule::QuotaLow];
    assert!(select_firing(false, 2, &all_rules(), &empty, &breached).is_empty());
    assert!(select_firing(true, 0, &all_rules(), &empty, &breached).is_empty());
    let spent = DayState::from_counts(&counts(&[("spike", 2)]));
    assert!(select_firing(true, 2, &all_rules(), &spent, &breached).is_empty());
}

#[test]
fn a_rule_delivered_today_is_not_chosen_again() {
    let state = DayState::from_counts(&counts(&[("quota_low", 1)]));
    let breached = [Rule::QuotaLow, Rule::Spike];
    assert_eq!(
        select_firing(true, 2, &all_rules(), &state, &breached),
        vec![Rule::Spike]
    );
}

#[test]
fn disabled_rules_are_never_chosen() {
    let empty = DayState::default();
    let enabled = vec!["spike".to_string()];
    assert_eq!(
        select_firing(true, 2, &enabled, &empty, &[Rule::QuotaLow, Rule::Spike]),
        vec![Rule::Spike]
    );
}

#[test]
fn alert_state_names_follow_switch_and_cap() {
    assert_eq!(alert_state_name(false, 2, 0), "disabled");
    assert_eq!(alert_state_name(true, 2, 2), "cap_hit");
    assert_eq!(alert_state_name(true, 2, 1), "armed");
    assert_eq!(alert_state_name(true, 0, 0), "cap_hit");
}

#[test]
fn unreadable_rule_switches_mean_all_rules() {
    assert_eq!(load_rules_enabled(Err(AppError::storage("坏了"))), all_rules());
    let some = vec!["spike".to_string()];
    assert_eq!(load_rules_enabled(Ok(some.clone())), some);
}

#[test]
fn rule_switches_default_on_and_round_trip() {
    let known = rule_keys();
    let stored = vec![None, Some(" 0 ".to_string()), Some(" 1\n".to_string())];
    assert_eq!(
        rules_enabled_from_switches(&known, &stored),
        vec!["quota_low".to_string(), "spike".to_string()]
    );
    let texts = rule_switch_texts(&["spike".to_string(), "nope".to_string()], &known);
    assert_eq!(texts, vec!["0", "0", "1"]);
    let stored_back: Vec<Option<String>> = texts.iter().map(|t| Some(t.to_string())).collect();
    assert_eq!(
        rules_enabled_from_switches(&known, &stored_back),
        vec!["spike".to_string()]
    );
}

#[test]
fn an_alert_round_starts_what_is_not_already_in_delivery() {
    assert_eq!(plan_alert_round(&[], 2, &[]), (vec![], true));
    assert_eq!(plan_alert_round(&[Rule::QuotaLow], 0, &[]), (vec![], true));
    assert_eq!(
        plan_alert_round(&[Rule::QuotaLow, Rule::Spike], 1, &[Rule::QuotaLow]),
        (vec![Rule::Spike], false)
    );
    assert_eq!(plan_alert_round(&[Rule::Spike], 3, &[Rule::Spike]), (vec![], true));
    assert_eq!(
        plan_alert_round(&[Rule::RunoutSoon, Rule::RunoutSoon], 1, &[]),
        (vec![Rule::RunoutSoon], false)
    );
}

#[test]
fn day_state_fields_hold_the_counts() {
    let state = DayState::from_counts(&counts(&[("runout_soon", 2), ("spike", 1)]));
    assert_eq!((state.total, state.quota_low, state.runout_soon, state.spike), (3, 0, 2, 1));
}
