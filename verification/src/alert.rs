//! Quota and spending alerts: which rules fire today.
//!
//! Three rules share one baseline of recent days with usage and one
//! de-duplication and cap policy:
//! - `quota_low`: the remaining percentage is below a watermark;
//! - `runout_soon`: remaining ÷ recent daily average is within a number of days;
//! - `spike`: today's spend reaches a multiple of the recent median.
//!
//! De-duplication is "one delivery per rule per day", kept in persistent per-day
//! counts; the daily cap bounds deliveries over all rules together, and a cap of 0
//! silences the day. Whether a rule breaches is decided on money amounts by the
//! caller; this module decides which breaching rules are delivered.

use vstd::prelude::*;
use vstd::string::*;
use crate::error::{AppError, ErrorCode};
use crate::text::{join, views, str_eq, trimmed, trim};

verus! {

/// Baseline window in days (today excluded).
pub const BASELINE_WINDOW_DAYS: i64 = 7;
/// Fewest days with usage for which the spike rule judges at all.
pub const MIN_SPIKE_SAMPLES: usize = 3;
/// Upper bound of the adjustable daily cap.
pub const MAX_DAILY_FIRES_LIMIT: i64 = 10;

#[derive(Debug, Clone, Copy, PartialEq, Eq, Structural)]
pub enum Rule {
    QuotaLow,
    RunoutSoon,
    Spike,
}

/// All rules in evaluation order, which is also delivery order.
pub open spec fn all_rules() -> Seq<Rule> {
    seq![Rule::QuotaLow, Rule::RunoutSoon, Rule::Spike]
}

pub open spec fn rule_key_of(rule: Rule) -> Seq<char> {
    match rule {
        Rule::QuotaLow => "quota_low"@,
        Rule::RunoutSoon => "runout_soon"@,
        Rule::Spike => "spike"@,
    }
}

pub open spec fn rule_title_of(rule: Rule) -> Seq<char> {
    match rule {
        Rule::QuotaLow => "⚠️ AMAX 额度不足"@,
        Rule::RunoutSoon => "⏳ AMAX 额度将耗尽"@,
        Rule::Spike => "📈 AMAX 今日花费异常"@,
    }
}

pub open spec fn rule_index_of(rule: Rule) -> int {
    match rule {
        Rule::QuotaLow => 0,
        Rule::RunoutSoon => 1,
        Rule::Spike => 2,
    }
}

/// The rule whose key is `key`, if any.
pub open spec fn rule_named(key: Seq<char>) -> Option<Rule> {
    if key == "quota_low"@ {
        Some(Rule::QuotaLow)
    } else if key == "runout_soon"@ {
        Some(Rule::RunoutSoon)
    } else if key == "spike"@ {
        Some(Rule::Spike)
    } else {
        None
    }
}

/// The keys of all rules, in declaration order.
pub open spec fn rule_key_list() -> Seq<Seq<char>> {
    seq!["quota_low"@, "runout_soon"@, "spike"@]
}

impl Rule {
    pub const ALL: [Rule; 3] = [Rule::QuotaLow, Rule::RunoutSoon, Rule::Spike];

    /// Key shared by the per-day counts, the per-rule switch and event payloads.
    pub fn key(self) -> (res: &'static str)
        ensures
            res@ == rule_key_of(self),
    {
        match self {
            Rule::QuotaLow => "quota_low",
            Rule::RunoutSoon => "runout_soon",
            Rule::Spike => "spike",
        }
    }

    /// Position in evaluation order.
    pub fn index(self) -> (res: usize)
        ensures
            res == rule_index_of(self),
            all_rules()[res as int] == self,
    {
        match self {
            Rule::QuotaLow => 0,
            Rule::RunoutSoon => 1,
            Rule::Spike => 2,
        }
    }

    pub fn from_key(key: &str) -> (res: Option<Rule>)
        ensures
            res == rule_named(key@),
    {
        if str_eq(key, "quota_low") {
            Some(Rule::QuotaLow)
        } else if str_eq(key, "runout_soon") {
            Some(Rule::RunoutSoon)
        } else if str_eq(key, "spike") {
            Some(Rule::Spike)
        } else {
            None
        }
    }

    pub fn title(self) -> (res: &'static str)
        ensures
            res@ == rule_title_of(self),
    {
        match self {
            Rule::QuotaLow => "⚠️ AMAX 额度不足",
            Rule::RunoutSoon => "⏳ AMAX 额度将耗尽",
            Rule::Spike => "📈 AMAX 今日花费异常",
        }
    }
}

/// The three rule keys are distinct, so each rule is found again by its key.
pub proof fn lemma_rule_keys_identify_rules(rule: Rule)
    ensures
        rule_named(rule_key_of(rule)) == Some(rule),
        rule_key_list() == all_rules().map_values(|r: Rule| rule_key_of(r)),
{
    reveal_strlit("quota_low");
    reveal_strlit("runout_soon");
    reveal_strlit("spike");
    assert("quota_low"@ != "runout_soon"@ && "quota_low"@ != "spike"@ && "runout_soon"@ != "spike"@) by {
        assert("quota_low"@.len() != "runout_soon"@.len());
        assert("quota_low"@.len() != "spike"@.len());
        assert("runout_soon"@.len() != "spike"@.len());
    }
    assert(rule_key_list() =~= all_rules().map_values(|r: Rule| rule_key_of(r)));
}

/// All rule keys, in declaration order.
pub fn rule_keys() -> (res: Vec<&'static str>)
    ensures
        res@.len() == 3,
        forall|i: int| 0 <= i < 3 ==> #[trigger] res@[i]@ == rule_key_list()[i],
{
    let mut keys: Vec<&'static str> = Vec::new();
    keys.push(Rule::QuotaLow.key());
    keys.push(Rule::RunoutSoon.key());
    keys.push(Rule::Spike.key());
    keys
}


/// One alert to deliver.
#[derive(Debug, Clone, PartialEq)]
pub struct Finding {
    pub rule: &'static str,
    pub title: String,
    pub message: String,
}

impl Finding {
    /// The finding of `rule` with the given body text.
    pub fn of(rule: Rule, message: String) -> (res: Finding)
        ensures
            res.rule@ == rule_key_of(rule),
            res.title@ == rule_title_of(rule),
            res.message == message,
    {
        Finding { rule: rule.key(), title: String::from_str(rule.title()), message }
    }
}

/// Deliveries made today: `total` over all rules, and the count of each rule.
#[derive(Debug, Clone, Copy, Default, PartialEq, Eq)]
pub struct DayState {
    pub total: i64,
    pub quota_low: i64,
    pub runout_soon: i64,
    pub spike: i64,
}

/// Sum of the counts whose key names a rule; rows of unknown keys are ignored.
pub open spec fn known_total(counts: Seq<(String, i64)>) -> int
    decreases counts.len(),
{
    if counts.len() == 0 {
        0
    } else {
        known_total(counts.drop_last()) + if rule_named(counts.last().0@) is Some {
            counts.last().1 as int
        } else {
            0
        }
    }
}

/// The count of the last row whose key is the key of `rule`, or 0 without such a row.
pub open spec fn last_count(counts: Seq<(String, i64)>, rule: Rule) -> i64
    decreases counts.len(),
{
    if counts.len() == 0 {
        0
    } else if rule_named(counts.last().0@) == Some(rule) {
        counts.last().1
    } else {
        last_count(counts.drop_last(), rule)
    }
}

/// Every running total of the known counts fits in an `i64`.
pub open spec fn totals_fit(counts: Seq<(String, i64)>) -> bool {
    forall|k: int| 0 <= k <= counts.len() ==> i64::MIN <= #[trigger] known_total(counts.take(k)) <= i64::MAX
}

impl DayState {
    /// Today's total over all rules.
    pub open spec fn total_count(self) -> i64 {
        self.total
    }

    /// Today's count of `rule`.
    pub open spec fn count(self, rule: Rule) -> i64 {
        match rule {
            Rule::QuotaLow => self.quota_low,
            Rule::RunoutSoon => self.runout_soon,
            Rule::Spike => self.spike,
        }
    }

    /// Built from stored `(rule key, count)` rows; rows with unknown keys are ignored.
    pub fn from_counts(counts: &[(String, i64)]) -> (res: Self)
        requires
            totals_fit(counts@),
        ensures
            res.total_count() == known_total(counts@),
            forall|rule: Rule| #[trigger] res.count(rule) == last_count(counts@, rule),
    {
        let mut state = DayState { total: 0, quota_low: 0, runout_soon: 0, spike: 0 };
        let mut i: usize = 0;
        while i < counts.len()
            invariant
                i <= counts@.len(),
                totals_fit(counts@),
                state.total == known_total(counts@.take(i as int)),
                forall|rule: Rule| #[trigger] state.count(rule) == last_count(counts@.take(i as int), rule),
            decreases counts@.len() - i,
        {
            let (key, count) = (&counts[i].0, counts[i].1);
            let ghost before = counts@.take(i as int);
            let ghost after = counts@.take(i + 1);
            assert(after.drop_last() =~= before);
            assert(after.last() == counts@[i as int]);
            let ghost old_state = state;
            match Rule::from_key(key.as_str()) {
                Some(rule) => {
                    assert(i64::MIN <= known_total(after) <= i64::MAX);
                    state.total = state.total + count;
                    match rule {
                        Rule::QuotaLow => state.quota_low = count,
                        Rule::RunoutSoon => state.runout_soon = count,
                        Rule::Spike => state.spike = count,
                    }
                },
                None => {},
            }
            assert(after.len() > 0);
            assert(rule_named(after.last().0@) == rule_named(key@));
            assert forall|r: Rule| #[trigger] state.count(r) == last_count(after, r) by {
                assert(last_count(after, r) == if rule_named(after.last().0@) == Some(r) {
                    after.last().1
                } else {
                    last_count(after.drop_last(), r)
                });
                assert(old_state.count(r) == last_count(before, r));
                if rule_named(key@) != Some(r) {
                    assert(state.count(r) == old_state.count(r));
                }
            }
            i = i + 1;
        }
        assert(counts@.take(counts@.len() as int) =~= counts@);
        state
    }

    /// Today's count of `rule`.
    pub fn count_of(self, rule: Rule) -> (res: i64)
        ensures
            res == self.count(rule),
    {
        match rule {
            Rule::QuotaLow => self.quota_low,
            Rule::RunoutSoon => self.runout_soon,
            Rule::Spike => self.spike,
        }
    }
}

/// `key` is one of `enabled`.
pub open spec fn listed(enabled: Seq<Seq<char>>, key: Seq<char>) -> bool {
    enabled.contains(key)
}

/// `rule` may fire now: switched on, not yet delivered today, and breaching.
pub open spec fn eligible(rule: Rule, enabled: Seq<Seq<char>>, state: DayState, breached: Seq<Rule>) -> bool {
    &&& listed(enabled, rule_key_of(rule))
    &&& state.count(rule) == 0
    &&& breached.contains(rule)
}

/// The eligible rules in evaluation order.
pub open spec fn eligible_rules(enabled: Seq<Seq<char>>, state: DayState, breached: Seq<Rule>) -> Seq<Rule> {
    let a = if eligible(Rule::QuotaLow, enabled, state, breached) { seq![Rule::QuotaLow] } else { Seq::empty() };
    let b = if eligible(Rule::RunoutSoon, enabled, state, breached) { seq![Rule::RunoutSoon] } else { Seq::empty() };
    let c = if eligible(Rule::Spike, enabled, state, breached) { seq![Rule::Spike] } else { Seq::empty() };
    a + b + c
}

/// The rules to deliver: nothing when alerts are off or today's cap is reached;
/// otherwise the eligible rules in order, as many as the cap still allows.
pub open spec fn firing_rules(
    alerts_on: bool,
    max_fires: i64,
    enabled: Seq<Seq<char>>,
    state: DayState,
    breached: Seq<Rule>,
) -> Seq<Rule> {
    if !alerts_on || state.total_count() >= max_fires {
        Seq::empty()
    } else {
        let eligible = eligible_rules(enabled, state, breached);
        if eligible.len() <= max_fires - state.total_count() {
            eligible
        } else {
            eligible.take(max_fires - state.total_count())
        }
    }
}

fn is_listed(enabled: &[String], key: &str) -> (res: bool)
    ensures
        res == listed(views(enabled@), key@),
{
    let mut j: usize = 0;
    while j < enabled.len()
        invariant
            j <= enabled@.len(),
            forall|k: int| 0 <= k < j ==> enabled@[k]@ != key@,
        decreases enabled@.len() - j,
    {
        if str_eq(enabled[j].as_str(), key) {
            assert(views(enabled@)[j as int] == key@);
            return true;
        }
        j = j + 1;
    }
    assert(!views(enabled@).contains(key@)) by {
        if views(enabled@).contains(key@) {
            let k = choose|k: int| 0 <= k < views(enabled@).len() && views(enabled@)[k] == key@;
            assert(enabled@[k]@ == key@);
        }
    }
    false
}

fn contains_rule(rules: &[Rule], rule: Rule) -> (res: bool)
    ensures
        res == rules@.contains(rule),
{
    let mut j: usize = 0;
    while j < rules.len()
        invariant
            j <= rules@.len(),
            forall|k: int| 0 <= k < j ==> rules@[k] != rule,
        decreases rules@.len() - j,
    {
        if rules[j] == rule {
            return true;
        }
        j = j + 1;
    }
    false
}

fn is_eligible(rule: Rule, enabled: &[String], state: &DayState, breached: &[Rule]) -> (res: bool)
    ensures
        res == eligible(rule, views(enabled@), *state, breached@),
{
    is_listed(enabled, rule.key()) && state.count_of(rule) == 0 && contains_rule(breached, rule)
}

/// Chooses which breaching rules to deliver now: enabled ones not yet delivered
/// today, in evaluation order, up to what is left of today's cap.
pub fn select_firing(
    alerts_on: bool,
    max_fires: i64,
    rules_enabled: &[String],
    state: &DayState,
    breached: &[Rule],
) -> (res: Vec<Rule>)
    ensures
        res@ == firing_rules(alerts_on, max_fires, views(rules_enabled@), *state, breached@),
{
    if !alerts_on || state.total >= max_fires {
        return Vec::new();
    }
    let budget: i128 = max_fires as i128 - state.total as i128;
    let mut out: Vec<Rule> = Vec::new();
    let q = is_eligible(Rule::QuotaLow, rules_enabled, state, breached);
    let r = is_eligible(Rule::RunoutSoon, rules_enabled, state, breached);
    let s = is_eligible(Rule::Spike, rules_enabled, state, breached);
    if q && (out.len() as i128) < budget {
        out.push(Rule::QuotaLow);
    }
    if r && (out.len() as i128) < budget {
        out.push(Rule::RunoutSoon);
    }
    if s && (out.len() as i128) < budget {
        out.push(Rule::Spike);
    }
    assert(out@ =~= firing_rules(alerts_on, max_fires, views(rules_enabled@), *state, breached@));
    out
}

/// Today's cap holds, and only enabled, breaching rules not yet delivered today are
/// chosen, each once, in evaluation order; with alerts off nothing is chosen.
pub proof fn lemma_firing_respects_cap_and_dedup(
    alerts_on: bool,
    max_fires: i64,
    enabled: Seq<Seq<char>>,
    state: DayState,
    breached: Seq<Rule>,
)
    ensures
        ({
            let fired = firing_rules(alerts_on, max_fires, enabled, state, breached);
            &&& !alerts_on ==> fired.len() == 0
            &&& fired.len() > 0 ==> state.total_count() + fired.len() <= max_fires
            &&& forall|i: int| 0 <= i < fired.len() ==> eligible(#[trigger] fired[i], enabled, state, breached)
            &&& forall|i: int, j: int| 0 <= i < j < fired.len() ==> rule_index_of(fired[i]) < rule_index_of(fired[j])
        }),
{
    let e = eligible_rules(enabled, state, breached);
    assert forall|i: int, j: int| 0 <= i < j < e.len() implies rule_index_of(e[i]) < rule_index_of(e[j]) by {}
    assert forall|i: int| 0 <= i < e.len() implies eligible(#[trigger] e[i], enabled, state, breached) by {}
}

/// A rule delivered today (its last stored count is positive) is not chosen again today.
pub proof fn lemma_delivered_rule_not_refired(
    counts: Seq<(String, i64)>,
    state: DayState,
    rule: Rule,
    alerts_on: bool,
    max_fires: i64,
    enabled: Seq<Seq<char>>,
    breached: Seq<Rule>,
)
    requires
        state.count(rule) == last_count(counts, rule),
        last_count(counts, rule) > 0,
    ensures
        !firing_rules(alerts_on, max_fires, enabled, state, breached).contains(rule),
{
    lemma_firing_respects_cap_and_dedup(alerts_on, max_fires, enabled, state, breached);
    let fired = firing_rules(alerts_on, max_fires, enabled, state, breached);
    if fired.contains(rule) {
        let i = choose|i: int| 0 <= i < fired.len() && fired[i] == rule;
        assert(eligible(fired[i], enabled, state, breached));
    }
}

/// With no deliveries recorded for a day (a new day), every enabled breaching rule
/// is chosen in order, up to the cap.
pub proof fn lemma_new_day_starts_from_zero(
    state: DayState,
    alerts_on: bool,
    max_fires: i64,
    enabled: Seq<Seq<char>>,
    breached: Seq<Rule>,
)
    requires
        state.total_count() == known_total(Seq::empty()),
        forall|rule: Rule| #[trigger] state.count(rule) == last_count(Seq::empty(), rule),
        alerts_on,
        max_fires > 0,
    ensures
        ({
            let candidates = all_rules().filter(|r: Rule| listed(enabled, rule_key_of(r)) && breached.contains(r));
            firing_rules(alerts_on, max_fires, enabled, state, breached)
                == if candidates.len() <= max_fires { candidates } else { candidates.take(max_fires as int) }
        }),
{
    let f = |r: Rule| listed(enabled, rule_key_of(r)) && breached.contains(r);
    let candidates = all_rules().filter(f);
    reveal_with_fuel(Seq::filter, 4);
    assert(state.count(Rule::QuotaLow) == 0);
    assert(state.count(Rule::RunoutSoon) == 0);
    assert(state.count(Rule::Spike) == 0);
    assert(all_rules().drop_last() =~= seq![Rule::QuotaLow, Rule::RunoutSoon]);
    assert(seq![Rule::QuotaLow, Rule::RunoutSoon].drop_last() =~= seq![Rule::QuotaLow]);
    assert(seq![Rule::QuotaLow].drop_last() =~= Seq::<Rule>::empty());
    assert(candidates =~= eligible_rules(enabled, state, breached));
}

/// On any day with alerts on and part of the cap left, the rules chosen are exactly
/// the switched-on, breaching rules not delivered today, in evaluation order, cut to
/// what is left of the cap; so something is chosen whenever some rule qualifies.
pub proof fn lemma_firing_fills_what_is_left_of_the_cap(
    max_fires: i64,
    enabled: Seq<Seq<char>>,
    state: DayState,
    breached: Seq<Rule>,
)
    requires
        state.total_count() < max_fires,
    ensures
        ({
            let candidates = all_rules().filter(
                |r: Rule| enabled.contains(rule_key_of(r)) && state.count(r) == 0 && breached.contains(r),
            );
            let left = max_fires - state.total_count();
            &&& firing_rules(true, max_fires, enabled, state, breached) == if candidates.len() <= left {
                candidates
            } else {
                candidates.take(left)
            }
            &&& candidates.len() > 0 ==> firing_rules(true, max_fires, enabled, state, breached).len() > 0
        }),
{
    let f = |r: Rule| enabled.contains(rule_key_of(r)) && state.count(r) == 0 && breached.contains(r);
    let candidates = all_rules().filter(f);
    reveal_with_fuel(Seq::filter, 4);
    assert(all_rules().drop_last() =~= seq![Rule::QuotaLow, Rule::RunoutSoon]);
    assert(seq![Rule::QuotaLow, Rule::RunoutSoon].drop_last() =~= seq![Rule::QuotaLow]);
    assert(seq![Rule::QuotaLow].drop_last() =~= Seq::<Rule>::empty());
    assert(candidates =~= eligible_rules(enabled, state, breached));
}

/// Name of today's alert state: `disabled` when alerts are off, `cap_hit` once
/// today's deliveries reach the cap, `armed` otherwise.
pub open spec fn alert_state_name_of(alerts_on: bool, max_fires: i64, fired_today: i64) -> Seq<char> {
    if !alerts_on {
        "disabled"@
    } else if fired_today >= max_fires {
        "cap_hit"@
    } else {
        "armed"@
    }
}

pub fn alert_state_name(alerts_on: bool, max_fires: i64, fired_today: i64) -> (res: &'static str)
    ensures
        res@ == alert_state_name_of(alerts_on, max_fires, fired_today),
{
    if !alerts_on {
        "disabled"
    } else if fired_today >= max_fires {
        "cap_hit"
    } else {
        "armed"
    }
}


/// Requested keys that name no rule, in request order.
pub open spec fn unknown_keys(requested: Seq<Seq<char>>) -> Seq<Seq<char>>
    decreases requested.len(),
{
    if requested.len() == 0 {
        Seq::empty()
    } else {
        unknown_keys(requested.drop_last()) + if rule_named(requested.last()) is None {
            seq![requested.last()]
        } else {
            Seq::empty()
        }
    }
}

/// The rule keys found in `requested`, in declaration order.
pub open spec fn canonical_rules(requested: Seq<Seq<char>>) -> Seq<Seq<char>> {
    let a = if requested.contains("quota_low"@) { seq!["quota_low"@] } else { Seq::empty() };
    let b = if requested.contains("runout_soon"@) { seq!["runout_soon"@] } else { Seq::empty() };
    let c = if requested.contains("spike"@) { seq!["spike"@] } else { Seq::empty() };
    a + b + c
}

pub open spec fn unknown_rules_message(unknown: Seq<Seq<char>>) -> Seq<char> {
    "未知告警规则: "@ + join(unknown, ", "@)
}

fn string_list_contains(list: &[String], key: &str) -> (res: bool)
    ensures
        res == views(list@).contains(key@),
{
    is_listed(list, key)
}

/// Resolves a write of the enabled rules: `None` keeps `current`; otherwise every
/// requested key must name a rule, and the result lists them in declaration order.
pub fn resolve_rules_enabled(current: &[String], requested: Option<Vec<String>>) -> (res: Result<Vec<String>, AppError>)
    ensures
        match requested {
            None => res matches Ok(v) && views(v@) == views(current@),
            Some(req) => if unknown_keys(views(req@)).len() > 0 {
                res matches Err(e) && e.code == ErrorCode::Input && e.message@ == unknown_rules_message(
                    unknown_keys(views(req@)),
                )
            } else {
                res matches Ok(v) && views(v@) == canonical_rules(views(req@))
            },
        },
{
    let requested = match requested {
        None => {
            let mut copy: Vec<String> = Vec::new();
            let mut i: usize = 0;
            while i < current.len()
                invariant
                    i <= current@.len(),
                    views(copy@) == views(current@.take(i as int)),
                decreases current@.len() - i,
            {
                let item = current[i].clone();
                assert(item@ == current@[i as int]@);
                let ghost before = copy@;
                copy.push(item);
                assert(views(copy@) =~= views(before).push(item@));
                assert(views(current@.take(i + 1)) =~= views(current@.take(i as int)).push(current@[i as int]@));
                i = i + 1;
                assert(views(copy@) =~= views(current@.take(i as int)));
            }
            assert(current@.take(current@.len() as int) =~= current@);
            return Ok(copy);
        },
        Some(requested) => requested,
    };
    let ghost req = views(requested@);
    let mut message = String::from_str("未知告警规则: ");
    let mut listed_unknown: usize = 0;
    let mut i: usize = 0;
    while i < requested.len()
        invariant
            i <= requested@.len(),
            req == views(requested@),
            listed_unknown <= i,
            listed_unknown == unknown_keys(req.take(i as int)).len(),
            message@ == unknown_rules_message(unknown_keys(req.take(i as int))),
        decreases requested@.len() - i,
    {
        let ghost prefix = req.take(i as int);
        let ghost next = req.take(i + 1);
        assert(next.drop_last() =~= prefix);
        assert(next.last() == requested@[i as int]@);
        let key = requested[i].as_str();
        if Rule::from_key(key).is_none() {
            if listed_unknown > 0 {
                message.append(", ");
            }
            message.append(key);
            proof {
                let u = unknown_keys(prefix);
                assert(unknown_keys(next) == u.push(key@));
                if u.len() > 0 {
                    assert(u.push(key@).drop_last() =~= u);
                } else {
                    assert(join(u.push(key@), ", "@) == key@);
                }
                assert(message@ =~= unknown_rules_message(unknown_keys(next)));
            }
            listed_unknown = listed_unknown + 1;
        } else {
            assert(unknown_keys(next) =~= unknown_keys(prefix));
        }
        i = i + 1;
    }
    assert(req.take(requested@.len() as int) =~= req);
    if listed_unknown > 0 {
        return Err(AppError::input(message.as_str()));
    }
    let mut resolved: Vec<String> = Vec::new();
    if string_list_contains(requested.as_slice(), "quota_low") {
        resolved.push(String::from_str("quota_low"));
    }
    if string_list_contains(requested.as_slice(), "runout_soon") {
        resolved.push(String::from_str("runout_soon"));
    }
    if string_list_contains(requested.as_slice(), "spike") {
        resolved.push(String::from_str("spike"));
    }
    assert(views(resolved@) =~= canonical_rules(req));
    Ok(resolved)
}

/// A request has no unknown keys exactly when every requested key names a rule.
pub proof fn lemma_no_unknown_keys(requested: Seq<Seq<char>>)
    ensures
        (unknown_keys(requested).len() == 0) <==> forall|i: int|
            0 <= i < requested.len() ==> rule_named(#[trigger] requested[i]) is Some,
    decreases requested.len(),
{
    if requested.len() > 0 {
        let init = requested.drop_last();
        lemma_no_unknown_keys(init);
        if unknown_keys(requested).len() == 0 {
            assert forall|i: int| 0 <= i < requested.len() implies rule_named(#[trigger] requested[i]) is Some by {
                if i < requested.len() - 1 {
                    assert(requested[i] == init[i]);
                }
            }
        }
        if forall|i: int| 0 <= i < requested.len() ==> rule_named(#[trigger] requested[i]) is Some {
            assert forall|i: int| 0 <= i < init.len() implies rule_named(#[trigger] init[i]) is Some by {
                assert(init[i] == requested[i]);
            }
            assert(rule_named(requested[requested.len() - 1]) is Some);
        }
    }
}

/// A request of known keys resolves to exactly the rule keys it names, each once, in
/// declaration order: a key is enabled if and only if it was requested (so an empty
/// request switches every rule off).
pub proof fn lemma_resolved_rules_are_the_requested_ones(requested: Seq<Seq<char>>)
    requires
        unknown_keys(requested).len() == 0,
    ensures
        canonical_rules(requested) == rule_key_list().filter(|k: Seq<char>| requested.contains(k)),
        forall|k: Seq<char>| #[trigger] canonical_rules(requested).contains(k) <==> requested.contains(k),
        requested.len() == 0 ==> canonical_rules(requested).len() == 0,
{
    let f = |k: Seq<char>| requested.contains(k);
    reveal_with_fuel(Seq::filter, 4);
    assert(rule_key_list().drop_last() =~= seq!["quota_low"@, "runout_soon"@]);
    assert(seq!["quota_low"@, "runout_soon"@].drop_last() =~= seq!["quota_low"@]);
    assert(seq!["quota_low"@].drop_last() =~= Seq::<Seq<char>>::empty());
    assert(canonical_rules(requested) =~= rule_key_list().filter(f));
    lemma_no_unknown_keys(requested);
    let c = canonical_rules(requested);
    assert forall|k: Seq<char>| #[trigger] c.contains(k) <==> requested.contains(k) by {
        if requested.contains(k) {
            let i = choose|i: int| 0 <= i < requested.len() && requested[i] == k;
            assert(rule_named(requested[i]) is Some);
            if k == "quota_low"@ {
                assert(c[0] == k);
            } else if k == "runout_soon"@ {
                if requested.contains("quota_low"@) {
                    assert(c[1] == k);
                } else {
                    assert(c[0] == k);
                }
            } else {
                assert(c[c.len() - 1] == k);
            }
        }
        if c.contains(k) {
            let j = choose|j: int| 0 <= j < c.len() && c[j] == k;
            assert(requested.contains(c[j]));
        }
    }
}

/// The keys of all rules as owned strings.
pub fn all_rule_keys() -> (res: Vec<String>)
    ensures
        views(res@) == rule_key_list(),
{
    let mut keys: Vec<String> = Vec::new();
    keys.push(String::from_str("quota_low"));
    keys.push(String::from_str("runout_soon"));
    keys.push(String::from_str("spike"));
    assert(views(keys@) =~= rule_key_list());
    keys
}

/// Enabled rules as read from storage; a failed read counts as all rules enabled.
pub fn load_rules_enabled(stored: Result<Vec<String>, AppError>) -> (res: Vec<String>)
    ensures
        match stored {
            Ok(v) => res == v,
            Err(_) => views(res@) == rule_key_list(),
        },
{
    match stored {
        Ok(rules) => rules,
        Err(_) => all_rule_keys(),
    }
}

pub open spec fn opt_view(value: Option<String>) -> Option<Seq<char>> {
    match value {
        Some(s) => Some(s@),
        None => None,
    }
}

/// A stored per-rule switch: missing means on, otherwise on exactly when it reads `1`
/// once trimmed.
pub open spec fn switch_on(value: Option<Seq<char>>) -> bool {
    match value {
        None => true,
        Some(v) => trim(v) == "1"@,
    }
}

/// The keys of `known` whose stored switch is on, in the order of `known`.
pub open spec fn switched_on(known: Seq<Seq<char>>, stored: Seq<Option<Seq<char>>>) -> Seq<Seq<char>>
    decreases known.len(),
{
    if known.len() == 0 || stored.len() == 0 {
        Seq::empty()
    } else {
        switched_on(known.drop_last(), stored.drop_last()) + if switch_on(stored.last()) {
            seq![known.last()]
        } else {
            Seq::empty()
        }
    }
}

/// The keys of `known` that occur in `rules`, in the order of `known`.
pub open spec fn known_in(known: Seq<Seq<char>>, rules: Seq<Seq<char>>) -> Seq<Seq<char>>
    decreases known.len(),
{
    if known.len() == 0 {
        Seq::empty()
    } else {
        known_in(known.drop_last(), rules) + if rules.contains(known.last()) {
            seq![known.last()]
        } else {
            Seq::empty()
        }
    }
}

/// The text stored for each known rule's switch when `rules` are the enabled ones.
pub open spec fn switch_texts(known: Seq<Seq<char>>, rules: Seq<Seq<char>>) -> Seq<Seq<char>> {
    Seq::new(known.len(), |i: int| if rules.contains(known[i]) { "1"@ } else { "0"@ })
}

fn switch_is_on(value: &Option<String>) -> (res: bool)
    ensures
        res == switch_on(opt_view(*value)),
{
    match value {
        None => true,
        Some(v) => {
            let t = trimmed(v.as_str());
            let one = crate::text::chars_of("1");
            crate::text::chars_eq(t.as_slice(), one.as_slice())
        },
    }
}

/// Reads the enabled rules from the stored switch of each known rule
/// (`stored[i]` belongs to `known[i]`).
pub fn rules_enabled_from_switches(known: &[&str], stored: &[Option<String>]) -> (res: Vec<String>)
    requires
        known@.len() == stored@.len(),
    ensures
        views(res@) == switched_on(known@.map_values(|k: &str| k@), stored@.map_values(|o: Option<String>| opt_view(o))),
{
    let ghost ks = known@.map_values(|k: &str| k@);
    let ghost ss = stored@.map_values(|o: Option<String>| opt_view(o));
    let mut enabled: Vec<String> = Vec::new();
    let mut i: usize = 0;
    while i < known.len()
        invariant
            known@.len() == stored@.len(),
            i <= known@.len(),
            ks == known@.map_values(|k: &str| k@),
            ss == stored@.map_values(|o: Option<String>| opt_view(o)),
            views(enabled@) == switched_on(ks.take(i as int), ss.take(i as int)),
        decreases known@.len() - i,
    {
        assert(ks.take(i + 1).drop_last() =~= ks.take(i as int));
        assert(ss.take(i + 1).drop_last() =~= ss.take(i as int));
        assert(ss.take(i + 1).last() == opt_view(stored@[i as int]));
        if switch_is_on(&stored[i]) {
            enabled.push(String::from_str(known[i]));
        }
        i = i + 1;
        assert(views(enabled@) =~= switched_on(ks.take(i as int), ss.take(i as int)));
    }
    assert(ks.take(known@.len() as int) =~= ks);
    assert(ss.take(known@.len() as int) =~= ss);
    enabled
}

/// The switch text to store for each known rule: `1` when it is among `rules`, else `0`.
pub fn rule_switch_texts(rules: &[String], known: &[&str]) -> (res: Vec<&'static str>)
    ensures
        res@.map_values(|t: &str| t@) == switch_texts(known@.map_values(|k: &str| k@), views(rules@)),
{
    let ghost ks = known@.map_values(|k: &str| k@);
    let mut out: Vec<&'static str> = Vec::new();
    let mut i: usize = 0;
    while i < known.len()
        invariant
            i <= known@.len(),
            ks == known@.map_values(|k: &str| k@),
            out@.map_values(|t: &str| t@) == switch_texts(ks, views(rules@)).take(i as int),
        decreases known@.len() - i,
    {
        let ghost before = out@;
        assert(ks[i as int] == known@[i as int]@);
        if is_listed(rules, known[i]) {
            out.push("1");
        } else {
            out.push("0");
        }
        assert(out@.map_values(|t: &str| t@) =~= before.map_values(|t: &str| t@).push(switch_texts(ks, views(rules@))[i as int]));
        i = i + 1;
        assert(out@.map_values(|t: &str| t@) =~= switch_texts(ks, views(rules@)).take(i as int));
    }
    assert(switch_texts(ks, views(rules@)).take(known@.len() as int) =~= switch_texts(ks, views(rules@)));
    out
}

/// Reading the switches back after storing them for `rules` gives exactly the known
/// rules that are among `rules`, in known order.
pub proof fn lemma_rule_switches_round_trip(known: Seq<Seq<char>>, rules: Seq<Seq<char>>)
    ensures
        switched_on(known, switch_texts(known, rules).map_values(|t: Seq<char>| Some(t))) == known_in(known, rules),
    decreases known.len(),
{
    reveal_strlit("1");
    reveal_strlit("0");
    assert(trim("1"@) == "1"@);
    assert(trim("0"@) == "0"@);
    assert("0"@ != "1"@) by {
        assert("0"@[0] != "1"@[0]);
    }
    let stored = switch_texts(known, rules).map_values(|t: Seq<char>| Some(t));
    if known.len() > 0 {
        let shorter = known.drop_last();
        lemma_rule_switches_round_trip(shorter, rules);
        assert(stored.drop_last() =~= switch_texts(shorter, rules).map_values(|t: Seq<char>| Some(t)));
    }
}


/// The rules of `findings` that a round starts delivering: those not already being
/// delivered, each once, in order.
pub open spec fn rules_to_launch(findings: Seq<Rule>, in_flight: Seq<Rule>) -> Seq<Rule>
    decreases findings.len(),
{
    if findings.len() == 0 {
        Seq::empty()
    } else {
        let last = findings.last();
        let before = findings.drop_last();
        rules_to_launch(before, in_flight) + if !in_flight.contains(last) && !before.contains(last) {
            seq![last]
        } else {
            Seq::<Rule>::empty()
        }
    }
}

fn rule_in(list: &[Rule], rule: Rule, upto: usize) -> (res: bool)
    requires
        upto <= list@.len(),
    ensures
        res == list@.take(upto as int).contains(rule),
{
    let mut i: usize = 0;
    while i < upto
        invariant
            i <= upto <= list@.len(),
            forall|j: int| 0 <= j < i ==> list@[j] != rule,
        decreases upto - i,
    {
        if list[i] == rule {
            assert(list@.take(upto as int)[i as int] == rule);
            return true;
        }
        i = i + 1;
    }
    assert forall|j: int| 0 <= j < upto implies list@.take(upto as int)[j] != rule by {
        assert(list@.take(upto as int)[j] == list@[j]);
    }
    false
}

/// One round of alert delivery: with no findings or no usable channel nothing starts
/// and the day's budget is untouched; otherwise the findings not already in delivery
/// start, each once, in order. The second result says whether the day's alert state is
/// to be announced now: exactly when nothing started (a started delivery announces it
/// once it is recorded).
pub fn plan_alert_round(findings: &[Rule], usable: usize, in_flight: &[Rule]) -> (res: (Vec<Rule>, bool))
    ensures
        (findings@.len() == 0 || usable == 0) ==> res.0@.len() == 0,
        !(findings@.len() == 0 || usable == 0) ==> res.0@ == rules_to_launch(findings@, in_flight@),
        res.1 == (res.0@.len() == 0),
{
    let mut launch: Vec<Rule> = Vec::new();
    if findings.len() == 0 || usable == 0 {
        return (launch, true);
    }
    let mut i: usize = 0;
    assert(findings@.take(0) =~= Seq::<Rule>::empty());
    while i < findings.len()
        invariant
            i <= findings@.len(),
            launch@ == rules_to_launch(findings@.take(i as int), in_flight@),
        decreases findings@.len() - i,
    {
        let rule = findings[i];
        let ghost next = findings@.take(i + 1);
        assert(next.drop_last() =~= findings@.take(i as int));
        assert(next.last() == rule);
        let flying = rule_in(in_flight, rule, in_flight.len());
        assert(in_flight@.take(in_flight@.len() as int) =~= in_flight@);
        let seen = rule_in(findings, rule, i);
        if !flying && !seen {
            launch.push(rule);
        }
        i = i + 1;
    }
    assert(findings@.take(findings@.len() as int) =~= findings@);
    let none = launch.len() == 0;
    (launch, none)
}

} // verus!
