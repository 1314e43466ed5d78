//! Alerting: rules, the lifecycle of the alert each rule raises (firing,
//! escalated, acknowledged, resolved), notification messages and the
//! registry of notification channels. Durations and instants are
//! milliseconds; measured values and thresholds are carried as the bit
//! patterns of their IEEE-754 double values (`f64::to_bits`), compared and
//! formatted by the callers that read them.

use vstd::prelude::*;
use crate::text::{views, owned, concat, concat3, copy_string, copy_strings, contains_string};
use crate::strmap::StrMap;

verus! {

/// Alerting settings.
pub struct AlertingConfig {
    pub enabled: bool,
    pub evaluation_interval_ms: u64,
    pub default_notification_channels: Vec<String>,
    pub alert_retention_period_ms: u64,
}

impl AlertingConfig {
    /// Enabled, evaluated every 30 s, notifying the console, keeping alerts 24 h.
    pub fn default_config() -> (r: Self)
        ensures
            r.enabled,
            r.evaluation_interval_ms == 30_000,
            views(r.default_notification_channels@) == seq!["console"@],
            r.alert_retention_period_ms == 86_400_000,
    {
        let mut channels: Vec<String> = Vec::new();
        channels.push(owned("console"));
        assert(views(channels@) =~= seq!["console"@]);
        AlertingConfig {
            enabled: true,
            evaluation_interval_ms: 30_000,
            default_notification_channels: channels,
            alert_retention_period_ms: 86_400_000,
        }
    }
}

/// How a measured value is compared with a threshold.
#[derive(Clone, Copy, Debug, PartialEq, Eq, Structural)]
pub enum ComparisonOperator {
    GreaterThan,
    LessThan,
    Equal,
    GreaterThanOrEqual,
    LessThanOrEqual,
}

/// A measured resource.
#[derive(Clone, Copy, Debug, PartialEq, Eq, Structural)]
pub enum ResourceType {
    Cpu,
    Memory,
    Network,
}

/// How serious an alert is.
#[derive(Clone, Copy, Debug, PartialEq, Eq, Structural)]
pub enum AlertSeverity {
    Critical,
    Warning,
    Info,
}

impl AlertSeverity {
    /// The severity as displayed: `CRITICAL`, `WARNING` or `INFO`.
    pub open spec fn display_text(self) -> Seq<char> {
        match self {
            AlertSeverity::Critical => "CRITICAL"@,
            AlertSeverity::Warning => "WARNING"@,
            AlertSeverity::Info => "INFO"@,
        }
    }

    /// The severity's name: `Critical`, `Warning` or `Info`.
    pub open spec fn name_text(self) -> Seq<char> {
        match self {
            AlertSeverity::Critical => "Critical"@,
            AlertSeverity::Warning => "Warning"@,
            AlertSeverity::Info => "Info"@,
        }
    }

    /// The severity as displayed.
    pub fn to_display_string(&self) -> (r: String)
        ensures
            r@ == self.display_text(),
    {
        match self {
            AlertSeverity::Critical => owned("CRITICAL"),
            AlertSeverity::Warning => owned("WARNING"),
            AlertSeverity::Info => owned("INFO"),
        }
    }

    /// The severity's name.
    pub fn name(&self) -> (r: String)
        ensures
            r@ == self.name_text(),
    {
        match self {
            AlertSeverity::Critical => owned("Critical"),
            AlertSeverity::Warning => owned("Warning"),
            AlertSeverity::Info => owned("Info"),
        }
    }
}

/// When a rule fires. Thresholds are double bit patterns; durations are milliseconds.
pub enum AlertCondition {
    MetricThreshold { metric_name: String, operator: ComparisonOperator, threshold_bits: u64, duration_ms: u64 },
    ErrorRate { threshold_percent_bits: u64, duration_ms: u64 },
    ResponseTime { percentile: u8, threshold_ms_bits: u64, duration_ms: u64 },
    ResourceUsage { resource_type: ResourceType, threshold_percent_bits: u64, duration_ms: u64 },
    TestFailureRate { threshold_percent_bits: u64, duration_ms: u64 },
}

impl AlertCondition {
    /// The condition's threshold (as a double bit pattern).
    pub open spec fn threshold_of(self) -> u64 {
        match self {
            AlertCondition::MetricThreshold { threshold_bits, .. } => threshold_bits,
            AlertCondition::ErrorRate { threshold_percent_bits, .. } => threshold_percent_bits,
            AlertCondition::ResponseTime { threshold_ms_bits, .. } => threshold_ms_bits,
            AlertCondition::ResourceUsage { threshold_percent_bits, .. } => threshold_percent_bits,
            AlertCondition::TestFailureRate { threshold_percent_bits, .. } => threshold_percent_bits,
        }
    }

    /// The condition's threshold (as a double bit pattern).
    pub fn threshold_value(&self) -> (r: u64)
        ensures
            r == self.threshold_of(),
    {
        match self {
            AlertCondition::MetricThreshold { threshold_bits, .. } => *threshold_bits,
            AlertCondition::ErrorRate { threshold_percent_bits, .. } => *threshold_percent_bits,
            AlertCondition::ResponseTime { threshold_ms_bits, .. } => *threshold_ms_bits,
            AlertCondition::ResourceUsage { threshold_percent_bits, .. } => *threshold_percent_bits,
            AlertCondition::TestFailureRate { threshold_percent_bits, .. } => *threshold_percent_bits,
        }
    }
}

/// A later notification for an alert that keeps firing.
pub struct EscalationRule {
    pub delay_ms: u64,
    pub notification_channels: Vec<String>,
    pub repeat_interval_ms: Option<u64>,
}

/// A rule that raises an alert.
pub struct AlertRule {
    pub id: String,
    pub name: String,
    pub description: String,
    pub condition: AlertCondition,
    pub severity: AlertSeverity,
    pub notification_channels: Vec<String>,
    pub enabled: bool,
    pub cooldown_period_ms: u64,
    pub escalation_rules: Vec<EscalationRule>,
}

/// Where an alert stands.
#[derive(Clone, Copy, Debug, PartialEq, Eq, Structural)]
pub enum AlertStatus {
    Firing,
    Resolved,
    Acknowledged,
}

/// An alert raised by a rule. Times are milliseconds since the Unix epoch.
pub struct Alert {
    pub id: String,
    pub rule_id: String,
    pub name: String,
    pub description: String,
    pub severity: AlertSeverity,
    pub status: AlertStatus,
    pub triggered_at: i64,
    pub resolved_at: Option<i64>,
    pub acknowledged_at: Option<i64>,
    pub acknowledged_by: Option<String>,
    pub current_value_bits: u64,
    pub threshold_bits: u64,
    pub labels: StrMap<String>,
}

/// Why a notification is sent.
#[derive(Clone, Copy, Debug, PartialEq, Eq, Structural)]
pub enum NotificationType {
    AlertTriggered,
    AlertResolved,
    AlertEscalated,
    AlertAcknowledged,
}

impl Alert {
    /// A copy of the alert, the same in every field that matters to its lifecycle.
    pub fn duplicate(&self) -> (r: Alert)
        ensures
            r.id@ == self.id@,
            r.rule_id@ == self.rule_id@,
            r.name@ == self.name@,
            r.description@ == self.description@,
            r.severity == self.severity,
            r.status == self.status,
            r.triggered_at == self.triggered_at,
            r.resolved_at == self.resolved_at,
            r.acknowledged_at == self.acknowledged_at,
            r.current_value_bits == self.current_value_bits,
            r.threshold_bits == self.threshold_bits,
    {
        Alert {
            id: copy_string(&self.id),
            rule_id: copy_string(&self.rule_id),
            name: copy_string(&self.name),
            description: copy_string(&self.description),
            severity: self.severity,
            status: self.status,
            triggered_at: self.triggered_at,
            resolved_at: self.resolved_at,
            acknowledged_at: self.acknowledged_at,
            acknowledged_by: match &self.acknowledged_by {
                Some(s) => Some(copy_string(s)),
                None => None,
            },
            current_value_bits: self.current_value_bits,
            threshold_bits: self.threshold_bits,
            labels: StrMap::new(),
        }
    }
}

/// The message of a notification about `alert`; a triggered alert shows its
/// measured value and threshold as given in `current` and `threshold`
/// (written with two decimals by the caller).
pub open spec fn alert_message(alert: Alert, t: NotificationType, current: Seq<char>, threshold: Seq<char>) -> Seq<char> {
    let head = alert.name@ + " ("@ + alert.severity.name_text() + ")"@;
    match t {
        NotificationType::AlertTriggered => "🚨 ALERT TRIGGERED: "@ + head + "\n"@ + alert.description@
            + "\nCurrent: "@ + current + ", Threshold: "@ + threshold,
        NotificationType::AlertResolved => "✅ ALERT RESOLVED: "@ + head,
        NotificationType::AlertEscalated => "⚠️ ALERT ESCALATED: "@ + head,
        NotificationType::AlertAcknowledged => "👍 ALERT ACKNOWLEDGED: "@ + head + " by "@ + match alert.acknowledged_by {
            Some(b) => b@,
            None => "Unknown"@,
        },
    }
}

/// The message of a notification about `alert`, with the measured value and
/// threshold already written with two decimals.
pub fn format_alert_message(alert: &Alert, notification_type: NotificationType, current: &str, threshold: &str) -> (r: String)
    ensures
        r@ == alert_message(*alert, notification_type, current@, threshold@),
{
    let sev = alert.severity.name();
    let mut head = concat3(alert.name.as_str(), " (", sev.as_str());
    head.append(")");
    match notification_type {
        NotificationType::AlertTriggered => {
            let mut s = concat("🚨 ALERT TRIGGERED: ", head.as_str());
            s.append("\n");
            s.append(alert.description.as_str());
            s.append("\nCurrent: ");
            s.append(current);
            s.append(", Threshold: ");
            s.append(threshold);
            s
        },
        NotificationType::AlertResolved => concat("✅ ALERT RESOLVED: ", head.as_str()),
        NotificationType::AlertEscalated => concat("⚠️ ALERT ESCALATED: ", head.as_str()),
        NotificationType::AlertAcknowledged => {
            let mut s = concat("👍 ALERT ACKNOWLEDGED: ", head.as_str());
            s.append(" by ");
            match &alert.acknowledged_by {
                Some(b) => { s.append(b.as_str()); },
                None => { s.append("Unknown"); },
            }
            s
        },
    }
}

/// What a rule's alert is doing. Instants are milliseconds on a monotonic clock.
pub struct AlertState {
    pub rule_id: String,
    pub first_triggered: u64,
    pub last_evaluated: u64,
    pub current_alert: Option<Alert>,
    pub escalation_level: usize,
    pub last_notification: Option<u64>,
}

/// A notification to send: about which alert, why, and to which channels
/// (the default channels when empty).
pub struct PendingNotification {
    pub alert: Alert,
    pub notification_type: NotificationType,
    pub channels: Vec<String>,
}

/// The escalation a firing alert reaches at `elapsed` milliseconds after it
/// was triggered: the first rule after the current level whose delay has passed.
pub open spec fn escalation_step(delays: Seq<u64>, level: int, elapsed: int) -> Option<int> {
    if exists|l: int| level < l < delays.len() && delays[l] <= elapsed {
        Some(choose|l: int| level < l < delays.len() && delays[l] <= elapsed
            && forall|m: int| level < m < l ==> delays[m] > elapsed)
    } else {
        None
    }
}

/// Delays of escalation rules.
pub open spec fn delays_of(rules: Seq<EscalationRule>) -> Seq<u64> {
    rules.map_values(|e: EscalationRule| e.delay_ms)
}

/// The alerting system's state: rules and the alert of each rule.
pub struct AlertingSystem {
    pub config: AlertingConfig,
    rules: Vec<AlertRule>,
    alert_state: StrMap<AlertState>,
}

/// Whether `a` is firing or acknowledged and is the alert of some rule.
pub open spec fn is_active_alert(states: Map<Seq<char>, AlertState>, a: Alert) -> bool {
    &&& (a.status == AlertStatus::Firing || a.status == AlertStatus::Acknowledged)
    &&& exists|k: Seq<char>| states.dom().contains(k) && states[k].current_alert == Some(a)
}

/// Whether the alert of `st` has identifier `id`.
pub open spec fn alert_has_id(st: AlertState, id: Seq<char>) -> bool {
    st.current_alert matches Some(a) && a.id@ == id
}

/// The alerts of the states stored under `keys` that are firing or
/// acknowledged, in the order of `keys`.
pub open spec fn active_alerts(states: Map<Seq<char>, AlertState>, keys: Seq<Seq<char>>) -> Seq<Alert>
    decreases keys.len(),
{
    if keys.len() == 0 {
        Seq::empty()
    } else {
        let rest = active_alerts(states, keys.drop_last());
        match states[keys.last()].current_alert {
            Some(a) => if a.status == AlertStatus::Firing || a.status == AlertStatus::Acknowledged {
                rest.push(a)
            } else {
                rest
            },
            None => rest,
        }
    }
}

/// Rule identifiers.
pub open spec fn rule_ids(rules: Seq<AlertRule>) -> Seq<Seq<char>> {
    rules.map_values(|r: AlertRule| r.id@)
}

impl AlertingSystem {
    /// The rules, in the order they were added.
    pub closed spec fn rule_list(&self) -> Seq<AlertRule> {
        self.rules@
    }

    /// The state of each rule's alert, by rule identifier.
    pub closed spec fn states(&self) -> Map<Seq<char>, AlertState> {
        self.alert_state@
    }

    /// The settings the system was made with.
    pub closed spec fn settings(&self) -> AlertingConfig {
        self.config
    }

    /// The rule identifiers that have an alert state, in the order their
    /// states were first stored.
    pub closed spec fn state_order(&self) -> Seq<Seq<char>> {
        self.alert_state.key_order()
    }

    /// `state_order` lists exactly the rule identifiers that have an alert state.
    pub proof fn lemma_state_order(&self)
        ensures
            forall|k: Seq<char>| #[trigger] self.states().dom().contains(k) <==> self.state_order().contains(k),
    {
        self.alert_state.lemma_key_order();
    }

    /// A system with the given settings, no rules and no alerts.
    pub fn new(config: AlertingConfig) -> (r: Self)
        ensures
            r.settings() == config,
            r.rule_list().len() == 0,
            r.states() == Map::<Seq<char>, AlertState>::empty(),
    {
        AlertingSystem { config, rules: Vec::new(), alert_state: StrMap::new() }
    }

    /// Adds a rule after the others.
    pub fn add_rule(&mut self, rule: AlertRule)
        ensures
            final(self).rule_list() == old(self).rule_list().push(rule),
            final(self).states() == old(self).states(),
    {
        self.rules.push(rule);
    }

    /// Removes the first rule with identifier `rule_id`; whether there was one.
    pub fn remove_rule(&mut self, rule_id: &str) -> (r: bool)
        ensures
            r == rule_ids(old(self).rule_list()).contains(rule_id@),
            r ==> exists|i: int| 0 <= i < old(self).rule_list().len()
                && old(self).rule_list()[i].id@ == rule_id@
                && (forall|j: int| 0 <= j < i ==> old(self).rule_list()[j].id@ != rule_id@)
                && final(self).rule_list() == old(self).rule_list().remove(i),
            !r ==> final(self).rule_list() == old(self).rule_list(),
            final(self).states() == old(self).states(),
    {
        let ghost before = self.rules@;
        let mut i: usize = 0;
        while i < self.rules.len()
            invariant
                i <= self.rules@.len(),
                self.rules@ == before,
                before == old(self).rules@,
                self.alert_state == old(self).alert_state,
                forall|j: int| 0 <= j < i ==> before[j].id@ != rule_id@,
            decreases self.rules.len() - i,
        {
            if crate::text::str_equal(self.rules[i].id.as_str(), rule_id) {
                assert(rule_ids(before)[i as int] == rule_id@);
                self.rules.remove(i);
                assert(old(self).rule_list()[i as int].id@ == rule_id@);
                assert(self.rule_list() == old(self).rule_list().remove(i as int));
                return true;
            }
            i = i + 1;
        }
        assert forall|j: int| 0 <= j < rule_ids(before).len() implies rule_ids(before)[j] != rule_id@ by {
            assert(rule_ids(before)[j] == before[j].id@);
        }
        false
    }

    /// The rules, in the order they were added.
    pub fn get_rules(&self) -> (r: &Vec<AlertRule>)
        ensures
            r@ == self.rule_list(),
    {
        &self.rules
    }

    /// The alerts that are firing or acknowledged.
    pub fn get_active_alerts(&self) -> (r: Vec<&Alert>)
        ensures
            r@.len() == active_alerts(self.states(), self.state_order()).len(),
            forall|i: int| 0 <= i < r@.len() ==> *(#[trigger] r@[i]) == active_alerts(self.states(), self.state_order())[i],
            forall|i: int| 0 <= i < r@.len() ==> is_active_alert(self.states(), *(#[trigger] r@[i])),
    {
        let n = self.alert_state.len();
        let mut out: Vec<&Alert> = Vec::new();
        let mut i: usize = 0;
        while i < n
            invariant
                i <= n,
                n == self.alert_state.key_order().len(),
                out@.len() == active_alerts(self.states(), self.state_order().take(i as int)).len(),
                forall|q: int| 0 <= q < out@.len() ==> *(#[trigger] out@[q]) == active_alerts(self.states(), self.state_order().take(i as int))[q],
                forall|q: int| 0 <= q < out@.len() ==> is_active_alert(self.states(), *(#[trigger] out@[q])),
            decreases n - i,
        {
            let (k, st) = self.alert_state.entry_at(i);
            proof {
                self.alert_state.lemma_key_order();
                assert(self.alert_state.key_order().contains(k@));
                let t = self.state_order().take(i + 1);
                assert(t.drop_last() =~= self.state_order().take(i as int));
                assert(t.last() == k@);
            }
            match &st.current_alert {
                Some(a) => {
                    match a.status {
                        AlertStatus::Resolved => {},
                        _ => {
                            let ghost before = out@;
                            out.push(a);
                            proof {
                                assert(self.states().dom().contains(k@));
                                assert(self.states()[k@] == *st);
                                assert(self.states()[k@].current_alert == Some(*a));
                                assert(is_active_alert(self.states(), *a));
                                assert forall|q: int| 0 <= q < out@.len() implies is_active_alert(self.states(), *(#[trigger] out@[q])) by {
                                    if q < before.len() {
                                        assert(out@[q] == before[q]);
                                    }
                                }
                                assert forall|q: int| 0 <= q < out@.len() implies *(#[trigger] out@[q]) == active_alerts(self.states(), self.state_order().take(i + 1))[q] by {
                                    if q < before.len() {
                                        assert(out@[q] == before[q]);
                                    }
                                }
                            }
                        },
                    }
                },
                None => {},
            }
            i = i + 1;
        }
        proof {
            assert(self.state_order().take(n as int) =~= self.state_order());
        }
        out
    }

    /// Acknowledges the alert with identifier `alert_id`, by `acknowledged_by` at `now`.
    pub fn acknowledge_alert(&mut self, alert_id: &str, acknowledged_by: String, now: i64) -> (r: Result<(), String>)
        ensures
            r is Err ==> final(self).states() == old(self).states()
                && forall|k: Seq<char>| #[trigger] old(self).states().dom().contains(k)
                    ==> !alert_has_id(old(self).states()[k], alert_id@),
            r matches Err(m) ==> m@ == "Alert not found: "@ + alert_id@,
            r is Ok ==> exists|k: Seq<char>| #[trigger] old(self).states().dom().contains(k)
                && alert_has_id(old(self).states()[k], alert_id@)
                && final(self).states().dom() == old(self).states().dom()
                && (final(self).states()[k].current_alert matches Some(b) && b.status == AlertStatus::Acknowledged
                    && b.acknowledged_at == Some(now) && b.id@ == alert_id@),
            final(self).rule_list() == old(self).rule_list(),
    {
        let n = self.alert_state.len();
        let ghost ko = self.alert_state.key_order();
        let mut i: usize = 0;
        let mut found: Option<String> = None;
        while i < n
            invariant
                i <= n,
                n == ko.len(),
                ko == self.alert_state.key_order(),
                self.alert_state == old(self).alert_state,
                self.rules == old(self).rules,
                found is None ==> forall|q: int| 0 <= q < i ==> !alert_has_id(old(self).states()[#[trigger] ko[q]], alert_id@),
                found matches Some(k) ==> old(self).states().dom().contains(k@) && alert_has_id(old(self).states()[k@], alert_id@),
            ensures
                self.alert_state == old(self).alert_state,
                self.rules == old(self).rules,
                found is None ==> i == n && forall|q: int| 0 <= q < n ==> !alert_has_id(old(self).states()[#[trigger] ko[q]], alert_id@),
                found matches Some(k) ==> old(self).states().dom().contains(k@) && alert_has_id(old(self).states()[k@], alert_id@),
            decreases n - i,
        {
            let (k, st) = self.alert_state.entry_at(i);
            proof {
                self.alert_state.lemma_key_order();
                assert(ko.contains(k@));
                assert(ko[i as int] == k@);
                assert(old(self).states()[k@] == *st);
            }
            let hit = match &st.current_alert {
                Some(a) => crate::text::str_equal(a.id.as_str(), alert_id),
                None => false,
            };
            if hit {
                found = Some(copy_string(k));
                break;
            }
            i = i + 1;
        }
        match found {
            None => {
                proof {
                    self.alert_state.lemma_key_order();
                    assert forall|k: Seq<char>| #[trigger] old(self).states().dom().contains(k) implies
                        !alert_has_id(old(self).states()[k], alert_id@) by {
                        assert(ko.contains(k));
                        let q = choose|q: int| 0 <= q < ko.len() && ko[q] == k;
                        assert(!alert_has_id(old(self).states()[ko[q]], alert_id@));
                    }
                }
                Err(concat("Alert not found: ", alert_id))
            },
            Some(k) => {
                let ghost kk = k@;
                let mut st = self.alert_state.remove(k.as_str()).unwrap();
                match st.current_alert {
                    Some(mut a) => {
                        a.status = AlertStatus::Acknowledged;
                        a.acknowledged_at = Some(now);
                        a.acknowledged_by = Some(acknowledged_by);
                        st.current_alert = Some(a);
                    },
                    None => {},
                }
                self.alert_state.insert(k, st);
                proof {
                    assert(self.alert_state@.dom() =~= old(self).alert_state@.dom());
                    assert(old(self).states().dom().contains(kk));
                }
                Ok(())
            },
        }
    }

    /// Decides what one evaluation of `rule` does, given whether its
    /// condition holds: a new firing alert (under `alert_id`, triggered at
    /// `timestamp`, with the measured value) when there was none; an
    /// escalation check when one is firing; resolution when the condition no
    /// longer holds. Gives back the notification to send, if any.
    pub fn process_rule_evaluation(
        &mut self,
        rule: &AlertRule,
        should_trigger: bool,
        now: u64,
        alert_id: String,
        timestamp: i64,
        current_value_bits: u64,
    ) -> (r: Option<PendingNotification>)
        ensures
            final(self).rule_list() == old(self).rule_list(),
            final(self).states().dom() == old(self).states().dom().insert(rule.id@),
            forall|k: Seq<char>| k != rule.id@ && #[trigger] old(self).states().dom().contains(k)
                ==> final(self).states()[k] == old(self).states()[k],
            final(self).states()[rule.id@].last_evaluated == now,
            ({
                let had = old(self).states().dom().contains(rule.id@)
                    && old(self).states()[rule.id@].current_alert is Some;
                let st = final(self).states()[rule.id@];
                &&& (should_trigger && !had) ==> (r matches Some(p) && p.notification_type == NotificationType::AlertTriggered
                    && p.alert.id@ == alert_id@ && p.alert.status == AlertStatus::Firing
                    && p.alert.rule_id@ == rule.id@ && p.alert.severity == rule.severity
                    && p.alert.threshold_bits == rule.condition.threshold_of()
                    && p.alert.current_value_bits == current_value_bits
                    && views(p.channels@) == views(rule.notification_channels@)
                    && (st.current_alert matches Some(a) && a.id@ == alert_id@ && a.status == AlertStatus::Firing)
                    && st.first_triggered == now && st.escalation_level == 0 && st.last_notification == Some(now))
                &&& (!should_trigger && had) ==> (r matches Some(p) && p.notification_type == NotificationType::AlertResolved
                    && p.alert.status == AlertStatus::Resolved && p.alert.resolved_at == Some(timestamp)
                    && views(p.channels@) == views(rule.notification_channels@)
                    && st.current_alert is None)
                &&& (!should_trigger && !had) ==> r is None && st.current_alert is None
                &&& (r matches Some(p) && p.notification_type == NotificationType::AlertEscalated) ==> should_trigger && had
                &&& (should_trigger && had) ==> escalation_outcome(old(self).states()[rule.id@], st, *rule, now, r)
            }),
    {
        let had_state = self.alert_state.contains_key(rule.id.as_str());
        let mut st = match self.alert_state.remove(rule.id.as_str()) {
            Some(s) => s,
            None => AlertState {
                rule_id: copy_string(&rule.id),
                first_triggered: now,
                last_evaluated: now,
                current_alert: None,
                escalation_level: 0,
                last_notification: None,
            },
        };
        st.last_evaluated = now;
        let mut result: Option<PendingNotification> = None;
        let has_alert = st.current_alert.is_some();
        if should_trigger && !has_alert {
            let alert = Alert {
                id: alert_id,
                rule_id: copy_string(&rule.id),
                name: copy_string(&rule.name),
                description: copy_string(&rule.description),
                severity: rule.severity,
                status: AlertStatus::Firing,
                triggered_at: timestamp,
                resolved_at: None,
                acknowledged_at: None,
                acknowledged_by: None,
                current_value_bits,
                threshold_bits: rule.condition.threshold_value(),
                labels: StrMap::new(),
            };
            let sent = alert.duplicate();
            st.current_alert = Some(alert);
            st.first_triggered = now;
            st.escalation_level = 0;
            st.last_notification = Some(now);
            result = Some(PendingNotification {
                alert: sent,
                notification_type: NotificationType::AlertTriggered,
                channels: copy_strings(&rule.notification_channels),
            });
        } else if should_trigger && has_alert {
            result = check_escalation(&mut st, rule, now);
        } else if !should_trigger && has_alert {
            let taken = st.current_alert.take();
            match taken {
                Some(mut a) => {
                    a.status = AlertStatus::Resolved;
                    a.resolved_at = Some(timestamp);
                    result = Some(PendingNotification {
                        alert: a,
                        notification_type: NotificationType::AlertResolved,
                        channels: copy_strings(&rule.notification_channels),
                    });
                },
                None => {},
            }
        }
        self.alert_state.insert(copy_string(&rule.id), st);
        proof {
            assert(self.alert_state@.dom() =~= old(self).alert_state@.dom().insert(rule.id@));
        }
        result
    }
}

/// What an escalation check at `now` does to the state `before` of an alert
/// of `rule`, giving `after` and the notification `r`: the alert, its rule and
/// when it first triggered stay; a missing or acknowledged alert is left as
/// it is; a firing one moves to the first escalation rule after its current
/// level whose delay has passed, notifying that rule's channels.
pub open spec fn escalation_outcome(
    before: AlertState,
    after: AlertState,
    rule: AlertRule,
    now: u64,
    r: Option<PendingNotification>,
) -> bool {
    &&& after.current_alert == before.current_alert
    &&& after.first_triggered == before.first_triggered
    &&& after.rule_id == before.rule_id
    &&& (before.current_alert is None || (before.current_alert matches Some(a) && a.status == AlertStatus::Acknowledged))
        ==> r is None && after.escalation_level == before.escalation_level
            && after.last_notification == before.last_notification
    &&& match before.current_alert {
        None => true,
        Some(a) => a.status != AlertStatus::Acknowledged ==> {
            let elapsed = if now >= before.first_triggered { now - before.first_triggered } else { 0 };
            match escalation_step(delays_of(rule.escalation_rules@), before.escalation_level as int, elapsed) {
                Some(l) => r matches Some(p) && p.notification_type == NotificationType::AlertEscalated
                    && p.alert.id@ == a.id@
                    && views(p.channels@) == views(rule.escalation_rules@[l].notification_channels@)
                    && after.escalation_level == l && after.last_notification == Some(now),
                None => r is None && after.escalation_level == before.escalation_level
                    && after.last_notification == before.last_notification,
            }
        },
    }
}

/// Escalates a firing, unacknowledged alert to the first escalation rule
/// after its current level whose delay has passed, giving the notification
/// to send to that rule's channels.
pub fn check_escalation(st: &mut AlertState, rule: &AlertRule, now: u64) -> (r: Option<PendingNotification>)
    ensures
        final(st).last_evaluated == old(st).last_evaluated,
        escalation_outcome(*old(st), *final(st), *rule, now, r),
{
    let alert = match &st.current_alert {
        Some(a) => a,
        None => { return None; },
    };
    match alert.status {
        AlertStatus::Acknowledged => { return None; },
        _ => {},
    }
    let elapsed: u64 = if now >= st.first_triggered { now - st.first_triggered } else { 0 };
    let ghost d = delays_of(rule.escalation_rules@);
    let level0 = st.escalation_level;
    let mut level: usize = 0;
    while level < rule.escalation_rules.len()
        invariant
            level <= rule.escalation_rules@.len(),
            *st == *old(st),
            level0 == old(st).escalation_level,
            old(st).current_alert == Some(*alert),
            alert.status != AlertStatus::Acknowledged,
            elapsed == (if now >= old(st).first_triggered { now - old(st).first_triggered } else { 0 }),
            d == delays_of(rule.escalation_rules@),
            forall|m: int| level0 < m < level ==> d[m] > elapsed,
        decreases rule.escalation_rules.len() - level,
    {
        if level > level0 && rule.escalation_rules[level].delay_ms <= elapsed {
            let p = PendingNotification {
                alert: alert.duplicate(),
                notification_type: NotificationType::AlertEscalated,
                channels: copy_strings(&rule.escalation_rules[level].notification_channels),
            };
            proof {
                let l = level as int;
                assert(d[l] == rule.escalation_rules@[l].delay_ms);
                assert(level0 < l < d.len() && d[l] <= elapsed && forall|m: int| level0 < m < l ==> d[m] > elapsed);
                let c = choose|q: int| level0 < q < d.len() && d[q] <= elapsed
                    && forall|m: int| level0 < m < q ==> d[m] > elapsed;
                if c < l { assert(d[c] > elapsed); }
                if l < c { assert(d[l] > elapsed); }
            }
            st.escalation_level = level;
            st.last_notification = Some(now);
            return Some(p);
        }
        proof {
            if level > level0 {
                assert(d[level as int] == rule.escalation_rules@[level as int].delay_ms);
            }
        }
        level = level + 1;
    }
    None
}

/// A notification channel that prints to the console.
pub struct ConsoleNotificationChannel;

/// Settings of the email channel.
pub struct EmailConfig {
    pub smtp_server: String,
    pub smtp_port: u16,
    pub username: String,
    pub password: String,
    pub from_address: String,
    pub to_addresses: Vec<String>,
    pub use_tls: bool,
}

/// A notification channel that sends email.
pub struct EmailNotificationChannel {
    pub smtp_config: EmailConfig,
}

/// A notification channel that posts to a Slack webhook.
pub struct SlackNotificationChannel {
    pub webhook_url: String,
    pub channel: String,
}

/// A notification channel that posts to a webhook.
pub struct WebhookNotificationChannel {
    pub url: String,
    pub headers: StrMap<String>,
}

/// A registered notification channel.
pub enum Channel {
    Console(ConsoleNotificationChannel),
    Email(EmailNotificationChannel),
    Slack(SlackNotificationChannel),
    Webhook(WebhookNotificationChannel),
}

impl Channel {
    /// The kind of channel: `console`, `email`, `slack` or `webhook`.
    pub open spec fn kind_text(&self) -> Seq<char> {
        match self {
            Channel::Console(_) => "console"@,
            Channel::Email(_) => "email"@,
            Channel::Slack(_) => "slack"@,
            Channel::Webhook(_) => "webhook"@,
        }
    }

    /// Whether the channel can send: Slack and webhooks need a URL.
    pub open spec fn available(&self) -> bool {
        match self {
            Channel::Console(_) => true,
            Channel::Email(_) => true,
            Channel::Slack(s) => s.webhook_url@.len() > 0,
            Channel::Webhook(w) => w.url@.len() > 0,
        }
    }

    /// The kind of channel.
    pub fn channel_type(&self) -> (r: String)
        ensures
            r@ == self.kind_text(),
    {
        match self {
            Channel::Console(_) => owned("console"),
            Channel::Email(_) => owned("email"),
            Channel::Slack(_) => owned("slack"),
            Channel::Webhook(_) => owned("webhook"),
        }
    }

    /// Whether the channel can send.
    pub fn is_available(&self) -> (r: bool)
        ensures
            r == self.available(),
    {
        match self {
            Channel::Console(_) => true,
            Channel::Email(_) => true,
            Channel::Slack(s) => !s.webhook_url.as_str().is_empty(),
            Channel::Webhook(w) => !w.url.as_str().is_empty(),
        }
    }
}

/// The notification channels, by name.
pub struct NotificationManager {
    channels: StrMap<Channel>,
}

impl NotificationManager {
    /// The channels, by name.
    pub closed spec fn channel_map(&self) -> Map<Seq<char>, Channel> {
        self.channels@
    }

    /// A manager with the console channel, named `console`.
    pub fn new() -> (r: Self)
        ensures
            r.channel_map().dom() == set!["console"@],
            r.channel_map()["console"@] is Console,
    {
        let mut channels: StrMap<Channel> = StrMap::new();
        channels.insert(owned("console"), Channel::Console(ConsoleNotificationChannel));
        assert(channels@.dom() =~= set!["console"@]);
        NotificationManager { channels }
    }

    /// Registers an email channel under `name`.
    pub fn add_email_channel(&mut self, name: String, config: EmailConfig)
        ensures
            final(self).channel_map() == old(self).channel_map().insert(
                name@,
                Channel::Email(EmailNotificationChannel { smtp_config: config }),
            ),
    {
        self.channels.insert(name, Channel::Email(EmailNotificationChannel { smtp_config: config }));
    }

    /// Registers a Slack channel under `name`.
    pub fn add_slack_channel(&mut self, name: String, webhook_url: String, channel: String)
        ensures
            final(self).channel_map() == old(self).channel_map().insert(
                name@,
                Channel::Slack(SlackNotificationChannel { webhook_url, channel }),
            ),
    {
        self.channels.insert(name, Channel::Slack(SlackNotificationChannel { webhook_url, channel }));
    }

    /// Registers a webhook channel under `name`.
    pub fn add_webhook_channel(&mut self, name: String, url: String, headers: StrMap<String>)
        ensures
            final(self).channel_map() == old(self).channel_map().insert(
                name@,
                Channel::Webhook(WebhookNotificationChannel { url, headers }),
            ),
    {
        self.channels.insert(name, Channel::Webhook(WebhookNotificationChannel { url, headers }));
    }

    /// The channel to send through, or why there is none.
    pub fn channel_for(&self, channel_name: &str) -> (r: Result<&Channel, String>)
        ensures
            self.channel_map().dom().contains(channel_name@) && self.channel_map()[channel_name@].available()
                ==> (r matches Ok(c) && *c == self.channel_map()[channel_name@]),
            !(self.channel_map().dom().contains(channel_name@) && self.channel_map()[channel_name@].available())
                ==> (r matches Err(m) && m@ == "Notification channel '"@ + channel_name@ + "' is not available or not found"@),
    {
        match self.channels.get(channel_name) {
            Some(c) => {
                if c.is_available() {
                    Ok(c)
                } else {
                    Err(concat3("Notification channel '", channel_name, "' is not available or not found"))
                }
            },
            None => Err(concat3("Notification channel '", channel_name, "' is not available or not found")),
        }
    }

    /// The channel names.
    pub fn list_channels(&self) -> (r: Vec<String>)
        ensures
            views(r@).to_set() == self.channel_map().dom(),
            views(r@).no_duplicates(),
    {
        let n = self.channels.len();
        let mut out: Vec<String> = Vec::new();
        let mut i: usize = 0;
        proof { self.channels.lemma_key_order(); }
        while i < n
            invariant
                i <= n,
                n == self.channels.key_order().len(),
                self.channels.key_order().no_duplicates(),
                views(out@) == self.channels.key_order().take(i as int),
            decreases n - i,
        {
            let (k, _c) = self.channels.entry_at(i);
            let ghost before = out@;
            out.push(copy_string(k));
            proof {
                assert(out@ == before.push(out@.last()));
                assert(views(out@) =~= views(before).push(k@));
                assert(self.channels.key_order()[i as int] == k@);
                assert(views(out@) =~= self.channels.key_order().take(i + 1));
            }
            i = i + 1;
        }
        proof {
            let ko = self.channels.key_order();
            assert(ko.take(n as int) =~= ko);
            self.channels.lemma_key_order();
            assert(views(out@).to_set() =~= self.channel_map().dom());
        }
        out
    }
}

} // verus!
