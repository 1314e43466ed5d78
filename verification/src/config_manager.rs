//! The configuration manager: the current configuration, the files it is
//! loaded from, the snapshots kept for rollback, and the events that report
//! reloads and rollbacks. Reading files, watching them and broadcasting
//! events happen around it; times are milliseconds since the Unix epoch.

use vstd::prelude::*;
use crate::text::{views, owned, concat, copy_string, copy_strings, str_equal};
use crate::strmap::StrMap;
use crate::json::{JsonValue, param_views, lemma_param_views_insert};
use crate::data_source::{text_views, split_text, split_on, insert_member, put_member};
use crate::json::JsonView;
use crate::auth_plugin::opt_view;
use crate::test_case_manager::copy_text_map;
use crate::configuration::{
    Configuration, ExecutionConfig, RetryConfig, RateLimitConfig, ConfigPluginConfig, ReportingConfig,
    ConfigAuthConfig, ConfigDataSourceConfig, EnvironmentConfig, ConfigurationChange, ConfigurationError,
    validate_configuration, validate_configuration_static, full_validation_errors, validation_errors, debug_list,
    default_configuration, merge_configurations, merge_configurations_static, merged_except_retry, merged_retry,
    apply_environment_overrides, overridden, parse_unsigned_text, SecureConfigManager, SecureValue,
    KeyringRead, decrypt_outcome, decryptable,
};

verus! {

// ---------------------------------------------------------------- copies

/// A copy of a map of JSON values, with the same keys in the same order.
pub fn copy_json_map(m: &StrMap<JsonValue>) -> (r: StrMap<JsonValue>)
    ensures
        param_views(r@) == param_views(m@),
        r.key_order() == m.key_order(),
{
    let ghost ko = m.key_order();
    let n = m.len();
    let mut out: StrMap<JsonValue> = StrMap::new();
    let mut i: usize = 0;
    proof {
        m.lemma_key_order();
        assert(ko.take(0) =~= Seq::<Seq<char>>::empty());
    }
    while i < n
        invariant
            i <= n,
            n == ko.len(),
            ko == m.key_order(),
            ko.no_duplicates(),
            forall|k: Seq<char>| #[trigger] m@.dom().contains(k) <==> ko.contains(k),
            out.key_order() == ko.take(i as int),
            forall|k: Seq<char>| #[trigger] out@.dom().contains(k) <==> ko.take(i as int).contains(k),
            forall|k: Seq<char>| #[trigger] out@.dom().contains(k) ==> out@[k].view() == m@[k].view(),
        decreases n - i,
    {
        let (k, v) = m.entry_at(i);
        let ghost ta = ko.take(i as int);
        let ghost tb = ko.take(i + 1);
        proof {
            assert(tb =~= ta.push(ko[i as int]));
            if ta.contains(k@) {
                let x = choose|x: int| 0 <= x < i && #[trigger] ta[x] == k@;
                assert(ko[x] == ko[i as int]);
            }
            assert forall|x: Seq<char>| tb.contains(x) <==> (ta.contains(x) || x == ko[i as int]) by {
                if tb.contains(x) {
                    let y = choose|y: int| 0 <= y < i + 1 && #[trigger] tb[y] == x;
                    if y < i {
                        assert(ta[y] == x);
                    }
                }
                if ta.contains(x) {
                    let y = choose|y: int| 0 <= y < i && #[trigger] ta[y] == x;
                    assert(tb[y] == x);
                }
                if x == ko[i as int] {
                    assert(tb[i as int] == x);
                }
            }
        }
        out.insert(copy_string(k), v.duplicate());
        i = i + 1;
    }
    proof {
        assert(ko.take(n as int) =~= ko);
        assert(param_views(out@) =~= param_views(m@));
    }
    out
}

/// An environment's settings as plain values.
pub open spec fn env_view(e: EnvironmentConfig) -> (
    Seq<char>,
    Map<Seq<char>, Seq<char>>,
    Map<Seq<char>, crate::json::JsonView>,
    Map<Seq<char>, Seq<char>>,
) {
    (e.name@, text_views(e.base_urls@), param_views(e.auth_overrides@), text_views(e.variables@))
}

/// The settings of each environment, as plain values.
pub open spec fn env_views(m: Map<Seq<char>, EnvironmentConfig>) -> Map<
    Seq<char>,
    (Seq<char>, Map<Seq<char>, Seq<char>>, Map<Seq<char>, crate::json::JsonView>, Map<Seq<char>, Seq<char>>),
> {
    Map::new(|k: Seq<char>| m.dom().contains(k), |k: Seq<char>| env_view(m[k]))
}

impl EnvironmentConfig {
    /// A copy of these settings.
    pub fn duplicate(&self) -> (r: Self)
        ensures
            env_view(r) == env_view(*self),
    {
        EnvironmentConfig {
            name: copy_string(&self.name),
            base_urls: copy_text_map(&self.base_urls),
            auth_overrides: copy_json_map(&self.auth_overrides),
            variables: copy_text_map(&self.variables),
        }
    }
}

/// A copy of the environments, with the same names in the same order.
pub fn copy_environments(m: &StrMap<EnvironmentConfig>) -> (r: StrMap<EnvironmentConfig>)
    ensures
        env_views(r@) == env_views(m@),
        r.key_order() == m.key_order(),
{
    let ghost ko = m.key_order();
    let n = m.len();
    let mut out: StrMap<EnvironmentConfig> = StrMap::new();
    let mut i: usize = 0;
    proof {
        m.lemma_key_order();
        assert(ko.take(0) =~= Seq::<Seq<char>>::empty());
    }
    while i < n
        invariant
            i <= n,
            n == ko.len(),
            ko == m.key_order(),
            ko.no_duplicates(),
            forall|k: Seq<char>| #[trigger] m@.dom().contains(k) <==> ko.contains(k),
            out.key_order() == ko.take(i as int),
            forall|k: Seq<char>| #[trigger] out@.dom().contains(k) <==> ko.take(i as int).contains(k),
            forall|k: Seq<char>| #[trigger] out@.dom().contains(k) ==> env_view(out@[k]) == env_view(m@[k]),
        decreases n - i,
    {
        let (k, v) = m.entry_at(i);
        let ghost ta = ko.take(i as int);
        let ghost tb = ko.take(i + 1);
        proof {
            assert(tb =~= ta.push(ko[i as int]));
            if ta.contains(k@) {
                let x = choose|x: int| 0 <= x < i && #[trigger] ta[x] == k@;
                assert(ko[x] == ko[i as int]);
            }
            assert forall|x: Seq<char>| tb.contains(x) <==> (ta.contains(x) || x == ko[i as int]) by {
                if tb.contains(x) {
                    let y = choose|y: int| 0 <= y < i + 1 && #[trigger] tb[y] == x;
                    if y < i {
                        assert(ta[y] == x);
                    }
                }
                if ta.contains(x) {
                    let y = choose|y: int| 0 <= y < i && #[trigger] ta[y] == x;
                    assert(tb[y] == x);
                }
                if x == ko[i as int] {
                    assert(tb[i as int] == x);
                }
            }
        }
        out.insert(copy_string(k), v.duplicate());
        i = i + 1;
    }
    proof {
        assert(ko.take(n as int) =~= ko);
        assert(env_views(out@) =~= env_views(m@));
    }
    out
}

/// Whether two configurations hold the same settings.
pub open spec fn same_configuration(a: Configuration, b: Configuration) -> bool {
    &&& a.execution.default_strategy@ == b.execution.default_strategy@
    &&& a.execution.max_concurrency == b.execution.max_concurrency
    &&& a.execution.request_timeout == b.execution.request_timeout
    &&& a.execution.retry == b.execution.retry
    &&& a.execution.rate_limit == b.execution.rate_limit
    &&& a.plugins.plugin_dir@ == b.plugins.plugin_dir@
    &&& a.plugins.auto_load == b.plugins.auto_load
    &&& a.plugins.hot_reload == b.plugins.hot_reload
    &&& param_views(a.plugins.plugins@) == param_views(b.plugins.plugins@)
    &&& a.reporting.output_dir@ == b.reporting.output_dir@
    &&& views(a.reporting.formats@) == views(b.reporting.formats@)
    &&& param_views(a.reporting.templates@) == param_views(b.reporting.templates@)
    &&& opt_view(a.auth.default_method) == opt_view(b.auth.default_method)
    &&& param_views(a.auth.methods@) == param_views(b.auth.methods@)
    &&& a.data_sources.default_type@ == b.data_sources.default_type@
    &&& param_views(a.data_sources.sources@) == param_views(b.data_sources.sources@)
    &&& env_views(a.environments@) == env_views(b.environments@)
    &&& param_views(a.custom@) == param_views(b.custom@)
}

impl Configuration {
    /// A copy of this configuration.
    pub fn duplicate(&self) -> (r: Self)
        ensures
            same_configuration(r, *self),
    {
        Configuration {
            execution: ExecutionConfig {
                default_strategy: copy_string(&self.execution.default_strategy),
                max_concurrency: self.execution.max_concurrency,
                request_timeout: self.execution.request_timeout,
                retry: RetryConfig {
                    max_attempts: self.execution.retry.max_attempts,
                    base_delay_ms: self.execution.retry.base_delay_ms,
                    max_delay_ms: self.execution.retry.max_delay_ms,
                    backoff_multiplier_bits: self.execution.retry.backoff_multiplier_bits,
                },
                rate_limit: RateLimitConfig {
                    requests_per_second_bits: self.execution.rate_limit.requests_per_second_bits,
                    burst_capacity: self.execution.rate_limit.burst_capacity,
                },
            },
            plugins: ConfigPluginConfig {
                plugin_dir: copy_string(&self.plugins.plugin_dir),
                auto_load: self.plugins.auto_load,
                hot_reload: self.plugins.hot_reload,
                plugins: copy_json_map(&self.plugins.plugins),
            },
            reporting: ReportingConfig {
                output_dir: copy_string(&self.reporting.output_dir),
                formats: copy_strings(&self.reporting.formats),
                templates: copy_json_map(&self.reporting.templates),
            },
            auth: ConfigAuthConfig {
                default_method: match &self.auth.default_method {
                    Some(m) => Some(copy_string(m)),
                    None => None,
                },
                methods: copy_json_map(&self.auth.methods),
            },
            data_sources: ConfigDataSourceConfig {
                default_type: copy_string(&self.data_sources.default_type),
                sources: copy_json_map(&self.data_sources.sources),
            },
            environments: copy_environments(&self.environments),
            custom: copy_json_map(&self.custom),
        }
    }
}


// ---------------------------------------------------------------- snapshots and events

/// Whether a configuration holds the settings used when no file gives any.
pub open spec fn is_default_configuration(c: Configuration) -> bool {
    &&& c.execution.default_strategy@ == "serial"@
    &&& c.execution.max_concurrency == 10
    &&& c.execution.request_timeout == 30
    &&& c.execution.retry.max_attempts == 3
    &&& c.execution.retry.base_delay_ms == 1000
    &&& c.execution.retry.max_delay_ms == 30000
    &&& c.execution.retry.backoff_multiplier_bits == 0x4000_0000_0000_0000
    &&& c.execution.rate_limit.requests_per_second_bits == 0x4024_0000_0000_0000
    &&& c.execution.rate_limit.burst_capacity == 20
    &&& c.plugins.plugin_dir@ == "plugins"@
    &&& c.plugins.auto_load
    &&& !c.plugins.hot_reload
    &&& c.plugins.plugins@ == Map::<Seq<char>, JsonValue>::empty()
    &&& c.reporting.output_dir@ == "reports"@
    &&& views(c.reporting.formats@) == seq!["junit"@, "html"@]
    &&& c.reporting.templates@ == Map::<Seq<char>, JsonValue>::empty()
    &&& c.auth.default_method is None
    &&& c.auth.methods@ == Map::<Seq<char>, JsonValue>::empty()
    &&& c.data_sources.default_type@ == "file"@
    &&& c.data_sources.sources@ == Map::<Seq<char>, JsonValue>::empty()
    &&& c.environments@ == Map::<Seq<char>, EnvironmentConfig>::empty()
    &&& c.custom@ == Map::<Seq<char>, JsonValue>::empty()
}

/// A configuration kept for rollback, with when and why it was kept.
pub struct ConfigurationSnapshot {
    pub config: Configuration,
    pub timestamp: u64,
    /// The file whose change led to the snapshot.
    pub trigger_path: String,
    pub reason: String,
}

/// Whether two snapshots hold the same settings, time, path and reason.
pub open spec fn same_snapshot(a: ConfigurationSnapshot, b: ConfigurationSnapshot) -> bool {
    &&& same_configuration(a.config, b.config)
    &&& a.timestamp == b.timestamp
    &&& a.trigger_path@ == b.trigger_path@
    &&& a.reason@ == b.reason@
}

impl ConfigurationSnapshot {
    /// A copy of this snapshot.
    pub fn duplicate(&self) -> (r: Self)
        ensures
            same_snapshot(r, *self),
    {
        ConfigurationSnapshot {
            config: self.config.duplicate(),
            timestamp: self.timestamp,
            trigger_path: copy_string(&self.trigger_path),
            reason: copy_string(&self.reason),
        }
    }
}

/// What happened to the configuration.
pub enum ConfigurationEvent {
    /// It was reloaded, with these changes.
    Reloaded { path: String, timestamp: u64, changes: Vec<ConfigurationChange> },
    /// A reload failed.
    ReloadFailed { path: String, error: String, timestamp: u64 },
    /// A configuration file changed.
    FileModified { path: String, timestamp: u64 },
    /// It was rolled back, for the reason given.
    RolledBack { path: String, error: String, timestamp: u64 },
    /// A new configuration is being checked.
    ValidationStarted { path: String, timestamp: u64 },
    /// The new configuration passed its checks.
    ValidationCompleted { path: String, timestamp: u64 },
}

/// Whether `e` is a rollback event for `path` with the reason `error` at `now`.
pub open spec fn is_rolled_back(e: ConfigurationEvent, path: Seq<char>, error: Seq<char>, now: u64) -> bool {
    e matches ConfigurationEvent::RolledBack { path: p, error: x, timestamp: t } && p@ == path && x@ == error && t == now
}

/// Whether `e` is a reload event for `path` at `now` with `n` changes.
pub open spec fn is_reloaded(e: ConfigurationEvent, path: Seq<char>, now: u64, n: nat) -> bool {
    e matches ConfigurationEvent::Reloaded { path: p, timestamp: t, changes } && p@ == path && t == now && changes@.len() == n
}

/// Whether `e` announces the start of checks of a configuration from `path` at `now`.
pub open spec fn is_validation_started(e: ConfigurationEvent, path: Seq<char>, now: u64) -> bool {
    e matches ConfigurationEvent::ValidationStarted { path: p, timestamp: t } && p@ == path && t == now
}

/// Whether `e` announces that a configuration from `path` passed its checks at `now`.
pub open spec fn is_validation_completed(e: ConfigurationEvent, path: Seq<char>, now: u64) -> bool {
    e matches ConfigurationEvent::ValidationCompleted { path: p, timestamp: t } && p@ == path && t == now
}

/// Whether `e` reports a change of the file `path` at `now`.
pub open spec fn is_file_modified(e: ConfigurationEvent, path: Seq<char>, now: u64) -> bool {
    e matches ConfigurationEvent::FileModified { path: p, timestamp: t } && p@ == path && t == now
}

/// The snapshots that stay when one more is kept: all of them, or all but
/// the oldest when ten are kept already.
pub open spec fn staying(history: Seq<ConfigurationSnapshot>) -> Seq<ConfigurationSnapshot> {
    if history.len() + 1 > 10 {
        history.drop_first()
    } else {
        history
    }
}

// ---------------------------------------------------------------- the manager

/// The configuration in use, the files it comes from (highest precedence
/// first), when each file was last seen changed, the snapshots kept for
/// rollback (oldest first, at most ten) and the events not yet delivered.
/// The configuration files and their precedences, in matching positions.
struct ConfigFiles {
    paths: Vec<String>,
    precedences: Vec<u32>,
}

/// Whether precedences never increase along `precs`.
pub open spec fn by_precedence(precs: Seq<u32>) -> bool {
    forall|i: int, j: int| 0 <= i < j < precs.len() ==> precs[i] >= precs[j]
}

pub struct ConfigurationManager {
    config: Configuration,
    config_files: ConfigFiles,
    file_timestamps: StrMap<u64>,
    max_backups: usize,
    config_history: Vec<ConfigurationSnapshot>,
    pending_events: Vec<ConfigurationEvent>,
}

impl ConfigurationManager {
    #[verifier::type_invariant]
    spec fn history_bounded(&self) -> bool {
        &&& self.max_backups == 10
        &&& self.config_history@.len() <= self.max_backups
        &&& self.config_files.paths@.len() == self.config_files.precedences@.len()
        &&& by_precedence(self.config_files.precedences@)
    }

    /// The configuration in use.
    pub closed spec fn current(&self) -> Configuration {
        self.config
    }

    /// The configuration files, highest precedence first.
    pub closed spec fn paths(&self) -> Seq<Seq<char>> {
        views(self.config_files.paths@)
    }

    /// The precedence each configuration file was added with, in the order of `paths`.
    pub closed spec fn precedences(&self) -> Seq<u32> {
        self.config_files.precedences@
    }

    /// The snapshots kept for rollback, oldest first.
    pub closed spec fn history(&self) -> Seq<ConfigurationSnapshot> {
        self.config_history@
    }

    /// The events not yet delivered, oldest first.
    pub closed spec fn events(&self) -> Seq<ConfigurationEvent> {
        self.pending_events@
    }

    /// When each file was last seen changed.
    pub closed spec fn timestamps(&self) -> Map<Seq<char>, u64> {
        self.file_timestamps@
    }

    /// A manager with the default configuration, no files, snapshots or events.
    pub fn new() -> (r: Result<ConfigurationManager, ConfigurationError>)
        ensures
            r matches Ok(m) && is_default_configuration(m.current()) && m.paths().len() == 0
                && m.precedences().len() == 0 && m.history().len() == 0
                && m.events().len() == 0 && m.timestamps() == Map::<Seq<char>, u64>::empty(),
    {
        let m = ConfigurationManager {
            config: crate::configuration::default_configuration(),
            config_files: ConfigFiles { paths: Vec::new(), precedences: Vec::new() },
            file_timestamps: StrMap::new(),
            max_backups: 10,
            config_history: Vec::new(),
            pending_events: Vec::new(),
        };
        assert(m.paths() =~= Seq::<Seq<char>>::empty());
        Ok(m)
    }

    /// Adds a configuration file with a precedence. Files are kept highest
    /// precedence first, so a file overrides those of lower precedence; among
    /// files of equal precedence the one added last comes first.
    pub fn add_config_path(&mut self, path: String, precedence: u32) -> (r: Result<(), ConfigurationError>)
        ensures
            r is Ok,
            exists|i: int| 0 <= i <= old(self).paths().len()
                && #[trigger] final(self).paths() == old(self).paths().insert(i, path@)
                && final(self).precedences() == old(self).precedences().insert(i, precedence)
                && (forall|j: int| 0 <= j < i ==> old(self).precedences()[j] > precedence)
                && (forall|j: int| i <= j < old(self).precedences().len() ==> old(self).precedences()[j] <= precedence),
            final(self).paths().len() == final(self).precedences().len(),
            by_precedence(final(self).precedences()),
            final(self).current() == old(self).current(),
            final(self).history() == old(self).history(),
            final(self).events() == old(self).events(),
            final(self).timestamps() == old(self).timestamps(),
    {
        proof { use_type_invariant(&*self); }
        let ghost before = self.paths();
        let ghost precs0 = self.precedences();
        let ghost pv = path@;
        let mut files = ConfigFiles { paths: Vec::new(), precedences: Vec::new() };
        std::mem::swap(&mut files, &mut self.config_files);
        let mut i: usize = 0;
        while i < files.precedences.len() && files.precedences[i] > precedence
            invariant
                i <= files.precedences@.len(),
                files.precedences@ == precs0,
                forall|j: int| 0 <= j < i ==> precs0[j] > precedence,
            decreases files.precedences.len() - i,
        {
            i = i + 1;
        }
        assert forall|j: int| i <= j < precs0.len() implies precs0[j] <= precedence by {
            if j > i {
                assert(precs0[i as int] >= precs0[j]);
            }
        }
        files.paths.insert(i, path);
        files.precedences.insert(i, precedence);
        let ghost precs1 = files.precedences@;
        assert(precs1 =~= precs0.insert(i as int, precedence));
        assert forall|a: int, b: int| 0 <= a < b < precs1.len() implies precs1[a] >= precs1[b] by {
            if a < i {
                if b < i { assert(precs1[a] == precs0[a] && precs1[b] == precs0[b]); }
                else if b == i { assert(precs1[a] == precs0[a]); }
                else { assert(precs1[a] == precs0[a] && precs1[b] == precs0[b - 1]); }
            } else if a == i {
                assert(precs1[b] == precs0[b - 1]);
            } else {
                assert(precs1[a] == precs0[a - 1] && precs1[b] == precs0[b - 1]);
            }
        }
        self.config_files = files;
        assert(self.paths() =~= before.insert(i as int, pv));
        Ok(())
    }

    /// The configuration files, highest precedence first.
    pub fn config_paths(&self) -> (r: &Vec<String>)
        ensures
            views(r@) == self.paths(),
    {
        &self.config_files.paths
    }

    /// A copy of the configuration in use.
    pub fn get_configuration(&self) -> (r: Configuration)
        ensures
            same_configuration(r, self.current()),
    {
        self.config.duplicate()
    }

    /// Copies of the snapshots kept, oldest first; there are never more than ten.
    pub fn get_configuration_history(&self) -> (r: Vec<ConfigurationSnapshot>)
        ensures
            r@.len() == self.history().len(),
            r@.len() <= 10,
            forall|i: int| 0 <= i < r@.len() ==> same_snapshot(#[trigger] r@[i], self.history()[i]),
    {
        proof { use_type_invariant(self); }
        let mut out: Vec<ConfigurationSnapshot> = Vec::new();
        let mut i: usize = 0;
        while i < self.config_history.len()
            invariant
                i <= self.config_history@.len(),
                out@.len() == i,
                forall|j: int| 0 <= j < i ==> same_snapshot(#[trigger] out@[j], self.config_history@[j]),
            decreases self.config_history.len() - i,
        {
            out.push(self.config_history[i].duplicate());
            i = i + 1;
        }
        out
    }

    /// Keeps a snapshot, dropping the oldest when more than the most kept would be.
    fn keep_snapshot(&mut self, snap: ConfigurationSnapshot)
        ensures
            final(self).history() == staying(old(self).history()).push(snap),
            final(self).current() == old(self).current(),
            final(self).paths() == old(self).paths(),
            final(self).events() == old(self).events(),
            final(self).timestamps() == old(self).timestamps(),
    {
        proof { use_type_invariant(&*self); }
        let ghost h = self.config_history@;
        let mut history: Vec<ConfigurationSnapshot> = Vec::new();
        std::mem::swap(&mut history, &mut self.config_history);
        history.push(snap);
        if history.len() > self.max_backups {
            history.remove(0);
        }
        assert(history@ =~= staying(h).push(snap));
        self.config_history = history;
    }

    /// Keeps a snapshot of the configuration in use, made at `now` because
    /// of `trigger_path` for `reason`, dropping the oldest snapshot when more
    /// than ten would be kept.
    pub fn create_snapshot(&mut self, trigger_path: String, reason: String, now: u64) -> (r: Result<(), ConfigurationError>)
        ensures
            r is Ok,
            final(self).history() == staying(old(self).history()).push(final(self).history().last()),
            same_configuration(final(self).history().last().config, old(self).current()),
            final(self).history().last().timestamp == now,
            final(self).history().last().trigger_path@ == trigger_path@,
            final(self).history().last().reason@ == reason@,
            final(self).current() == old(self).current(),
            final(self).paths() == old(self).paths(),
            final(self).events() == old(self).events(),
            final(self).timestamps() == old(self).timestamps(),
    {
        proof { use_type_invariant(&*self); }
        let snap = ConfigurationSnapshot { config: self.config.duplicate(), timestamp: now, trigger_path, reason };
        let ghost h = self.history();
        self.keep_snapshot(snap);
        Ok(())
    }
}


/// Whether `r` is the validation failure listing `errors`.
pub open spec fn failed_validation(r: Result<(), ConfigurationError>, errors: Seq<Seq<char>>) -> bool {
    r matches Err(ConfigurationError::ValidationFailed { errors: e }) && views(e@) == errors
}

/// Whether only the configuration in use and the events differ between two states.
pub open spec fn same_files_and_history(a: ConfigurationManager, b: ConfigurationManager) -> bool {
    &&& a.paths() == b.paths()
    &&& a.history() == b.history()
    &&& a.timestamps() == b.timestamps()
}

/// Whether two states are the same.
pub open spec fn unchanged(a: ConfigurationManager, b: ConfigurationManager) -> bool {
    &&& same_files_and_history(a, b)
    &&& a.current() == b.current()
    &&& a.events() == b.events()
}

impl ConfigurationManager {
    fn emit(&mut self, e: ConfigurationEvent)
        ensures
            final(self).events() == old(self).events().push(e),
            final(self).current() == old(self).current(),
            same_files_and_history(*final(self), *old(self)),
    {
        proof { use_type_invariant(&*self); }
        let mut events: Vec<ConfigurationEvent> = Vec::new();
        std::mem::swap(&mut events, &mut self.pending_events);
        events.push(e);
        self.pending_events = events;
    }

    fn set_config(&mut self, c: Configuration)
        ensures
            final(self).current() == c,
            final(self).events() == old(self).events(),
            same_files_and_history(*final(self), *old(self)),
    {
        proof { use_type_invariant(&*self); }
        self.config = c;
    }

    /// The events not yet delivered, oldest first; none are kept.
    pub fn take_events(&mut self) -> (r: Vec<ConfigurationEvent>)
        ensures
            r@ == old(self).events(),
            final(self).events().len() == 0,
            final(self).current() == old(self).current(),
            same_files_and_history(*final(self), *old(self)),
    {
        proof { use_type_invariant(&*self); }
        let mut events: Vec<ConfigurationEvent> = Vec::new();
        std::mem::swap(&mut events, &mut self.pending_events);
        events
    }

    /// Checks the configuration in use, with whether its plugin and output
    /// directories exist or could be created.
    pub fn validate_current_configuration(&self, plugin_dir_ready: bool, output_dir_ready: bool) -> (r: Result<(), ConfigurationError>)
        ensures
            ({
                let errs = full_validation_errors(self.current(), plugin_dir_ready, output_dir_ready);
                if errs.len() == 0 { r is Ok } else { failed_validation(r, errs) }
            }),
    {
        validate_configuration(&self.config, plugin_dir_ready, output_dir_ready)
    }

    /// Puts a configuration in use when it passes its checks (with whether
    /// its directories exist or could be created); otherwise nothing changes.
    pub fn install_configuration(&mut self, config: Configuration, plugin_dir_ready: bool, output_dir_ready: bool) -> (r: Result<(), ConfigurationError>)
        ensures
            ({
                let errs = full_validation_errors(config, plugin_dir_ready, output_dir_ready);
                if errs.len() == 0 {
                    r is Ok && final(self).current() == config && final(self).events() == old(self).events()
                        && same_files_and_history(*final(self), *old(self))
                } else {
                    failed_validation(r, errs) && unchanged(*final(self), *old(self))
                }
            }),
    {
        match validate_configuration(&config, plugin_dir_ready, output_dir_ready) {
            Err(e) => Err(e),
            Ok(()) => {
                self.set_config(config);
                Ok(())
            },
        }
    }

    /// Puts a configuration back in use when it passes its checks, and
    /// reports a reload from `rollback` with no changes; otherwise nothing changes.
    pub fn rollback_configuration(&mut self, backup_config: Configuration, plugin_dir_ready: bool, output_dir_ready: bool, now: u64) -> (r: Result<(), ConfigurationError>)
        ensures
            ({
                let errs = full_validation_errors(backup_config, plugin_dir_ready, output_dir_ready);
                if errs.len() == 0 {
                    &&& r is Ok
                    &&& final(self).current() == backup_config
                    &&& final(self).events() == old(self).events().push(final(self).events().last())
                    &&& is_reloaded(final(self).events().last(), "rollback"@, now, 0)
                    &&& same_files_and_history(*final(self), *old(self))
                } else {
                    failed_validation(r, errs) && unchanged(*final(self), *old(self))
                }
            }),
    {
        match validate_configuration(&backup_config, plugin_dir_ready, output_dir_ready) {
            Err(e) => Err(e),
            Ok(()) => {
                self.set_config(backup_config);
                self.emit(ConfigurationEvent::Reloaded { path: owned("rollback"), timestamp: now, changes: Vec::new() });
                Ok(())
            },
        }
    }

    /// Puts the newest snapshot's configuration back in use when it passes
    /// its checks (with whether its directories exist or could be created),
    /// and reports the rollback; fails when there is no snapshot.
    pub fn rollback_to_last_valid(&mut self, plugin_dir_ready: bool, output_dir_ready: bool, now: u64) -> (r: Result<(), ConfigurationError>)
        ensures
            old(self).history().len() == 0 ==> (r matches Err(ConfigurationError::ReloadFailed { message })
                && message@ == "No valid configuration snapshots available for rollback"@ && unchanged(*final(self), *old(self))),
            old(self).history().len() > 0 ==> ({
                let last = old(self).history().last();
                let errs = full_validation_errors(last.config, plugin_dir_ready, output_dir_ready);
                if errs.len() == 0 {
                    &&& r is Ok
                    &&& same_configuration(final(self).current(), last.config)
                    &&& final(self).events() == old(self).events().push(final(self).events().last())
                    &&& is_rolled_back(final(self).events().last(), last.trigger_path@, "Rolled back to last valid configuration"@, now)
                    &&& same_files_and_history(*final(self), *old(self))
                } else {
                    failed_validation(r, errs) && unchanged(*final(self), *old(self))
                }
            }),
    {
        let n = self.config_history.len();
        if n == 0 {
            return Err(ConfigurationError::ReloadFailed { message: owned("No valid configuration snapshots available for rollback") });
        }
        let last = &self.config_history[n - 1];
        match validate_configuration(&last.config, plugin_dir_ready, output_dir_ready) {
            Err(e) => Err(e),
            Ok(()) => {
                let c = last.config.duplicate();
                let p = copy_string(&last.trigger_path);
                self.set_config(c);
                self.emit(ConfigurationEvent::RolledBack {
                    path: p,
                    error: owned("Rolled back to last valid configuration"),
                    timestamp: now,
                });
                Ok(())
            },
        }
    }

    /// Notes when a file was last seen changed.
    pub fn record_file_timestamp(&mut self, path: String, modified: u64)
        ensures
            final(self).timestamps() == old(self).timestamps().insert(path@, modified),
            final(self).paths() == old(self).paths(),
            final(self).history() == old(self).history(),
            final(self).current() == old(self).current(),
            final(self).events() == old(self).events(),
    {
        proof { use_type_invariant(&*self); }
        let mut stamps: StrMap<u64> = StrMap::new();
        std::mem::swap(&mut stamps, &mut self.file_timestamps);
        stamps.insert(path, modified);
        self.file_timestamps = stamps;
    }
}

/// The files among the first `n` that changed: those seen with a change
/// time (`modified`, by position; nothing for a file that is missing or
/// whose time cannot be read) that is later than the one noted, or with no
/// time noted at all.
pub open spec fn modified_paths(paths: Seq<Seq<char>>, modified: Seq<Option<u64>>, noted: Map<Seq<char>, u64>, n: nat) -> Seq<Seq<char>>
    decreases n,
{
    if n == 0 {
        Seq::empty()
    } else {
        let i = n - 1;
        let rest = modified_paths(paths, modified, noted, (n - 1) as nat);
        if i < modified.len() && modified[i] is Some && (!noted.dom().contains(paths[i]) || modified[i]->0 > noted[paths[i]]) {
            rest.push(paths[i])
        } else {
            rest
        }
    }
}

impl ConfigurationManager {
    /// The configuration files changed since they were last noted, given
    /// each file's change time as now seen (by position).
    pub fn check_for_modifications(&self, modified: &Vec<Option<u64>>) -> (r: Vec<String>)
        ensures
            views(r@) == modified_paths(self.paths(), modified@, self.timestamps(), self.paths().len()),
    {
        let mut out: Vec<String> = Vec::new();
        let mut i: usize = 0;
        assert(views(out@) =~= Seq::<Seq<char>>::empty());
        while i < self.config_files.paths.len()
            invariant
                i <= self.config_files.paths@.len(),
                self.paths() == views(self.config_files.paths@),
                views(out@) == modified_paths(self.paths(), modified@, self.timestamps(), i as nat),
            decreases self.config_files.paths.len() - i,
        {
            let p = &self.config_files.paths[i];
            assert(self.paths()[i as int] == p@);
            if i < modified.len() {
                match modified[i] {
                    Some(t) => {
                        let changed = match self.file_timestamps.get(p.as_str()) {
                            Some(last) => t > *last,
                            None => true,
                        };
                        if changed {
                            let ghost before = out@;
                            out.push(copy_string(p));
                            assert(views(out@) =~= views(before).push(p@));
                        }
                    },
                    None => {},
                }
            }
            i = i + 1;
        }
        out
    }
}


// ---------------------------------------------------------------- reloads

/// Whether `e` reports a reload from `path` at `now` with exactly `changes`.
pub open spec fn is_reloaded_with(e: ConfigurationEvent, path: Seq<char>, now: u64, changes: Vec<ConfigurationChange>) -> bool {
    e matches ConfigurationEvent::Reloaded { path: p, timestamp: t, changes: c } && p@ == path && t == now && c == changes
}

/// The file a manual reload is reported for: the first configuration file, if any.
pub open spec fn reload_trigger(paths: Seq<Seq<char>>) -> Seq<char> {
    if paths.len() > 0 {
        paths[0]
    } else {
        Seq::empty()
    }
}

impl ConfigurationManager {
    /// Starts a manual reload at `now`: keeps a snapshot of the configuration
    /// in use ("Manual reload backup") and reports that checks start. Gives
    /// the file the reload is reported for and a copy of the configuration
    /// to return to if the reload fails.
    pub fn begin_reload(&mut self, now: u64) -> (r: (String, Configuration))
        ensures
            r.0@ == reload_trigger(old(self).paths()),
            same_configuration(r.1, old(self).current()),
            final(self).current() == old(self).current(),
            final(self).paths() == old(self).paths(),
            final(self).timestamps() == old(self).timestamps(),
            final(self).history() == staying(old(self).history()).push(final(self).history().last()),
            same_configuration(final(self).history().last().config, old(self).current()),
            final(self).history().last().timestamp == now,
            final(self).history().last().trigger_path@ == r.0@,
            final(self).history().last().reason@ == "Manual reload backup"@,
            final(self).events() == old(self).events().push(final(self).events().last()),
            is_validation_started(final(self).events().last(), r.0@, now),
    {
        let trigger = if self.config_files.paths.len() > 0 {
            copy_string(&self.config_files.paths[0])
        } else {
            String::new()
        };
        proof {
            if self.config_files.paths@.len() > 0 {
                assert(self.paths()[0] == self.config_files.paths@[0]@);
            }
        }
        let backup = self.config.duplicate();
        let snap = ConfigurationSnapshot {
            config: self.config.duplicate(),
            timestamp: now,
            trigger_path: copy_string(&trigger),
            reason: owned("Manual reload backup"),
        };
        self.keep_snapshot(snap);
        self.emit(ConfigurationEvent::ValidationStarted { path: copy_string(&trigger), timestamp: now });
        (trigger, backup)
    }

    /// Ends a manual reload. When the new configuration was put in use
    /// (`outcome` holds its changes), reports that checks passed and the
    /// reload with its changes. When it failed (`outcome` holds why), puts
    /// `backup` back in use, reports the rollback and fails.
    pub fn finish_reload(
        &mut self,
        trigger_path: String,
        backup: Configuration,
        outcome: Result<Vec<ConfigurationChange>, String>,
        now: u64,
    ) -> (r: Result<(), ConfigurationError>)
        ensures
            same_files_and_history(*final(self), *old(self)),
            match outcome {
                Ok(changes) => {
                    &&& r is Ok
                    &&& final(self).current() == old(self).current()
                    &&& final(self).events().len() == old(self).events().len() + 2
                    &&& final(self).events().take(old(self).events().len() as int) == old(self).events()
                    &&& is_validation_completed(final(self).events()[old(self).events().len() as int], trigger_path@, now)
                    &&& is_reloaded_with(final(self).events().last(), trigger_path@, now, changes)
                },
                Err(msg) => {
                    &&& r matches Err(ConfigurationError::ReloadFailed { message })
                        && message@ == "Configuration reload failed, rolled back to previous version: "@ + msg@
                    &&& final(self).current() == backup
                    &&& final(self).events() == old(self).events().push(final(self).events().last())
                    &&& is_rolled_back(final(self).events().last(), trigger_path@, msg@, now)
                },
            },
    {
        match outcome {
            Ok(changes) => {
                let ghost e0 = self.events();
                self.emit(ConfigurationEvent::ValidationCompleted { path: copy_string(&trigger_path), timestamp: now });
                let ghost e1 = self.events();
                self.emit(ConfigurationEvent::Reloaded { path: trigger_path, timestamp: now, changes });
                assert(self.events().take(e0.len() as int) =~= e0);
                assert(self.events()[e0.len() as int] == e1.last());
                Ok(())
            },
            Err(msg) => {
                let message = concat("Configuration reload failed, rolled back to previous version: ", msg.as_str());
                self.set_config(backup);
                self.emit(ConfigurationEvent::RolledBack { path: trigger_path, error: msg, timestamp: now });
                Err(ConfigurationError::ReloadFailed { message })
            },
        }
    }

    /// Whether `path` is one of the configuration files.
    pub fn watches(&self, path: &str) -> (r: bool)
        ensures
            r == self.paths().contains(path@),
    {
        let mut i: usize = 0;
        while i < self.config_files.paths.len()
            invariant
                i <= self.config_files.paths@.len(),
                self.paths() == views(self.config_files.paths@),
                forall|j: int| 0 <= j < i ==> self.paths()[j] != path@,
            decreases self.config_files.paths.len() - i,
        {
            if crate::text::str_equal(self.config_files.paths[i].as_str(), path) {
                assert(self.paths()[i as int] == path@);
                return true;
            }
            i = i + 1;
        }
        false
    }

    /// Starts a reload after a change of the file `path` at `now`. Nothing
    /// happens for a file that is not a configuration file. Otherwise reports
    /// the change and that checks start, and gives a copy of the
    /// configuration to return to if the reload fails.
    pub fn begin_hot_reload(&mut self, path: &String, now: u64) -> (r: Option<Configuration>)
        ensures
            !old(self).paths().contains(path@) ==> r is None && unchanged(*final(self), *old(self)),
            old(self).paths().contains(path@) ==> {
                &&& r matches Some(b) && same_configuration(b, old(self).current())
                &&& final(self).current() == old(self).current()
                &&& same_files_and_history(*final(self), *old(self))
                &&& final(self).events().len() == old(self).events().len() + 2
                &&& final(self).events().take(old(self).events().len() as int) == old(self).events()
                &&& is_file_modified(final(self).events()[old(self).events().len() as int], path@, now)
                &&& is_validation_started(final(self).events().last(), path@, now)
            },
    {
        if !self.watches(path.as_str()) {
            return None;
        }
        let ghost e0 = self.events();
        self.emit(ConfigurationEvent::FileModified { path: copy_string(path), timestamp: now });
        let ghost e1 = self.events();
        let backup = self.config.duplicate();
        self.emit(ConfigurationEvent::ValidationStarted { path: copy_string(path), timestamp: now });
        assert(self.events().take(e0.len() as int) =~= e0);
        assert(self.events()[e0.len() as int] == e1.last());
        Some(backup)
    }

    /// Ends a reload after the change of `path` seen at `changed_at`. When
    /// the files gave a configuration (`outcome`, with its changes against
    /// the one in use) that passes the settings checks, it is put in use, a
    /// snapshot of `backup` is kept ("Hot reload backup"), and checks passing
    /// and the reload are reported. Otherwise `backup` is put back in use and
    /// the rollback is reported with why.
    pub fn finish_hot_reload(
        &mut self,
        path: String,
        backup: Configuration,
        changed_at: u64,
        outcome: Result<(Configuration, Vec<ConfigurationChange>), String>,
        now: u64,
    )
        ensures
            final(self).paths() == old(self).paths(),
            final(self).timestamps() == old(self).timestamps(),
            match outcome {
                Ok((c, changes)) => if validation_errors(c).len() == 0 {
                    &&& final(self).current() == c
                    &&& final(self).history() == staying(old(self).history()).push(final(self).history().last())
                    &&& final(self).history().last().config == backup
                    &&& final(self).history().last().timestamp == changed_at
                    &&& final(self).history().last().trigger_path@ == path@
                    &&& final(self).history().last().reason@ == "Hot reload backup"@
                    &&& final(self).events().len() == old(self).events().len() + 2
                    &&& final(self).events().take(old(self).events().len() as int) == old(self).events()
                    &&& is_validation_completed(final(self).events()[old(self).events().len() as int], path@, now)
                    &&& is_reloaded_with(final(self).events().last(), path@, now, changes)
                } else {
                    &&& final(self).current() == backup
                    &&& final(self).history() == old(self).history()
                    &&& final(self).events() == old(self).events().push(final(self).events().last())
                    &&& is_rolled_back(final(self).events().last(), path@,
                        "Configuration validation failed: "@ + debug_list(validation_errors(c)), now)
                },
                Err(msg) => {
                    &&& final(self).current() == backup
                    &&& final(self).history() == old(self).history()
                    &&& final(self).events() == old(self).events().push(final(self).events().last())
                    &&& is_rolled_back(final(self).events().last(), path@, msg@, now)
                },
            },
    {
        match outcome {
            Ok((c, changes)) => {
                match validate_configuration_static(&c) {
                    Ok(()) => {
                        self.set_config(c);
                        let snap = ConfigurationSnapshot {
                            config: backup,
                            timestamp: changed_at,
                            trigger_path: copy_string(&path),
                            reason: owned("Hot reload backup"),
                        };
                        self.keep_snapshot(snap);
                        let ghost e0 = self.events();
                        self.emit(ConfigurationEvent::ValidationCompleted { path: copy_string(&path), timestamp: now });
                        let ghost e1 = self.events();
                        self.emit(ConfigurationEvent::Reloaded { path, timestamp: now, changes });
                        assert(self.events().take(e0.len() as int) =~= e0);
                        assert(self.events()[e0.len() as int] == e1.last());
                    },
                    Err(e) => {
                        let msg = e.message();
                        self.set_config(backup);
                        self.emit(ConfigurationEvent::RolledBack { path, error: msg, timestamp: now });
                    },
                }
            },
            Err(msg) => {
                self.set_config(backup);
                self.emit(ConfigurationEvent::RolledBack { path, error: msg, timestamp: now });
            },
        }
    }
}

/// Values that override the configuration, read from the environment
/// (`API_TEST_EXECUTION_STRATEGY`, `API_TEST_MAX_CONCURRENCY`,
/// `API_TEST_REQUEST_TIMEOUT`, `API_TEST_PLUGIN_DIR`, `API_TEST_OUTPUT_DIR`).
pub struct EnvironmentOverrides {
    pub strategy: Option<String>,
    pub max_concurrency: Option<String>,
    pub request_timeout: Option<String>,
    pub plugin_dir: Option<String>,
    pub output_dir: Option<String>,
}

/// Whether `ms` is a chain of merges of `files` in turn into the default
/// configuration: it starts with the default configuration and each next
/// configuration merges the next file into the one before.
pub open spec fn merge_chain(ms: Seq<Configuration>, files: Seq<Configuration>) -> bool {
    &&& ms.len() == files.len() + 1
    &&& is_default_configuration(ms[0])
    &&& forall|i: int| 0 <= i < files.len() ==> merged_except_retry(#[trigger] ms[i + 1], ms[i], files[i])
        && merged_retry(ms[i + 1].execution, ms[i].execution, files[i].execution)
}

/// Whether `ms` is a chain of merges of `files` the way reloads merge,
/// keeping the retry and rate-limit settings.
pub open spec fn reload_merge_chain(ms: Seq<Configuration>, files: Seq<Configuration>) -> bool {
    &&& ms.len() == files.len() + 1
    &&& is_default_configuration(ms[0])
    &&& forall|i: int| 0 <= i < files.len() ==> merged_except_retry(#[trigger] ms[i + 1], ms[i], files[i])
        && ms[i + 1].execution.retry == ms[i].execution.retry && ms[i + 1].execution.rate_limit == ms[i].execution.rate_limit
}

/// Whether `c` results from merging `files` in turn into the default configuration.
pub open spec fn merges_files(c: Configuration, files: Seq<Configuration>) -> bool {
    exists|ms: Seq<Configuration>| #[trigger] merge_chain(ms, files) && ms.last() == c
}

/// Whether `c` results from merging `files` in turn into the default
/// configuration the way reloads do.
pub open spec fn merges_files_on_reload(c: Configuration, files: Seq<Configuration>) -> bool {
    exists|ms: Seq<Configuration>| #[trigger] reload_merge_chain(ms, files) && ms.last() == c
}

/// Whether `r` is what the environment overrides make of `c`: the message
/// for a concurrency or timeout that is not a number, else the overridden
/// configuration.
pub open spec fn env_applied(c: Configuration, env: EnvironmentOverrides, r: Result<Configuration, String>) -> bool {
    let cn = match env.max_concurrency { Some(t) => parse_unsigned_text(t@, usize::MAX as u64), None => None };
    let tn = match env.request_timeout { Some(t) => parse_unsigned_text(t@, u64::MAX), None => None };
    if env.max_concurrency is Some && cn is None {
        r matches Err(m) && m@ == "Invalid API_TEST_MAX_CONCURRENCY value"@
    } else if env.request_timeout is Some && tn is None {
        r matches Err(m) && m@ == "Invalid API_TEST_REQUEST_TIMEOUT value"@
    } else {
        r matches Ok(x) && overridden(c, x, env.strategy, cn, tn, env.plugin_dir, env.output_dir)
    }
}

/// Merges the configurations read from the files, lowest precedence first,
/// into the default configuration, then applies the environment overrides.
pub fn merge_loaded_files(files: Vec<Configuration>, env: EnvironmentOverrides) -> (r: Result<Configuration, String>)
    ensures
        exists|m: Configuration| #[trigger] merges_files(m, files@) && env_applied(m, env, r),
{
    let ghost orig = files@;
    let mut rest = files;
    let mut merged = default_configuration();
    let ghost mut ms: Seq<Configuration> = seq![merged];
    assert(orig.take(0) =~= Seq::<Configuration>::empty());
    while rest.len() > 0
        invariant
            rest@.len() <= orig.len(),
            rest@ == orig.subrange(orig.len() - rest@.len(), orig.len() as int),
            merge_chain(ms, orig.take(orig.len() - rest@.len())),
            ms.last() == merged,
        decreases rest@.len(),
    {
        let ghost k = orig.len() - rest@.len();
        let f = rest.remove(0);
        let ghost prev = merged;
        proof {
            assert(f == orig[k]);
            assert(rest@ =~= orig.subrange(k + 1, orig.len() as int));
        }
        merged = match merge_configurations(merged, f) {
            Ok(c) => c,
            Err(e) => {
                proof { assert(false); }
                return Err(e.message());
            },
        };
        proof {
            let t = orig.take(k + 1);
            let ms2 = ms.push(merged);
            assert forall|i: int| 0 <= i < t.len() implies merged_except_retry(#[trigger] ms2[i + 1], ms2[i], t[i])
                && merged_retry(ms2[i + 1].execution, ms2[i].execution, t[i].execution) by {
                if i < k {
                    assert(ms2[i + 1] == ms[i + 1]);
                    assert(t[i] == orig.take(k)[i]);
                } else {
                    assert(ms2[i] == prev);
                    assert(t[i] == f);
                }
            }
            ms = ms2;
        }
    }
    assert(orig.take(orig.len() as int) =~= orig);
    let ghost m = merged;
    let EnvironmentOverrides { strategy, max_concurrency, request_timeout, plugin_dir, output_dir } = env;
    let r = apply_environment_overrides(merged, strategy, max_concurrency, request_timeout, plugin_dir, output_dir);
    assert(merge_chain(ms, orig) && ms.last() == m);
    assert(merges_files(m, orig) && env_applied(m, env, r));
    r
}

/// Merges the configurations read from the files the way reloads do, then
/// applies the environment overrides.
pub fn merge_loaded_files_on_reload(files: Vec<Configuration>, env: EnvironmentOverrides) -> (r: Result<Configuration, String>)
    ensures
        exists|m: Configuration| #[trigger] merges_files_on_reload(m, files@) && env_applied(m, env, r),
{
    let ghost orig = files@;
    let mut rest = files;
    let mut merged = default_configuration();
    let ghost mut ms: Seq<Configuration> = seq![merged];
    assert(orig.take(0) =~= Seq::<Configuration>::empty());
    while rest.len() > 0
        invariant
            rest@.len() <= orig.len(),
            rest@ == orig.subrange(orig.len() - rest@.len(), orig.len() as int),
            reload_merge_chain(ms, orig.take(orig.len() - rest@.len())),
            ms.last() == merged,
        decreases rest@.len(),
    {
        let ghost k = orig.len() - rest@.len();
        let f = rest.remove(0);
        let ghost prev = merged;
        proof {
            assert(f == orig[k]);
            assert(rest@ =~= orig.subrange(k + 1, orig.len() as int));
        }
        merged = match merge_configurations_static(merged, f) {
            Ok(c) => c,
            Err(e) => {
                proof { assert(false); }
                return Err(e.message());
            },
        };
        proof {
            let t = orig.take(k + 1);
            let ms2 = ms.push(merged);
            assert forall|i: int| 0 <= i < t.len() implies merged_except_retry(#[trigger] ms2[i + 1], ms2[i], t[i])
                && ms2[i + 1].execution.retry == ms2[i].execution.retry
                && ms2[i + 1].execution.rate_limit == ms2[i].execution.rate_limit by {
                if i < k {
                    assert(ms2[i + 1] == ms[i + 1]);
                    assert(t[i] == orig.take(k)[i]);
                } else {
                    assert(ms2[i] == prev);
                    assert(t[i] == f);
                }
            }
            ms = ms2;
        }
    }
    assert(orig.take(orig.len() as int) =~= orig);
    let ghost m = merged;
    let EnvironmentOverrides { strategy, max_concurrency, request_timeout, plugin_dir, output_dir } = env;
    let r = apply_environment_overrides(merged, strategy, max_concurrency, request_timeout, plugin_dir, output_dir);
    assert(reload_merge_chain(ms, orig) && ms.last() == m);
    assert(merges_files_on_reload(m, orig) && env_applied(m, env, r));
    r
}


// ---------------------------------------------------------------- secure values

/// A configuration whose secret settings are kept apart, by dot-separated path.
pub struct SecureConfiguration {
    pub base: Configuration,
    pub secure_values: StrMap<SecureValue>,
}

/// The settings of `name` with the text member `field` set to `value`, when
/// `name`'s settings are an object; otherwise the settings as they are.
pub open spec fn with_member_text(m: Map<Seq<char>, JsonView>, name: Seq<char>, field: Seq<char>, value: Seq<char>) -> Map<Seq<char>, JsonView> {
    if m.dom().contains(name) {
        match m[name] {
            JsonView::Object(members) => m.insert(name, JsonView::Object(insert_member(members, field, JsonView::String(value)))),
            _ => m,
        }
    } else {
        m
    }
}

fn set_member_text(map: &mut StrMap<JsonValue>, name: &String, field: &str, value: &str)
    ensures
        param_views(final(map)@) == with_member_text(param_views(old(map)@), name@, field@, value@),
{
    let ghost before = map@;
    match map.remove(name.as_str()) {
        Some(JsonValue::Object(members)) => {
            let mut members = members;
            put_member(&mut members, owned(field), JsonValue::String(owned(value)));
            let nv = JsonValue::Object(members);
            proof { lemma_param_views_insert(map@, name@, nv); }
            map.insert(copy_string(name), nv);
            assert(param_views(map@) =~= with_member_text(param_views(before), name@, field@, value@));
        },
        Some(other) => {
            map.insert(copy_string(name), other);
            assert(map@ =~= before);
        },
        None => {
            assert(map@ =~= before);
        },
    }
}

/// Where a secret setting goes: the dot-separated path's parts name an
/// authentication method's `client_secret` or `api_key`, or a data source's
/// `password` or `connection_string`; any other path is a custom value.
pub open spec fn secret_applied(c: Configuration, r: Configuration, path: Seq<char>, value: Seq<char>) -> bool {
    let parts = split_text(path, '.');
    let method_field = parts.len() == 4 && parts[0] == "auth"@ && parts[1] == "methods"@
        && (parts[3] == "client_secret"@ || parts[3] == "api_key"@);
    let source_field = !method_field && parts.len() == 4 && parts[0] == "data_sources"@ && parts[1] == "sources"@
        && (parts[3] == "password"@ || parts[3] == "connection_string"@);
    &&& r.execution == c.execution
    &&& r.plugins == c.plugins
    &&& r.reporting == c.reporting
    &&& r.environments == c.environments
    &&& r.auth.default_method == c.auth.default_method
    &&& r.data_sources.default_type == c.data_sources.default_type
    &&& param_views(r.auth.methods@) == if method_field {
        with_member_text(param_views(c.auth.methods@), parts[2], parts[3], value)
    } else {
        param_views(c.auth.methods@)
    }
    &&& param_views(r.data_sources.sources@) == if source_field {
        with_member_text(param_views(c.data_sources.sources@), parts[2], parts[3], value)
    } else {
        param_views(c.data_sources.sources@)
    }
    &&& param_views(r.custom@) == if method_field || source_field {
        param_views(c.custom@)
    } else {
        param_views(c.custom@).insert(path, JsonView::String(value))
    }
}

/// Whether step `i` of resolving the secure values stored under `keys`
/// opens the value under `keys[i]`, with the reads `reads[i]`, to `rs[i]`
/// and puts that text at the key's path, turning `cs[i]` into `cs[i + 1]`.
pub open spec fn resolved_at(
    key: Option<Seq<u8>>,
    keys: Seq<Seq<char>>,
    values: Map<Seq<char>, SecureValue>,
    reads: Seq<(Option<String>, KeyringRead)>,
    cs: Seq<Configuration>,
    rs: Seq<Result<String, ConfigurationError>>,
    i: int,
) -> bool {
    &&& decrypt_outcome(key, values[keys[i]], reads[i].0, reads[i].1, rs[i])
    &&& rs[i] matches Ok(x) && secret_applied(cs[i], cs[i + 1], keys[i], x@)
}

/// Whether `cs` and `rs` trace the first `n` steps of resolving secure values.
pub open spec fn resolve_trace(
    key: Option<Seq<u8>>,
    keys: Seq<Seq<char>>,
    values: Map<Seq<char>, SecureValue>,
    reads: Seq<(Option<String>, KeyringRead)>,
    cs: Seq<Configuration>,
    rs: Seq<Result<String, ConfigurationError>>,
    n: int,
) -> bool {
    &&& cs.len() == n + 1
    &&& rs.len() == n
    &&& forall|i: int| 0 <= i < n ==> #[trigger] resolved_at(key, keys, values, reads, cs, rs, i)
}

/// Whether `r` is what resolving the secure values stored under `keys`
/// over `base` gives: the configuration after every step, or the error of
/// the first value that cannot be opened.
pub open spec fn resolution(
    key: Option<Seq<u8>>,
    keys: Seq<Seq<char>>,
    values: Map<Seq<char>, SecureValue>,
    reads: Seq<(Option<String>, KeyringRead)>,
    base: Configuration,
    r: Result<Configuration, ConfigurationError>,
) -> bool {
    let n = keys.len() as int;
    match r {
        Ok(c) => exists|cs: Seq<Configuration>, rs: Seq<Result<String, ConfigurationError>>|
            #[trigger] resolve_trace(key, keys, values, reads, cs, rs, n)
            && same_configuration(cs[0], base) && cs[n] == c,
        Err(e) => exists|cs: Seq<Configuration>, rs: Seq<Result<String, ConfigurationError>>, k: int|
            0 <= k < n && #[trigger] resolve_trace(key, keys, values, reads, cs, rs, k)
            && same_configuration(cs[0], base)
            && decrypt_outcome(key, values[keys[k]], reads[k].0, reads[k].1, Err(e)),
    }
}

impl SecureConfigManager {
    /// The configuration with every secure value resolved and put at its
    /// path, in the order the values are stored; the first value that cannot
    /// be opened stops the resolution with its error. `reads` gives, for each
    /// secure value in that order, the environment variable and keyring entry
    /// it names, as read.
    pub fn resolve_secure_values(
        &self,
        secure_config: &SecureConfiguration,
        given_reads: Vec<(Option<String>, KeyringRead)>,
    ) -> (r: Result<Configuration, ConfigurationError>)
        requires
            given_reads@.len() == secure_config.secure_values.key_order().len(),
            forall|k: Seq<char>| #[trigger] secure_config.secure_values@.dom().contains(k)
                ==> decryptable(self.master_key(), secure_config.secure_values@[k]),
        ensures
            resolution(
                self.master_key(),
                secure_config.secure_values.key_order(),
                secure_config.secure_values@,
                given_reads@,
                secure_config.base,
                r,
            ),
    {
        let ghost keys = secure_config.secure_values.key_order();
        let ghost values = secure_config.secure_values@;
        let ghost reads0 = given_reads@;
        let ghost key = self.master_key();
        let n = secure_config.secure_values.len();
        let mut config = secure_config.base.duplicate();
        let ghost mut cs: Seq<Configuration> = seq![config];
        let ghost mut rs: Seq<Result<String, ConfigurationError>> = Seq::empty();
        let mut reads = given_reads;
        let mut i: usize = 0;
        proof {
            secure_config.secure_values.lemma_key_order();
            assert(reads@ =~= reads0.subrange(0, n as int));
        }
        while i < n
            invariant
                i <= n,
                n == keys.len(),
                keys == secure_config.secure_values.key_order(),
                values == secure_config.secure_values@,
                key == self.master_key(),
                reads0.len() == n,
                reads0 == given_reads@,
                reads@ == reads0.subrange(i as int, n as int),
                forall|k: Seq<char>| #[trigger] values.dom().contains(k) <==> keys.contains(k),
                forall|k: Seq<char>| #[trigger] values.dom().contains(k) ==> decryptable(key, values[k]),
                resolve_trace(key, keys, values, reads0, cs, rs, i as int),
                same_configuration(cs[0], secure_config.base),
                cs[i as int] == config,
            decreases n - i,
        {
            let (k, v) = secure_config.secure_values.entry_at(i);
            proof {
                assert(keys.contains(k@));
                assert(values.dom().contains(k@));
                assert(*v == values[keys[i as int]]);
                assert(reads@[0] == reads0[i as int]);
            }
            let (env, kr) = reads.remove(0);
            assert(reads0[i as int] == (env, kr));
            proof {
                assert(reads@ =~= reads0.subrange(i + 1, n as int));
            }
            let res = self.decrypt_value(v, env, kr);
            let ghost rres = res;
            match res {
                Err(e) => {
                    proof {
                        assert(decrypt_outcome(key, values[keys[i as int]], reads0[i as int].0, reads0[i as int].1, Err(e)));
                        assert(resolve_trace(key, keys, values, reads0, cs, rs, i as int));
                        assert(same_configuration(cs[0], secure_config.base));
                        assert(0 <= i < keys.len());
                    }
                    let r = Err(e);
                    assert(resolution(key, keys, values, reads0, secure_config.base, r));
                    return r;
                },
                Ok(x) => {
                    let ghost before = config;
                    let _ = self.apply_secure_value_to_config(&mut config, k.as_str(), x.as_str());
                    proof {
                        let cs2 = cs.push(config);
                        let rs2 = rs.push(rres);
                        assert(resolved_at(key, keys, values, reads0, cs2, rs2, i as int));
                        assert forall|q: int| 0 <= q < i + 1 implies #[trigger] resolved_at(key, keys, values, reads0, cs2, rs2, q) by {
                            if q < i {
                                assert(resolved_at(key, keys, values, reads0, cs, rs, q));
                                assert(cs2[q] == cs[q] && cs2[q + 1] == cs[q + 1] && rs2[q] == rs[q]);
                            }
                        }
                        cs = cs2;
                        rs = rs2;
                    }
                },
            }
            i = i + 1;
        }
        let r = Ok(config);
        assert(resolution(key, keys, values, reads0, secure_config.base, r));
        r
    }
    /// Puts a secret's resolved value at its path in the configuration.
    pub fn apply_secure_value_to_config(&self, config: &mut Configuration, path: &str, value: &str) -> (r: Result<(), ConfigurationError>)
        ensures
            r is Ok,
            secret_applied(*old(config), *final(config), path@, value@),
    {
        let parts = split_on(path, '.');
        let four = parts.len() == 4;
        let method_field = four && str_equal(parts[0].as_str(), "auth") && str_equal(parts[1].as_str(), "methods")
            && (str_equal(parts[3].as_str(), "client_secret") || str_equal(parts[3].as_str(), "api_key"));
        let source_field = !method_field && four && str_equal(parts[0].as_str(), "data_sources") && str_equal(parts[1].as_str(), "sources")
            && (str_equal(parts[3].as_str(), "password") || str_equal(parts[3].as_str(), "connection_string"));
        proof {
            if four {
                assert(views(parts@)[0] == parts@[0]@);
                assert(views(parts@)[1] == parts@[1]@);
                assert(views(parts@)[2] == parts@[2]@);
                assert(views(parts@)[3] == parts@[3]@);
            }
        }
        let ghost before = *config;
        if method_field {
            set_member_text(&mut config.auth.methods, &parts[2], parts[3].as_str(), value);
        } else if source_field {
            set_member_text(&mut config.data_sources.sources, &parts[2], parts[3].as_str(), value);
        } else {
            let v = JsonValue::String(owned(value));
            proof { lemma_param_views_insert(config.custom@, path@, v); }
            config.custom.insert(owned(path), v);
        }
        Ok(())
    }
}

} // verus!
