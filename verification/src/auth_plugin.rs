//! Authentication values shared by the plugins and the chain executor:
//! tokens, configurations, failures and chain settings.

use vstd::prelude::*;
use crate::json::JsonValue;
use crate::strmap::StrMap;
use crate::error::{PluginError, ProtocolError};
use crate::data_source::text_views;
use crate::text::{views, owned, copy_string, concat};
use crate::config_manager::copy_json_map;
use crate::auth_chain_executor::{
    final_failure, is_final_failure, unknown_plugin_message, enhanced_config, enhance_config_with, deps_satisfied,
    record_step_outcome, aborts,
};

verus! {

/// An authentication token. `expires_at` is in milliseconds since the Unix epoch.
pub struct AuthToken {
    pub token: String,
    pub token_type: String,
    pub expires_at: Option<u64>,
    pub refresh_token: Option<String>,
    pub scope: Option<String>,
}

/// Whether a token expiring at `expires_at` counts as expired at `now`,
/// allowing `buffer` milliseconds of margin.
pub open spec fn token_expired(expires_at: Option<u64>, now: u64, buffer: u64) -> bool {
    match expires_at {
        Some(e) => e <= now + buffer,
        None => false,
    }
}

/// Current time in milliseconds since the Unix epoch (std's `SystemTime::now`).
#[verifier::external_body]
pub(crate) fn now_millis() -> (r: u64) {
    std::time::SystemTime::now()
        .duration_since(std::time::UNIX_EPOCH)
        .map(|d| d.as_millis() as u64)
        .unwrap_or(0)
}

impl AuthToken {
    /// Whether the token is expired at `now`, or will be within `buffer` milliseconds.
    pub fn is_expired_at(&self, now: u64, buffer: u64) -> (r: bool)
        ensures
            r == token_expired(self.expires_at, now, buffer),
    {
        match self.expires_at {
            Some(e) => {
                if now > u64::MAX - buffer {
                    true
                } else {
                    e <= now + buffer
                }
            },
            None => false,
        }
    }

    /// Whether the token is expired now, or will be within `buffer` milliseconds.
    /// A token without an expiry never expires.
    pub fn is_expired(&self, buffer: u64) -> (r: bool)
        ensures
            exists|now: u64| r == token_expired(self.expires_at, now, buffer),
            self.expires_at is None ==> !r,
    {
        let now = now_millis();
        self.is_expired_at(now, buffer)
    }

    /// A copy of this token.
    pub fn duplicate(&self) -> (r: AuthToken)
        ensures
            r.token@ == self.token@,
            r.token_type@ == self.token_type@,
            r.expires_at == self.expires_at,
            opt_view(r.refresh_token) == opt_view(self.refresh_token),
            opt_view(r.scope) == opt_view(self.scope),
    {
        AuthToken {
            token: self.token.clone(),
            token_type: self.token_type.clone(),
            expires_at: self.expires_at,
            refresh_token: match &self.refresh_token {
                Some(s) => Some(s.clone()),
                None => None,
            },
            scope: match &self.scope {
                Some(s) => Some(s.clone()),
                None => None,
            },
        }
    }
}

/// The view of an optional string.
pub open spec fn opt_view(s: Option<String>) -> Option<Seq<char>> {
    match s {
        Some(x) => Some(x@),
        None => None,
    }
}

/// Authentication configuration for the supported authentication types.
pub enum AuthConfig {
    OAuth2 {
        client_id: String,
        client_secret: String,
        token_url: String,
        scope: Option<String>,
        grant_type: String,
        username: Option<String>,
        password: Option<String>,
    },
    Jwt {
        secret: String,
        algorithm: String,
        issuer: Option<String>,
        audience: Option<String>,
        /// Lifetime of issued tokens, in seconds.
        expiration: Option<u64>,
        custom_claims: StrMap<JsonValue>,
    },
    BasicAuth { username: String, password: String },
    ApiKey { key: String, header_name: String, prefix: Option<String> },
    Custom { auth_type: String, parameters: StrMap<JsonValue> },
}

/// A successful authentication: the token and metadata about it.
pub struct AuthResult {
    pub token: AuthToken,
    pub metadata: StrMap<String>,
}

/// An authentication failure. `retry_after` is in milliseconds.
pub struct AuthFailure {
    pub error_code: String,
    pub error_description: String,
    pub retry_after: Option<u64>,
    pub should_retry: bool,
}

/// What a chain does when a required step fails.
#[derive(PartialEq, Eq, Structural)]
pub enum FailureStrategy {
    /// Stop on the first failure.
    FailFast,
    /// Continue even if steps fail.
    ContinueOnError,
    /// Retry the whole chain on any failure.
    RetryAll,
}

/// One step of an authentication chain.
pub struct AuthStepConfig {
    pub plugin_name: String,
    pub config: AuthConfig,
    pub required: bool,
    /// Names of the steps this step depends on.
    pub depends_on: Vec<String>,
}

/// Retry settings of a chain. Delays are in milliseconds; the backoff factor
/// between attempts is applied by the caller that waits.
pub struct RetryConfig {
    pub max_attempts: u32,
    pub initial_delay: u64,
    pub max_delay: u64,
}

impl RetryConfig {
    /// Three attempts, starting at 100 ms and capped at 30 s.
    pub fn default_config() -> (r: RetryConfig)
        ensures
            r.max_attempts == 3,
            r.initial_delay == 100,
            r.max_delay == 30000,
    {
        RetryConfig { max_attempts: 3, initial_delay: 100, max_delay: 30000 }
    }
}

/// A chain of authentication steps.
pub struct AuthChainConfig {
    pub steps: Vec<AuthStepConfig>,
    pub failure_strategy: FailureStrategy,
    pub retry_config: RetryConfig,
}

/// The outcome of a chain: tokens by step name, merged metadata and the names
/// of the steps that failed.
pub struct AuthChainResult {
    pub tokens: StrMap<AuthToken>,
    pub metadata: StrMap<String>,
    pub failed_steps: Vec<String>,
}

/// An authentication plugin. Each plugin states, through its spec functions,
/// which authentication type it handles, which configurations it accepts and
/// how its results relate to what it was given.
pub trait AuthPlugin {
    /// The authentication type the plugin handles.
    spec fn handled_type(&self) -> Seq<char>;

    /// Whether the plugin accepts `config`.
    spec fn accepts(&self, config: AuthConfig) -> bool;

    /// Whether the plugin refreshes tokens.
    spec fn refreshable(&self) -> bool;

    /// Whether `r` is an outcome of authenticating with `config`.
    spec fn authenticated(&self, config: AuthConfig, r: Result<AuthResult, AuthFailure>) -> bool;

    /// Whether `r` is an outcome of refreshing `token` under `config`.
    spec fn refreshed(&self, token: AuthToken, config: AuthConfig, r: Result<AuthResult, AuthFailure>) -> bool;

    /// Whether applying `token` may turn the headers `before` into `after`,
    /// succeeding when `ok` holds.
    spec fn applied(
        &self,
        before: Map<Seq<char>, Seq<char>>,
        token: AuthToken,
        after: Map<Seq<char>, Seq<char>>,
        ok: bool,
    ) -> bool;

    /// The authentication type the plugin handles.
    fn auth_type(&self) -> (r: String)
        ensures
            r@ == self.handled_type(),
    ;

    /// Authenticates and returns a token.
    fn authenticate(&self, config: &AuthConfig) -> (r: Result<AuthResult, AuthFailure>)
        ensures
            self.authenticated(*config, r),
    ;

    /// Refreshes an existing token.
    fn refresh_token(&self, token: &AuthToken, config: &AuthConfig) -> (r: Result<AuthResult, AuthFailure>)
        ensures
            self.refreshed(*token, *config, r),
    ;

    /// Applies a token to the headers of a request.
    fn apply_auth(&self, headers: &mut StrMap<String>, token: &AuthToken) -> (r: Result<(), ProtocolError>)
        ensures
            self.applied(text_views(old(headers)@), *token, text_views(final(headers)@), r is Ok),
    ;

    /// Checks an authentication configuration.
    fn validate_config(&self, config: &AuthConfig) -> (r: Result<(), PluginError>)
        ensures
            r is Ok <==> self.accepts(*config),
    ;

    /// Whether the plugin refreshes tokens.
    fn supports_refresh(&self) -> (r: bool)
        ensures
            r == self.refreshable(),
    ;
}

/// Message for a dependency of a step that has not produced a token.
pub open spec fn pending_dep_message(step: Seq<char>, dep: Seq<char>) -> Seq<char> {
    "Authentication step '"@ + step + "' depends on '"@ + dep + "' which has not completed successfully"@
}

/// `j` is the first dependency of `step` without a token among `done`.
pub open spec fn first_pending_dep(step: AuthStepConfig, done: Set<Seq<char>>, j: int) -> bool {
    &&& 0 <= j < step.depends_on@.len()
    &&& !done.contains(step.depends_on@[j]@)
    &&& forall|q: int| 0 <= q < j ==> done.contains(#[trigger] step.depends_on@[q]@)
}

/// Whether `f` reports a configuration that the plugin refused.
pub open spec fn is_validation_failure(f: AuthFailure) -> bool {
    &&& f.error_code@ == "CONFIG_VALIDATION_FAILED"@
    &&& exists|e: PluginError| f.error_description@ == "Configuration validation failed: "@ + e.text()
    &&& f.retry_after is None
    &&& !f.should_retry
}

/// Whether `r` is what plugin `p` gives for the step's configuration, with
/// the tokens of its dependencies among `tokens` added: the plugin's
/// authentication when it accepts that configuration, a validation failure
/// otherwise.
pub open spec fn plugin_outcome(
    plugins: Map<Seq<char>, Box<dyn AuthPlugin>>,
    step: AuthStepConfig,
    tokens: Map<Seq<char>, AuthToken>,
    r: Result<AuthResult, AuthFailure>,
) -> bool {
    exists|c: AuthConfig|
        enhanced_config(step.config, views(step.depends_on@), tokens, false, c) && #[trigger] decided_by(
            plugins,
            step.plugin_name@,
            c,
            r,
        )
}

/// Whether `r` is what the plugin registered under `name` gives for
/// `config`: its authentication when it accepts the configuration, a
/// validation failure otherwise.
pub open spec fn decided_by(
    plugins: Map<Seq<char>, Box<dyn AuthPlugin>>,
    name: Seq<char>,
    config: AuthConfig,
    r: Result<AuthResult, AuthFailure>,
) -> bool {
    if plugins[name].accepts(config) {
        plugins[name].authenticated(config, r)
    } else {
        r matches Err(f) && is_validation_failure(f)
    }
}

/// Whether `r` is an outcome of running `step` with `plugins` once the steps
/// that produced `tokens` have run: its first dependency without a token is
/// reported, or else a plugin that is not registered, or else the plugin
/// decides.
pub open spec fn step_outcome(
    plugins: Map<Seq<char>, Box<dyn AuthPlugin>>,
    step: AuthStepConfig,
    tokens: Map<Seq<char>, AuthToken>,
    r: Result<AuthResult, AuthFailure>,
) -> bool {
    if !deps_satisfied(&step, tokens.dom()) {
        exists|j: int| #[trigger] first_pending_dep(step, tokens.dom(), j) && (r matches Err(f) && is_final_failure(
            f,
            "DEPENDENCY_NOT_SATISFIED"@,
            pending_dep_message(step.plugin_name@, step.depends_on@[j]@),
        ))
    } else if !plugins.dom().contains(step.plugin_name@) {
        r matches Err(f) && is_final_failure(f, "PLUGIN_NOT_FOUND"@, unknown_plugin_message(step.plugin_name@))
    } else {
        plugin_outcome(plugins, step, tokens, r)
    }
}

/// The parts of a chain result that running steps changes: the tokens, the
/// metadata and the names of the failed steps.
pub open spec fn chain_state(r: AuthChainResult) -> (Map<Seq<char>, AuthToken>, Map<Seq<char>, String>, Seq<Seq<char>>) {
    (r.tokens@, r.metadata@, views(r.failed_steps@))
}

/// Whether recording outcome `o` of `step` turns state `s` into `t` and stops
/// the chain with `abort`: a success stores the token and merges the
/// metadata; a failure lists the step and stops the chain when the step is
/// required and the strategy does not continue.
pub open spec fn recorded(
    s: (Map<Seq<char>, AuthToken>, Map<Seq<char>, String>, Seq<Seq<char>>),
    step: AuthStepConfig,
    o: Result<AuthResult, AuthFailure>,
    strategy: FailureStrategy,
    t: (Map<Seq<char>, AuthToken>, Map<Seq<char>, String>, Seq<Seq<char>>),
    abort: Option<AuthFailure>,
) -> bool {
    match o {
        Ok(a) => t == (s.0.insert(step.plugin_name@, a.token), s.1.union_prefer_right(a.metadata@), s.2)
            && abort is None,
        Err(f) => t == (s.0, s.1, s.2.push(step.plugin_name@)) && abort == if aborts(step.required, strategy) {
            Some(f)
        } else {
            None
        },
    }
}

/// Whether running `step` with `plugins` may turn state `s` into `t`,
/// stopping the chain with `abort`.
pub open spec fn step_taken(
    plugins: Map<Seq<char>, Box<dyn AuthPlugin>>,
    step: AuthStepConfig,
    strategy: FailureStrategy,
    s: (Map<Seq<char>, AuthToken>, Map<Seq<char>, String>, Seq<Seq<char>>),
    t: (Map<Seq<char>, AuthToken>, Map<Seq<char>, String>, Seq<Seq<char>>),
    abort: Option<AuthFailure>,
) -> bool {
    exists|o: Result<AuthResult, AuthFailure>|
        step_outcome(plugins, step, s.0, o) && #[trigger] recorded(s, step, o, strategy, t, abort)
}

/// Whether step `i` of the chain turns `states[i]` into `states[i + 1]`
/// without stopping the chain.
pub open spec fn step_taken_at(
    plugins: Map<Seq<char>, Box<dyn AuthPlugin>>,
    steps: Seq<AuthStepConfig>,
    strategy: FailureStrategy,
    states: Seq<(Map<Seq<char>, AuthToken>, Map<Seq<char>, String>, Seq<Seq<char>>)>,
    i: int,
) -> bool {
    step_taken(plugins, steps[i], strategy, states[i], states[i + 1], None)
}

/// Whether `states` traces the first `states.len() - 1` steps of the chain,
/// none of them stopping it.
pub open spec fn chain_trace(
    plugins: Map<Seq<char>, Box<dyn AuthPlugin>>,
    steps: Seq<AuthStepConfig>,
    strategy: FailureStrategy,
    states: Seq<(Map<Seq<char>, AuthToken>, Map<Seq<char>, String>, Seq<Seq<char>>)>,
) -> bool {
    &&& 1 <= states.len() <= steps.len() + 1
    &&& forall|i: int| 0 <= i < states.len() - 1 ==> #[trigger] step_taken_at(plugins, steps, strategy, states, i)
}

/// Whether the `i`-th configuration turns the headers `hs[i]` into
/// `hs[i + 1]`: when a token is cached for its step and a plugin is
/// registered under its name, the plugin applies the token with success;
/// otherwise the headers stay as they are.
pub open spec fn auth_applied_at(
    plugins: Map<Seq<char>, Box<dyn AuthPlugin>>,
    cache: Map<Seq<char>, AuthToken>,
    configs: Seq<AuthStepConfig>,
    hs: Seq<Map<Seq<char>, Seq<char>>>,
    i: int,
) -> bool {
    let name = configs[i].plugin_name@;
    if cache.dom().contains(name) && plugins.dom().contains(name) {
        plugins[name].applied(hs[i], cache[name], hs[i + 1], true)
    } else {
        hs[i + 1] == hs[i]
    }
}

/// Whether `hs` traces the headers through the first `hs.len() - 1` configurations.
pub open spec fn auth_trace(
    plugins: Map<Seq<char>, Box<dyn AuthPlugin>>,
    cache: Map<Seq<char>, AuthToken>,
    configs: Seq<AuthStepConfig>,
    hs: Seq<Map<Seq<char>, Seq<char>>>,
) -> bool {
    &&& 1 <= hs.len() <= configs.len() + 1
    &&& forall|i: int| 0 <= i < hs.len() - 1 ==> #[trigger] auth_applied_at(plugins, cache, configs, hs, i)
}

/// Whether the refresh for configuration `cfg` at `now` turns the cache
/// `before` into `after`, stopping with `abort`. A cached token that expires
/// within a minute, for a registered plugin that refreshes, is refreshed;
/// when refreshing fails the step authenticates again, and when that fails
/// too the token is dropped and the failure stops the refresh. Anything else
/// leaves the cache as it is.
pub open spec fn refresh_step(
    plugins: Map<Seq<char>, Box<dyn AuthPlugin>>,
    cfg: AuthStepConfig,
    now: u64,
    before: Map<Seq<char>, AuthToken>,
    after: Map<Seq<char>, AuthToken>,
    abort: Option<AuthFailure>,
) -> bool {
    let name = cfg.plugin_name@;
    if before.dom().contains(name) && token_expired(before[name].expires_at, now, 60000)
        && plugins.dom().contains(name) && plugins[name].refreshable() {
        exists|o1: Result<AuthResult, AuthFailure>, o2: Result<AuthResult, AuthFailure>|
            #[trigger] refresh_outcome(plugins, name, before[name], cfg.config, o1, o2)
            && match o1 {
                Ok(a) => after == before.insert(name, a.token) && abort is None,
                Err(_) => match o2 {
                    Ok(a) => after == before.insert(name, a.token) && abort is None,
                    Err(f) => after == before.remove(name) && abort == Some(f),
                },
            }
    } else {
        after == before && abort is None
    }
}

/// Whether `o1` is an outcome of refreshing `token` with the plugin
/// registered under `name` and, when
/// that failed, `o2` one of authenticating again with `config`.
pub open spec fn refresh_outcome(
    plugins: Map<Seq<char>, Box<dyn AuthPlugin>>,
    name: Seq<char>,
    token: AuthToken,
    config: AuthConfig,
    o1: Result<AuthResult, AuthFailure>,
    o2: Result<AuthResult, AuthFailure>,
) -> bool {
    &&& plugins[name].refreshed(token, config, o1)
    &&& o1 is Err ==> plugins[name].authenticated(config, o2)
}

/// Whether configuration `i` turns `caches[i]` into `caches[i + 1]` without stopping.
pub open spec fn refresh_step_at(
    plugins: Map<Seq<char>, Box<dyn AuthPlugin>>,
    configs: Seq<AuthStepConfig>,
    now: u64,
    caches: Seq<Map<Seq<char>, AuthToken>>,
    i: int,
) -> bool {
    refresh_step(plugins, configs[i], now, caches[i], caches[i + 1], None)
}

/// Whether `caches` traces the cache through the first `caches.len() - 1`
/// configurations, none of them stopping the refresh.
pub open spec fn refresh_trace(
    plugins: Map<Seq<char>, Box<dyn AuthPlugin>>,
    configs: Seq<AuthStepConfig>,
    now: u64,
    caches: Seq<Map<Seq<char>, AuthToken>>,
) -> bool {
    &&& 1 <= caches.len() <= configs.len() + 1
    &&& forall|i: int| 0 <= i < caches.len() - 1 ==> #[trigger] refresh_step_at(plugins, configs, now, caches, i)
}

/// Whether refreshing at `now` for `configs` may turn the cache `c0` into
/// `c1` with result `r`: every configuration refreshed in turn, or the refresh
/// stopped by the failure of one of them.
pub open spec fn refresh_result(
    plugins: Map<Seq<char>, Box<dyn AuthPlugin>>,
    configs: Seq<AuthStepConfig>,
    now: u64,
    c0: Map<Seq<char>, AuthToken>,
    c1: Map<Seq<char>, AuthToken>,
    r: Result<(), AuthFailure>,
) -> bool {
    match r {
        Ok(_) => exists|caches: Seq<Map<Seq<char>, AuthToken>>|
            #[trigger] refresh_trace(plugins, configs, now, caches)
            && caches.len() == configs.len() + 1
            && caches[0] == c0
            && caches.last() == c1,
        Err(f) => exists|caches: Seq<Map<Seq<char>, AuthToken>>|
            #[trigger] refresh_trace(plugins, configs, now, caches)
            && caches.len() <= configs.len()
            && caches[0] == c0
            && refresh_step(plugins, configs[caches.len() - 1], now, caches.last(), c1, Some(f)),
    }
}

/// Authentication plugins by the type they handle, and the tokens cached for them.
pub struct AuthManager {
    plugins: StrMap<Box<dyn AuthPlugin>>,
    token_cache: StrMap<AuthToken>,
}

/// The texts of five strings, joined.
fn join5(a: &str, b: &String, c: &str, d: &String, e: &str) -> (r: String)
    ensures
        r@ == a@ + b@ + c@ + d@ + e@,
{
    let mut s = owned(a);
    s.append(b.as_str());
    s.append(c);
    s.append(d.as_str());
    s.append(e);
    s
}

impl AuthManager {
    /// The registered plugins, by authentication type.
    pub closed spec fn plugins(&self) -> Map<Seq<char>, Box<dyn AuthPlugin>> {
        self.plugins@
    }

    /// The cached tokens, by step name.
    pub closed spec fn tokens(&self) -> Map<Seq<char>, AuthToken> {
        self.token_cache@
    }

    /// A manager with no plugins and no cached tokens.
    pub fn new() -> (r: Self)
        ensures
            r.plugins() == Map::<Seq<char>, Box<dyn AuthPlugin>>::empty(),
            r.tokens() == Map::<Seq<char>, AuthToken>::empty(),
    {
        AuthManager { plugins: StrMap::new(), token_cache: StrMap::new() }
    }

    /// Registers a plugin under the type it handles, replacing any plugin
    /// registered for that type.
    pub fn register_plugin(&mut self, plugin: Box<dyn AuthPlugin>)
        ensures
            final(self).plugins() == old(self).plugins().insert(plugin.handled_type(), plugin),
            final(self).tokens() == old(self).tokens(),
    {
        let auth_type = plugin.auth_type();
        self.plugins.insert(auth_type, plugin);
    }

    /// Runs one step of a chain after the steps that produced `result`.
    pub fn execute_step(&self, step: &AuthStepConfig, result: &AuthChainResult) -> (r: Result<AuthResult, AuthFailure>)
        ensures
            step_outcome(self.plugins(), *step, result.tokens@, r),
    {
        let ghost done = result.tokens@.dom();
        let mut j: usize = 0;
        while j < step.depends_on.len()
            invariant
                j <= step.depends_on@.len(),
                done == result.tokens@.dom(),
                forall|q: int| 0 <= q < j ==> done.contains(#[trigger] step.depends_on@[q]@),
            decreases step.depends_on.len() - j,
        {
            if !result.tokens.contains_key(step.depends_on[j].as_str()) {
                let f = final_failure(
                    "DEPENDENCY_NOT_SATISFIED",
                    join5(
                        "Authentication step '",
                        &step.plugin_name,
                        "' depends on '",
                        &step.depends_on[j],
                        "' which has not completed successfully",
                    ),
                );
                proof {
                    assert(first_pending_dep(*step, done, j as int));
                    assert(!deps_satisfied(step, done));
                }
                return Err(f);
            }
            j = j + 1;
        }
        assert(deps_satisfied(step, done));
        let plugin = match self.plugins.get(step.plugin_name.as_str()) {
            Some(p) => p,
            None => {
                let mut m = owned("Authentication plugin '");
                m.append(step.plugin_name.as_str());
                m.append("' not found");
                return Err(final_failure("PLUGIN_NOT_FOUND", m));
            },
        };
        let custom: Option<AuthConfig> = match &step.config {
            AuthConfig::Custom { auth_type, parameters } => Some(enhance_config_with(
                AuthConfig::Custom { auth_type: copy_string(auth_type), parameters: copy_json_map(parameters) },
                &step.depends_on,
                result,
                false,
            )),
            _ => None,
        };
        let config: &AuthConfig = match &custom {
            Some(c) => c,
            None => &step.config,
        };
        assert(enhanced_config(step.config, views(step.depends_on@), result.tokens@, false, *config));
        match plugin.validate_config(config) {
            Err(e) => {
                let d = concat("Configuration validation failed: ", e.message().as_str());
                let f = final_failure("CONFIG_VALIDATION_FAILED", d);
                assert(is_validation_failure(f));
                assert(decided_by(self.plugins(), step.plugin_name@, *config, Err(f)));
                return Err(f);
            },
            Ok(_) => {},
        }
        let r = plugin.authenticate(config);
        assert(decided_by(self.plugins(), step.plugin_name@, *config, r));
        r
    }
    /// Runs the steps of a chain in order, recording each outcome in
    /// `result`; stops with the failure of a required step unless the
    /// strategy is to continue.
    pub fn try_execute_chain(&self, chain: &AuthChainConfig, result: &mut AuthChainResult) -> (r: Result<(), AuthFailure>)
        ensures
            match r {
                Ok(_) => exists|states: Seq<(Map<Seq<char>, AuthToken>, Map<Seq<char>, String>, Seq<Seq<char>>)>|
                    #[trigger] chain_trace(self.plugins(), chain.steps@, chain.failure_strategy, states)
                    && states.len() == chain.steps@.len() + 1
                    && states[0] == chain_state(*old(result))
                    && states.last() == chain_state(*final(result)),
                Err(f) => exists|states: Seq<(Map<Seq<char>, AuthToken>, Map<Seq<char>, String>, Seq<Seq<char>>)>|
                    #[trigger] chain_trace(self.plugins(), chain.steps@, chain.failure_strategy, states)
                    && states.len() <= chain.steps@.len()
                    && states[0] == chain_state(*old(result))
                    && step_taken(
                        self.plugins(),
                        chain.steps@[states.len() - 1],
                        chain.failure_strategy,
                        states.last(),
                        chain_state(*final(result)),
                        Some(f),
                    ),
            },
    {
        let ghost plugins = self.plugins();
        let ghost steps = chain.steps@;
        let ghost strategy = chain.failure_strategy;
        let ghost mut states = seq![chain_state(*result)];
        let mut i: usize = 0;
        while i < chain.steps.len()
            invariant
                i <= steps.len(),
                plugins == self.plugins(),
                steps == chain.steps@,
                strategy == chain.failure_strategy,
                states.len() == i + 1,
                states[0] == chain_state(*old(result)),
                states.last() == chain_state(*result),
                chain_trace(plugins, steps, strategy, states),
            decreases chain.steps.len() - i,
        {
            let step = &chain.steps[i];
            let ghost before = chain_state(*result);
            let outcome = self.execute_step(step, result);
            let ghost o = outcome;
            let abort = record_step_outcome(result, step, outcome, &chain.failure_strategy);
            let ghost after = chain_state(*result);
            assert(recorded(before, *step, o, strategy, after, abort));
            assert(step_taken(plugins, *step, strategy, before, after, abort));
            match abort {
                Some(f) => {
                    assert(chain_trace(plugins, steps, strategy, states));
                    return Err(f);
                },
                None => {},
            }
            let ghost next = states.push(after);
            proof {
                assert forall|k: int| 0 <= k < next.len() - 1 implies #[trigger] step_taken_at(plugins, steps, strategy, next, k) by {
                    if k < states.len() - 1 {
                        assert(step_taken_at(plugins, steps, strategy, states, k));
                        assert(next[k] == states[k] && next[k + 1] == states[k + 1]);
                    } else {
                        assert(next[k] == before && next[k + 1] == after);
                    }
                }
                states = next;
            }
            i = i + 1;
        }
        assert(chain_trace(plugins, steps, strategy, states));
        Ok(())
    }
    /// Applies the cached token of each configured step, through the plugin
    /// registered under the step's name, to the headers of a request; stops
    /// at the first plugin that fails.
    pub fn apply_auth_to_request(&self, headers: &mut StrMap<String>, auth_configs: &Vec<AuthStepConfig>) -> (r: Result<(), ProtocolError>)
        ensures
            match r {
                Ok(_) => exists|hs: Seq<Map<Seq<char>, Seq<char>>>|
                    #[trigger] auth_trace(self.plugins(), self.tokens(), auth_configs@, hs)
                    && hs.len() == auth_configs@.len() + 1
                    && hs[0] == text_views(old(headers)@)
                    && hs.last() == text_views(final(headers)@),
                Err(_) => exists|hs: Seq<Map<Seq<char>, Seq<char>>>|
                    #[trigger] auth_trace(self.plugins(), self.tokens(), auth_configs@, hs)
                    && hs.len() <= auth_configs@.len()
                    && hs[0] == text_views(old(headers)@)
                    && ({
                        let name = auth_configs@[hs.len() - 1].plugin_name@;
                        &&& self.tokens().dom().contains(name)
                        &&& self.plugins().dom().contains(name)
                        &&& self.plugins()[name].applied(hs.last(), self.tokens()[name], text_views(final(headers)@), false)
                    }),
            },
    {
        let ghost plugins = self.plugins();
        let ghost cache = self.tokens();
        let ghost configs = auth_configs@;
        let ghost mut hs = seq![text_views(headers@)];
        let mut i: usize = 0;
        while i < auth_configs.len()
            invariant
                i <= configs.len(),
                plugins == self.plugins(),
                cache == self.tokens(),
                configs == auth_configs@,
                hs.len() == i + 1,
                hs[0] == text_views(old(headers)@),
                hs.last() == text_views(headers@),
                auth_trace(plugins, cache, configs, hs),
            decreases auth_configs.len() - i,
        {
            let name = auth_configs[i].plugin_name.as_str();
            let ghost before = text_views(headers@);
            match self.token_cache.get(name) {
                Some(token) => match self.plugins.get(name) {
                    Some(plugin) => {
                        let r = plugin.apply_auth(headers, token);
                        if r.is_err() {
                            return r;
                        }
                    },
                    None => {},
                },
                None => {},
            }
            let ghost next = hs.push(text_views(headers@));
            proof {
                assert forall|k: int| 0 <= k < next.len() - 1 implies #[trigger] auth_applied_at(plugins, cache, configs, next, k) by {
                    if k < hs.len() - 1 {
                        assert(auth_applied_at(plugins, cache, configs, hs, k));
                        assert(next[k] == hs[k] && next[k + 1] == hs[k + 1]);
                    } else {
                        assert(next[k] == before);
                    }
                }
                hs = next;
            }
            i = i + 1;
        }
        Ok(())
    }
    /// Refreshes, at `now` (milliseconds since the Unix epoch), the cached
    /// tokens of the configured steps that expire within a minute.
    pub fn refresh_expired_tokens_at(&mut self, configs: &Vec<AuthStepConfig>, now: u64) -> (r: Result<(), AuthFailure>)
        ensures
            final(self).plugins() == old(self).plugins(),
            refresh_result(old(self).plugins(), configs@, now, old(self).tokens(), final(self).tokens(), r),
    {
        let ghost plugins = self.plugins();
        let ghost mut caches = seq![self.tokens()];
        let mut i: usize = 0;
        while i < configs.len()
            invariant
                i <= configs@.len(),
                plugins == self.plugins(),
                plugins == old(self).plugins(),
                caches.len() == i + 1,
                caches[0] == old(self).tokens(),
                caches.last() == self.tokens(),
                refresh_trace(plugins, configs@, now, caches),
            decreases configs.len() - i,
        {
            let cfg = &configs[i];
            let name = cfg.plugin_name.as_str();
            let ghost before = self.tokens();
            let due = match self.token_cache.get(name) {
                Some(t) => t.is_expired_at(now, 60000),
                None => false,
            };
            let refreshes = due && match self.plugins.get(name) {
                Some(p) => p.supports_refresh(),
                None => false,
            };
            if refreshes {
                let token = match self.token_cache.remove(name) {
                    Some(t) => t,
                    None => {
                        assert(false);
                        return Ok(());
                    },
                };
                let plugin = match self.plugins.get(name) {
                    Some(p) => p,
                    None => {
                        assert(false);
                        return Ok(());
                    },
                };
                let o1 = plugin.refresh_token(&token, &cfg.config);
                match o1 {
                    Ok(a) => {
                        self.token_cache.insert(copy_string(&cfg.plugin_name), a.token);
                        assert(self.tokens() =~= before.insert(name@, a.token));
                        assert(refresh_outcome(plugins, name@, before[name@], cfg.config, o1, o1));
                    },
                    Err(_) => {
                        let o2 = plugin.authenticate(&cfg.config);
                        assert(refresh_outcome(plugins, name@, before[name@], cfg.config, o1, o2));
                        match o2 {
                            Ok(a) => {
                                self.token_cache.insert(copy_string(&cfg.plugin_name), a.token);
                                assert(self.tokens() =~= before.insert(name@, a.token));
                            },
                            Err(f) => {
                                assert(refresh_step(plugins, *cfg, now, before, self.tokens(), Some(f)));
                                assert(refresh_trace(plugins, configs@, now, caches));
                                return Err(f);
                            },
                        }
                    },
                }
            }
            let ghost after = self.tokens();
            assert(refresh_step(plugins, *cfg, now, before, after, None));
            let ghost next = caches.push(after);
            proof {
                assert forall|k: int| 0 <= k < next.len() - 1 implies #[trigger] refresh_step_at(plugins, configs@, now, next, k) by {
                    if k < caches.len() - 1 {
                        assert(refresh_step_at(plugins, configs@, now, caches, k));
                        assert(next[k] == caches[k] && next[k + 1] == caches[k + 1]);
                    } else {
                        assert(next[k] == before && next[k + 1] == after);
                    }
                }
                caches = next;
            }
            i = i + 1;
        }
        Ok(())
    }

    /// Refreshes the cached tokens of the configured steps that expire
    /// within a minute of the current time.
    pub fn refresh_expired_tokens(&mut self, configs: &Vec<AuthStepConfig>) -> (r: Result<(), AuthFailure>)
        ensures
            final(self).plugins() == old(self).plugins(),
            exists|now: u64| #[trigger] refresh_result(old(self).plugins(), configs@, now, old(self).tokens(), final(self).tokens(), r),
    {
        let now = now_millis();
        self.refresh_expired_tokens_at(configs, now)
    }
}

/// Failure of a chain whose attempts ran out without an outcome.
pub fn chain_retries_exhausted() -> (f: AuthFailure)
    ensures
        is_final_failure(f, "MAX_RETRIES_EXCEEDED"@, "Maximum retry attempts exceeded"@),
{
    final_failure("MAX_RETRIES_EXCEEDED", owned("Maximum retry attempts exceeded"))
}

} // verus!
