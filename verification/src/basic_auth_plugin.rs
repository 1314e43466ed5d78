//! Basic and API key authentication: the credentials they turn a
//! configuration into, the checks on their configuration, and the request
//! headers they set.

use vstd::prelude::*;
use vstd::utf8::encode_utf8;
use crate::text::{owned, concat3, copy_string, base64_encode, base64_text};
use crate::strmap::StrMap;
use crate::auth_plugin::{AuthConfig, AuthResult, AuthFailure, AuthToken, AuthPlugin, opt_view};
use crate::auth_chain_executor::{is_final_failure, final_failure};
use crate::error::{PluginError, ProtocolError};
use crate::plugin::PluginConfig;
use crate::data_source::text_views;

verus! {

/// Metadata with the given entries, in order.
pub(crate) fn metadata_of(entries: Vec<(&str, String)>) -> (r: StrMap<String>)
    ensures
        text_views(r@) == entries_map(entries@),
{
    let mut m: StrMap<String> = StrMap::new();
    let mut i: usize = 0;
    proof { assert(text_views(m@) =~= entries_map(entries@.take(0))); }
    while i < entries.len()
        invariant
            i <= entries@.len(),
            text_views(m@) == entries_map(entries@.take(i as int)),
        decreases entries.len() - i,
    {
        let (k, v) = &entries[i];
        let key = owned(*k);
        let val = copy_string(v);
        proof {
            let t = entries@.take(i + 1);
            assert(t.drop_last() =~= entries@.take(i as int));
            assert(t.last() == entries@[i as int]);
        }
        let ghost vv = val@;
        m.insert(key, val);
        proof {
            assert(text_views(m@) =~= entries_map(entries@.take(i + 1)));
        }
        i = i + 1;
    }
    assert(entries@.take(entries@.len() as int) =~= entries@);
    m
}

/// The map made of the entries, a later entry winning over an earlier one.
pub open spec fn entries_map(e: Seq<(&str, String)>) -> Map<Seq<char>, Seq<char>>
    decreases e.len(),
{
    if e.len() == 0 {
        Map::empty()
    } else {
        entries_map(e.drop_last()).insert(e.last().0@, e.last().1@)
    }
}

/// Whether `t` is a token of `token_type` with text `text` and no expiry,
/// refresh token or scope.
pub open spec fn is_plain_token(t: AuthToken, text: Seq<char>, token_type: Seq<char>) -> bool {
    &&& t.token@ == text
    &&& t.token_type@ == token_type
    &&& t.expires_at is None
    &&& t.refresh_token is None
    &&& t.scope is None
}

/// Whether `r` is the plugin configuration error with message `m`.
pub open spec fn is_init_failure(r: PluginError, m: Seq<char>) -> bool {
    r matches PluginError::InitializationFailed(s) && s@ == m
}

/// A token that carries the same values as `token`.
fn same_token(token: &AuthToken) -> (r: AuthToken)
    ensures
        r.token@ == token.token@,
        r.token_type@ == token.token_type@,
        r.expires_at == token.expires_at,
        opt_view(r.refresh_token) == opt_view(token.refresh_token),
        opt_view(r.scope) == opt_view(token.scope),
{
    token.duplicate()
}

/// Sets the `Authorization` header to the token's type and text.
pub fn apply_bearer_auth(headers: &mut StrMap<String>, token: &AuthToken)
    ensures
        text_views(final(headers)@) == text_views(old(headers)@).insert(
            "Authorization"@,
            token.token_type@ + " "@ + token.token@,
        ),
{
    let v = concat3(token.token_type.as_str(), " ", token.token.as_str());
    let ghost vv = v@;
    headers.insert(owned("Authorization"), v);
    assert(text_views(headers@) =~= text_views(old(headers)@).insert("Authorization"@, vv));
}

/// Basic authentication plugin.
pub struct BasicAuthPlugin;

impl BasicAuthPlugin {
    /// The plugin.
    pub fn new() -> (r: Self) {
        BasicAuthPlugin
    }

    /// The plugin's name.
    pub fn name(&self) -> (r: String)
        ensures
            r@ == "basic-auth"@,
    {
        owned("basic-auth")
    }

    /// The plugin's version.
    pub fn version(&self) -> (r: String)
        ensures
            r@ == "1.0.0"@,
    {
        owned("1.0.0")
    }

    /// The plugins this plugin needs: none.
    pub fn dependencies(&self) -> (r: Vec<String>)
        ensures
            r@.len() == 0,
    {
        Vec::new()
    }

    /// Prepares the plugin; there is nothing to set up.
    pub fn initialize(&mut self, config: &PluginConfig) -> (r: Result<(), PluginError>)
        ensures
            r is Ok,
    {
        Ok(())
    }

    /// Releases the plugin; there is nothing to release.
    pub fn shutdown(&mut self) -> (r: Result<(), PluginError>)
        ensures
            r is Ok,
    {
        Ok(())
    }

    /// The authentication type the plugin handles.
    pub fn auth_type(&self) -> (r: String)
        ensures
            r@ == "basic"@,
    {
        owned("basic")
    }

    /// Basic tokens are never refreshed.
    pub fn supports_refresh(&self) -> (r: bool)
        ensures
            !r,
    {
        false
    }

    /// A basic token: the base64 of the UTF-8 bytes of `username:password`.
    pub fn create_basic_auth_token(&self, config: &AuthConfig) -> (r: Result<AuthResult, AuthFailure>)
        ensures
            match config {
                AuthConfig::BasicAuth { username, password } => r matches Ok(a)
                    && is_plain_token(a.token, base64_text(encode_utf8(username@ + ":"@ + password@)), "Basic"@)
                    && text_views(a.metadata@) == map!["username"@ => username@, "auth_type"@ => "basic"@],
                _ => r matches Err(f) && is_final_failure(f, "INVALID_CONFIG"@, "Expected BasicAuth configuration"@),
            },
    {
        match config {
            AuthConfig::BasicAuth { username, password } => {
                let credentials = concat3(username.as_str(), ":", password.as_str());
                let encoded = base64_encode(credentials.as_str().as_bytes());
                let token = AuthToken {
                    token: encoded,
                    token_type: owned("Basic"),
                    expires_at: None,
                    refresh_token: None,
                    scope: None,
                };
                let mut entries: Vec<(&str, String)> = Vec::new();
                entries.push(("username", copy_string(username)));
                entries.push(("auth_type", owned("basic")));
                let metadata = metadata_of(entries);
                proof {
                    reveal_with_fuel(entries_map, 3);
                    assert(text_views(metadata@) =~= map!["username"@ => username@, "auth_type"@ => "basic"@]);
                }
                Ok(AuthResult { token, metadata })
            },
            _ => Err(final_failure("INVALID_CONFIG", owned("Expected BasicAuth configuration"))),
        }
    }

    /// Authenticates with a basic configuration.
    pub fn authenticate(&self, config: &AuthConfig) -> (r: Result<AuthResult, AuthFailure>)
        ensures
            match config {
                AuthConfig::BasicAuth { username, password } => r matches Ok(a)
                    && is_plain_token(a.token, base64_text(encode_utf8(username@ + ":"@ + password@)), "Basic"@)
                    && text_views(a.metadata@) == map!["username"@ => username@, "auth_type"@ => "basic"@],
                _ => r matches Err(f) && is_final_failure(f, "INVALID_CONFIG"@, "Expected BasicAuth configuration"@),
            },
    {
        self.create_basic_auth_token(config)
    }

    /// The same token back: basic tokens do not need refreshing.
    pub fn refresh_token(&self, token: &AuthToken) -> (r: AuthResult)
        ensures
            r.token.token@ == token.token@,
            r.token.token_type@ == token.token_type@,
            r.token.expires_at == token.expires_at,
            text_views(r.metadata@) == map!["refreshed"@ => "false"@, "reason"@ => "basic_auth_no_refresh_needed"@],
    {
        let mut entries: Vec<(&str, String)> = Vec::new();
        entries.push(("refreshed", owned("false")));
        entries.push(("reason", owned("basic_auth_no_refresh_needed")));
        let metadata = metadata_of(entries);
        proof {
            reveal_with_fuel(entries_map, 3);
            assert(text_views(metadata@) =~= map!["refreshed"@ => "false"@, "reason"@ => "basic_auth_no_refresh_needed"@]);
        }
        AuthResult { token: same_token(token), metadata }
    }

    /// Sets the `Authorization` header for a token.
    pub fn apply_auth(&self, headers: &mut StrMap<String>, token: &AuthToken)
        ensures
            text_views(final(headers)@) == text_views(old(headers)@).insert(
                "Authorization"@,
                token.token_type@ + " "@ + token.token@,
            ),
    {
        apply_bearer_auth(headers, token);
    }

    /// Checks a basic configuration: a username and a password are needed.
    pub fn validate_config(&self, config: &AuthConfig) -> (r: Result<(), PluginError>)
        ensures
            match config {
                AuthConfig::BasicAuth { username, password } => {
                    &&& username@.len() == 0 ==> (r matches Err(e) && is_init_failure(e, "username cannot be empty"@))
                    &&& username@.len() > 0 && password@.len() == 0 ==> (r matches Err(e) && is_init_failure(e, "password cannot be empty"@))
                    &&& username@.len() > 0 && password@.len() > 0 ==> r is Ok
                },
                _ => r matches Err(e) && is_init_failure(e, "Expected BasicAuth configuration"@),
            },
    {
        match config {
            AuthConfig::BasicAuth { username, password } => {
                if username.as_str().is_empty() {
                    return Err(PluginError::InitializationFailed(owned("username cannot be empty")));
                }
                if password.as_str().is_empty() {
                    return Err(PluginError::InitializationFailed(owned("password cannot be empty")));
                }
                Ok(())
            },
            _ => Err(PluginError::InitializationFailed(owned("Expected BasicAuth configuration"))),
        }
    }
}

/// What a basic plugin returns for `config`: a basic token for a basic
/// configuration, a configuration failure otherwise.
pub open spec fn basic_outcome(config: AuthConfig, r: Result<AuthResult, AuthFailure>) -> bool {
    match config {
        AuthConfig::BasicAuth { username, password } => r matches Ok(a)
            && is_plain_token(a.token, base64_text(encode_utf8(username@ + ":"@ + password@)), "Basic"@)
            && text_views(a.metadata@) == map!["username"@ => username@, "auth_type"@ => "basic"@],
        _ => r matches Err(f) && is_final_failure(f, "INVALID_CONFIG"@, "Expected BasicAuth configuration"@),
    }
}

/// Whether `r` hands back `token` unchanged with metadata saying why it was
/// not refreshed.
pub open spec fn kept_token(token: AuthToken, r: Result<AuthResult, AuthFailure>, reason: Seq<char>) -> bool {
    r matches Ok(a) && a.token.token@ == token.token@ && a.token.token_type@ == token.token_type@
        && text_views(a.metadata@) == map!["refreshed"@ => "false"@, "reason"@ => reason]
}

impl AuthPlugin for BasicAuthPlugin {
    open spec fn handled_type(&self) -> Seq<char> {
        "basic"@
    }

    open spec fn accepts(&self, config: AuthConfig) -> bool {
        config matches AuthConfig::BasicAuth { username, password } && username@.len() > 0 && password@.len() > 0
    }

    open spec fn refreshable(&self) -> bool {
        false
    }

    open spec fn authenticated(&self, config: AuthConfig, r: Result<AuthResult, AuthFailure>) -> bool {
        basic_outcome(config, r)
    }

    open spec fn refreshed(&self, token: AuthToken, config: AuthConfig, r: Result<AuthResult, AuthFailure>) -> bool {
        kept_token(token, r, "basic_auth_no_refresh_needed"@)
    }

    open spec fn applied(
        &self,
        before: Map<Seq<char>, Seq<char>>,
        token: AuthToken,
        after: Map<Seq<char>, Seq<char>>,
        ok: bool,
    ) -> bool {
        ok && after == before.insert("Authorization"@, token.token_type@ + " "@ + token.token@)
    }

    fn auth_type(&self) -> (r: String) {
        BasicAuthPlugin::auth_type(self)
    }

    fn authenticate(&self, config: &AuthConfig) -> (r: Result<AuthResult, AuthFailure>) {
        BasicAuthPlugin::authenticate(self, config)
    }

    fn refresh_token(&self, token: &AuthToken, config: &AuthConfig) -> (r: Result<AuthResult, AuthFailure>) {
        Ok(BasicAuthPlugin::refresh_token(self, token))
    }

    fn apply_auth(&self, headers: &mut StrMap<String>, token: &AuthToken) -> (r: Result<(), ProtocolError>) {
        BasicAuthPlugin::apply_auth(self, headers, token);
        Ok(())
    }

    fn validate_config(&self, config: &AuthConfig) -> (r: Result<(), PluginError>) {
        BasicAuthPlugin::validate_config(self, config)
    }

    fn supports_refresh(&self) -> (r: bool) {
        BasicAuthPlugin::supports_refresh(self)
    }
}

/// What an API key plugin returns for `config`: for an API key configuration
/// a token made of the key, after the prefix and a space when there is one;
/// a configuration failure otherwise.
pub open spec fn api_key_outcome(config: AuthConfig, r: Result<AuthResult, AuthFailure>) -> bool {
    match config {
        AuthConfig::ApiKey { key, header_name, prefix } => r matches Ok(a)
            && is_plain_token(a.token, match prefix {
                Some(p) => p@ + " "@ + key@,
                None => key@,
            }, "ApiKey"@)
            && text_views(a.metadata@) == map![
                "header_name"@ => header_name@,
                "has_prefix"@ => if prefix is Some { "true"@ } else { "false"@ },
                "auth_type"@ => "api_key"@,
            ],
        _ => r matches Err(f) && is_final_failure(f, "INVALID_CONFIG"@, "Expected ApiKey configuration"@),
    }
}

/// The header an API key goes under: the one named by `X-Auth-Header-Name`,
/// or `X-API-Key`.
pub open spec fn api_key_header(headers: Map<Seq<char>, Seq<char>>) -> Seq<char> {
    if headers.dom().contains("X-Auth-Header-Name"@) {
        headers["X-Auth-Header-Name"@]
    } else {
        "X-API-Key"@
    }
}

/// API key authentication plugin.
pub struct ApiKeyAuthPlugin;

impl ApiKeyAuthPlugin {
    /// The plugin.
    pub fn new() -> (r: Self) {
        ApiKeyAuthPlugin
    }

    /// The plugin's name.
    pub fn name(&self) -> (r: String)
        ensures
            r@ == "api-key-auth"@,
    {
        owned("api-key-auth")
    }

    /// The plugin's version.
    pub fn version(&self) -> (r: String)
        ensures
            r@ == "1.0.0"@,
    {
        owned("1.0.0")
    }

    /// The plugins this plugin needs: none.
    pub fn dependencies(&self) -> (r: Vec<String>)
        ensures
            r@.len() == 0,
    {
        Vec::new()
    }

    /// Prepares the plugin; there is nothing to set up.
    pub fn initialize(&mut self, config: &PluginConfig) -> (r: Result<(), PluginError>)
        ensures
            r is Ok,
    {
        Ok(())
    }

    /// Releases the plugin; there is nothing to release.
    pub fn shutdown(&mut self) -> (r: Result<(), PluginError>)
        ensures
            r is Ok,
    {
        Ok(())
    }

    /// The authentication type the plugin handles.
    pub fn auth_type(&self) -> (r: String)
        ensures
            r@ == "api_key"@,
    {
        owned("api_key")
    }

    /// API keys are never refreshed.
    pub fn supports_refresh(&self) -> (r: bool)
        ensures
            !r,
    {
        false
    }

    /// An API key token: the key, after the prefix and a space when there is one.
    pub fn create_api_key_token(&self, config: &AuthConfig) -> (r: Result<AuthResult, AuthFailure>)
        ensures
            api_key_outcome(*config, r),
    {
        match config {
            AuthConfig::ApiKey { key, header_name, prefix } => {
                let token_value = match prefix {
                    Some(p) => concat3(p.as_str(), " ", key.as_str()),
                    None => copy_string(key),
                };
                let token = AuthToken {
                    token: token_value,
                    token_type: owned("ApiKey"),
                    expires_at: None,
                    refresh_token: None,
                    scope: None,
                };
                let mut entries: Vec<(&str, String)> = Vec::new();
                entries.push(("header_name", copy_string(header_name)));
                entries.push(("has_prefix", if prefix.is_some() { owned("true") } else { owned("false") }));
                entries.push(("auth_type", owned("api_key")));
                let metadata = metadata_of(entries);
                proof {
                    reveal_with_fuel(entries_map, 4);
                    assert(text_views(metadata@) =~= map![
                        "header_name"@ => header_name@,
                        "has_prefix"@ => if prefix is Some { "true"@ } else { "false"@ },
                        "auth_type"@ => "api_key"@,
                    ]);
                }
                Ok(AuthResult { token, metadata })
            },
            _ => Err(final_failure("INVALID_CONFIG", owned("Expected ApiKey configuration"))),
        }
    }

    /// Authenticates with an API key configuration.
    pub fn authenticate(&self, config: &AuthConfig) -> (r: Result<AuthResult, AuthFailure>)
        ensures
            api_key_outcome(*config, r),
    {
        self.create_api_key_token(config)
    }

    /// The same token back: API keys do not need refreshing.
    pub fn refresh_token(&self, token: &AuthToken) -> (r: AuthResult)
        ensures
            r.token.token@ == token.token@,
            r.token.token_type@ == token.token_type@,
            text_views(r.metadata@) == map!["refreshed"@ => "false"@, "reason"@ => "api_key_no_refresh_needed"@],
    {
        let mut entries: Vec<(&str, String)> = Vec::new();
        entries.push(("refreshed", owned("false")));
        entries.push(("reason", owned("api_key_no_refresh_needed")));
        let metadata = metadata_of(entries);
        proof {
            reveal_with_fuel(entries_map, 3);
            assert(text_views(metadata@) =~= map!["refreshed"@ => "false"@, "reason"@ => "api_key_no_refresh_needed"@]);
        }
        AuthResult { token: same_token(token), metadata }
    }

    /// Sets the token under the header named by `X-Auth-Header-Name`, or
    /// under `X-API-Key`.
    pub fn apply_auth(&self, headers: &mut StrMap<String>, token: &AuthToken)
        ensures
            ({
                let name = if old(headers)@.dom().contains("X-Auth-Header-Name"@) {
                    old(headers)@["X-Auth-Header-Name"@]@
                } else {
                    "X-API-Key"@
                };
                text_views(final(headers)@) == text_views(old(headers)@).insert(name, token.token@)
            }),
    {
        let name = match headers.get("X-Auth-Header-Name") {
            Some(n) => copy_string(n),
            None => owned("X-API-Key"),
        };
        let v = copy_string(&token.token);
        let ghost nv = name@;
        headers.insert(name, v);
        assert(text_views(headers@) =~= text_views(old(headers)@).insert(nv, token.token@));
    }

    /// Checks an API key configuration: a key and a header name are needed.
    pub fn validate_config(&self, config: &AuthConfig) -> (r: Result<(), PluginError>)
        ensures
            match config {
                AuthConfig::ApiKey { key, header_name, .. } => {
                    &&& key@.len() == 0 ==> (r matches Err(e) && is_init_failure(e, "API key cannot be empty"@))
                    &&& key@.len() > 0 && header_name@.len() == 0 ==> (r matches Err(e) && is_init_failure(e, "header_name cannot be empty"@))
                    &&& key@.len() > 0 && header_name@.len() > 0 ==> r is Ok
                },
                _ => r matches Err(e) && is_init_failure(e, "Expected ApiKey configuration"@),
            },
    {
        match config {
            AuthConfig::ApiKey { key, header_name, .. } => {
                if key.as_str().is_empty() {
                    return Err(PluginError::InitializationFailed(owned("API key cannot be empty")));
                }
                if header_name.as_str().is_empty() {
                    return Err(PluginError::InitializationFailed(owned("header_name cannot be empty")));
                }
                Ok(())
            },
            _ => Err(PluginError::InitializationFailed(owned("Expected ApiKey configuration"))),
        }
    }
}

impl AuthPlugin for ApiKeyAuthPlugin {
    open spec fn handled_type(&self) -> Seq<char> {
        "api_key"@
    }

    open spec fn accepts(&self, config: AuthConfig) -> bool {
        config matches AuthConfig::ApiKey { key, header_name, .. } && key@.len() > 0 && header_name@.len() > 0
    }

    open spec fn refreshable(&self) -> bool {
        false
    }

    open spec fn authenticated(&self, config: AuthConfig, r: Result<AuthResult, AuthFailure>) -> bool {
        api_key_outcome(config, r)
    }

    open spec fn refreshed(&self, token: AuthToken, config: AuthConfig, r: Result<AuthResult, AuthFailure>) -> bool {
        kept_token(token, r, "api_key_no_refresh_needed"@)
    }

    open spec fn applied(
        &self,
        before: Map<Seq<char>, Seq<char>>,
        token: AuthToken,
        after: Map<Seq<char>, Seq<char>>,
        ok: bool,
    ) -> bool {
        ok && after == before.insert(api_key_header(before), token.token@)
    }

    fn auth_type(&self) -> (r: String) {
        ApiKeyAuthPlugin::auth_type(self)
    }

    fn authenticate(&self, config: &AuthConfig) -> (r: Result<AuthResult, AuthFailure>) {
        ApiKeyAuthPlugin::authenticate(self, config)
    }

    fn refresh_token(&self, token: &AuthToken, config: &AuthConfig) -> (r: Result<AuthResult, AuthFailure>) {
        Ok(ApiKeyAuthPlugin::refresh_token(self, token))
    }

    fn apply_auth(&self, headers: &mut StrMap<String>, token: &AuthToken) -> (r: Result<(), ProtocolError>) {
        ApiKeyAuthPlugin::apply_auth(self, headers, token);
        Ok(())
    }

    fn validate_config(&self, config: &AuthConfig) -> (r: Result<(), PluginError>) {
        ApiKeyAuthPlugin::validate_config(self, config)
    }

    fn supports_refresh(&self) -> (r: bool) {
        ApiKeyAuthPlugin::supports_refresh(self)
    }
}

} // verus!
