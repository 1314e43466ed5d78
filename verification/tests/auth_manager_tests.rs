use apirunner::auth_chain_executor::{new_chain_result, should_retry};
use apirunner::auth_plugin::{
    chain_retries_exhausted, AuthChainConfig, AuthConfig, AuthManager, AuthStepConfig, FailureStrategy, RetryConfig,
};
use apirunner::auth_plugin::AuthToken;
use apirunner::basic_auth_plugin::{ApiKeyAuthPlugin, BasicAuthPlugin};
use apirunner::jwt_auth_plugin::{jwt_payload_bytes, jwt_payload_part, jwt_validity, JwtAuthPlugin};
use apirunner::strmap::StrMap;

fn s(x: &str) -> String {
    x.to_string()
}

fn basic_step(name: &str, user: &str, deps: &[&str], required: bool) -> AuthStepConfig {
    AuthStepConfig {
        plugin_name: s(name),
        config: AuthConfig::BasicAuth { username: s(user), password: s("pass") },
        required,
        depends_on: deps.iter().map(|d| s(d)).collect(),
    }
}

fn manager() -> AuthManager {
    let mut m = AuthManager::new();
    m.register_plugin(Box::new(BasicAuthPlugin::new()));
    m.register_plugin(Box::new(ApiKeyAuthPlugin::new()));
    m
}

#[test]
fn test_auth_manager_executes_basic_step() {
    let m = manager();
    let result = new_chain_result();
    let r = m.execute_step(&basic_step("basic", "user", &[], true), &result);
    let a = r.ok().expect("basic step succeeds");
    assert_eq!(a.token.token, "dXNlcjpwYXNz");
    assert_eq!(a.token.token_type, "Basic");
}

#[test]
fn test_auth_manager_reports_unsatisfied_dependency() {
    let m = manager();
    let result = new_chain_result();
    let r = m.execute_step(&basic_step("basic", "user", &["login"], true), &result);
    let f = r.err().expect("dependency missing");
    assert_eq!(f.error_code, "DEPENDENCY_NOT_SATISFIED");
    assert_eq!(
        f.error_description,
        "Authentication step 'basic' depends on 'login' which has not completed successfully"
    );
    assert!(!f.should_retry);
}

#[test]
fn test_auth_manager_reports_unknown_plugin() {
    let m = AuthManager::new();
    let result = new_chain_result();
    let r = m.execute_step(&basic_step("basic", "user", &[], true), &result);
    let f = r.err().expect("no plugin");
    assert_eq!(f.error_code, "PLUGIN_NOT_FOUND");
    assert_eq!(f.error_description, "Authentication plugin 'basic' not found");
}

#[test]
fn test_auth_manager_reports_invalid_configuration() {
    let m = manager();
    let result = new_chain_result();
    let r = m.execute_step(&basic_step("basic", "", &[], true), &result);
    let f = r.err().expect("empty username");
    assert_eq!(f.error_code, "CONFIG_VALIDATION_FAILED");
    assert_eq!(
        f.error_description,
        "Configuration validation failed: Plugin initialization failed: username cannot be empty"
    );
}

#[test]
fn test_auth_manager_chain_continues_and_fails_fast() {
    let m = manager();
    let steps = vec![basic_step("basic", "user", &[], false), basic_step("api_key", "user", &[], false)];
    let chain = AuthChainConfig {
        steps,
        failure_strategy: FailureStrategy::FailFast,
        retry_config: RetryConfig::default_config(),
    };
    let mut result = new_chain_result();
    assert!(m.try_execute_chain(&chain, &mut result).is_ok());
    assert!(result.tokens.contains_key("basic"));
    assert!(!result.tokens.contains_key("api_key"));
    assert_eq!(result.failed_steps, vec![s("api_key")]);

    let chain = AuthChainConfig {
        steps: vec![basic_step("missing", "user", &[], true), basic_step("basic", "user", &[], true)],
        failure_strategy: FailureStrategy::FailFast,
        retry_config: RetryConfig::default_config(),
    };
    let mut result = new_chain_result();
    let f = m.try_execute_chain(&chain, &mut result).err().expect("required step fails");
    assert_eq!(f.error_code, "PLUGIN_NOT_FOUND");
    assert_eq!(result.failed_steps, vec![s("missing")]);
    assert!(!result.tokens.contains_key("basic"));
}

#[test]
fn test_auth_manager_without_cached_tokens_changes_nothing() {
    let mut m = manager();
    let configs = vec![basic_step("basic", "user", &[], true)];
    let mut headers: StrMap<String> = StrMap::new();
    assert!(m.apply_auth_to_request(&mut headers, &configs).is_ok());
    assert_eq!(headers.len(), 0);
    assert!(m.refresh_expired_tokens_at(&configs, 1_000).is_ok());
    assert!(m.refresh_expired_tokens(&configs).is_ok());
}

#[test]
fn test_auth_manager_retry_decisions() {
    let f = chain_retries_exhausted();
    assert_eq!(f.error_code, "MAX_RETRIES_EXCEEDED");
    assert_eq!(f.error_description, "Maximum retry attempts exceeded");
    assert!(!should_retry(&f, 0, 3));
}

fn jwt_config() -> AuthConfig {
    AuthConfig::Jwt {
        secret: s("secret"),
        algorithm: s("HS256"),
        issuer: None,
        audience: None,
        expiration: None,
        custom_claims: StrMap::new(),
    }
}

#[test]
fn test_jwt_payload_part_and_bytes() {
    assert_eq!(jwt_payload_part("aa.bb.cc", &jwt_config()).ok(), Some(s("bb")));
    let f = jwt_payload_part("aa.bb", &jwt_config()).err().expect("two parts");
    assert_eq!(f.error_code, "INVALID_TOKEN_FORMAT");
    assert_eq!(f.error_description, "JWT must have 3 parts separated by dots");
    let f = jwt_payload_part("a.b.c.d", &jwt_config()).err().expect("four parts");
    assert_eq!(f.error_code, "INVALID_TOKEN_FORMAT");
    let f = jwt_payload_part("a.b.c", &AuthConfig::BasicAuth { username: s("u"), password: s("p") })
        .err()
        .expect("not a JWT configuration");
    assert_eq!(f.error_code, "INVALID_CONFIG");
    assert_eq!(jwt_payload_bytes("x.eyJleHAiOjF9.y", &jwt_config()).ok(), Some(b"{\"exp\":1}".to_vec()));
    let f = jwt_payload_bytes("x.!!.y", &jwt_config()).err().expect("not base64");
    assert_eq!(f.error_code, "PAYLOAD_DECODE_ERROR");
    assert!(f.error_description.starts_with("Failed to decode JWT payload: "));
}

#[test]
fn test_jwt_validity_and_refresh() {
    assert_eq!(jwt_validity(Ok(Some(100)), 99).ok(), Some(true));
    assert_eq!(jwt_validity(Ok(None), 99).ok(), Some(true));
    let f = jwt_validity(Ok(Some(100)), 100).err().expect("expired");
    assert_eq!(f.error_code, "TOKEN_EXPIRED");
    assert_eq!(f.error_description, "JWT token has expired");
    let f = jwt_validity(Err(s("bad")), 1).err().expect("unparsed");
    assert_eq!(f.error_description, "Failed to parse JWT payload: bad");

    let plugin = JwtAuthPlugin::new();
    let token = AuthToken { token: s("a.b.c"), token_type: s("Bearer"), expires_at: None, refresh_token: None, scope: None };
    let kept = plugin.refresh_with_validity(&token, &jwt_config(), Ok(true)).ok().expect("still valid");
    assert_eq!(kept.token.token, "a.b.c");
    assert_eq!(kept.metadata.get("reason"), Some(&s("token_still_valid")));
    let fresh = plugin.refresh_with_validity(&token, &jwt_config(), Ok(false)).ok().expect("regenerated");
    assert_ne!(fresh.token.token, "a.b.c");
    assert_eq!(fresh.metadata.get("refreshed"), Some(&s("true")));
    assert_eq!(fresh.metadata.get("reason"), Some(&s("token_regenerated")));
}
