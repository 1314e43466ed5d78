use apirunner::configuration::{
    apply_environment_overrides, default_configuration, merge_configurations, merge_configurations_static,
    parse_unsigned, validate_configuration, validate_configuration_static, Configuration, ConfigurationError,
};
use apirunner::json::JsonValue;

fn s(x: &str) -> String {
    x.to_string()
}

fn errors_of(r: Result<(), ConfigurationError>) -> Vec<String> {
    match r {
        Err(ConfigurationError::ValidationFailed { errors }) => errors,
        Err(e) => panic!("unexpected error: {}", e.message()),
        Ok(()) => Vec::new(),
    }
}

fn blank_override() -> Configuration {
    let mut c = default_configuration();
    c.execution.default_strategy = s("");
    c.execution.max_concurrency = 0;
    c.execution.request_timeout = 0;
    c.execution.retry.max_attempts = 0;
    c.execution.retry.base_delay_ms = 0;
    c.execution.retry.max_delay_ms = 0;
    c.execution.retry.backoff_multiplier_bits = 0;
    c.execution.rate_limit.requests_per_second_bits = 0;
    c.execution.rate_limit.burst_capacity = 0;
    c.plugins.plugin_dir = s("");
    c.reporting.output_dir = s("");
    c.reporting.formats = Vec::new();
    c.data_sources.default_type = s("");
    c
}

#[test]
fn test_default_configuration() {
    let config = default_configuration();
    assert_eq!(config.execution.default_strategy, "serial");
    assert_eq!(config.execution.max_concurrency, 10);
    assert_eq!(config.execution.request_timeout, 30);
    assert_eq!(config.execution.retry.max_attempts, 3);
    assert_eq!(f64::from_bits(config.execution.retry.backoff_multiplier_bits), 2.0);
    assert_eq!(f64::from_bits(config.execution.rate_limit.requests_per_second_bits), 10.0);
    assert_eq!(config.reporting.formats, vec![s("junit"), s("html")]);
    assert_eq!(config.plugins.plugin_dir, "plugins");
    assert!(validate_configuration_static(&config).is_ok());
}

#[test]
fn test_configuration_merging() {
    let base = default_configuration();
    let mut over = blank_override();
    over.execution.default_strategy = s("parallel");
    over.execution.max_concurrency = 20;
    over.execution.retry.backoff_multiplier_bits = 3.0f64.to_bits();
    over.custom.insert(s("custom_plugins"), JsonValue::Bool(true));
    over.plugins.hot_reload = true;
    over.plugins.auto_load = false;

    let merged = merge_configurations(base, over).ok().unwrap();
    assert_eq!(merged.execution.default_strategy, "parallel");
    assert_eq!(merged.execution.max_concurrency, 20);
    assert_eq!(merged.execution.request_timeout, 30);
    assert_eq!(merged.execution.retry.max_attempts, 3);
    assert_eq!(f64::from_bits(merged.execution.retry.backoff_multiplier_bits), 3.0);
    assert_eq!(f64::from_bits(merged.execution.rate_limit.requests_per_second_bits), 10.0);
    assert_eq!(merged.reporting.formats, vec![s("junit"), s("html")]);
    assert_eq!(merged.plugins.plugin_dir, "plugins");
    assert!(merged.plugins.hot_reload);
    assert!(!merged.plugins.auto_load);
    assert!(merged.custom.contains_key("custom_plugins"));
}

#[test]
fn reload_merge_keeps_retry_settings() {
    let base = default_configuration();
    let mut over = blank_override();
    over.execution.retry.max_attempts = 9;
    over.execution.rate_limit.burst_capacity = 99;
    over.execution.request_timeout = 60;
    let merged = merge_configurations_static(base, over).ok().unwrap();
    assert_eq!(merged.execution.retry.max_attempts, 3);
    assert_eq!(merged.execution.rate_limit.burst_capacity, 20);
    assert_eq!(merged.execution.request_timeout, 60);
}

#[test]
fn negative_or_nan_rates_do_not_override() {
    let base = default_configuration();
    let mut over = blank_override();
    over.execution.rate_limit.requests_per_second_bits = (-5.0f64).to_bits();
    over.execution.retry.backoff_multiplier_bits = f64::NAN.to_bits();
    let merged = merge_configurations(base, over).ok().unwrap();
    assert_eq!(f64::from_bits(merged.execution.rate_limit.requests_per_second_bits), 10.0);
    assert_eq!(f64::from_bits(merged.execution.retry.backoff_multiplier_bits), 2.0);
}

#[test]
fn test_configuration_validation() {
    let mut config = default_configuration();
    config.execution.default_strategy = s("invalid_strategy");
    config.execution.max_concurrency = 0;
    config.execution.rate_limit.requests_per_second_bits = 0.0f64.to_bits();
    let errors = errors_of(validate_configuration_static(&config));
    assert_eq!(errors.len(), 3);
    assert!(errors[0].contains("Invalid execution strategy"));
    assert_eq!(errors[0], "Invalid execution strategy: invalid_strategy");
    assert_eq!(errors[1], "max_concurrency must be greater than 0");
    assert_eq!(errors[2], "rate_limit.requests_per_second must be greater than 0");
}

#[test]
fn directories_that_cannot_be_created_are_reported() {
    let config = default_configuration();
    let errors = errors_of(validate_configuration(&config, false, true));
    assert_eq!(errors, vec![s("Cannot create plugin directory: \"plugins\"")]);
    assert!(validate_configuration(&config, true, true).is_ok());
    let failure = validate_configuration(&config, true, false).err().unwrap();
    assert_eq!(
        failure.message(),
        "Configuration validation failed: [\"Cannot create output directory: \\\"reports\\\"\"]"
    );
}

#[test]
fn nan_rate_is_not_reported() {
    let mut config = default_configuration();
    config.execution.rate_limit.requests_per_second_bits = f64::NAN.to_bits();
    assert!(validate_configuration_static(&config).is_ok());
    config.execution.rate_limit.requests_per_second_bits = f64::NEG_INFINITY.to_bits();
    assert_eq!(errors_of(validate_configuration_static(&config)).len(), 1);
}

#[test]
fn test_environment_variable_overrides() {
    let config = default_configuration();
    let updated = apply_environment_overrides(
        config,
        Some(s("distributed")),
        Some(s("50")),
        None,
        Some(s("/opt/plugins")),
        None,
    )
    .ok()
    .unwrap();
    assert_eq!(updated.execution.default_strategy, "distributed");
    assert_eq!(updated.execution.max_concurrency, 50);
    assert_eq!(updated.execution.request_timeout, 30);
    assert_eq!(updated.plugins.plugin_dir, "/opt/plugins");
    assert_eq!(updated.reporting.output_dir, "reports");
}

#[test]
fn invalid_environment_numbers_are_refused() {
    let r = apply_environment_overrides(default_configuration(), None, Some(s("ten")), None, None, None);
    assert_eq!(r.err().unwrap(), "Invalid API_TEST_MAX_CONCURRENCY value");
    let r = apply_environment_overrides(default_configuration(), None, None, Some(s("-1")), None, None);
    assert_eq!(r.err().unwrap(), "Invalid API_TEST_REQUEST_TIMEOUT value");
}

#[test]
fn unsigned_numbers_parse_like_std() {
    assert_eq!(parse_unsigned("42", u64::MAX), Some(42));
    assert_eq!(parse_unsigned("+7", u64::MAX), Some(7));
    assert_eq!(parse_unsigned("18446744073709551615", u64::MAX), Some(u64::MAX));
    assert_eq!(parse_unsigned("18446744073709551616", u64::MAX), None);
    assert_eq!(parse_unsigned("", u64::MAX), None);
    assert_eq!(parse_unsigned("+", u64::MAX), None);
    assert_eq!(parse_unsigned("-0", u64::MAX), None);
    assert_eq!(parse_unsigned("1 ", u64::MAX), None);
    assert_eq!(parse_unsigned("300", 255), None);
}

use apirunner::configuration::{KeyringRead, SecureConfigManager, SecureValue};

fn secret_of(manager: &SecureConfigManager, value: &SecureValue, env: Option<String>) -> Result<String, String> {
    manager.decrypt_value(value, env, KeyringRead::Missing).map_err(|e| e.message())
}

#[test]
fn test_secure_config_manager_encryption() {
    let mut secure_manager = SecureConfigManager::new("test-service");
    assert!(secure_manager.initialize_with_password("test-password-123").is_ok());

    let plaintext = "super-secret-api-key";
    let encrypted = secure_manager.encrypt_value(plaintext).ok().unwrap();
    match &encrypted {
        SecureValue::Encrypted { algorithm, .. } => assert_eq!(algorithm, "AES-256-GCM"),
        _ => panic!("Expected encrypted value"),
    }
    let decrypted = secret_of(&secure_manager, &encrypted, None).unwrap();
    assert_eq!(decrypted, plaintext);
}

#[test]
fn test_secure_value_env_var() {
    let secure_manager = SecureConfigManager::new("test-service");
    let env_value = SecureValue::EnvVar { env_var: s("TEST_SECRET_VALUE"), default: None };
    let resolved = secret_of(&secure_manager, &env_value, Some(s("env-secret-123"))).unwrap();
    assert_eq!(resolved, "env-secret-123");
}

#[test]
fn test_secure_value_env_var_with_default() {
    let secure_manager = SecureConfigManager::new("test-service");
    let env_value = SecureValue::EnvVar { env_var: s("NONEXISTENT_VAR"), default: Some(s("default-value")) };
    let resolved = secret_of(&secure_manager, &env_value, None).unwrap();
    assert_eq!(resolved, "default-value");
}

#[test]
fn test_secure_value_plain() {
    let secure_manager = SecureConfigManager::new("test-service");
    let plain_value = SecureValue::Plain(s("plain-text-value"));
    let resolved = secret_of(&secure_manager, &plain_value, None).unwrap();
    assert_eq!(resolved, "plain-text-value");
}

#[test]
fn test_secure_config_validation_errors() {
    let secure_manager = SecureConfigManager::new("test-service");
    let encrypted_value = SecureValue::Encrypted {
        encrypted_data: s("dummy"),
        nonce: s("dummy"),
        algorithm: s("AES-256-GCM"),
    };
    let result = secret_of(&secure_manager, &encrypted_value, None);
    assert!(result.is_err());
    assert!(result.unwrap_err().contains("Master key not initialized"));

    let mut secure_manager = SecureConfigManager::new("test-service");
    assert!(secure_manager.initialize_with_password("test").is_ok());
    let unsupported_value = SecureValue::Encrypted {
        encrypted_data: s("dummy"),
        nonce: s("dummy"),
        algorithm: s("UNSUPPORTED"),
    };
    let result = secret_of(&secure_manager, &unsupported_value, None);
    assert!(result.is_err());
    assert!(result.unwrap_err().contains("Unsupported encryption algorithm"));
}

#[test]
fn missing_secrets_are_reported() {
    let manager = SecureConfigManager::new("svc");
    let missing_env = SecureValue::EnvVar { env_var: s("NOPE"), default: None };
    assert_eq!(secret_of(&manager, &missing_env, None).unwrap_err(), "Environment variable not found: NOPE");
    let keyring = SecureValue::Keyring { service: s("svc"), username: s("bob") };
    assert_eq!(secret_of(&manager, &keyring, None).unwrap_err(), "Secret not found: svc:bob");
    let found = manager.decrypt_value(&keyring, None, KeyringRead::Found(s("pw"))).ok().unwrap();
    assert_eq!(found, "pw");
}

#[test]
fn tampered_ciphertext_is_refused() {
    let mut manager = SecureConfigManager::new("svc");
    assert!(manager.initialize_with_password("pw").is_ok());
    let encrypted = manager.encrypt_value("hello").ok().unwrap();
    let tampered = match encrypted {
        SecureValue::Encrypted { nonce, algorithm, .. } => SecureValue::Encrypted {
            encrypted_data: s("AAAAAAAAAAAAAAAAAAAAAAAAAAAA"),
            nonce,
            algorithm,
        },
        other => other,
    };
    assert_eq!(secret_of(&manager, &tampered, None).unwrap_err(), "Encryption/decryption error: Decryption failed: aead::Error");
    let bad_base64 = SecureValue::Encrypted { encrypted_data: s("!!"), nonce: s("AAAAAAAAAAAAAAAA"), algorithm: s("AES-256-GCM") };
    assert!(secret_of(&manager, &bad_base64, None).unwrap_err().contains("Failed to decode encrypted data"));
}
