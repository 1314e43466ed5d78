use apirunner::config_manager::{
    merge_loaded_files, merge_loaded_files_on_reload, ConfigurationEvent, ConfigurationManager, EnvironmentOverrides,
};
use apirunner::configuration::{default_configuration, ChangeType, ConfigurationChange, ConfigurationError, SecureConfigManager};
use apirunner::json::JsonValue;

fn s(x: &str) -> String {
    x.to_string()
}

fn no_overrides() -> EnvironmentOverrides {
    EnvironmentOverrides { strategy: None, max_concurrency: None, request_timeout: None, plugin_dir: None, output_dir: None }
}

fn reload(manager: &mut ConfigurationManager, files: Vec<apirunner::configuration::Configuration>, now: u64) -> Result<(), ConfigurationError> {
    let (trigger, backup) = manager.begin_reload(now);
    let outcome = match merge_loaded_files(files, no_overrides()) {
        Err(m) => Err(m),
        Ok(c) => match manager.install_configuration(c, true, true) {
            Ok(()) => Ok(Vec::new()),
            Err(e) => Err(e.message()),
        },
    };
    manager.finish_reload(trigger, backup, outcome, now)
}

#[test]
fn test_configuration_rollback() {
    let mut manager = ConfigurationManager::new().unwrap();
    let original_config = manager.get_configuration();
    let mut modified_config = original_config.duplicate();
    modified_config.execution.default_strategy = s("parallel");
    modified_config.execution.max_concurrency = 50;
    manager.install_configuration(modified_config, true, true).unwrap();
    let current_config = manager.get_configuration();
    assert_eq!(current_config.execution.default_strategy, "parallel");
    assert_eq!(current_config.execution.max_concurrency, 50);
    manager.rollback_configuration(original_config.duplicate(), true, true, 5).unwrap();
    let rolled_back_config = manager.get_configuration();
    assert_eq!(rolled_back_config.execution.default_strategy, original_config.execution.default_strategy);
    assert_eq!(rolled_back_config.execution.max_concurrency, original_config.execution.max_concurrency);
    let events = manager.take_events();
    assert_eq!(events.len(), 1);
    assert!(matches!(&events[0], ConfigurationEvent::Reloaded { path, changes, .. } if path == "rollback" && changes.is_empty()));
}

#[test]
fn test_configuration_snapshot_creation() {
    let mut manager = ConfigurationManager::new().unwrap();
    manager.create_snapshot(s("test.yaml"), s("Test snapshot"), 7).unwrap();
    let history = manager.get_configuration_history();
    assert_eq!(history.len(), 1);
    let snapshot = &history[0];
    assert_eq!(snapshot.trigger_path, "test.yaml");
    assert_eq!(snapshot.reason, "Test snapshot");
    assert_eq!(snapshot.timestamp, 7);
}

#[test]
fn snapshots_keep_only_the_ten_newest() {
    let mut manager = ConfigurationManager::new().unwrap();
    for i in 0..12u64 {
        manager.create_snapshot(format!("f{}.yaml", i), s("r"), i).unwrap();
    }
    let history = manager.get_configuration_history();
    assert_eq!(history.len(), 10);
    assert_eq!(history[0].trigger_path, "f2.yaml");
    assert_eq!(history[9].trigger_path, "f11.yaml");
}

#[test]
fn test_configuration_rollback_to_last_valid() {
    let mut manager = ConfigurationManager::new().unwrap();
    let original_config = manager.get_configuration();
    manager.create_snapshot(s("test.yaml"), s("Test backup"), 1).unwrap();
    let mut changed = manager.get_configuration();
    changed.execution.default_strategy = s("parallel");
    changed.execution.max_concurrency = 50;
    manager.install_configuration(changed, true, true).unwrap();
    let modified_config = manager.get_configuration();
    assert_eq!(modified_config.execution.default_strategy, "parallel");
    assert_eq!(modified_config.execution.max_concurrency, 50);
    manager.rollback_to_last_valid(true, true, 2).unwrap();
    let rolled_back_config = manager.get_configuration();
    assert_eq!(rolled_back_config.execution.default_strategy, original_config.execution.default_strategy);
    assert_eq!(rolled_back_config.execution.max_concurrency, original_config.execution.max_concurrency);
    let events = manager.take_events();
    assert!(matches!(&events[0], ConfigurationEvent::RolledBack { path, error, timestamp: 2 }
        if path == "test.yaml" && error == "Rolled back to last valid configuration"));
}

#[test]
fn rollback_without_snapshots_fails() {
    let mut manager = ConfigurationManager::new().unwrap();
    match manager.rollback_to_last_valid(true, true, 0) {
        Err(ConfigurationError::ReloadFailed { message }) => {
            assert_eq!(message, "No valid configuration snapshots available for rollback")
        },
        _ => panic!("expected a reload failure"),
    }
}

#[test]
fn test_check_for_modifications() {
    let manager = ConfigurationManager::new().unwrap();
    let modifications = manager.check_for_modifications(&vec![]);
    assert!(modifications.is_empty());
}

#[test]
fn changed_files_are_reported() {
    let mut manager = ConfigurationManager::new().unwrap();
    manager.add_config_path(s("base.yaml"), 1).unwrap();
    manager.add_config_path(s("local.yaml"), 2).unwrap();
    assert_eq!(manager.config_paths(), &vec![s("local.yaml"), s("base.yaml")]);
    manager.record_file_timestamp(s("base.yaml"), 100);
    manager.record_file_timestamp(s("local.yaml"), 100);
    assert!(manager.check_for_modifications(&vec![Some(100), Some(100)]).is_empty());
    assert_eq!(manager.check_for_modifications(&vec![Some(150), None]), vec![s("local.yaml")]);
    manager.add_config_path(s("new.yaml"), 3).unwrap();
    assert_eq!(manager.check_for_modifications(&vec![Some(1), Some(100), Some(100)]), vec![s("new.yaml")]);
}

#[test]
fn test_validate_current_configuration() {
    let manager = ConfigurationManager::new().unwrap();
    let result = manager.validate_current_configuration(true, true);
    assert!(result.is_ok());
}

#[test]
fn test_force_reload() {
    let mut manager = ConfigurationManager::new().unwrap();
    let result = reload(&mut manager, vec![], 3);
    assert!(result.is_ok());
    let events = manager.take_events();
    assert_eq!(events.len(), 3);
    assert!(matches!(&events[0], ConfigurationEvent::ValidationStarted { path, .. } if path.is_empty()));
    assert!(matches!(&events[1], ConfigurationEvent::ValidationCompleted { .. }));
    assert!(matches!(&events[2], ConfigurationEvent::Reloaded { .. }));
}

#[test]
fn test_configuration_reload() {
    let mut manager = ConfigurationManager::new().unwrap();
    manager.add_config_path(s("config.yaml"), 1).unwrap();
    let initial = default_configuration();
    manager.install_configuration(merge_loaded_files(vec![initial], no_overrides()).unwrap(), true, true).unwrap();
    let initial_config = manager.get_configuration();
    assert_eq!(initial_config.execution.default_strategy, "serial");
    assert_eq!(initial_config.execution.max_concurrency, 10);
    let mut updated = default_configuration();
    updated.execution.default_strategy = s("parallel");
    updated.execution.max_concurrency = 20;
    updated.execution.request_timeout = 60;
    reload(&mut manager, vec![updated], 9).unwrap();
    let updated_config = manager.get_configuration();
    assert_eq!(updated_config.execution.default_strategy, "parallel");
    assert_eq!(updated_config.execution.max_concurrency, 20);
    assert_eq!(updated_config.execution.request_timeout, 60);
    assert_eq!(manager.get_configuration_history()[0].reason, "Manual reload backup");
    assert_eq!(manager.get_configuration_history()[0].trigger_path, "config.yaml");
}

#[test]
fn test_configuration_reload_with_rollback() {
    let mut manager = ConfigurationManager::new().unwrap();
    manager.add_config_path(s("config.yaml"), 1).unwrap();
    manager.install_configuration(merge_loaded_files(vec![default_configuration()], no_overrides()).unwrap(), true, true).unwrap();
    assert_eq!(manager.get_configuration().execution.default_strategy, "serial");
    let mut invalid = default_configuration();
    invalid.execution.default_strategy = s("invalid_strategy");
    invalid.execution.max_concurrency = 0;
    invalid.execution.request_timeout = 0;
    let result = reload(&mut manager, vec![invalid], 4);
    assert!(result.is_err());
    let current_config = manager.get_configuration();
    assert_eq!(current_config.execution.default_strategy, "serial");
    assert_eq!(current_config.execution.max_concurrency, 10);
    match result {
        Err(ConfigurationError::ReloadFailed { message }) => {
            assert!(message.starts_with("Configuration reload failed, rolled back to previous version: Configuration validation failed: "))
        },
        _ => panic!("expected a reload failure"),
    }
}

#[test]
fn hot_reload_installs_or_rolls_back() {
    let mut manager = ConfigurationManager::new().unwrap();
    manager.add_config_path(s("config.yaml"), 1).unwrap();
    assert!(manager.begin_hot_reload(&s("other.yaml"), 1).is_none());
    assert!(manager.take_events().is_empty());
    let backup = manager.begin_hot_reload(&s("config.yaml"), 2).unwrap();
    let mut next = default_configuration();
    next.execution.max_concurrency = 4;
    let merged = merge_loaded_files_on_reload(vec![next], no_overrides()).unwrap();
    let change = ConfigurationChange {
        path: s("execution.max_concurrency"),
        old_value: Some(JsonValue::Number(s("10"))),
        new_value: JsonValue::Number(s("4")),
        change_type: ChangeType::Modified,
    };
    manager.finish_hot_reload(s("config.yaml"), backup, 2, Ok((merged, vec![change])), 3);
    assert_eq!(manager.get_configuration().execution.max_concurrency, 4);
    assert_eq!(manager.get_configuration_history()[0].reason, "Hot reload backup");
    let events = manager.take_events();
    assert_eq!(events.len(), 4);
    assert!(matches!(&events[3], ConfigurationEvent::Reloaded { changes, .. } if changes.len() == 1));
    let backup = manager.begin_hot_reload(&s("config.yaml"), 5).unwrap();
    manager.finish_hot_reload(s("config.yaml"), backup, 5, Err(s("Failed to parse YAML configuration")), 6);
    assert_eq!(manager.get_configuration().execution.max_concurrency, 4);
    let events = manager.take_events();
    assert!(matches!(&events[2], ConfigurationEvent::RolledBack { error, .. } if error == "Failed to parse YAML configuration"));
}

#[test]
fn environment_overrides_apply_after_merging() {
    let mut over = default_configuration();
    over.execution.max_concurrency = 3;
    let env = EnvironmentOverrides {
        strategy: Some(s("parallel")),
        max_concurrency: None,
        request_timeout: Some(s("abc")),
        plugin_dir: None,
        output_dir: None,
    };
    assert_eq!(merge_loaded_files(vec![over.duplicate()], env).err().unwrap(), "Invalid API_TEST_REQUEST_TIMEOUT value");
    let env = EnvironmentOverrides { strategy: Some(s("parallel")), ..no_overrides() };
    let c = merge_loaded_files(vec![over], env).unwrap();
    assert_eq!(c.execution.default_strategy, "parallel");
    assert_eq!(c.execution.max_concurrency, 3);
}

#[test]
fn secrets_go_to_their_paths() {
    let secure = SecureConfigManager::new("api-test-runner");
    let mut config = default_configuration();
    config.auth.methods.insert(s("oauth"), JsonValue::Object(vec![(s("client_id"), JsonValue::String(s("id")))]));
    secure.apply_secure_value_to_config(&mut config, "auth.methods.oauth.client_secret", "s3cret").unwrap();
    assert_eq!(
        config.auth.methods.get("oauth").unwrap().to_json_string(),
        "{\"client_id\":\"id\",\"client_secret\":\"s3cret\"}"
    );
    secure.apply_secure_value_to_config(&mut config, "data_sources.sources.db.password", "pw").unwrap();
    assert!(config.data_sources.sources.get("db").is_none());
    secure.apply_secure_value_to_config(&mut config, "tokens.github", "ghp").unwrap();
    assert_eq!(config.custom.get("tokens.github").unwrap().to_json_string(), "\"ghp\"");
}

#[test]
fn higher_precedence_files_come_first_whatever_the_order_added() {
    let mut manager = ConfigurationManager::new().unwrap();
    manager.add_config_path(s("a.yaml"), 2).unwrap();
    manager.add_config_path(s("b.yaml"), 1).unwrap();
    assert_eq!(manager.config_paths(), &vec![s("a.yaml"), s("b.yaml")]);
    manager.add_config_path(s("c.yaml"), 3).unwrap();
    manager.add_config_path(s("d.yaml"), 2).unwrap();
    assert_eq!(manager.config_paths(), &vec![s("c.yaml"), s("d.yaml"), s("a.yaml"), s("b.yaml")]);
}

#[test]
fn secure_values_are_resolved_into_the_configuration() {
    use_resolve();
}

fn use_resolve() {
    let secure = SecureConfigManager::new("api-test-runner");
    let mut values = apirunner::strmap::StrMap::new();
    values.insert(s("tokens.github"), apirunner::configuration::SecureValue::Plain(s("ghp")));
    values.insert(
        s("tokens.api"),
        apirunner::configuration::SecureValue::EnvVar { env_var: s("API_TOKEN"), default: None },
    );
    let sc = apirunner::config_manager::SecureConfiguration { base: default_configuration(), secure_values: values };
    let reads = vec![
        (None, apirunner::configuration::KeyringRead::Missing),
        (Some(s("tok")), apirunner::configuration::KeyringRead::Missing),
    ];
    let c = secure.resolve_secure_values(&sc, reads).unwrap();
    assert_eq!(c.custom.get("tokens.github").unwrap().to_json_string(), "\"ghp\"");
    assert_eq!(c.custom.get("tokens.api").unwrap().to_json_string(), "\"tok\"");
    let reads = vec![
        (None, apirunner::configuration::KeyringRead::Missing),
        (None, apirunner::configuration::KeyringRead::Missing),
    ];
    match secure.resolve_secure_values(&sc, reads) {
        Err(ConfigurationError::EnvironmentVariableNotFound { name }) => assert_eq!(name, "API_TOKEN"),
        _ => panic!("expected a missing environment variable"),
    }
}

#[test]
fn secure_value_lookup_order() {
    let v = apirunner::configuration::pick_secure_value("k", None, Some(s("from-keyring")), Some(s("enc")));
    assert_eq!(v.ok(), Some(s("from-keyring")));
    match apirunner::configuration::pick_secure_value("k", None, None, None) {
        Err(ConfigurationError::SecretNotFound { name }) => assert_eq!(name, "k"),
        _ => panic!("expected a missing secret"),
    }
    assert_eq!(
        apirunner::configuration::secure_value_entry("k", apirunner::configuration::SecureStorageType::Encrypted),
        Some(s("encrypted_k"))
    );
}
