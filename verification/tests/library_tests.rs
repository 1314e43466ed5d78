use apirunner::alerting::{AlertCondition, AlertRule, AlertSeverity};
use apirunner::alerting::NotificationManager;
use apirunner::auth_plugin::{AuthConfig, AuthStepConfig, AuthToken};
use apirunner::auth_chain_executor::{calculate_execution_order, has_circular_dependencies};
use apirunner::basic_auth_plugin::{ApiKeyAuthPlugin, BasicAuthPlugin};
use apirunner::jwt_auth_plugin::JwtAuthPlugin;
use apirunner::configuration::{compare_configurations, get_change_summary, get_value, ChangeType, ConfigurationChange};
use apirunner::data_source::{CsvDataSource, CsvDataSourceConfig, FileDataSourceConfig};
use apirunner::distributed_execution::{chunk_size_for, partition_test_cases};
use apirunner::event_persistence::{generate_event_key, parse_event_key};
use apirunner::execution::substitute_variables;
use apirunner::json::JsonValue;
use apirunner::strmap::StrMap;
use apirunner::text::decimal_text;

fn s(x: &str) -> String {
    x.to_string()
}

fn num(n: u64) -> JsonValue {
    JsonValue::Number(n.to_string())
}

fn object(members: Vec<(&str, JsonValue)>) -> JsonValue {
    JsonValue::Object(members.into_iter().map(|(k, v)| (s(k), v)).collect())
}

fn sample_configuration(strategy: &str, concurrency: u64, timeout: u64) -> JsonValue {
    object(vec![(
        "execution",
        object(vec![
            ("default_strategy", JsonValue::String(s(strategy))),
            ("max_concurrency", num(concurrency)),
            ("request_timeout", num(timeout)),
        ]),
    )])
}

fn step(name: &str, deps: &[&str]) -> AuthStepConfig {
    AuthStepConfig {
        plugin_name: s(name),
        config: AuthConfig::BasicAuth { username: s("u"), password: s("p") },
        required: true,
        depends_on: deps.iter().map(|d| s(d)).collect(),
    }
}

#[test]
fn test_notification_manager() {
    let mut manager = NotificationManager::new();
    let channels = manager.list_channels();
    assert!(channels.contains(&"console".to_string()));

    manager.add_slack_channel(
        "test-slack".to_string(),
        "https://hooks.slack.com/test".to_string(),
        "#alerts".to_string(),
    );

    let channels = manager.list_channels();
    assert!(channels.contains(&"test-slack".to_string()));
}

#[test]
fn test_get_configuration_value() {
    let config = sample_configuration("serial", 10, 30);

    let strategy = get_value(&config, "execution.default_strategy").unwrap();
    assert_eq!(strategy.to_json_string(), "\"serial\"");

    let concurrency = get_value(&config, "execution.max_concurrency").unwrap();
    assert_eq!(concurrency.to_json_string(), "10");

    assert!(get_value(&config, "nonexistent.path").is_none());
}

#[test]
fn test_configuration_change_detection() {
    let old_config = sample_configuration("serial", 10, 30);
    let new_config = sample_configuration("parallel", 20, 60);

    let changes = compare_configurations(&old_config, &new_config);
    assert_eq!(changes.len(), 3);

    let strategy_change = changes.iter().find(|c| c.path == "execution.default_strategy").unwrap();
    assert_eq!(strategy_change.change_type, ChangeType::Modified);
    assert_eq!(strategy_change.old_value.as_ref().unwrap().to_json_string(), "\"serial\"");
    assert_eq!(strategy_change.new_value.to_json_string(), "\"parallel\"");

    let concurrency_change = changes.iter().find(|c| c.path == "execution.max_concurrency").unwrap();
    assert_eq!(concurrency_change.change_type, ChangeType::Modified);
    assert_eq!(concurrency_change.old_value.as_ref().unwrap().to_json_string(), "10");
    assert_eq!(concurrency_change.new_value.to_json_string(), "20");
}

#[test]
fn test_configuration_change_summary() {
    let changes = vec![
        ConfigurationChange {
            path: s("execution.default_strategy"),
            old_value: Some(JsonValue::String(s("serial"))),
            new_value: JsonValue::String(s("parallel")),
            change_type: ChangeType::Modified,
        },
        ConfigurationChange {
            path: s("execution.max_concurrency"),
            old_value: Some(num(10)),
            new_value: num(20),
            change_type: ChangeType::Modified,
        },
        ConfigurationChange {
            path: s("new_setting"),
            old_value: None,
            new_value: JsonValue::String(s("new_value")),
            change_type: ChangeType::Added,
        },
    ];

    let summary = get_change_summary(&changes);
    assert!(summary.contains("Configuration changes: 1 added, 2 modified, 0 removed"));
    assert!(summary.contains("execution.default_strategy"));
    assert!(summary.contains("execution.max_concurrency"));
    assert!(summary.contains("new_setting"));
}

#[test]
fn no_changes_between_equal_configurations() {
    let config = sample_configuration("serial", 10, 30);
    let changes = compare_configurations(&config, &sample_configuration("serial", 10, 30));
    assert!(changes.is_empty());
    assert_eq!(get_change_summary(&changes), "No changes detected");
}

#[test]
fn change_summary_lists_each_change() {
    let changes = vec![
        ConfigurationChange {
            path: s("a"),
            old_value: Some(num(1)),
            new_value: JsonValue::Null,
            change_type: ChangeType::Removed,
        },
    ];
    assert_eq!(
        get_change_summary(&changes),
        "Configuration changes: 0 added, 0 modified, 1 removed\n- a: 1"
    );
}

#[test]
fn decimal_text_writes_digits() {
    assert_eq!(decimal_text(0), "0");
    assert_eq!(decimal_text(1234567890), "1234567890");
    assert_eq!(decimal_text(u64::MAX), "18446744073709551615");
}

#[test]
fn basic_auth_token_is_base64_of_credentials() {
    let plugin = BasicAuthPlugin::new();
    let config = AuthConfig::BasicAuth { username: s("user"), password: s("pass") };
    let result = plugin.create_basic_auth_token(&config).ok().unwrap();
    assert_eq!(result.token.token, "dXNlcjpwYXNz");
    assert_eq!(result.token.token_type, "Basic");
    assert!(result.token.expires_at.is_none());
}

#[test]
fn basic_auth_rejects_other_configurations() {
    let plugin = BasicAuthPlugin::new();
    let config = AuthConfig::ApiKey { key: s("k"), header_name: s("X-Key"), prefix: None };
    let failure = plugin.create_basic_auth_token(&config).err().unwrap();
    assert_eq!(failure.error_code, "INVALID_CONFIG");
}

#[test]
fn bearer_header_is_set_from_token() {
    let plugin = ApiKeyAuthPlugin::new();
    let mut headers: StrMap<String> = StrMap::new();
    let token = AuthToken {
        token: s("abc"),
        token_type: s("Bearer"),
        expires_at: None,
        refresh_token: None,
        scope: None,
    };
    plugin.apply_auth(&mut headers, &token);
    assert_eq!(headers.get("X-API-Key").map(|v| v.as_str()), Some("abc"));
}

#[test]
fn execution_order_puts_dependencies_first() {
    let steps = vec![step("c", &["b"]), step("a", &[]), step("b", &["a"])];
    let order = calculate_execution_order(&steps).ok().unwrap();
    assert_eq!(order, vec![s("a"), s("b"), s("c")]);
    assert!(!has_circular_dependencies(&steps));
}

#[test]
fn circular_dependencies_are_refused() {
    let steps = vec![step("a", &["b"]), step("b", &["a"])];
    assert!(has_circular_dependencies(&steps));
    assert!(calculate_execution_order(&steps).is_err());
}

#[test]
fn event_key_round_trip() {
    let key = generate_event_key(1700000000123, "evt-1");
    let (timestamp, id) = parse_event_key(&key).unwrap();
    assert_eq!(timestamp, 1700000000123);
    assert_eq!(id, "evt-1");
}

#[test]
fn csv_line_honours_quotes() {
    let source = CsvDataSource::new(CsvDataSourceConfig {
        file_config: FileDataSourceConfig {
            file_path: s("data.csv"),
            streaming: false,
            batch_size: None,
            encoding: None,
        },
        delimiter: None,
        has_headers: true,
        quote_char: None,
        escape_char: None,
    });
    let fields = source.parse_csv_line("a, \"b,c\" ,d").ok().unwrap();
    assert_eq!(fields, vec![s("a"), s("b,c"), s("d")]);
}

#[test]
fn variables_are_substituted() {
    let mut vars: StrMap<String> = StrMap::new();
    vars.insert(s("host"), s("example.com"));
    let out = substitute_variables("https://{{host}}/api/{{host}}/${host}", &vars);
    assert_eq!(out, "https://example.com/api/example.com/${host}");
}

#[test]
fn test_cases_are_partitioned_into_chunks() {
    let size = chunk_size_for(10, 3);
    assert_eq!(size, 3);
    assert_eq!(chunk_size_for(2, 5), 1);
    let chunks = partition_test_cases((0..10).collect::<Vec<u32>>(), size);
    assert_eq!(chunks, vec![vec![0, 1, 2], vec![3, 4, 5], vec![6, 7, 8], vec![9]]);
}

fn alerting() -> apirunner::alerting::AlertingSystem {
    apirunner::alerting::AlertingSystem::new(apirunner::alerting::AlertingConfig::default_config())
}

#[test]
fn test_alerting_system_creation() {
    let alerting_system = alerting();
    assert_eq!(alerting_system.get_rules().len(), 0);
    assert_eq!(alerting_system.get_active_alerts().len(), 0);
}

#[test]
fn test_alert_rule_management() {
    let mut alerting_system = alerting();
    let rule = AlertRule {
        id: s("test-rule"),
        name: s("Test Rule"),
        description: s("Test alert rule"),
        condition: AlertCondition::ErrorRate { threshold_percent_bits: 5.0f64.to_bits(), duration_ms: 60_000 },
        severity: AlertSeverity::Warning,
        notification_channels: vec![s("console")],
        enabled: true,
        cooldown_period_ms: 300_000,
        escalation_rules: vec![],
    };
    alerting_system.add_rule(rule);
    assert_eq!(alerting_system.get_rules().len(), 1);
    assert!(alerting_system.remove_rule("test-rule"));
    assert_eq!(alerting_system.get_rules().len(), 0);
}

#[test]
fn execution_order_lists_steps_and_their_dependencies() {
    let steps = vec![step("A", &[]), step("B", &["A"]), step("C", &["X"])];
    let order = calculate_execution_order(&steps).ok().unwrap();
    assert_eq!(order, vec![s("A"), s("B"), s("X"), s("C")]);
}

#[test]
fn plugins_have_no_dependencies() {
    let b = BasicAuthPlugin::new();
    assert_eq!(b.version(), "1.0.0");
    assert!(b.dependencies().is_empty());
    let a = ApiKeyAuthPlugin::new();
    assert_eq!(a.name(), "api-key-auth");
    assert_eq!(a.version(), "1.0.0");
    assert!(a.dependencies().is_empty());
    let j = JwtAuthPlugin::new();
    assert_eq!(j.name(), "jwt-auth");
    assert_eq!(j.version(), "1.0.0");
    assert!(j.dependencies().is_empty());
}

#[test]
fn command_line_defaults() {
    let c = apirunner::cli::cli_default_configuration();
    assert_eq!(c.execution.max_concurrency, 4);
    assert!(c.plugins.hot_reload);
    assert_eq!(c.execution.retry.max_delay_ms, 10000);
    assert_eq!(c.auth.default_method, Some(s("none")));
    assert_eq!(c.data_sources.default_type, "json");
}
