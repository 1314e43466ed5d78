use apirunner::cross_system_validations::{
    CacheType, CacheValidation, DatabaseType, DatabaseValidation, MessageQueueValidation, QueueType,
};
use apirunner::json::JsonValue;
use apirunner::plugin::{ExpectedValue, PluginConfig};
use apirunner::strmap::StrMap;

fn s(x: &str) -> String {
    x.to_string()
}

fn settings(pairs: &[(&str, &str)]) -> PluginConfig {
    let mut m: StrMap<JsonValue> = StrMap::new();
    for (k, v) in pairs {
        m.insert(s(k), JsonValue::String(s(v)));
    }
    PluginConfig { settings: m, environment: s("test") }
}

#[test]
fn test_database_validation_count_query() {
    let mut validation = DatabaseValidation::new(
        s("postgresql://localhost/test"),
        s("SELECT COUNT(*) FROM users"),
        DatabaseType::PostgreSQL,
    );
    let config = settings(&[
        ("connection_string", "postgresql://localhost/test"),
        ("query", "SELECT COUNT(*) FROM users"),
        ("database_type", "postgresql"),
    ]);
    assert!(validation.initialize(&config).is_ok());

    let actual = validation.execute_database_query().unwrap();
    let expected = ExpectedValue::Exact(JsonValue::Number(s("5")));
    let (success, message) = validation.compare_database_result(&actual, &expected).unwrap();
    assert!(success);
    assert!(message.contains("matches expected value"));
    assert_eq!(message, "Database query result matches expected value: 5");
}

#[test]
fn test_message_queue_validation_rabbitmq() {
    let mut validation = MessageQueueValidation::new(s("amqp://localhost"), s("test_queue"), QueueType::RabbitMQ);
    let config = settings(&[("queue_url", "amqp://localhost"), ("queue_name", "test_queue"), ("queue_type", "rabbitmq")]);
    assert!(validation.initialize(&config).is_ok());

    let state = validation.check_queue_state().unwrap();
    let (success, message) = validation.compare_queue_state(&state, &ExpectedValue::NotEmpty);
    assert!(success);
    assert!(message.contains("not empty"));
    assert_eq!(
        state.to_json_string(),
        "{\"consumer_count\":1,\"message_count\":3,\"queue_name\":\"test_queue\",\"status\":\"running\"}"
    );
}

#[test]
fn test_cache_validation_redis() {
    let mut validation = CacheValidation::new(s("redis://localhost:6379"), s("user:123"), CacheType::Redis);
    let config = settings(&[("cache_url", "redis://localhost:6379"), ("cache_key", "user:123"), ("cache_type", "redis")]);
    assert!(validation.initialize(&config).is_ok());

    let value = validation.check_cache_value().unwrap();
    let (success, message) = validation.compare_cache_value(&value, &ExpectedValue::Contains(s("John Doe")));
    assert!(success);
    assert!(message.contains("contains"));
    assert_eq!(message, "Cache value contains 'John Doe'");
}

#[test]
fn database_kinds_give_their_counts() {
    let mut validation = DatabaseValidation::new(s("db"), s("select count(*) from t"), DatabaseType::PostgreSQL);
    assert!(validation.initialize(&settings(&[("database_type", "MySQL")])).is_ok());
    assert_eq!(validation.execute_database_query().unwrap().to_json_string(), "3");
    assert!(validation.initialize(&settings(&[("database_type", "sqlite")])).is_ok());
    assert_eq!(validation.execute_database_query().unwrap().to_json_string(), "2");
    assert!(validation.initialize(&settings(&[("database_type", "oracle")])).is_ok());
    assert_eq!(validation.execute_database_query().unwrap().to_json_string(), "5");
    assert!(validation.initialize(&settings(&[("query", "SELECT * FROM users")])).is_ok());
    assert_eq!(
        validation.execute_database_query().unwrap().to_json_string(),
        "[{\"id\":1,\"name\":\"Test User\"}]"
    );
}

#[test]
fn missing_settings_are_refused() {
    let mut db = DatabaseValidation::new(s(""), s(""), DatabaseType::SQLite);
    let err = db.initialize(&settings(&[])).err().unwrap();
    assert_eq!(err.message(), "Plugin initialization failed: Database connection string and query are required");
    let mut q = MessageQueueValidation::new(s(""), s(""), QueueType::Redis);
    assert!(q.initialize(&settings(&[])).is_err());
    let mut c = CacheValidation::new(s(""), s(""), CacheType::Memcached);
    assert!(c.initialize(&settings(&[])).is_err());
}

#[test]
fn mismatches_report_both_values() {
    let db = DatabaseValidation::new(s("db"), s("select count(*)"), DatabaseType::MySQL);
    let actual = db.execute_database_query().unwrap();
    let (ok, message) = db
        .compare_database_result(&actual, &ExpectedValue::Exact(JsonValue::Number(s("5"))))
        .unwrap();
    assert!(!ok);
    assert_eq!(message, "Database query result mismatch: expected 5, got 3");
    assert!(db
        .compare_database_result(&actual, &ExpectedValue::Range { min_bits: 0, max_bits: 10.0f64.to_bits() })
        .is_none());
    let (ok, message) = db.compare_database_result(&actual, &ExpectedValue::Contains(s("3"))).unwrap();
    assert!(!ok);
    assert_eq!(message, "Unsupported expected value type for database validation");
}

#[test]
fn queue_kinds_report_their_state() {
    let q = MessageQueueValidation::new(s("https://sqs/q"), s("orders"), QueueType::AmazonSQS);
    assert_eq!(
        q.check_queue_state().unwrap().to_json_string(),
        "{\"approximate_number_of_messages\":2,\"queue_url\":\"https://sqs/q\",\"visibility_timeout\":30}"
    );
    let k = MessageQueueValidation::new(s("kafka://"), s("events"), QueueType::ApacheKafka);
    let state = k.check_queue_state().unwrap();
    let (ok, message) = k.compare_queue_state(&state, &ExpectedValue::Exact(JsonValue::Null));
    assert!(!ok);
    assert!(message.starts_with("Message queue state mismatch: expected null, got {"));
    let (ok, _) = k.compare_queue_state(&JsonValue::String(s("x")), &ExpectedValue::NotEmpty);
    assert!(!ok);
}

#[test]
fn cache_kinds_report_their_value() {
    let c = CacheValidation::new(s("mem"), s("session"), CacheType::InMemory);
    assert_eq!(
        c.check_cache_value().unwrap().to_json_string(),
        "{\"key\":\"session\",\"ttl\":300,\"value\":\"in_memory_value\"}"
    );
    let counter = CacheValidation::new(s("redis"), s("page_count"), CacheType::Redis);
    let v = counter.check_cache_value().unwrap();
    assert_eq!(v.to_json_string(), "42");
    let (ok, message) = counter.compare_cache_value(&JsonValue::Null, &ExpectedValue::NotEmpty);
    assert!(!ok);
    assert_eq!(message, "Cache value is empty or null");
}

#[test]
fn database_validation_execute_reports_the_query_result() {
    let v = DatabaseValidation::new(
        "postgresql://localhost/test".to_string(),
        "SELECT COUNT(*) FROM users".to_string(),
        DatabaseType::PostgreSQL,
    );
    let expected = ExpectedValue::Exact(JsonValue::Number("5".to_string()));
    let r = v.execute(&expected, JsonValue::Null, (false, String::new()));
    assert!(r.success);
    assert_eq!(r.message, "Database query result matches expected value: 5");
    assert_eq!(r.actual_value.unwrap().to_json_string(), "5");
    let r = v.execute(&ExpectedValue::Range { min_bits: 0, max_bits: 0 }, JsonValue::Null, (true, "in range".to_string()));
    assert!(r.success);
    assert_eq!(r.message, "in range");
}
