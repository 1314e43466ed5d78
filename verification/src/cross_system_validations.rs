//! Assertions on systems beside the API under test: a database, a message
//! queue and a cache. Each is configured from plugin settings, looks up a
//! (simulated) state and compares it with what the assertion expects.

use vstd::prelude::*;
use crate::text::{owned, concat, concat3, concat4, copy_string, lowercase, lowercase_text};
use crate::json::{JsonValue, JsonView, json_equal, json_text, members_view, lemma_members_view, array_view, lemma_array_view};
use crate::json_assertions::{contains_text, text_contains};
use crate::plugin::{PluginConfig, ExpectedValue, AssertionResult, text_setting, get_text_setting};
use crate::execution::{as_u64_value, json_as_u64};
use crate::error::PluginError;
use crate::basic_auth_plugin::is_init_failure;
use crate::strmap::StrMap;

verus! {

/// Kinds of database.
#[derive(Clone, Copy, Debug, PartialEq, Eq, Structural)]
pub enum DatabaseType {
    PostgreSQL,
    MySQL,
    SQLite,
}

/// Kinds of message queue.
#[derive(Clone, Copy, Debug, PartialEq, Eq, Structural)]
pub enum QueueType {
    RabbitMQ,
    Redis,
    AmazonSQS,
    ApacheKafka,
}

/// Kinds of cache.
#[derive(Clone, Copy, Debug, PartialEq, Eq, Structural)]
pub enum CacheType {
    Redis,
    Memcached,
    InMemory,
}

/// The database kind a settings text names (PostgreSQL when unknown).
pub open spec fn database_type_named(t: Seq<char>) -> DatabaseType {
    if t == "mysql"@ {
        DatabaseType::MySQL
    } else if t == "sqlite"@ {
        DatabaseType::SQLite
    } else {
        DatabaseType::PostgreSQL
    }
}

/// The queue kind a settings text names (RabbitMQ when unknown).
pub open spec fn queue_type_named(t: Seq<char>) -> QueueType {
    if t == "redis"@ {
        QueueType::Redis
    } else if t == "sqs"@ || t == "amazon_sqs"@ {
        QueueType::AmazonSQS
    } else if t == "kafka"@ || t == "apache_kafka"@ {
        QueueType::ApacheKafka
    } else {
        QueueType::RabbitMQ
    }
}

/// The cache kind a settings text names (Redis when unknown).
pub open spec fn cache_type_named(t: Seq<char>) -> CacheType {
    if t == "memcached"@ {
        CacheType::Memcached
    } else if t == "in_memory"@ || t == "inmemory"@ {
        CacheType::InMemory
    } else {
        CacheType::Redis
    }
}

/// A setting's text, or the current value when the setting is absent or not a string.
pub open spec fn text_or(settings: Map<Seq<char>, JsonValue>, key: Seq<char>, current: Seq<char>) -> Seq<char> {
    match text_setting(settings, key) {
        Some(s) => s,
        None => current,
    }
}

/// A setting's whole number, or the current value when the setting is absent or not one.
pub open spec fn number_or(settings: Map<Seq<char>, JsonValue>, key: Seq<char>, current: u64) -> u64 {
    if settings.dom().contains(key) {
        match json_as_u64(settings[key].view()) {
            Some(n) => n,
            None => current,
        }
    } else {
        current
    }
}

fn number_setting(settings: &StrMap<JsonValue>, key: &str, current: u64) -> (r: u64)
    ensures
        r == number_or(settings@, key@, current),
{
    match settings.get(key) {
        Some(v) => match as_u64_value(v) {
            Some(n) => n,
            None => current,
        },
        None => current,
    }
}

fn is_text(s: &String, t: &str) -> (r: bool)
    ensures
        r == (s@ == t@),
{
    crate::text::str_equal(s.as_str(), t)
}

/// Whether a value counts as empty for a database or a cache: null, or an
/// empty string, array or object.
pub open spec fn value_is_empty(v: JsonView) -> bool {
    match v {
        JsonView::Null => true,
        JsonView::String(s) => s.len() == 0,
        JsonView::Array(a) => a.len() == 0,
        JsonView::Object(m) => m.len() == 0,
        _ => false,
    }
}

fn is_empty_value(v: &JsonValue) -> (r: bool)
    ensures
        r == value_is_empty(v.view()),
{
    match v {
        JsonValue::Null => true,
        JsonValue::String(s) => s.as_str().is_empty(),
        JsonValue::Array(a) => a.len() == 0,
        JsonValue::Object(m) => {
            proof { lemma_members_view(m@); }
            m.len() == 0
        },
        _ => false,
    }
}

fn num(n: &str) -> (r: JsonValue)
    ensures
        r.view() == JsonView::Number(n@),
{
    JsonValue::Number(owned(n))
}

fn text_value(s: &str) -> (r: JsonValue)
    ensures
        r.view() == JsonView::String(s@),
{
    JsonValue::String(owned(s))
}

fn object3(k1: &str, v1: JsonValue, k2: &str, v2: JsonValue, k3: &str, v3: JsonValue) -> (r: JsonValue)
    ensures
        r.view() == JsonView::Object(seq![(k1@, v1.view()), (k2@, v2.view()), (k3@, v3.view())]),
{
    let ghost (a, b, c) = (v1.view(), v2.view(), v3.view());
    let m = vec![(owned(k1), v1), (owned(k2), v2), (owned(k3), v3)];
    proof { lemma_members_view(m@); }
    assert(members_view(m@) =~= seq![(k1@, a), (k2@, b), (k3@, c)]);
    JsonValue::Object(m)
}

/// Checks the state of a database after an API call.
pub struct DatabaseValidation {
    connection_string: String,
    query: String,
    database_type: DatabaseType,
}

/// What a database check of a query finds: the simulated result of the query
/// on each kind of database (a count, rows, or success).
pub open spec fn database_result(database_type: DatabaseType, query: Seq<char>) -> JsonView {
    let q = lowercase_text(query);
    if text_contains(q, "select count"@) {
        match database_type {
            DatabaseType::PostgreSQL => JsonView::Number("5"@),
            DatabaseType::MySQL => JsonView::Number("3"@),
            DatabaseType::SQLite => JsonView::Number("2"@),
        }
    } else if database_type == DatabaseType::PostgreSQL && text_contains(q, "select"@) {
        JsonView::Array(seq![JsonView::Object(seq![
            ("id"@, JsonView::Number("1"@)),
            ("name"@, JsonView::String("Test User"@)),
        ])])
    } else {
        JsonView::Bool(true)
    }
}

/// The verdict of a database check, with its message; none for a range of
/// numbers, which is compared on doubles by the caller.
pub open spec fn database_verdict(actual: JsonView, expected: ExpectedValue) -> Option<(bool, Seq<char>)> {
    match expected {
        ExpectedValue::Exact(e) => if actual == e.view() {
            Some((true, "Database query result matches expected value: "@ + json_text(e.view())))
        } else {
            Some((false, "Database query result mismatch: expected "@ + json_text(e.view()) + ", got "@ + json_text(actual)))
        },
        ExpectedValue::Range { .. } => None,
        ExpectedValue::NotEmpty => if !value_is_empty(actual) {
            Some((true, "Database query result is not empty"@))
        } else {
            Some((false, "Database query result is empty"@))
        },
        _ => Some((false, "Unsupported expected value type for database validation"@)),
    }
}

impl DatabaseValidation {
    pub closed spec fn connection_string(&self) -> Seq<char> {
        self.connection_string@
    }

    pub closed spec fn query(&self) -> Seq<char> {
        self.query@
    }

    pub closed spec fn database_type(&self) -> DatabaseType {
        self.database_type
    }

    /// A database check of `query` on the database at `connection_string`.
    pub fn new(connection_string: String, query: String, db_type: DatabaseType) -> (r: Self)
        ensures
            r.connection_string() == connection_string@,
            r.query() == query@,
            r.database_type() == db_type,
    {
        DatabaseValidation { connection_string, query, database_type: db_type }
    }

    /// The plugin's name.
    pub fn name(&self) -> (r: String)
        ensures
            r@ == "database-validation"@,
    {
        owned("database-validation")
    }

    /// The plugin's version.
    pub fn version(&self) -> (r: String)
        ensures
            r@ == "1.0.0"@,
    {
        owned("1.0.0")
    }

    /// Takes the connection string, query and database type from the
    /// settings; a connection string and a query are required.
    pub fn initialize(&mut self, config: &PluginConfig) -> (r: Result<(), PluginError>)
        ensures
            final(self).connection_string() == text_or(config.settings@, "connection_string"@, old(self).connection_string()),
            final(self).query() == text_or(config.settings@, "query"@, old(self).query()),
            final(self).database_type() == match text_setting(config.settings@, "database_type"@) {
                Some(t) => database_type_named(lowercase_text(t)),
                None => old(self).database_type(),
            },
            final(self).connection_string().len() > 0 && final(self).query().len() > 0 ==> r is Ok,
            !(final(self).connection_string().len() > 0 && final(self).query().len() > 0) ==> (r matches Err(e)
                && is_init_failure(e, "Database connection string and query are required"@)),
    {
        match get_text_setting(&config.settings, "connection_string") {
            Some(s) => { self.connection_string = s; },
            None => {},
        }
        match get_text_setting(&config.settings, "query") {
            Some(s) => { self.query = s; },
            None => {},
        }
        match get_text_setting(&config.settings, "database_type") {
            Some(t) => {
                let l = lowercase(t.as_str());
                self.database_type = if is_text(&l, "mysql") {
                    DatabaseType::MySQL
                } else if is_text(&l, "sqlite") {
                    DatabaseType::SQLite
                } else {
                    DatabaseType::PostgreSQL
                };
            },
            None => {},
        }
        if self.connection_string.as_str().is_empty() || self.query.as_str().is_empty() {
            return Err(PluginError::InitializationFailed(owned("Database connection string and query are required")));
        }
        Ok(())
    }

    /// Runs the query (simulated): its result on the configured database.
    pub fn execute_database_query(&self) -> (r: Result<JsonValue, String>)
        ensures
            r matches Ok(v) && v.view() == database_result(self.database_type(), self.query()),
    {
        let q = lowercase(self.query.as_str());
        if contains_text(q.as_str(), "select count") {
            let n = match self.database_type {
                DatabaseType::PostgreSQL => num("5"),
                DatabaseType::MySQL => num("3"),
                DatabaseType::SQLite => num("2"),
            };
            Ok(n)
        } else if self.database_type == DatabaseType::PostgreSQL && contains_text(q.as_str(), "select") {
            let row = vec![(owned("id"), num("1")), (owned("name"), text_value("Test User"))];
            proof { lemma_members_view(row@); }
            assert(members_view(row@) =~= seq![("id"@, JsonView::Number("1"@)), ("name"@, JsonView::String("Test User"@))]);
            let rows = vec![JsonValue::Object(row)];
            proof { lemma_array_view(rows@); }
            assert(array_view(rows@) =~= seq![JsonView::Object(seq![
                ("id"@, JsonView::Number("1"@)),
                ("name"@, JsonView::String("Test User"@)),
            ])]);
            Ok(JsonValue::Array(rows))
        } else {
            Ok(JsonValue::Bool(true))
        }
    }

    /// Runs the query and judges its result: a failed query is reported;
    /// otherwise the verdict of `compare_database_result`, or for a range of
    /// numbers, which compares floating-point values, `range_verdict` from
    /// the caller. `expected_json` is the expectation in JSON form.
    pub fn execute(&self, expected: &ExpectedValue, expected_json: JsonValue, range_verdict: (bool, String)) -> (r: AssertionResult)
        ensures
            r.actual_value matches Some(v) && v.view() == database_result(self.database_type(), self.query()),
            r.expected_value == Some(expected_json),
            match database_verdict(database_result(self.database_type(), self.query()), *expected) {
                Some((ok, m)) => r.success == ok && r.message@ == m,
                None => r.success == range_verdict.0 && r.message == range_verdict.1,
            },
    {
        match self.execute_database_query() {
            Err(e) => AssertionResult {
                success: false,
                message: concat("Database query failed: ", e.as_str()),
                actual_value: None,
                expected_value: Some(expected_json),
            },
            Ok(v) => {
                let (success, message) = match self.compare_database_result(&v, expected) {
                    Some(x) => x,
                    None => range_verdict,
                };
                AssertionResult { success, message, actual_value: Some(v), expected_value: Some(expected_json) }
            },
        }
    }

    /// Compares a query result with what is expected; none for a range of
    /// numbers (see `database_verdict`).
    pub fn compare_database_result(&self, actual: &JsonValue, expected: &ExpectedValue) -> (r: Option<(bool, String)>)
        ensures
            match database_verdict(actual.view(), *expected) {
                Some((ok, m)) => r matches Some((b, t)) && b == ok && t@ == m,
                None => r is None,
            },
    {
        match expected {
            ExpectedValue::Exact(e) => {
                if json_equal(actual, e) {
                    let t = e.to_json_string();
                    Some((true, concat("Database query result matches expected value: ", t.as_str())))
                } else {
                    let et = e.to_json_string();
                    let at = actual.to_json_string();
                    Some((false, concat4("Database query result mismatch: expected ", et.as_str(), ", got ", at.as_str())))
                }
            },
            ExpectedValue::Range { .. } => None,
            ExpectedValue::NotEmpty => {
                if !is_empty_value(actual) {
                    Some((true, owned("Database query result is not empty")))
                } else {
                    Some((false, owned("Database query result is empty")))
                }
            },
            _ => Some((false, owned("Unsupported expected value type for database validation"))),
        }
    }
}

/// Checks the state of a message queue after an API call.
pub struct MessageQueueValidation {
    queue_url: String,
    queue_name: String,
    queue_type: QueueType,
    timeout_secs: u64,
}

/// The state a queue check finds (simulated), by kind of queue.
pub open spec fn queue_state(queue_type: QueueType, queue_url: Seq<char>, queue_name: Seq<char>) -> JsonView {
    match queue_type {
        QueueType::RabbitMQ => JsonView::Object(seq![
            ("consumer_count"@, JsonView::Number("1"@)),
            ("message_count"@, JsonView::Number("3"@)),
            ("queue_name"@, JsonView::String(queue_name)),
            ("status"@, JsonView::String("running"@)),
        ]),
        QueueType::Redis => JsonView::Object(seq![
            ("key"@, JsonView::String(queue_name)),
            ("length"@, JsonView::Number("5"@)),
            ("type"@, JsonView::String("list"@)),
        ]),
        QueueType::AmazonSQS => JsonView::Object(seq![
            ("approximate_number_of_messages"@, JsonView::Number("2"@)),
            ("queue_url"@, JsonView::String(queue_url)),
            ("visibility_timeout"@, JsonView::Number("30"@)),
        ]),
        QueueType::ApacheKafka => JsonView::Object(seq![
            ("partition_count"@, JsonView::Number("3"@)),
            ("replication_factor"@, JsonView::Number("2"@)),
            ("topic"@, JsonView::String(queue_name)),
        ]),
    }
}

/// The verdict of a queue check, with its message.
pub open spec fn queue_verdict(actual: JsonView, expected: ExpectedValue) -> (bool, Seq<char>) {
    match expected {
        ExpectedValue::Exact(e) => if actual == e.view() {
            (true, "Message queue state matches expected value"@)
        } else {
            (false, "Message queue state mismatch: expected "@ + json_text(e.view()) + ", got "@ + json_text(actual))
        },
        ExpectedValue::NotEmpty => {
            let ok = match actual {
                JsonView::Object(m) => m.len() > 0,
                JsonView::Array(a) => a.len() > 0,
                _ => false,
            };
            if ok { (true, "Message queue state is not empty"@) } else { (false, "Message queue state is empty"@) }
        },
        _ => (false, "Unsupported expected value type for message queue validation"@),
    }
}

impl MessageQueueValidation {
    pub closed spec fn queue_url(&self) -> Seq<char> {
        self.queue_url@
    }

    pub closed spec fn queue_name(&self) -> Seq<char> {
        self.queue_name@
    }

    pub closed spec fn queue_type(&self) -> QueueType {
        self.queue_type
    }

    /// How long a check may take, in seconds.
    pub closed spec fn timeout_secs(&self) -> u64 {
        self.timeout_secs
    }

    /// A check of the queue `queue_name` at `queue_url`, with a 30 s timeout.
    pub fn new(queue_url: String, queue_name: String, queue_type: QueueType) -> (r: Self)
        ensures
            r.queue_url() == queue_url@,
            r.queue_name() == queue_name@,
            r.queue_type() == queue_type,
            r.timeout_secs() == 30,
    {
        MessageQueueValidation { queue_url, queue_name, queue_type, timeout_secs: 30 }
    }

    /// The plugin's name.
    pub fn name(&self) -> (r: String)
        ensures
            r@ == "message-queue-validation"@,
    {
        owned("message-queue-validation")
    }

    /// Takes the queue URL, name, type and timeout from the settings; a queue
    /// name is required.
    pub fn initialize(&mut self, config: &PluginConfig) -> (r: Result<(), PluginError>)
        ensures
            final(self).queue_url() == text_or(config.settings@, "queue_url"@, old(self).queue_url()),
            final(self).queue_name() == text_or(config.settings@, "queue_name"@, old(self).queue_name()),
            final(self).queue_type() == match text_setting(config.settings@, "queue_type"@) {
                Some(t) => queue_type_named(lowercase_text(t)),
                None => old(self).queue_type(),
            },
            final(self).timeout_secs() == number_or(config.settings@, "timeout"@, old(self).timeout_secs()),
            final(self).queue_name().len() > 0 ==> r is Ok,
            final(self).queue_name().len() == 0 ==> (r matches Err(e) && is_init_failure(e, "Queue name is required"@)),
    {
        match get_text_setting(&config.settings, "queue_url") {
            Some(s) => { self.queue_url = s; },
            None => {},
        }
        match get_text_setting(&config.settings, "queue_name") {
            Some(s) => { self.queue_name = s; },
            None => {},
        }
        match get_text_setting(&config.settings, "queue_type") {
            Some(t) => {
                let l = lowercase(t.as_str());
                self.queue_type = if is_text(&l, "redis") {
                    QueueType::Redis
                } else if is_text(&l, "sqs") || is_text(&l, "amazon_sqs") {
                    QueueType::AmazonSQS
                } else if is_text(&l, "kafka") || is_text(&l, "apache_kafka") {
                    QueueType::ApacheKafka
                } else {
                    QueueType::RabbitMQ
                };
            },
            None => {},
        }
        self.timeout_secs = number_setting(&config.settings, "timeout", self.timeout_secs);
        if self.queue_name.as_str().is_empty() {
            return Err(PluginError::InitializationFailed(owned("Queue name is required")));
        }
        Ok(())
    }

    /// Looks at the queue (simulated): its state for the configured kind.
    pub fn check_queue_state(&self) -> (r: Result<JsonValue, String>)
        ensures
            r matches Ok(v) && v.view() == queue_state(self.queue_type(), self.queue_url(), self.queue_name()),
    {
        match self.queue_type {
            QueueType::RabbitMQ => {
                let m = vec![
                    (owned("consumer_count"), num("1")),
                    (owned("message_count"), num("3")),
                    (owned("queue_name"), JsonValue::String(copy_string(&self.queue_name))),
                    (owned("status"), text_value("running")),
                ];
                proof { lemma_members_view(m@); }
                assert(members_view(m@) =~= seq![
                    ("consumer_count"@, JsonView::Number("1"@)),
                    ("message_count"@, JsonView::Number("3"@)),
                    ("queue_name"@, JsonView::String(self.queue_name@)),
                    ("status"@, JsonView::String("running"@)),
                ]);
                Ok(JsonValue::Object(m))
            },
            QueueType::Redis => Ok(object3(
                "key", JsonValue::String(copy_string(&self.queue_name)),
                "length", num("5"),
                "type", text_value("list"),
            )),
            QueueType::AmazonSQS => Ok(object3(
                "approximate_number_of_messages", num("2"),
                "queue_url", JsonValue::String(copy_string(&self.queue_url)),
                "visibility_timeout", num("30"),
            )),
            QueueType::ApacheKafka => Ok(object3(
                "partition_count", num("3"),
                "replication_factor", num("2"),
                "topic", JsonValue::String(copy_string(&self.queue_name)),
            )),
        }
    }

    /// Looks at the queue and judges its state against what is expected;
    /// a failed check is reported. `expected_json` is the expectation in
    /// JSON form.
    pub fn execute(&self, expected: &ExpectedValue, expected_json: JsonValue) -> (r: AssertionResult)
        ensures
            r.actual_value matches Some(v) && v.view() == queue_state(self.queue_type(), self.queue_url(), self.queue_name()),
            r.expected_value == Some(expected_json),
            r.success == queue_verdict(queue_state(self.queue_type(), self.queue_url(), self.queue_name()), *expected).0,
            r.message@ == queue_verdict(queue_state(self.queue_type(), self.queue_url(), self.queue_name()), *expected).1,
    {
        match self.check_queue_state() {
            Err(e) => AssertionResult {
                success: false,
                message: concat("Message queue check failed: ", e.as_str()),
                actual_value: None,
                expected_value: Some(expected_json),
            },
            Ok(v) => {
                let (success, message) = self.compare_queue_state(&v, expected);
                AssertionResult { success, message, actual_value: Some(v), expected_value: Some(expected_json) }
            },
        }
    }

    /// Compares a queue state with what is expected.
    pub fn compare_queue_state(&self, actual: &JsonValue, expected: &ExpectedValue) -> (r: (bool, String))
        ensures
            r.0 == queue_verdict(actual.view(), *expected).0,
            r.1@ == queue_verdict(actual.view(), *expected).1,
    {
        match expected {
            ExpectedValue::Exact(e) => {
                if json_equal(actual, e) {
                    (true, owned("Message queue state matches expected value"))
                } else {
                    let et = e.to_json_string();
                    let at = actual.to_json_string();
                    (false, concat4("Message queue state mismatch: expected ", et.as_str(), ", got ", at.as_str()))
                }
            },
            ExpectedValue::NotEmpty => {
                let ok = match actual {
                    JsonValue::Object(m) => {
                        proof { lemma_members_view(m@); }
                        m.len() > 0
                    },
                    JsonValue::Array(a) => a.len() > 0,
                    _ => false,
                };
                if ok {
                    (true, owned("Message queue state is not empty"))
                } else {
                    (false, owned("Message queue state is empty"))
                }
            },
            _ => (false, owned("Unsupported expected value type for message queue validation")),
        }
    }
}

/// Checks a cached value after an API call.
pub struct CacheValidation {
    cache_url: String,
    cache_key: String,
    cache_type: CacheType,
    timeout_secs: u64,
}

/// The value a cache check finds (simulated), by kind of cache and key.
pub open spec fn cache_value(cache_type: CacheType, cache_key: Seq<char>) -> JsonView {
    match cache_type {
        CacheType::Redis => if text_contains(cache_key, "user"@) {
            JsonView::Object(seq![
                ("cached_at"@, JsonView::String("2024-01-01T12:00:00Z"@)),
                ("id"@, JsonView::Number("123"@)),
                ("name"@, JsonView::String("John Doe"@)),
            ])
        } else if text_contains(cache_key, "count"@) {
            JsonView::Number("42"@)
        } else {
            JsonView::String("cached_value"@)
        },
        CacheType::Memcached => JsonView::String("memcached_value"@),
        CacheType::InMemory => JsonView::Object(seq![
            ("key"@, JsonView::String(cache_key)),
            ("ttl"@, JsonView::Number("300"@)),
            ("value"@, JsonView::String("in_memory_value"@)),
        ]),
    }
}

/// The verdict of a cache check, with its message.
pub open spec fn cache_verdict(actual: JsonView, expected: ExpectedValue) -> (bool, Seq<char>) {
    match expected {
        ExpectedValue::Exact(e) => if actual == e.view() {
            (true, "Cache value matches expected value"@)
        } else {
            (false, "Cache value mismatch: expected "@ + json_text(e.view()) + ", got "@ + json_text(actual))
        },
        ExpectedValue::Contains(sub) => if text_contains(json_text(actual), sub@) {
            (true, "Cache value contains '"@ + sub@ + "'"@)
        } else {
            (false, "Cache value does not contain '"@ + sub@ + "'"@)
        },
        ExpectedValue::NotEmpty => if !value_is_empty(actual) {
            (true, "Cache value is not empty"@)
        } else {
            (false, "Cache value is empty or null"@)
        },
        _ => (false, "Unsupported expected value type for cache validation"@),
    }
}

impl CacheValidation {
    pub closed spec fn cache_url(&self) -> Seq<char> {
        self.cache_url@
    }

    pub closed spec fn cache_key(&self) -> Seq<char> {
        self.cache_key@
    }

    pub closed spec fn cache_type(&self) -> CacheType {
        self.cache_type
    }

    /// How long a check may take, in seconds.
    pub closed spec fn timeout_secs(&self) -> u64 {
        self.timeout_secs
    }

    /// A check of `cache_key` in the cache at `cache_url`, with a 10 s timeout.
    pub fn new(cache_url: String, cache_key: String, cache_type: CacheType) -> (r: Self)
        ensures
            r.cache_url() == cache_url@,
            r.cache_key() == cache_key@,
            r.cache_type() == cache_type,
            r.timeout_secs() == 10,
    {
        CacheValidation { cache_url, cache_key, cache_type, timeout_secs: 10 }
    }

    /// The plugin's name.
    pub fn name(&self) -> (r: String)
        ensures
            r@ == "cache-validation"@,
    {
        owned("cache-validation")
    }

    /// Takes the cache URL, key, type and timeout from the settings; a cache
    /// key is required.
    pub fn initialize(&mut self, config: &PluginConfig) -> (r: Result<(), PluginError>)
        ensures
            final(self).cache_url() == text_or(config.settings@, "cache_url"@, old(self).cache_url()),
            final(self).cache_key() == text_or(config.settings@, "cache_key"@, old(self).cache_key()),
            final(self).cache_type() == match text_setting(config.settings@, "cache_type"@) {
                Some(t) => cache_type_named(lowercase_text(t)),
                None => old(self).cache_type(),
            },
            final(self).timeout_secs() == number_or(config.settings@, "timeout"@, old(self).timeout_secs()),
            final(self).cache_key().len() > 0 ==> r is Ok,
            final(self).cache_key().len() == 0 ==> (r matches Err(e) && is_init_failure(e, "Cache key is required"@)),
    {
        match get_text_setting(&config.settings, "cache_url") {
            Some(s) => { self.cache_url = s; },
            None => {},
        }
        match get_text_setting(&config.settings, "cache_key") {
            Some(s) => { self.cache_key = s; },
            None => {},
        }
        match get_text_setting(&config.settings, "cache_type") {
            Some(t) => {
                let l = lowercase(t.as_str());
                self.cache_type = if is_text(&l, "memcached") {
                    CacheType::Memcached
                } else if is_text(&l, "in_memory") || is_text(&l, "inmemory") {
                    CacheType::InMemory
                } else {
                    CacheType::Redis
                };
            },
            None => {},
        }
        self.timeout_secs = number_setting(&config.settings, "timeout", self.timeout_secs);
        if self.cache_key.as_str().is_empty() {
            return Err(PluginError::InitializationFailed(owned("Cache key is required")));
        }
        Ok(())
    }

    /// Reads the key from the cache (simulated): its value for the configured kind.
    pub fn check_cache_value(&self) -> (r: Result<JsonValue, String>)
        ensures
            r matches Ok(v) && v.view() == cache_value(self.cache_type(), self.cache_key()),
    {
        match self.cache_type {
            CacheType::Redis => {
                if contains_text(self.cache_key.as_str(), "user") {
                    Ok(object3(
                        "cached_at", text_value("2024-01-01T12:00:00Z"),
                        "id", num("123"),
                        "name", text_value("John Doe"),
                    ))
                } else if contains_text(self.cache_key.as_str(), "count") {
                    Ok(num("42"))
                } else {
                    Ok(text_value("cached_value"))
                }
            },
            CacheType::Memcached => Ok(text_value("memcached_value")),
            CacheType::InMemory => Ok(object3(
                "key", JsonValue::String(copy_string(&self.cache_key)),
                "ttl", num("300"),
                "value", text_value("in_memory_value"),
            )),
        }
    }

    /// Reads the key from the cache and judges its value against what is
    /// expected; a failed read is reported. `expected_json` is the
    /// expectation in JSON form.
    pub fn execute(&self, expected: &ExpectedValue, expected_json: JsonValue) -> (r: AssertionResult)
        ensures
            r.actual_value matches Some(v) && v.view() == cache_value(self.cache_type(), self.cache_key()),
            r.expected_value == Some(expected_json),
            r.success == cache_verdict(cache_value(self.cache_type(), self.cache_key()), *expected).0,
            r.message@ == cache_verdict(cache_value(self.cache_type(), self.cache_key()), *expected).1,
    {
        match self.check_cache_value() {
            Err(e) => AssertionResult {
                success: false,
                message: concat("Cache check failed: ", e.as_str()),
                actual_value: None,
                expected_value: Some(expected_json),
            },
            Ok(v) => {
                let (success, message) = self.compare_cache_value(&v, expected);
                AssertionResult { success, message, actual_value: Some(v), expected_value: Some(expected_json) }
            },
        }
    }

    /// Compares a cached value with what is expected.
    pub fn compare_cache_value(&self, actual: &JsonValue, expected: &ExpectedValue) -> (r: (bool, String))
        ensures
            r.0 == cache_verdict(actual.view(), *expected).0,
            r.1@ == cache_verdict(actual.view(), *expected).1,
    {
        match expected {
            ExpectedValue::Exact(e) => {
                if json_equal(actual, e) {
                    (true, owned("Cache value matches expected value"))
                } else {
                    let et = e.to_json_string();
                    let at = actual.to_json_string();
                    (false, concat4("Cache value mismatch: expected ", et.as_str(), ", got ", at.as_str()))
                }
            },
            ExpectedValue::Contains(sub) => {
                let at = actual.to_json_string();
                if contains_text(at.as_str(), sub.as_str()) {
                    (true, concat3("Cache value contains '", sub.as_str(), "'"))
                } else {
                    (false, concat3("Cache value does not contain '", sub.as_str(), "'"))
                }
            },
            ExpectedValue::NotEmpty => {
                if !is_empty_value(actual) {
                    (true, owned("Cache value is not empty"))
                } else {
                    (false, owned("Cache value is empty or null"))
                }
            },
            _ => (false, owned("Unsupported expected value type for cache validation")),
        }
    }
}

} // verus!
