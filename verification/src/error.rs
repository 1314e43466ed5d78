//! Errors of the library's parts, each with the message it reads as.

use vstd::prelude::*;
use crate::text::{concat, concat4, owned};

verus! {

/// Debug rendering of a duration of `ms` milliseconds, as std's `Debug` for
/// `Duration` writes it (for example `30s` or `1.5s`).
pub uninterp spec fn duration_debug_text(ms: u64) -> Seq<char>;

/// std's `Debug` formatting of `Duration::from_millis(ms)`.
#[verifier::external_body]
pub(crate) fn duration_debug(ms: u64) -> (r: String)
    ensures
        r@ == duration_debug_text(ms),
{
    format!("{:?}", std::time::Duration::from_millis(ms))
}

/// Plugin-specific errors.
pub enum PluginError {
    NotFound(String),
    InitializationFailed(String),
    DependencyNotSatisfied(String),
    VersionMismatch { expected: String, found: String },
    LoadingFailed(String),
    ExecutionFailed(String),
}

impl PluginError {
    /// The message this error reads as.
    pub open spec fn text(&self) -> Seq<char> {
        match self {
            PluginError::NotFound(s) => "Plugin not found: "@ + s@,
            PluginError::InitializationFailed(s) => "Plugin initialization failed: "@ + s@,
            PluginError::DependencyNotSatisfied(s) => "Plugin dependency not satisfied: "@ + s@,
            PluginError::VersionMismatch { expected, found } =>
                "Plugin version mismatch: expected "@ + expected@ + ", found "@ + found@,
            PluginError::LoadingFailed(s) => "Plugin loading failed: "@ + s@,
            PluginError::ExecutionFailed(s) => "Plugin execution failed: "@ + s@,
        }
    }

    /// The message of this error.
    pub fn message(&self) -> (r: String)
        ensures
            r@ == self.text(),
    {
        match self {
            PluginError::NotFound(s) => concat("Plugin not found: ", s.as_str()),
            PluginError::InitializationFailed(s) => concat("Plugin initialization failed: ", s.as_str()),
            PluginError::DependencyNotSatisfied(s) => concat("Plugin dependency not satisfied: ", s.as_str()),
            PluginError::VersionMismatch { expected, found } =>
                concat4("Plugin version mismatch: expected ", expected.as_str(), ", found ", found.as_str()),
            PluginError::LoadingFailed(s) => concat("Plugin loading failed: ", s.as_str()),
            PluginError::ExecutionFailed(s) => concat("Plugin execution failed: ", s.as_str()),
        }
    }
}

/// Protocol-specific errors. A timeout is given in milliseconds.
pub enum ProtocolError {
    ConnectionFailed(String),
    Timeout { timeout_ms: u64 },
    InvalidUrl(String),
    AuthenticationFailed(String),
    TlsError(String),
    UnsupportedVersion(String),
    NetworkError(String),
}

impl ProtocolError {
    /// The message this error reads as.
    pub open spec fn text(&self) -> Seq<char> {
        match self {
            ProtocolError::ConnectionFailed(s) => "Connection failed: "@ + s@,
            ProtocolError::Timeout { timeout_ms } => "Request timeout after "@ + duration_debug_text(*timeout_ms),
            ProtocolError::InvalidUrl(s) => "Invalid URL: "@ + s@,
            ProtocolError::AuthenticationFailed(s) => "Authentication failed: "@ + s@,
            ProtocolError::TlsError(s) => "TLS error: "@ + s@,
            ProtocolError::UnsupportedVersion(s) => "Protocol version not supported: "@ + s@,
            ProtocolError::NetworkError(s) => "Network error: "@ + s@,
        }
    }

    /// The message of this error.
    pub fn message(&self) -> (r: String)
        ensures
            r@ == self.text(),
    {
        match self {
            ProtocolError::ConnectionFailed(s) => concat("Connection failed: ", s.as_str()),
            ProtocolError::Timeout { timeout_ms } => {
                let d = duration_debug(*timeout_ms);
                concat("Request timeout after ", d.as_str())
            },
            ProtocolError::InvalidUrl(s) => concat("Invalid URL: ", s.as_str()),
            ProtocolError::AuthenticationFailed(s) => concat("Authentication failed: ", s.as_str()),
            ProtocolError::TlsError(s) => concat("TLS error: ", s.as_str()),
            ProtocolError::UnsupportedVersion(s) => concat("Protocol version not supported: ", s.as_str()),
            ProtocolError::NetworkError(s) => concat("Network error: ", s.as_str()),
        }
    }
}

/// Assertion-specific errors.
pub enum AssertionError {
    Failed { message: String },
    InvalidConfiguration(String),
    Timeout(String),
    TypeMismatch { expected: String, actual: String },
}

impl AssertionError {
    /// The message this error reads as.
    pub open spec fn text(&self) -> Seq<char> {
        match self {
            AssertionError::Failed { message } => "Assertion failed: "@ + message@,
            AssertionError::InvalidConfiguration(s) => "Invalid assertion configuration: "@ + s@,
            AssertionError::Timeout(s) => "Assertion timeout: "@ + s@,
            AssertionError::TypeMismatch { expected, actual } =>
                "Type mismatch in assertion: expected "@ + expected@ + ", got "@ + actual@,
        }
    }

    /// The message of this error.
    pub fn message(&self) -> (r: String)
        ensures
            r@ == self.text(),
    {
        match self {
            AssertionError::Failed { message } => concat("Assertion failed: ", message.as_str()),
            AssertionError::InvalidConfiguration(s) => concat("Invalid assertion configuration: ", s.as_str()),
            AssertionError::Timeout(s) => concat("Assertion timeout: ", s.as_str()),
            AssertionError::TypeMismatch { expected, actual } =>
                concat4("Type mismatch in assertion: expected ", expected.as_str(), ", got ", actual.as_str()),
        }
    }
}

/// Data source-specific errors.
pub enum DataSourceError {
    NotFound(String),
    ConnectionError(String),
    QueryError(String),
    TransformationFailed(String),
    InvalidFormat(String),
    FileError(String),
    ParseError(String),
    ConfigError(String),
    TransactionError(String),
}

impl DataSourceError {
    /// The message this error reads as.
    pub open spec fn text(&self) -> Seq<char> {
        match self {
            DataSourceError::NotFound(s) => "Data source not found: "@ + s@,
            DataSourceError::ConnectionError(s) => "Connection error: "@ + s@,
            DataSourceError::QueryError(s) => "Query error: "@ + s@,
            DataSourceError::TransformationFailed(s) => "Data transformation failed: "@ + s@,
            DataSourceError::InvalidFormat(s) => "Invalid data format: "@ + s@,
            DataSourceError::FileError(s) => "File error: "@ + s@,
            DataSourceError::ParseError(s) => "Parse error: "@ + s@,
            DataSourceError::ConfigError(s) => "Configuration error: "@ + s@,
            DataSourceError::TransactionError(s) => "Transaction error: "@ + s@,
        }
    }

    /// The message of this error.
    pub fn message(&self) -> (r: String)
        ensures
            r@ == self.text(),
    {
        match self {
            DataSourceError::NotFound(s) => concat("Data source not found: ", s.as_str()),
            DataSourceError::ConnectionError(s) => concat("Connection error: ", s.as_str()),
            DataSourceError::QueryError(s) => concat("Query error: ", s.as_str()),
            DataSourceError::TransformationFailed(s) => concat("Data transformation failed: ", s.as_str()),
            DataSourceError::InvalidFormat(s) => concat("Invalid data format: ", s.as_str()),
            DataSourceError::FileError(s) => concat("File error: ", s.as_str()),
            DataSourceError::ParseError(s) => concat("Parse error: ", s.as_str()),
            DataSourceError::ConfigError(s) => concat("Configuration error: ", s.as_str()),
            DataSourceError::TransactionError(s) => concat("Transaction error: ", s.as_str()),
        }
    }
}

/// Execution-specific errors.
pub enum ExecutionError {
    TestCaseFailed(String),
    UnsupportedStrategy(String),
    ResourceExhausted(String),
    Cancelled,
    NodeFailure(String),
}

impl ExecutionError {
    /// The message this error reads as.
    pub open spec fn text(&self) -> Seq<char> {
        match self {
            ExecutionError::TestCaseFailed(s) => "Test case execution failed: "@ + s@,
            ExecutionError::UnsupportedStrategy(s) => "Execution strategy not supported: "@ + s@,
            ExecutionError::ResourceExhausted(s) => "Resource exhausted: "@ + s@,
            ExecutionError::Cancelled => "Execution cancelled by user"@,
            ExecutionError::NodeFailure(s) => "Distributed execution node failure: "@ + s@,
        }
    }

    /// The message of this error.
    pub fn message(&self) -> (r: String)
        ensures
            r@ == self.text(),
    {
        match self {
            ExecutionError::TestCaseFailed(s) => concat("Test case execution failed: ", s.as_str()),
            ExecutionError::UnsupportedStrategy(s) => concat("Execution strategy not supported: ", s.as_str()),
            ExecutionError::ResourceExhausted(s) => concat("Resource exhausted: ", s.as_str()),
            ExecutionError::Cancelled => owned("Execution cancelled by user"),
            ExecutionError::NodeFailure(s) => concat("Distributed execution node failure: ", s.as_str()),
        }
    }
}

/// Metrics-specific errors.
pub enum MetricsError {
    CollectionFailed(String),
    RegistryError(String),
    ExportFailed(String),
    InvalidConfiguration(String),
    SystemMetricsUnavailable(String),
}

impl MetricsError {
    /// The message this error reads as.
    pub open spec fn text(&self) -> Seq<char> {
        match self {
            MetricsError::CollectionFailed(s) => "Metrics collection failed: "@ + s@,
            MetricsError::RegistryError(s) => "Prometheus registry error: "@ + s@,
            MetricsError::ExportFailed(s) => "Metrics export failed: "@ + s@,
            MetricsError::InvalidConfiguration(s) => "Invalid metrics configuration: "@ + s@,
            MetricsError::SystemMetricsUnavailable(s) => "System metrics unavailable: "@ + s@,
        }
    }

    /// The message of this error.
    pub fn message(&self) -> (r: String)
        ensures
            r@ == self.text(),
    {
        match self {
            MetricsError::CollectionFailed(s) => concat("Metrics collection failed: ", s.as_str()),
            MetricsError::RegistryError(s) => concat("Prometheus registry error: ", s.as_str()),
            MetricsError::ExportFailed(s) => concat("Metrics export failed: ", s.as_str()),
            MetricsError::InvalidConfiguration(s) => concat("Invalid metrics configuration: ", s.as_str()),
            MetricsError::SystemMetricsUnavailable(s) => concat("System metrics unavailable: ", s.as_str()),
        }
    }
}

/// Test case management errors.
pub enum TestCaseError {
    NotFound(String),
    AlreadyExists(String),
    ValidationError(String),
    StorageError(String),
    SerializationError(String),
    ImportError(String),
    ExportError(String),
    TemplateError(String),
    SearchError(String),
}

impl TestCaseError {
    /// The message this error reads as.
    pub open spec fn text(&self) -> Seq<char> {
        match self {
            TestCaseError::NotFound(s) => "Test case not found: "@ + s@,
            TestCaseError::AlreadyExists(s) => "Test case already exists: "@ + s@,
            TestCaseError::ValidationError(s) => "Validation error: "@ + s@,
            TestCaseError::StorageError(s) => "Storage error: "@ + s@,
            TestCaseError::SerializationError(s) => "Serialization error: "@ + s@,
            TestCaseError::ImportError(s) => "Import error: "@ + s@,
            TestCaseError::ExportError(s) => "Export error: "@ + s@,
            TestCaseError::TemplateError(s) => "Template error: "@ + s@,
            TestCaseError::SearchError(s) => "Search error: "@ + s@,
        }
    }

    /// The message of this error.
    pub fn message(&self) -> (r: String)
        ensures
            r@ == self.text(),
    {
        match self {
            TestCaseError::NotFound(s) => concat("Test case not found: ", s.as_str()),
            TestCaseError::AlreadyExists(s) => concat("Test case already exists: ", s.as_str()),
            TestCaseError::ValidationError(s) => concat("Validation error: ", s.as_str()),
            TestCaseError::StorageError(s) => concat("Storage error: ", s.as_str()),
            TestCaseError::SerializationError(s) => concat("Serialization error: ", s.as_str()),
            TestCaseError::ImportError(s) => concat("Import error: ", s.as_str()),
            TestCaseError::ExportError(s) => concat("Export error: ", s.as_str()),
            TestCaseError::TemplateError(s) => concat("Template error: ", s.as_str()),
            TestCaseError::SearchError(s) => concat("Search error: ", s.as_str()),
        }
    }
}

} // verus!
