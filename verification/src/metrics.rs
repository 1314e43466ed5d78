//! Settings of metrics collection.

use vstd::prelude::*;
use crate::text::owned;

verus! {

/// How metrics are collected. Durations are in seconds.
pub struct MetricsConfig {
    pub enabled: bool,
    pub collection_interval_secs: u64,
    pub prometheus_endpoint: Option<String>,
    pub resource_monitoring: bool,
    pub detailed_request_metrics: bool,
    pub retention_period_secs: u64,
}

impl MetricsConfig {
    /// Enabled, every 10 s, served at `/metrics`, with resource and detailed
    /// request metrics, kept for a day.
    pub fn default_config() -> (r: Self)
        ensures
            r.enabled,
            r.collection_interval_secs == 10,
            r.prometheus_endpoint matches Some(e) && e@ == "/metrics"@,
            r.resource_monitoring,
            r.detailed_request_metrics,
            r.retention_period_secs == 86400,
    {
        MetricsConfig {
            enabled: true,
            collection_interval_secs: 10,
            prometheus_endpoint: Some(owned("/metrics")),
            resource_monitoring: true,
            detailed_request_metrics: true,
            retention_period_secs: 24 * 60 * 60,
        }
    }
}

} // verus!
