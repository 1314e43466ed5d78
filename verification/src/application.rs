//! The application's health report.

use vstd::prelude::*;

verus! {

/// Health of the application.
pub struct HealthStatus {
    pub is_initialized: bool,
    pub is_shutdown: bool,
    pub plugin_count: usize,
    pub active_connections: usize,
    pub memory_usage: u64,
}

/// Memory in use, in bytes; no monitor is attached, so nothing is reported.
pub fn get_memory_usage() -> (r: u64)
    ensures
        r == 0,
{
    0
}

/// The health report for an application in the given lifecycle state: no
/// plugins or connections are tracked yet.
pub fn health_status(is_initialized: bool, is_shutdown: bool) -> (r: HealthStatus)
    ensures
        r.is_initialized == is_initialized,
        r.is_shutdown == is_shutdown,
        r.plugin_count == 0,
        r.active_connections == 0,
        r.memory_usage == 0,
{
    HealthStatus { is_initialized, is_shutdown, plugin_count: 0, active_connections: 0, memory_usage: get_memory_usage() }
}

} // verus!
