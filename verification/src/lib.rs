//! Verified core of an API test runner: authentication chains, event
//! filtering and storage, transactional event processing, task distribution,
//! dependency ordering of test cases, data parsing and transformation, JSON
//! comparison, configuration diffing and alert lifecycles.

pub mod text;
pub mod json;
pub mod strmap;
pub mod auth_plugin;
pub mod auth_chain_executor;
pub mod cli;
pub mod error;
pub mod event;
pub mod event_persistence;
pub mod event_transaction;
pub mod data_source;
pub mod pattern;
pub mod data_pipeline;
pub mod configuration;
pub mod config_manager;
pub mod alerting;
pub mod distributed_execution;
pub mod json_assertions;
pub mod execution;
pub mod basic_auth_plugin;
pub mod jwt_auth_plugin;
pub mod plugin;
pub mod cross_system_validations;
pub mod test_case_manager;
pub mod import_export;
pub mod application;
pub mod metrics;
pub mod metrics_history;
pub mod interactive_execution;

use vstd::prelude::*;

verus! {

/// Initializes the library. There is nothing to set up, so this always succeeds.
pub fn init() -> (r: Result<(), ()>)
    ensures
        r is Ok,
{
    Ok(())
}

} // verus!
