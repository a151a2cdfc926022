//! Telemetry shaping for Boson's ops signals: label allowlists, cardinality
//! control, secret redaction and event payload filtering, with their proofs.

pub mod text;
pub mod hashing;
pub mod sanitize;
pub mod json;
pub mod ops_log;
pub mod sink_forward;
pub mod install;
