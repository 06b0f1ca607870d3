//! A broker core split into shards, with a log of its own.
pub mod routing;
pub mod durable_log;
pub mod log_laws;
pub mod cut_laws;
pub mod durable_state;
pub mod event_laws;
pub mod session_table;
pub mod shard;
pub mod broker_core;
