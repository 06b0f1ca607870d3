//! Pulse: the verified core of an MQTT v5 broker.
use vstd::prelude::*;

pub mod value;
pub mod text;
pub mod numbers;
pub mod ordered_map;
pub mod protocol;
pub mod packet;
pub mod netty;
pub mod mqtt_codec;
pub mod config;
pub mod reason;
pub mod write;
pub mod message;
pub mod subscription;
pub mod retained_message;
pub mod retained_trie;
pub mod retained_store;
pub mod session;
pub mod inflight;
pub mod delivery;
pub mod routing;
pub mod auth;
pub mod connection;
pub mod broker;
pub mod gauges;
pub mod flush;
pub mod handler;
pub mod websocket;
pub mod topic_laws;
pub mod quality_laws;
pub mod copy_laws;
pub mod publication_laws;
pub mod will_laws;
pub mod retained_copy_laws;
pub mod entrance_laws;
pub mod acknowledgement_laws;
pub mod handling_laws;
pub mod subscribing_laws;
pub mod permission_laws;
pub mod upkeep_laws;
pub mod edge_laws;
pub mod text_laws;
pub mod session_laws;
pub mod state_laws;
pub mod operation_laws;
pub mod count_laws;
pub mod keeping_laws;
pub mod delivery_laws;
pub mod service_laws;
pub mod reconnect_laws;
pub mod subscription_laws;
pub mod retained_laws;
pub mod keep_alive_laws;
pub mod shutdown_laws;
pub mod handler_laws;
pub mod storage;
pub mod vnext;

verus! {

} // verus!
