//! Limits of the broker.
use vstd::prelude::*;

verus! {

pub const SERVER_RECEIVE_MAXIMUM: u16 = 1024;
pub const SERVER_MAXIMUM_PACKET_SIZE: u32 = 16_777_216;
pub const SERVER_TOPIC_ALIAS_MAXIMUM: u16 = 1024;
pub const MAX_SUBSCRIPTIONS_PER_CLIENT: usize = 1024;
pub const MAX_OFFLINE_QUEUE_LEN: usize = 1024;
pub const MAX_RETAINED_MESSAGES: usize = 1024;
pub const MAX_RETAINED_PAYLOAD_BYTES: usize = 16_777_216;

/// Limits of the broker.
#[derive(Clone, Copy, Debug, PartialEq, Eq, Structural)]
pub struct BrokerConfig {
    pub server_receive_maximum: u16,
    pub server_maximum_packet_size: u32,
    pub server_topic_alias_maximum: u16,
    pub max_subscriptions_per_client: usize,
    pub max_offline_queue_len: usize,
    pub max_retained_messages: usize,
    pub max_retained_payload_bytes: usize,
    pub inflight_retransmit_interval_ms: u64,
}

impl Default for BrokerConfig {
    fn default() -> (result: Self)
        ensures
            result == (BrokerConfig {
                server_receive_maximum: SERVER_RECEIVE_MAXIMUM,
                server_maximum_packet_size: SERVER_MAXIMUM_PACKET_SIZE,
                server_topic_alias_maximum: SERVER_TOPIC_ALIAS_MAXIMUM,
                max_subscriptions_per_client: MAX_SUBSCRIPTIONS_PER_CLIENT,
                max_offline_queue_len: MAX_OFFLINE_QUEUE_LEN,
                max_retained_messages: MAX_RETAINED_MESSAGES,
                max_retained_payload_bytes: MAX_RETAINED_PAYLOAD_BYTES,
                inflight_retransmit_interval_ms: 0,
            }),
    {
        BrokerConfig {
            server_receive_maximum: SERVER_RECEIVE_MAXIMUM,
            server_maximum_packet_size: SERVER_MAXIMUM_PACKET_SIZE,
            server_topic_alias_maximum: SERVER_TOPIC_ALIAS_MAXIMUM,
            max_subscriptions_per_client: MAX_SUBSCRIPTIONS_PER_CLIENT,
            max_offline_queue_len: MAX_OFFLINE_QUEUE_LEN,
            max_retained_messages: MAX_RETAINED_MESSAGES,
            max_retained_payload_bytes: MAX_RETAINED_PAYLOAD_BYTES,
            inflight_retransmit_interval_ms: 0,
        }
    }
}

} // verus!
