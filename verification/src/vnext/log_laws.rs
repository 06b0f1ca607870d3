//! What is written to the event log reads back.
use vstd::prelude::*;
use vstd::utf8::encode_utf8;
use vstd::utf8::encode_utf8_decode_utf8;
use vstd::utf8::encode_utf8_valid_utf8;

use crate::storage::bytes::le;
use crate::storage::bytes::opt_bytes;
use crate::storage::bytes::opt_text_bytes;
use crate::storage::bytes::opt_text_fits;
use crate::storage::bytes::opt_u32_nat;
use crate::storage::bytes::opt_u64_nat;
use crate::storage::bytes::take_back;
use crate::storage::bytes::text_bytes;
use crate::storage::bytes::text_fits;
use crate::storage::bytes::u16_back;
use crate::storage::bytes::u32_back;
use crate::storage::bytes::u64_back;
use crate::storage::bytes::u8_back;
use crate::vnext::durable_log::EVENT_VERSION;
use crate::vnext::durable_log::EventView;
use crate::vnext::durable_log::InflightDirection;
use crate::vnext::durable_log::direction_number;
use crate::vnext::durable_log::event_body;
use crate::vnext::durable_log::event_bytes;
use crate::vnext::durable_log::event_fits;
use crate::vnext::durable_log::event_kind;
use crate::vnext::durable_log::event_of;
use crate::vnext::durable_log::opt_u16_nat;
use crate::vnext::durable_log::wal_body;
use crate::vnext::durable_log::wal_direction;
use crate::vnext::durable_log::wal_flag;
use crate::vnext::durable_log::wal_inflight_ack;
use crate::vnext::durable_log::wal_inflight_upsert;
use crate::vnext::durable_log::wal_offline_ack;
use crate::vnext::durable_log::wal_offline_enqueue;
use crate::vnext::durable_log::wal_opt_text;
use crate::vnext::durable_log::wal_opt_u16;
use crate::vnext::durable_log::wal_opt_u32;
use crate::vnext::durable_log::wal_opt_u64;
use crate::vnext::durable_log::wal_retain_delete;
use crate::vnext::durable_log::wal_retain_upsert;
use crate::vnext::durable_log::wal_session_upsert;
use crate::vnext::durable_log::wal_subscription_delete;
use crate::vnext::durable_log::wal_subscription_upsert;
use crate::vnext::durable_log::wal_text;

verus! {

proof fn wal_text_back(text: Seq<char>, tail: Seq<u8>)
    requires
        text_fits(text),
    ensures
        wal_text(text_bytes(text) + tail) == Ok::<(Seq<char>, Seq<u8>), Seq<char>>((text, tail)),
{
    reveal(wal_text);
    let block = encode_utf8(text);
    encode_utf8_decode_utf8(text);
    encode_utf8_valid_utf8(text);
    assert(text_bytes(text) + tail =~= le(block.len(), 4) + (block + tail));
    u32_back(block.len() as u32, block + tail);
    take_back(block, tail);
}

proof fn wal_flag_back(byte: u8, tail: Seq<u8>)
    ensures
        wal_flag(seq![byte] + tail) == Ok::<(bool, Seq<u8>), Seq<char>>((byte != 0, tail)),
{
    reveal(wal_flag);
    u8_back(byte, tail);
}

proof fn wal_opt_text_back(text: Option<Seq<char>>, tail: Seq<u8>)
    requires
        opt_text_fits(text),
    ensures
        wal_opt_text(opt_text_bytes(text) + tail) == Ok::<(Option<Seq<char>>, Seq<u8>), Seq<char>>(
            (text, tail),
        ),
{
    reveal(wal_opt_text);
    match text {
        Some(text) => {
            let rest = text_bytes(text) + tail;
            assert(opt_text_bytes(Some(text)) + tail =~= seq![1u8] + rest);
            wal_flag_back(1, rest);
            wal_text_back(text, tail);
        },
        None => {
            wal_flag_back(0, tail);
        },
    }
}

proof fn wal_opt_u16_back(value: Option<u16>, tail: Seq<u8>)
    ensures
        wal_opt_u16(opt_bytes(opt_u16_nat(value), 2) + tail) == Ok::<
            (Option<u16>, Seq<u8>),
            Seq<char>,
        >((value, tail)),
{
    reveal(wal_opt_u16);
    match value {
        Some(number) => {
            let rest = le(number as nat, 2) + tail;
            assert(opt_bytes(opt_u16_nat(value), 2) + tail =~= seq![1u8] + rest);
            wal_flag_back(1, rest);
            u16_back(number, tail);
        },
        None => {
            wal_flag_back(0, tail);
        },
    }
}

proof fn wal_opt_u32_back(value: Option<u32>, tail: Seq<u8>)
    ensures
        wal_opt_u32(opt_bytes(opt_u32_nat(value), 4) + tail) == Ok::<
            (Option<u32>, Seq<u8>),
            Seq<char>,
        >((value, tail)),
{
    reveal(wal_opt_u32);
    match value {
        Some(number) => {
            let rest = le(number as nat, 4) + tail;
            assert(opt_bytes(opt_u32_nat(value), 4) + tail =~= seq![1u8] + rest);
            wal_flag_back(1, rest);
            u32_back(number, tail);
        },
        None => {
            wal_flag_back(0, tail);
        },
    }
}

proof fn wal_opt_u64_back(value: Option<u64>, tail: Seq<u8>)
    ensures
        wal_opt_u64(opt_bytes(opt_u64_nat(value), 8) + tail) == Ok::<
            (Option<u64>, Seq<u8>),
            Seq<char>,
        >((value, tail)),
{
    reveal(wal_opt_u64);
    match value {
        Some(number) => {
            let rest = le(number as nat, 8) + tail;
            assert(opt_bytes(opt_u64_nat(value), 8) + tail =~= seq![1u8] + rest);
            wal_flag_back(1, rest);
            u64_back(number, tail);
        },
        None => {
            wal_flag_back(0, tail);
        },
    }
}

proof fn wal_direction_back(direction: InflightDirection, tail: Seq<u8>)
    ensures
        wal_direction(seq![direction_number(direction)] + tail) == Ok::<
            (InflightDirection, Seq<u8>),
            Seq<char>,
        >((direction, tail)),
{
    reveal(wal_direction);
    u8_back(direction_number(direction), tail);
}

proof fn session_upsert_back(event: EventView)
    requires
        event is SessionUpsert,
        event_fits(event),
    ensures
        wal_session_upsert(event_body(event)) == Ok::<(EventView, Seq<u8>), Seq<char>>(
            (event, Seq::empty()),
        ),
{
    reveal(wal_session_upsert);
    if let EventView::SessionUpsert {
        client_id,
        session_expiry_interval,
        expires_at_ms,
        next_packet_id,
    } = event {
        let none = Seq::<u8>::empty();
        let b3 = le(next_packet_id as nat, 2);
        assert(b3 =~= b3 + none);
        let b2 = opt_bytes(opt_u64_nat(expires_at_ms), 8) + b3;
        let b1 = le(session_expiry_interval as nat, 4) + b2;
        let b0 = text_bytes(client_id) + b1;
        u16_back(next_packet_id, none);
        wal_opt_u64_back(expires_at_ms, b3);
        u32_back(session_expiry_interval, b2);
        wal_text_back(client_id, b1);
    }
}

proof fn subscription_upsert_back(event: EventView)
    requires
        event is SubscriptionUpsert,
        event_fits(event),
    ensures
        wal_subscription_upsert(event_body(event)) == Ok::<(EventView, Seq<u8>), Seq<char>>(
            (event, Seq::empty()),
        ),
{
    reveal(wal_subscription_upsert);
    if let EventView::SubscriptionUpsert {
        client_id,
        filter,
        match_filter,
        shared_group,
        subscription_identifier,
    } = event {
        let none = Seq::<u8>::empty();
        let b4 = opt_bytes(opt_u32_nat(subscription_identifier), 4);
        assert(b4 =~= b4 + none);
        let b3 = opt_text_bytes(shared_group) + b4;
        let b2 = text_bytes(match_filter) + b3;
        let b1 = text_bytes(filter) + b2;
        let b0 = text_bytes(client_id) + b1;
        wal_opt_u32_back(subscription_identifier, none);
        wal_opt_text_back(shared_group, b4);
        wal_text_back(match_filter, b3);
        wal_text_back(filter, b2);
        wal_text_back(client_id, b1);
    }
}

proof fn subscription_delete_back(event: EventView)
    requires
        event is SubscriptionDelete,
        event_fits(event),
    ensures
        wal_subscription_delete(event_body(event)) == Ok::<(EventView, Seq<u8>), Seq<char>>(
            (event, Seq::empty()),
        ),
{
    reveal(wal_subscription_delete);
    if let EventView::SubscriptionDelete { client_id, filter } = event {
        let none = Seq::<u8>::empty();
        let b1 = text_bytes(filter);
        assert(b1 =~= b1 + none);
        let b0 = text_bytes(client_id) + b1;
        wal_text_back(filter, none);
        wal_text_back(client_id, b1);
    }
}

proof fn retain_upsert_back(event: EventView)
    requires
        event is RetainUpsert,
        event_fits(event),
    ensures
        wal_retain_upsert(event_body(event)) == Ok::<(EventView, Seq<u8>), Seq<char>>(
            (event, Seq::empty()),
        ),
{
    reveal(wal_retain_upsert);
    if let EventView::RetainUpsert { topic_name, qos, payload_len, expires_at_ms } = event {
        let none = Seq::<u8>::empty();
        let b3 = opt_bytes(opt_u64_nat(expires_at_ms), 8);
        assert(b3 =~= b3 + none);
        let b2 = le(payload_len as nat, 4) + b3;
        let b1 = seq![qos] + b2;
        let b0 = text_bytes(topic_name) + b1;
        wal_opt_u64_back(expires_at_ms, none);
        u32_back(payload_len, b3);
        u8_back(qos, b2);
        wal_text_back(topic_name, b1);
    }
}

proof fn retain_delete_back(event: EventView)
    requires
        event is RetainDelete,
        event_fits(event),
    ensures
        wal_retain_delete(event_body(event)) == Ok::<(EventView, Seq<u8>), Seq<char>>(
            (event, Seq::empty()),
        ),
{
    reveal(wal_retain_delete);
    if let EventView::RetainDelete { topic_name } = event {
        let none = Seq::<u8>::empty();
        let b0 = text_bytes(topic_name);
        assert(b0 =~= b0 + none);
        wal_text_back(topic_name, none);
    }
}

proof fn offline_enqueue_back(event: EventView)
    requires
        event is OfflineEnqueue,
        event_fits(event),
    ensures
        wal_offline_enqueue(event_body(event)) == Ok::<(EventView, Seq<u8>), Seq<char>>(
            (event, Seq::empty()),
        ),
{
    reveal(wal_offline_enqueue);
    if let EventView::OfflineEnqueue {
        client_id,
        sequence,
        packet_id,
        payload_len,
        expires_at_ms,
    } = event {
        let none = Seq::<u8>::empty();
        let b4 = opt_bytes(opt_u64_nat(expires_at_ms), 8);
        assert(b4 =~= b4 + none);
        let b3 = le(payload_len as nat, 4) + b4;
        let b2 = opt_bytes(opt_u16_nat(packet_id), 2) + b3;
        let b1 = le(sequence as nat, 8) + b2;
        let b0 = text_bytes(client_id) + b1;
        wal_opt_u64_back(expires_at_ms, none);
        u32_back(payload_len, b4);
        wal_opt_u16_back(packet_id, b3);
        u64_back(sequence, b2);
        wal_text_back(client_id, b1);
    }
}

proof fn offline_ack_back(event: EventView)
    requires
        event is OfflineAck,
        event_fits(event),
    ensures
        wal_offline_ack(event_body(event)) == Ok::<(EventView, Seq<u8>), Seq<char>>(
            (event, Seq::empty()),
        ),
{
    reveal(wal_offline_ack);
    if let EventView::OfflineAck { client_id, sequence } = event {
        let none = Seq::<u8>::empty();
        let b1 = le(sequence as nat, 8);
        assert(b1 =~= b1 + none);
        let b0 = text_bytes(client_id) + b1;
        u64_back(sequence, none);
        wal_text_back(client_id, b1);
    }
}

proof fn inflight_upsert_back(event: EventView)
    requires
        event is InflightUpsert,
        event_fits(event),
    ensures
        wal_inflight_upsert(event_body(event)) == Ok::<(EventView, Seq<u8>), Seq<char>>(
            (event, Seq::empty()),
        ),
{
    reveal(wal_inflight_upsert);
    if let EventView::InflightUpsert {
        client_id,
        packet_id,
        qos,
        direction,
        expires_at_ms,
    } = event {
        let none = Seq::<u8>::empty();
        let b4 = opt_bytes(opt_u64_nat(expires_at_ms), 8);
        assert(b4 =~= b4 + none);
        let b3 = seq![direction_number(direction)] + b4;
        let b2 = seq![qos] + b3;
        let b1 = le(packet_id as nat, 2) + b2;
        let b0 = text_bytes(client_id) + b1;
        wal_opt_u64_back(expires_at_ms, none);
        wal_direction_back(direction, b4);
        u8_back(qos, b3);
        u16_back(packet_id, b2);
        wal_text_back(client_id, b1);
    }
}

proof fn inflight_ack_back(event: EventView)
    requires
        event is InflightAck,
        event_fits(event),
    ensures
        wal_inflight_ack(event_body(event)) == Ok::<(EventView, Seq<u8>), Seq<char>>(
            (event, Seq::empty()),
        ),
{
    reveal(wal_inflight_ack);
    if let EventView::InflightAck { client_id, packet_id, direction } = event {
        let none = Seq::<u8>::empty();
        let b2 = seq![direction_number(direction)];
        assert(b2 =~= b2 + none);
        let b1 = le(packet_id as nat, 2) + b2;
        let b0 = text_bytes(client_id) + b1;
        wal_direction_back(direction, none);
        u16_back(packet_id, b2);
        wal_text_back(client_id, b1);
    }
}

/// What is behind the version and kind of an event that was written reads back as the event, and
/// nothing is left.
pub proof fn written_body_reads_back(event: EventView)
    requires
        event_fits(event),
    ensures
        wal_body(event_kind(event), event_body(event)) == Ok::<
            (EventView, Seq<u8>),
            Seq<char>,
        >((event, Seq::empty())),
{
    match event {
        EventView::SessionUpsert { .. } => {
            session_upsert_back(event);
        },
        EventView::SubscriptionUpsert { .. } => {
            subscription_upsert_back(event);
        },
        EventView::SubscriptionDelete { .. } => {
            subscription_delete_back(event);
        },
        EventView::RetainUpsert { .. } => {
            retain_upsert_back(event);
        },
        EventView::RetainDelete { .. } => {
            retain_delete_back(event);
        },
        EventView::OfflineEnqueue { .. } => {
            offline_enqueue_back(event);
        },
        EventView::OfflineAck { .. } => {
            offline_ack_back(event);
        },
        EventView::InflightUpsert { .. } => {
            inflight_upsert_back(event);
        },
        EventView::InflightAck { .. } => {
            inflight_ack_back(event);
        },
    }
}

/// An event that was written reads back as it was.
pub proof fn written_event_reads_back(event: EventView)
    requires
        event_fits(event),
    ensures
        event_of(event_bytes(event)) == Ok::<EventView, Seq<char>>(event),
{
    let body = event_body(event);
    let kind = event_kind(event);
    u8_back(EVENT_VERSION, seq![kind] + body);
    u8_back(kind, body);
    written_body_reads_back(event);
}

} // verus!
