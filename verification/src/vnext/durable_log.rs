//! A log of what happens to sessions, subscriptions and publications.
use vstd::prelude::*;
use vstd::utf8::decode_utf8;
use vstd::utf8::valid_utf8;

use crate::numbers::decimal;
use crate::numbers::decimal_text;
use crate::ordered_map::OrderedKey;
use crate::storage::bytes::Parse;
use crate::storage::bytes::Reader;
use crate::storage::bytes::Writer;
use crate::storage::bytes::le;
use crate::storage::bytes::opt_bytes;
use crate::storage::bytes::opt_text_bytes;
use crate::storage::bytes::opt_text_fits;
use crate::storage::bytes::opt_u32_nat;
use crate::storage::bytes::opt_u64_nat;
use crate::storage::bytes::parse_take;
use crate::storage::bytes::parse_u16;
use crate::storage::bytes::parse_u32;
use crate::storage::bytes::parse_u64;
use crate::storage::bytes::parse_u8;
use crate::storage::bytes::text_bytes;
use crate::storage::bytes::text_fits;
use crate::storage::frames::reported;
use crate::text::text_concat;
use crate::text::utf8_text;
use crate::value::Value;

verus! {

/// How the log starts.
pub const MAGIC: [u8; 7] = [0x50, 0x56, 0x57, 0x41, 0x4c, 0x31, 0x0a];

/// The version of the events.
pub const EVENT_VERSION: u8 = 1;

/// Which way a publication in flight goes.
#[derive(Clone, Copy, Debug, PartialEq, Eq, Structural)]
pub enum InflightDirection {
    Inbound,
    Outbound,
}

impl DeepView for InflightDirection {
    type V = InflightDirection;

    open spec fn deep_view(&self) -> InflightDirection {
        *self
    }
}

impl Value for InflightDirection {
    fn dup(&self) -> (copy: Self) {
        *self
    }

    fn same(&self, other: &Self) -> (result: bool) {
        *self == *other
    }
}

impl OrderedKey for InflightDirection {
    open spec fn before(a: InflightDirection, b: InflightDirection) -> bool {
        a == InflightDirection::Inbound && b == InflightDirection::Outbound
    }

    proof fn before_irreflexive(a: InflightDirection) {
    }

    proof fn before_transitive(a: InflightDirection, b: InflightDirection, c: InflightDirection) {
    }

    proof fn before_total(a: InflightDirection, b: InflightDirection) {
    }

    fn is_before(&self, other: &Self) -> (result: bool) {
        *self == InflightDirection::Inbound && *other == InflightDirection::Outbound
    }
}

/// Something that happens.
#[derive(Debug, PartialEq)]
pub enum DurableLogEvent {
    SessionUpsert {
        client_id: String,
        session_expiry_interval: u32,
        expires_at_ms: Option<u64>,
        next_packet_id: u16,
    },
    SubscriptionUpsert {
        client_id: String,
        filter: String,
        match_filter: String,
        shared_group: Option<String>,
        subscription_identifier: Option<u32>,
    },
    SubscriptionDelete { client_id: String, filter: String },
    RetainUpsert { topic_name: String, qos: u8, payload_len: u32, expires_at_ms: Option<u64> },
    RetainDelete { topic_name: String },
    OfflineEnqueue {
        client_id: String,
        sequence: u64,
        packet_id: Option<u16>,
        payload_len: u32,
        expires_at_ms: Option<u64>,
    },
    OfflineAck { client_id: String, sequence: u64 },
    InflightUpsert {
        client_id: String,
        packet_id: u16,
        qos: u8,
        direction: InflightDirection,
        expires_at_ms: Option<u64>,
    },
    InflightAck { client_id: String, packet_id: u16, direction: InflightDirection },
}

/// What a `DurableLogEvent` stands for.
pub enum EventView {
    SessionUpsert {
        client_id: Seq<char>,
        session_expiry_interval: u32,
        expires_at_ms: Option<u64>,
        next_packet_id: u16,
    },
    SubscriptionUpsert {
        client_id: Seq<char>,
        filter: Seq<char>,
        match_filter: Seq<char>,
        shared_group: Option<Seq<char>>,
        subscription_identifier: Option<u32>,
    },
    SubscriptionDelete { client_id: Seq<char>, filter: Seq<char> },
    RetainUpsert { topic_name: Seq<char>, qos: u8, payload_len: u32, expires_at_ms: Option<u64> },
    RetainDelete { topic_name: Seq<char> },
    OfflineEnqueue {
        client_id: Seq<char>,
        sequence: u64,
        packet_id: Option<u16>,
        payload_len: u32,
        expires_at_ms: Option<u64>,
    },
    OfflineAck { client_id: Seq<char>, sequence: u64 },
    InflightUpsert {
        client_id: Seq<char>,
        packet_id: u16,
        qos: u8,
        direction: InflightDirection,
        expires_at_ms: Option<u64>,
    },
    InflightAck { client_id: Seq<char>, packet_id: u16, direction: InflightDirection },
}

impl DeepView for DurableLogEvent {
    type V = EventView;

    open spec fn deep_view(&self) -> EventView {
        match *self {
            DurableLogEvent::SessionUpsert {
                client_id,
                session_expiry_interval,
                expires_at_ms,
                next_packet_id,
            } => EventView::SessionUpsert {
                client_id: client_id@,
                session_expiry_interval,
                expires_at_ms,
                next_packet_id,
            },
            DurableLogEvent::SubscriptionUpsert {
                client_id,
                filter,
                match_filter,
                shared_group,
                subscription_identifier,
            } => EventView::SubscriptionUpsert {
                client_id: client_id@,
                filter: filter@,
                match_filter: match_filter@,
                shared_group: shared_group.deep_view(),
                subscription_identifier,
            },
            DurableLogEvent::SubscriptionDelete {
                client_id,
                filter,
            } => EventView::SubscriptionDelete {
                client_id: client_id@,
                filter: filter@,
            },
            DurableLogEvent::RetainUpsert {
                topic_name,
                qos,
                payload_len,
                expires_at_ms,
            } => EventView::RetainUpsert {
                topic_name: topic_name@,
                qos,
                payload_len,
                expires_at_ms,
            },
            DurableLogEvent::RetainDelete { topic_name } => EventView::RetainDelete {
                topic_name: topic_name@,
            },
            DurableLogEvent::OfflineEnqueue {
                client_id,
                sequence,
                packet_id,
                payload_len,
                expires_at_ms,
            } => EventView::OfflineEnqueue {
                client_id: client_id@,
                sequence,
                packet_id,
                payload_len,
                expires_at_ms,
            },
            DurableLogEvent::OfflineAck { client_id, sequence } => EventView::OfflineAck {
                client_id: client_id@,
                sequence,
            },
            DurableLogEvent::InflightUpsert {
                client_id,
                packet_id,
                qos,
                direction,
                expires_at_ms,
            } => EventView::InflightUpsert {
                client_id: client_id@,
                packet_id,
                qos,
                direction,
                expires_at_ms,
            },
            DurableLogEvent::InflightAck {
                client_id,
                packet_id,
                direction,
            } => EventView::InflightAck {
                client_id: client_id@,
                packet_id,
                direction,
            },
        }
    }
}

/// The number of a direction.
pub open spec fn direction_number(direction: InflightDirection) -> u8 {
    match direction {
        InflightDirection::Inbound => 1,
        InflightDirection::Outbound => 2,
    }
}

/// The number of a direction.
fn direction_code(direction: InflightDirection) -> (result: u8)
    ensures
        result == direction_number(direction),
{
    match direction {
        InflightDirection::Inbound => 1,
        InflightDirection::Outbound => 2,
    }
}

/// A number that may be absent, as a natural number.
pub open spec fn opt_u16_nat(value: Option<u16>) -> Option<nat> {
    match value {
        Some(value) => Some(value as nat),
        None => None,
    }
}

/// The texts of an event are short enough for their lengths to be written.
pub open spec fn event_fits(event: EventView) -> bool {
    match event {
        EventView::SessionUpsert { client_id, .. } => text_fits(client_id),
        EventView::SubscriptionUpsert { client_id, filter, match_filter, shared_group, .. } => {
            text_fits(client_id)
                && text_fits(filter)
                && text_fits(match_filter)
                && opt_text_fits(shared_group)
        },
        EventView::SubscriptionDelete { client_id, filter } => {
            text_fits(client_id) && text_fits(filter)
        },
        EventView::RetainUpsert { topic_name, .. } => text_fits(topic_name),
        EventView::RetainDelete { topic_name } => text_fits(topic_name),
        EventView::OfflineEnqueue { client_id, .. } => text_fits(client_id),
        EventView::OfflineAck { client_id, .. } => text_fits(client_id),
        EventView::InflightUpsert { client_id, .. } => text_fits(client_id),
        EventView::InflightAck { client_id, .. } => text_fits(client_id),
    }
}

/// What is written of an event behind its version and its kind.
pub open spec fn event_body(event: EventView) -> Seq<u8> {
    match event {
        EventView::SessionUpsert {
            client_id,
            session_expiry_interval,
            expires_at_ms,
            next_packet_id,
        } => text_bytes(client_id) + (
            le(session_expiry_interval as nat, 4) + (
                opt_bytes(opt_u64_nat(expires_at_ms), 8) + le(next_packet_id as nat, 2)
            )
        ),
        EventView::SubscriptionUpsert {
            client_id,
            filter,
            match_filter,
            shared_group,
            subscription_identifier,
        } => text_bytes(client_id) + (
            text_bytes(filter) + (
                text_bytes(match_filter) + (
                    opt_text_bytes(shared_group) + (
                        opt_bytes(opt_u32_nat(subscription_identifier), 4)
                    )
                )
            )
        ),
        EventView::SubscriptionDelete { client_id, filter } => {
            text_bytes(client_id) + text_bytes(filter)
        },
        EventView::RetainUpsert { topic_name, qos, payload_len, expires_at_ms } => {
            text_bytes(topic_name) + (
                seq![qos] + (le(payload_len as nat, 4) + opt_bytes(opt_u64_nat(expires_at_ms), 8))
            )
        },
        EventView::RetainDelete { topic_name } => text_bytes(topic_name),
        EventView::OfflineEnqueue {
            client_id,
            sequence,
            packet_id,
            payload_len,
            expires_at_ms,
        } => text_bytes(client_id) + (
            le(sequence as nat, 8) + (
                opt_bytes(opt_u16_nat(packet_id), 2) + (
                    le(payload_len as nat, 4) + opt_bytes(opt_u64_nat(expires_at_ms), 8)
                )
            )
        ),
        EventView::OfflineAck { client_id, sequence } => {
            text_bytes(client_id) + le(sequence as nat, 8)
        },
        EventView::InflightUpsert { client_id, packet_id, qos, direction, expires_at_ms } => {
            text_bytes(client_id) + (
                le(packet_id as nat, 2) + (
                    seq![qos] + (
                        seq![direction_number(direction)] + (
                            opt_bytes(opt_u64_nat(expires_at_ms), 8)
                        )
                    )
                )
            )
        },
        EventView::InflightAck { client_id, packet_id, direction } => {
            text_bytes(client_id) + (le(packet_id as nat, 2) + seq![direction_number(direction)])
        },
    }
}

/// The kind of an event.
pub open spec fn event_kind(event: EventView) -> u8 {
    match event {
        EventView::SessionUpsert { .. } => 1,
        EventView::SubscriptionUpsert { .. } => 2,
        EventView::SubscriptionDelete { .. } => 3,
        EventView::RetainUpsert { .. } => 4,
        EventView::RetainDelete { .. } => 5,
        EventView::OfflineEnqueue { .. } => 6,
        EventView::OfflineAck { .. } => 7,
        EventView::InflightUpsert { .. } => 8,
        EventView::InflightAck { .. } => 9,
    }
}

/// The bytes of an event.
pub open spec fn event_bytes(event: EventView) -> Seq<u8> {
    seq![EVENT_VERSION] + (seq![event_kind(event)] + event_body(event))
}

/// The bytes of an event, where its texts are short enough.
pub fn encode_event(event: &DurableLogEvent) -> (result: Option<Vec<u8>>)
    ensures
        match result {
            Some(bytes) => event_fits(event.deep_view()) && bytes@ == event_bytes(
                event.deep_view(),
            ),
            None => !event_fits(event.deep_view()),
        },
{
    let mut writer: Writer = Writer::new();
    writer.u8(EVENT_VERSION);
    let written: bool = match event {
        DurableLogEvent::SessionUpsert {
            client_id,
            session_expiry_interval,
            expires_at_ms,
            next_packet_id,
        } => {
            writer.u8(1);
            write_session_upsert(
                &mut writer,
                client_id,
                *session_expiry_interval,
                *expires_at_ms,
                *next_packet_id,
            )
        },
        DurableLogEvent::SubscriptionUpsert {
            client_id,
            filter,
            match_filter,
            shared_group,
            subscription_identifier,
        } => {
            writer.u8(2);
            write_subscription_upsert(
                &mut writer,
                client_id,
                filter,
                match_filter,
                shared_group,
                *subscription_identifier,
            )
        },
        DurableLogEvent::SubscriptionDelete { client_id, filter } => {
            writer.u8(3);
            write_subscription_delete(&mut writer, client_id, filter)
        },
        DurableLogEvent::RetainUpsert { topic_name, qos, payload_len, expires_at_ms } => {
            writer.u8(4);
            write_retain_upsert(&mut writer, topic_name, *qos, *payload_len, *expires_at_ms)
        },
        DurableLogEvent::RetainDelete { topic_name } => {
            writer.u8(5);
            write_retain_delete(&mut writer, topic_name)
        },
        DurableLogEvent::OfflineEnqueue {
            client_id,
            sequence,
            packet_id,
            payload_len,
            expires_at_ms,
        } => {
            writer.u8(6);
            write_offline_enqueue(
                &mut writer,
                client_id,
                *sequence,
                *packet_id,
                *payload_len,
                *expires_at_ms,
            )
        },
        DurableLogEvent::OfflineAck { client_id, sequence } => {
            writer.u8(7);
            write_offline_ack(&mut writer, client_id, *sequence)
        },
        DurableLogEvent::InflightUpsert { client_id, packet_id, qos, direction, expires_at_ms } => {
            writer.u8(8);
            write_inflight_upsert(
                &mut writer,
                client_id,
                *packet_id,
                *qos,
                *direction,
                *expires_at_ms,
            )
        },
        DurableLogEvent::InflightAck { client_id, packet_id, direction } => {
            writer.u8(9);
            write_inflight_ack(&mut writer, client_id, *packet_id, *direction)
        },
    };
    if !written {
        return None;
    }
    let ghost view = event.deep_view();
    assert(writer.bytes@ =~= event_bytes(view));
    Some(writer.bytes)
}

fn write_session_upsert(
    writer: &mut Writer,
    client_id: &String,
    session_expiry_interval: u32,
    expires_at_ms: Option<u64>,
    next_packet_id: u16,
) -> (result: bool)
    ensures
        ({
            let event = EventView::SessionUpsert {
                client_id: client_id@,
                session_expiry_interval,
                expires_at_ms,
                next_packet_id,
            };
            &&& result == event_fits(event)
            &&& result ==> final(writer).bytes@ == old(writer).bytes@ + event_body(event)
        }),
{
    let ghost before = writer.bytes@;
    if !writer.string(client_id.as_str()) {
        return false;
    }
    writer.u32(session_expiry_interval);
    writer.opt_u64(expires_at_ms);
    writer.u16(next_packet_id);
    assert(
        writer.bytes@ =~= before + event_body(
            EventView::SessionUpsert {
                client_id: client_id@,
                session_expiry_interval,
                expires_at_ms,
                next_packet_id,
            },
        )
    );
    true
}

fn write_subscription_upsert(
    writer: &mut Writer,
    client_id: &String,
    filter: &String,
    match_filter: &String,
    shared_group: &Option<String>,
    subscription_identifier: Option<u32>,
) -> (result: bool)
    ensures
        ({
            let event = EventView::SubscriptionUpsert {
                client_id: client_id@,
                filter: filter@,
                match_filter: match_filter@,
                shared_group: shared_group.deep_view(),
                subscription_identifier,
            };
            &&& result == event_fits(event)
            &&& result ==> final(writer).bytes@ == old(writer).bytes@ + event_body(event)
        }),
{
    let ghost before = writer.bytes@;
    if !writer.string(client_id.as_str()) {
        return false;
    }
    if !writer.string(filter.as_str()) {
        return false;
    }
    if !writer.string(match_filter.as_str()) {
        return false;
    }
    if !writer.opt_string(shared_group) {
        return false;
    }
    writer.opt_u32(subscription_identifier);
    assert(
        writer.bytes@ =~= before + event_body(
            EventView::SubscriptionUpsert {
                client_id: client_id@,
                filter: filter@,
                match_filter: match_filter@,
                shared_group: shared_group.deep_view(),
                subscription_identifier,
            },
        )
    );
    true
}

fn write_subscription_delete(
    writer: &mut Writer,
    client_id: &String,
    filter: &String,
) -> (result: bool)
    ensures
        ({
            let event = EventView::SubscriptionDelete { client_id: client_id@, filter: filter@ };
            &&& result == event_fits(event)
            &&& result ==> final(writer).bytes@ == old(writer).bytes@ + event_body(event)
        }),
{
    let ghost before = writer.bytes@;
    if !writer.string(client_id.as_str()) {
        return false;
    }
    if !writer.string(filter.as_str()) {
        return false;
    }
    assert(
        writer.bytes@ =~= before + event_body(
            EventView::SubscriptionDelete { client_id: client_id@, filter: filter@ },
        )
    );
    true
}

fn write_retain_upsert(
    writer: &mut Writer,
    topic_name: &String,
    qos: u8,
    payload_len: u32,
    expires_at_ms: Option<u64>,
) -> (result: bool)
    ensures
        ({
            let event = EventView::RetainUpsert {
                topic_name: topic_name@,
                qos,
                payload_len,
                expires_at_ms,
            };
            &&& result == event_fits(event)
            &&& result ==> final(writer).bytes@ == old(writer).bytes@ + event_body(event)
        }),
{
    let ghost before = writer.bytes@;
    if !writer.string(topic_name.as_str()) {
        return false;
    }
    writer.u8(qos);
    writer.u32(payload_len);
    writer.opt_u64(expires_at_ms);
    assert(
        writer.bytes@ =~= before + event_body(
            EventView::RetainUpsert { topic_name: topic_name@, qos, payload_len, expires_at_ms },
        )
    );
    true
}

fn write_retain_delete(writer: &mut Writer, topic_name: &String) -> (result: bool)
    ensures
        ({
            let event = EventView::RetainDelete { topic_name: topic_name@ };
            &&& result == event_fits(event)
            &&& result ==> final(writer).bytes@ == old(writer).bytes@ + event_body(event)
        }),
{
    let ghost before = writer.bytes@;
    if !writer.string(topic_name.as_str()) {
        return false;
    }
    assert(
        writer.bytes@ =~= before + event_body(EventView::RetainDelete { topic_name: topic_name@ })
    );
    true
}

fn write_offline_enqueue(
    writer: &mut Writer,
    client_id: &String,
    sequence: u64,
    packet_id: Option<u16>,
    payload_len: u32,
    expires_at_ms: Option<u64>,
) -> (result: bool)
    ensures
        ({
            let event = EventView::OfflineEnqueue {
                client_id: client_id@,
                sequence,
                packet_id,
                payload_len,
                expires_at_ms,
            };
            &&& result == event_fits(event)
            &&& result ==> final(writer).bytes@ == old(writer).bytes@ + event_body(event)
        }),
{
    let ghost before = writer.bytes@;
    if !writer.string(client_id.as_str()) {
        return false;
    }
    writer.u64(sequence);
    write_opt_u16(writer, packet_id);
    writer.u32(payload_len);
    writer.opt_u64(expires_at_ms);
    assert(
        writer.bytes@ =~= before + event_body(
            EventView::OfflineEnqueue {
                client_id: client_id@,
                sequence,
                packet_id,
                payload_len,
                expires_at_ms,
            },
        )
    );
    true
}

fn write_offline_ack(writer: &mut Writer, client_id: &String, sequence: u64) -> (result: bool)
    ensures
        ({
            let event = EventView::OfflineAck { client_id: client_id@, sequence };
            &&& result == event_fits(event)
            &&& result ==> final(writer).bytes@ == old(writer).bytes@ + event_body(event)
        }),
{
    let ghost before = writer.bytes@;
    if !writer.string(client_id.as_str()) {
        return false;
    }
    writer.u64(sequence);
    assert(
        writer.bytes@ =~= before + event_body(
            EventView::OfflineAck { client_id: client_id@, sequence },
        )
    );
    true
}

fn write_inflight_upsert(
    writer: &mut Writer,
    client_id: &String,
    packet_id: u16,
    qos: u8,
    direction: InflightDirection,
    expires_at_ms: Option<u64>,
) -> (result: bool)
    ensures
        ({
            let event = EventView::InflightUpsert {
                client_id: client_id@,
                packet_id,
                qos,
                direction,
                expires_at_ms,
            };
            &&& result == event_fits(event)
            &&& result ==> final(writer).bytes@ == old(writer).bytes@ + event_body(event)
        }),
{
    let ghost before = writer.bytes@;
    if !writer.string(client_id.as_str()) {
        return false;
    }
    writer.u16(packet_id);
    writer.u8(qos);
    writer.u8(direction_code(direction));
    writer.opt_u64(expires_at_ms);
    assert(
        writer.bytes@ =~= before + event_body(
            EventView::InflightUpsert {
                client_id: client_id@,
                packet_id,
                qos,
                direction,
                expires_at_ms,
            },
        )
    );
    true
}

fn write_inflight_ack(
    writer: &mut Writer,
    client_id: &String,
    packet_id: u16,
    direction: InflightDirection,
) -> (result: bool)
    ensures
        ({
            let event = EventView::InflightAck { client_id: client_id@, packet_id, direction };
            &&& result == event_fits(event)
            &&& result ==> final(writer).bytes@ == old(writer).bytes@ + event_body(event)
        }),
{
    let ghost before = writer.bytes@;
    if !writer.string(client_id.as_str()) {
        return false;
    }
    writer.u16(packet_id);
    writer.u8(direction_code(direction));
    assert(
        writer.bytes@ =~= before + event_body(
            EventView::InflightAck { client_id: client_id@, packet_id, direction },
        )
    );
    true
}

fn write_opt_u16(writer: &mut Writer, value: Option<u16>)
    ensures
        final(writer).bytes@ == old(writer).bytes@ + opt_bytes(opt_u16_nat(value), 2),
{
    let ghost before = writer.bytes@;
    match value {
        Some(number) => {
            writer.u8(1);
            writer.u16(number);
            assert(writer.bytes@ =~= before + (seq![1u8] + le(number as nat, 2)));
        },
        None => {
            writer.u8(0);
        },
    }
}

/// What an event that ends too early is called.
pub open spec fn truncated_event() -> Seq<char> {
    "truncated WAL event"@
}

/// A reading that can only fail because the bytes end.
pub open spec fn or_truncated<T>(parse: Parse<T>) -> Parse<T> {
    match parse {
        Ok(found) => Ok(found),
        Err(_) => Err(truncated_event()),
    }
}

/// Reads a text.
#[verifier::opaque]
pub open spec fn wal_text(bytes: Seq<u8>) -> Parse<Seq<char>> {
    match or_truncated(parse_u32(bytes)) {
        Err(error) => Err(error),
        Ok((count, rest)) => match or_truncated(parse_take(rest, count as nat)) {
            Err(error) => Err(error),
            Ok((block, rest)) => if valid_utf8(block) {
                Ok((decode_utf8(block), rest))
            } else {
                Err("invalid WAL string"@)
            },
        },
    }
}

/// Reads whether something is there: anything but zero says so.
#[verifier::opaque]
pub open spec fn wal_flag(bytes: Seq<u8>) -> Parse<bool> {
    match or_truncated(parse_u8(bytes)) {
        Err(error) => Err(error),
        Ok((byte, rest)) => Ok((byte != 0, rest)),
    }
}

/// Reads a text that may be absent.
#[verifier::opaque]
pub open spec fn wal_opt_text(bytes: Seq<u8>) -> Parse<Option<Seq<char>>> {
    match wal_flag(bytes) {
        Err(error) => Err(error),
        Ok((false, rest)) => Ok((None, rest)),
        Ok((true, rest)) => match wal_text(rest) {
            Err(error) => Err(error),
            Ok((value, rest)) => Ok((Some(value), rest)),
        },
    }
}

/// Reads a number that may be absent.
#[verifier::opaque]
pub open spec fn wal_opt_u16(bytes: Seq<u8>) -> Parse<Option<u16>> {
    match wal_flag(bytes) {
        Err(error) => Err(error),
        Ok((false, rest)) => Ok((None, rest)),
        Ok((true, rest)) => match or_truncated(parse_u16(rest)) {
            Err(error) => Err(error),
            Ok((value, rest)) => Ok((Some(value), rest)),
        },
    }
}

/// Reads a number that may be absent.
#[verifier::opaque]
pub open spec fn wal_opt_u32(bytes: Seq<u8>) -> Parse<Option<u32>> {
    match wal_flag(bytes) {
        Err(error) => Err(error),
        Ok((false, rest)) => Ok((None, rest)),
        Ok((true, rest)) => match or_truncated(parse_u32(rest)) {
            Err(error) => Err(error),
            Ok((value, rest)) => Ok((Some(value), rest)),
        },
    }
}

/// Reads a number that may be absent.
#[verifier::opaque]
pub open spec fn wal_opt_u64(bytes: Seq<u8>) -> Parse<Option<u64>> {
    match wal_flag(bytes) {
        Err(error) => Err(error),
        Ok((false, rest)) => Ok((None, rest)),
        Ok((true, rest)) => match or_truncated(parse_u64(rest)) {
            Err(error) => Err(error),
            Ok((value, rest)) => Ok((Some(value), rest)),
        },
    }
}

/// Reads a direction.
#[verifier::opaque]
pub open spec fn wal_direction(bytes: Seq<u8>) -> Parse<InflightDirection> {
    match or_truncated(parse_u8(bytes)) {
        Err(error) => Err(error),
        Ok((byte, rest)) => if byte == 1 {
            Ok((InflightDirection::Inbound, rest))
        } else if byte == 2 {
            Ok((InflightDirection::Outbound, rest))
        } else {
            Err("invalid inflight direction"@)
        },
    }
}

/// Reads a session that is put.
#[verifier::opaque]
pub open spec fn wal_session_upsert(bytes: Seq<u8>) -> Parse<EventView> {
    match wal_text(bytes) {
        Err(error) => Err(error),
        Ok((client_id, rest)) =>
            match or_truncated(parse_u32(rest)) {
                Err(error) => Err(error),
                Ok((session_expiry_interval, rest)) =>
                    match wal_opt_u64(rest) {
                        Err(error) => Err(error),
                        Ok((expires_at_ms, rest)) =>
                            match or_truncated(parse_u16(rest)) {
                                Err(error) => Err(error),
                                Ok((next_packet_id, rest)) =>
                                    Ok(
                                        (
                                            EventView::SessionUpsert {
                                                client_id,
                                                session_expiry_interval,
                                                expires_at_ms,
                                                next_packet_id,
                                            },
                                            rest,
                                        ),
                                    ),
                            },
                    },
            },
    }
}

/// Reads a subscription that is put.
#[verifier::opaque]
pub open spec fn wal_subscription_upsert(bytes: Seq<u8>) -> Parse<EventView> {
    match wal_text(bytes) {
        Err(error) => Err(error),
        Ok((client_id, rest)) =>
            match wal_text(rest) {
                Err(error) => Err(error),
                Ok((filter, rest)) =>
                    match wal_text(rest) {
                        Err(error) => Err(error),
                        Ok((match_filter, rest)) =>
                            match wal_opt_text(rest) {
                                Err(error) => Err(error),
                                Ok((shared_group, rest)) =>
                                    match wal_opt_u32(rest) {
                                        Err(error) => Err(error),
                                        Ok((subscription_identifier, rest)) =>
                                            Ok(
                                                (
                                                    EventView::SubscriptionUpsert {
                                                        client_id,
                                                        filter,
                                                        match_filter,
                                                        shared_group,
                                                        subscription_identifier,
                                                    },
                                                    rest,
                                                ),
                                            ),
                                    },
                            },
                    },
            },
    }
}

/// Reads a subscription that is removed.
#[verifier::opaque]
pub open spec fn wal_subscription_delete(bytes: Seq<u8>) -> Parse<EventView> {
    match wal_text(bytes) {
        Err(error) => Err(error),
        Ok((client_id, rest)) =>
            match wal_text(rest) {
                Err(error) => Err(error),
                Ok((filter, rest)) =>
                    Ok((EventView::SubscriptionDelete { client_id, filter }, rest)),
            },
    }
}

/// Reads a retained message that is put.
#[verifier::opaque]
pub open spec fn wal_retain_upsert(bytes: Seq<u8>) -> Parse<EventView> {
    match wal_text(bytes) {
        Err(error) => Err(error),
        Ok((topic_name, rest)) =>
            match or_truncated(parse_u8(rest)) {
                Err(error) => Err(error),
                Ok((qos, rest)) =>
                    match or_truncated(parse_u32(rest)) {
                        Err(error) => Err(error),
                        Ok((payload_len, rest)) =>
                            match wal_opt_u64(rest) {
                                Err(error) => Err(error),
                                Ok((expires_at_ms, rest)) =>
                                    Ok(
                                        (
                                            EventView::RetainUpsert {
                                                topic_name,
                                                qos,
                                                payload_len,
                                                expires_at_ms,
                                            },
                                            rest,
                                        ),
                                    ),
                            },
                    },
            },
    }
}

/// Reads a retained message that is removed.
#[verifier::opaque]
pub open spec fn wal_retain_delete(bytes: Seq<u8>) -> Parse<EventView> {
    match wal_text(bytes) {
        Err(error) => Err(error),
        Ok((topic_name, rest)) =>
            Ok((EventView::RetainDelete { topic_name }, rest)),
    }
}

/// Reads a publication that is queued.
#[verifier::opaque]
pub open spec fn wal_offline_enqueue(bytes: Seq<u8>) -> Parse<EventView> {
    match wal_text(bytes) {
        Err(error) => Err(error),
        Ok((client_id, rest)) =>
            match or_truncated(parse_u64(rest)) {
                Err(error) => Err(error),
                Ok((sequence, rest)) =>
                    match wal_opt_u16(rest) {
                        Err(error) => Err(error),
                        Ok((packet_id, rest)) =>
                            match or_truncated(parse_u32(rest)) {
                                Err(error) => Err(error),
                                Ok((payload_len, rest)) =>
                                    match wal_opt_u64(rest) {
                                        Err(error) => Err(error),
                                        Ok((expires_at_ms, rest)) =>
                                            Ok(
                                                (
                                                    EventView::OfflineEnqueue {
                                                        client_id,
                                                        sequence,
                                                        packet_id,
                                                        payload_len,
                                                        expires_at_ms,
                                                    },
                                                    rest,
                                                ),
                                            ),
                                    },
                            },
                    },
            },
    }
}

/// Reads a publication that leaves the queue.
#[verifier::opaque]
pub open spec fn wal_offline_ack(bytes: Seq<u8>) -> Parse<EventView> {
    match wal_text(bytes) {
        Err(error) => Err(error),
        Ok((client_id, rest)) =>
            match or_truncated(parse_u64(rest)) {
                Err(error) => Err(error),
                Ok((sequence, rest)) =>
                    Ok((EventView::OfflineAck { client_id, sequence }, rest)),
            },
    }
}

/// Reads a publication that is sent.
#[verifier::opaque]
pub open spec fn wal_inflight_upsert(bytes: Seq<u8>) -> Parse<EventView> {
    match wal_text(bytes) {
        Err(error) => Err(error),
        Ok((client_id, rest)) =>
            match or_truncated(parse_u16(rest)) {
                Err(error) => Err(error),
                Ok((packet_id, rest)) =>
                    match or_truncated(parse_u8(rest)) {
                        Err(error) => Err(error),
                        Ok((qos, rest)) =>
                            match wal_direction(rest) {
                                Err(error) => Err(error),
                                Ok((direction, rest)) =>
                                    match wal_opt_u64(rest) {
                                        Err(error) => Err(error),
                                        Ok((expires_at_ms, rest)) =>
                                            Ok(
                                                (
                                                    EventView::InflightUpsert {
                                                        client_id,
                                                        packet_id,
                                                        qos,
                                                        direction,
                                                        expires_at_ms,
                                                    },
                                                    rest,
                                                ),
                                            ),
                                    },
                            },
                    },
            },
    }
}

/// Reads a publication that is acknowledged.
#[verifier::opaque]
pub open spec fn wal_inflight_ack(bytes: Seq<u8>) -> Parse<EventView> {
    match wal_text(bytes) {
        Err(error) => Err(error),
        Ok((client_id, rest)) =>
            match or_truncated(parse_u16(rest)) {
                Err(error) => Err(error),
                Ok((packet_id, rest)) =>
                    match wal_direction(rest) {
                        Err(error) => Err(error),
                        Ok((direction, rest)) =>
                            Ok((EventView::InflightAck { client_id, packet_id, direction }, rest)),
                    },
            },
    }
}

/// Reads what is behind an event's version and kind.
pub open spec fn wal_body(kind: u8, bytes: Seq<u8>) -> Parse<EventView> {
    if kind == 1 {
        wal_session_upsert(bytes)
    } else if kind == 2 {
        wal_subscription_upsert(bytes)
    } else if kind == 3 {
        wal_subscription_delete(bytes)
    } else if kind == 4 {
        wal_retain_upsert(bytes)
    } else if kind == 5 {
        wal_retain_delete(bytes)
    } else if kind == 6 {
        wal_offline_enqueue(bytes)
    } else if kind == 7 {
        wal_offline_ack(bytes)
    } else if kind == 8 {
        wal_inflight_upsert(bytes)
    } else if kind == 9 {
        wal_inflight_ack(bytes)
    } else {
        Err("unknown Pulse vNext WAL event kind "@ + decimal(kind as nat))
    }
}

/// The event that some bytes start with.
pub open spec fn event_of(bytes: Seq<u8>) -> Result<EventView, Seq<char>> {
    match or_truncated(parse_u8(bytes)) {
        Err(error) => Err(error),
        Ok((version, rest)) => if version != EVENT_VERSION {
            Err("unsupported Pulse vNext WAL event version"@)
        } else {
            match or_truncated(parse_u8(rest)) {
                Err(error) => Err(error),
                Ok((kind, rest)) => match wal_body(kind, rest) {
                    Err(error) => Err(error),
                    Ok((event, _)) => Ok(event),
                },
            }
        },
    }
}

/// A reading went as it should: what came out, and what is left.
pub open spec fn wal_read<T: DeepView>(
    result: Result<T, String>,
    rest: Seq<u8>,
    parse: Parse<T::V>,
) -> bool {
    match result {
        Ok(value) => parse == Ok::<(T::V, Seq<u8>), Seq<char>>((value.deep_view(), rest)),
        Err(message) => parse == Err::<(T::V, Seq<u8>), Seq<char>>(message@),
    }
}

fn truncated<T>() -> (result: Result<T, String>)
    ensures
        result matches Err(message) && message@ == truncated_event(),
{
    Err("truncated WAL event".to_owned())
}

fn read_u8(reader: &mut Reader<'_>) -> (result: Result<u8, String>)
    requires
        old(reader).inside(),
    ensures
        final(reader).inside(),
        wal_read(result, final(reader).rest(), or_truncated(parse_u8(old(reader).rest()))),
{
    match reader.u8() {
        Ok(value) => Ok(value),
        Err(_) => truncated(),
    }
}

fn read_u16(reader: &mut Reader<'_>) -> (result: Result<u16, String>)
    requires
        old(reader).inside(),
    ensures
        final(reader).inside(),
        wal_read(result, final(reader).rest(), or_truncated(parse_u16(old(reader).rest()))),
{
    match reader.u16() {
        Ok(value) => Ok(value),
        Err(_) => truncated(),
    }
}

fn read_u32(reader: &mut Reader<'_>) -> (result: Result<u32, String>)
    requires
        old(reader).inside(),
    ensures
        final(reader).inside(),
        wal_read(result, final(reader).rest(), or_truncated(parse_u32(old(reader).rest()))),
{
    match reader.u32() {
        Ok(value) => Ok(value),
        Err(_) => truncated(),
    }
}

fn read_u64(reader: &mut Reader<'_>) -> (result: Result<u64, String>)
    requires
        old(reader).inside(),
    ensures
        final(reader).inside(),
        wal_read(result, final(reader).rest(), or_truncated(parse_u64(old(reader).rest()))),
{
    match reader.u64() {
        Ok(value) => Ok(value),
        Err(_) => truncated(),
    }
}

fn read_text(reader: &mut Reader<'_>) -> (result: Result<String, String>)
    requires
        old(reader).inside(),
    ensures
        final(reader).inside(),
        wal_read(result, final(reader).rest(), wal_text(old(reader).rest())),
{
    proof {
        reveal(wal_text);
    }
    let count: u32 = read_u32(reader)?;
    let block: &[u8] = match reader.take(count as usize) {
        Ok(block) => block,
        Err(_) => return truncated(),
    };
    match utf8_text(block) {
        Some(text) => Ok(text),
        None => Err("invalid WAL string".to_owned()),
    }
}

fn read_flag(reader: &mut Reader<'_>) -> (result: Result<bool, String>)
    requires
        old(reader).inside(),
    ensures
        final(reader).inside(),
        wal_read(result, final(reader).rest(), wal_flag(old(reader).rest())),
{
    proof {
        reveal(wal_flag);
    }
    let byte: u8 = read_u8(reader)?;
    Ok(byte != 0)
}

fn read_opt_text(reader: &mut Reader<'_>) -> (result: Result<Option<String>, String>)
    requires
        old(reader).inside(),
    ensures
        final(reader).inside(),
        wal_read(result, final(reader).rest(), wal_opt_text(old(reader).rest())),
{
    proof {
        reveal(wal_opt_text);
    }
    if read_flag(reader)? {
        Ok(Some(read_text(reader)?))
    } else {
        Ok(None)
    }
}

fn read_opt_u16(reader: &mut Reader<'_>) -> (result: Result<Option<u16>, String>)
    requires
        old(reader).inside(),
    ensures
        final(reader).inside(),
        wal_read(result, final(reader).rest(), wal_opt_u16(old(reader).rest())),
{
    proof {
        reveal(wal_opt_u16);
    }
    if read_flag(reader)? {
        Ok(Some(read_u16(reader)?))
    } else {
        Ok(None)
    }
}

fn read_opt_u32(reader: &mut Reader<'_>) -> (result: Result<Option<u32>, String>)
    requires
        old(reader).inside(),
    ensures
        final(reader).inside(),
        wal_read(result, final(reader).rest(), wal_opt_u32(old(reader).rest())),
{
    proof {
        reveal(wal_opt_u32);
    }
    if read_flag(reader)? {
        Ok(Some(read_u32(reader)?))
    } else {
        Ok(None)
    }
}

fn read_opt_u64(reader: &mut Reader<'_>) -> (result: Result<Option<u64>, String>)
    requires
        old(reader).inside(),
    ensures
        final(reader).inside(),
        wal_read(result, final(reader).rest(), wal_opt_u64(old(reader).rest())),
{
    proof {
        reveal(wal_opt_u64);
    }
    if read_flag(reader)? {
        Ok(Some(read_u64(reader)?))
    } else {
        Ok(None)
    }
}

fn read_direction(reader: &mut Reader<'_>) -> (result: Result<InflightDirection, String>)
    requires
        old(reader).inside(),
    ensures
        final(reader).inside(),
        wal_read(result, final(reader).rest(), wal_direction(old(reader).rest())),
{
    proof {
        reveal(wal_direction);
    }
    let byte: u8 = read_u8(reader)?;
    match byte {
        1 => Ok(InflightDirection::Inbound),
        2 => Ok(InflightDirection::Outbound),
        _ => Err("invalid inflight direction".to_owned()),
    }
}

fn read_session_upsert(reader: &mut Reader<'_>) -> (result: Result<DurableLogEvent, String>)
    requires
        old(reader).inside(),
    ensures
        final(reader).inside(),
        wal_read(result, final(reader).rest(), wal_session_upsert(old(reader).rest())),
{
    proof {
        reveal(wal_session_upsert);
    }
    let client_id: String = read_text(reader)?;
    let session_expiry_interval: u32 = read_u32(reader)?;
    let expires_at_ms: Option<u64> = read_opt_u64(reader)?;
    let next_packet_id: u16 = read_u16(reader)?;
    Ok(
        DurableLogEvent::SessionUpsert {
            client_id,
            session_expiry_interval,
            expires_at_ms,
            next_packet_id,
        },
    )
}

fn read_subscription_upsert(reader: &mut Reader<'_>) -> (result: Result<DurableLogEvent, String>)
    requires
        old(reader).inside(),
    ensures
        final(reader).inside(),
        wal_read(result, final(reader).rest(), wal_subscription_upsert(old(reader).rest())),
{
    proof {
        reveal(wal_subscription_upsert);
    }
    let client_id: String = read_text(reader)?;
    let filter: String = read_text(reader)?;
    let match_filter: String = read_text(reader)?;
    let shared_group: Option<String> = read_opt_text(reader)?;
    let subscription_identifier: Option<u32> = read_opt_u32(reader)?;
    Ok(
        DurableLogEvent::SubscriptionUpsert {
            client_id,
            filter,
            match_filter,
            shared_group,
            subscription_identifier,
        },
    )
}

fn read_subscription_delete(reader: &mut Reader<'_>) -> (result: Result<DurableLogEvent, String>)
    requires
        old(reader).inside(),
    ensures
        final(reader).inside(),
        wal_read(result, final(reader).rest(), wal_subscription_delete(old(reader).rest())),
{
    proof {
        reveal(wal_subscription_delete);
    }
    let client_id: String = read_text(reader)?;
    let filter: String = read_text(reader)?;
    Ok(DurableLogEvent::SubscriptionDelete { client_id, filter })
}

fn read_retain_upsert(reader: &mut Reader<'_>) -> (result: Result<DurableLogEvent, String>)
    requires
        old(reader).inside(),
    ensures
        final(reader).inside(),
        wal_read(result, final(reader).rest(), wal_retain_upsert(old(reader).rest())),
{
    proof {
        reveal(wal_retain_upsert);
    }
    let topic_name: String = read_text(reader)?;
    let qos: u8 = read_u8(reader)?;
    let payload_len: u32 = read_u32(reader)?;
    let expires_at_ms: Option<u64> = read_opt_u64(reader)?;
    Ok(DurableLogEvent::RetainUpsert { topic_name, qos, payload_len, expires_at_ms })
}

fn read_retain_delete(reader: &mut Reader<'_>) -> (result: Result<DurableLogEvent, String>)
    requires
        old(reader).inside(),
    ensures
        final(reader).inside(),
        wal_read(result, final(reader).rest(), wal_retain_delete(old(reader).rest())),
{
    proof {
        reveal(wal_retain_delete);
    }
    let topic_name: String = read_text(reader)?;
    Ok(DurableLogEvent::RetainDelete { topic_name })
}

fn read_offline_enqueue(reader: &mut Reader<'_>) -> (result: Result<DurableLogEvent, String>)
    requires
        old(reader).inside(),
    ensures
        final(reader).inside(),
        wal_read(result, final(reader).rest(), wal_offline_enqueue(old(reader).rest())),
{
    proof {
        reveal(wal_offline_enqueue);
    }
    let client_id: String = read_text(reader)?;
    let sequence: u64 = read_u64(reader)?;
    let packet_id: Option<u16> = read_opt_u16(reader)?;
    let payload_len: u32 = read_u32(reader)?;
    let expires_at_ms: Option<u64> = read_opt_u64(reader)?;
    Ok(
        DurableLogEvent::OfflineEnqueue {
            client_id,
            sequence,
            packet_id,
            payload_len,
            expires_at_ms,
        },
    )
}

fn read_offline_ack(reader: &mut Reader<'_>) -> (result: Result<DurableLogEvent, String>)
    requires
        old(reader).inside(),
    ensures
        final(reader).inside(),
        wal_read(result, final(reader).rest(), wal_offline_ack(old(reader).rest())),
{
    proof {
        reveal(wal_offline_ack);
    }
    let client_id: String = read_text(reader)?;
    let sequence: u64 = read_u64(reader)?;
    Ok(DurableLogEvent::OfflineAck { client_id, sequence })
}

fn read_inflight_upsert(reader: &mut Reader<'_>) -> (result: Result<DurableLogEvent, String>)
    requires
        old(reader).inside(),
    ensures
        final(reader).inside(),
        wal_read(result, final(reader).rest(), wal_inflight_upsert(old(reader).rest())),
{
    proof {
        reveal(wal_inflight_upsert);
    }
    let client_id: String = read_text(reader)?;
    let packet_id: u16 = read_u16(reader)?;
    let qos: u8 = read_u8(reader)?;
    let direction: InflightDirection = read_direction(reader)?;
    let expires_at_ms: Option<u64> = read_opt_u64(reader)?;
    Ok(DurableLogEvent::InflightUpsert { client_id, packet_id, qos, direction, expires_at_ms })
}

fn read_inflight_ack(reader: &mut Reader<'_>) -> (result: Result<DurableLogEvent, String>)
    requires
        old(reader).inside(),
    ensures
        final(reader).inside(),
        wal_read(result, final(reader).rest(), wal_inflight_ack(old(reader).rest())),
{
    proof {
        reveal(wal_inflight_ack);
    }
    let client_id: String = read_text(reader)?;
    let packet_id: u16 = read_u16(reader)?;
    let direction: InflightDirection = read_direction(reader)?;
    Ok(DurableLogEvent::InflightAck { client_id, packet_id, direction })
}

/// The event that some bytes start with.
pub fn decode_event(payload: &[u8]) -> (result: Result<DurableLogEvent, String>)
    ensures
        reported(result, event_of(payload@)),
{
    let mut reader: Reader<'_> = Reader::new(payload);
    let version: u8 = read_u8(&mut reader)?;
    if version != EVENT_VERSION {
        return Err("unsupported Pulse vNext WAL event version".to_owned());
    }
    let kind: u8 = read_u8(&mut reader)?;
    match kind {
        1 => read_session_upsert(&mut reader),
        2 => read_subscription_upsert(&mut reader),
        3 => read_subscription_delete(&mut reader),
        4 => read_retain_upsert(&mut reader),
        5 => read_retain_delete(&mut reader),
        6 => read_offline_enqueue(&mut reader),
        7 => read_offline_ack(&mut reader),
        8 => read_inflight_upsert(&mut reader),
        9 => read_inflight_ack(&mut reader),
        _ => Err(
            text_concat(
                "unknown Pulse vNext WAL event kind ",
                decimal_text(kind as u64).as_str(),
            ),
        ),
    }
}

} // verus!
