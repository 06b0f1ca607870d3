//! What an event that is cut short is read as.
use vstd::prelude::*;

use crate::numbers::decimal;
use crate::storage::bytes::Parse;
use crate::storage::bytes::parse_u16;
use crate::storage::bytes::parse_u32;
use crate::storage::bytes::parse_u64;
use crate::storage::bytes::parse_u8;
use crate::storage::extension_laws::le_extends;
use crate::storage::extension_laws::take_extends;
use crate::storage::extension_laws::u8_extends;
use crate::vnext::durable_log::EVENT_VERSION;
use crate::vnext::durable_log::EventView;
use crate::vnext::durable_log::event_body;
use crate::vnext::durable_log::event_bytes;
use crate::vnext::durable_log::event_fits;
use crate::vnext::durable_log::event_kind;
use crate::vnext::durable_log::event_of;
use crate::vnext::durable_log::or_truncated;
use crate::vnext::durable_log::truncated_event;
use crate::vnext::durable_log::wal_body;
use crate::vnext::durable_log::wal_direction;
use crate::vnext::durable_log::wal_flag;
use crate::vnext::durable_log::wal_inflight_ack;
use crate::vnext::durable_log::wal_inflight_upsert;
use crate::vnext::durable_log::wal_offline_ack;
use crate::vnext::durable_log::wal_offline_enqueue;
use crate::vnext::durable_log::wal_opt_text;
use crate::vnext::durable_log::wal_opt_u16;
use crate::vnext::durable_log::wal_opt_u32;
use crate::vnext::durable_log::wal_opt_u64;
use crate::vnext::durable_log::wal_retain_delete;
use crate::vnext::durable_log::wal_retain_upsert;
use crate::vnext::durable_log::wal_session_upsert;
use crate::vnext::durable_log::wal_subscription_delete;
use crate::vnext::durable_log::wal_subscription_upsert;
use crate::vnext::durable_log::wal_text;
use crate::vnext::log_laws::written_body_reads_back;

verus! {

/// What is read of some bytes is read of longer bytes too, and more is left; and where only the
/// longer bytes can be read, the shorter ones end too early.
pub open spec fn cuts<T>(short: Parse<T>, long: Parse<T>, tail: Seq<u8>) -> bool {
    &&& short matches Ok(found) ==> long == Ok::<(T, Seq<u8>), Seq<char>>(
        (found.0, found.1 + tail),
    )
    &&& long is Ok && short is Err ==> short == Err::<(T, Seq<u8>), Seq<char>>(truncated_event())
}

/// A byte that is not there ends too early.
proof fn byte_cuts(bytes: Seq<u8>, tail: Seq<u8>)
    ensures
        cuts(or_truncated(parse_u8(bytes)), or_truncated(parse_u8(bytes + tail)), tail),
{
    u8_extends(bytes, tail);
}

/// Numbers that are cut short end too early.
proof fn numbers_cut(bytes: Seq<u8>, tail: Seq<u8>)
    ensures
        cuts(or_truncated(parse_u16(bytes)), or_truncated(parse_u16(bytes + tail)), tail),
        cuts(or_truncated(parse_u32(bytes)), or_truncated(parse_u32(bytes + tail)), tail),
        cuts(or_truncated(parse_u64(bytes)), or_truncated(parse_u64(bytes + tail)), tail),
{
    le_extends(bytes, 2, tail);
    le_extends(bytes, 4, tail);
    le_extends(bytes, 8, tail);
}

/// A text that is cut short ends too early.
proof fn text_cuts(bytes: Seq<u8>, tail: Seq<u8>)
    ensures
        cuts(wal_text(bytes), wal_text(bytes + tail), tail),
{
    reveal(wal_text);
    numbers_cut(bytes, tail);
    if let Ok((count, rest)) = parse_u32(bytes) {
        take_extends(rest, count as nat, tail);
    }
}

/// A flag that is not there ends too early.
proof fn flag_cuts(bytes: Seq<u8>, tail: Seq<u8>)
    ensures
        cuts(wal_flag(bytes), wal_flag(bytes + tail), tail),
{
    reveal(wal_flag);
    byte_cuts(bytes, tail);
}

/// A direction that is not there ends too early.
proof fn direction_cuts(bytes: Seq<u8>, tail: Seq<u8>)
    ensures
        cuts(wal_direction(bytes), wal_direction(bytes + tail), tail),
{
    reveal(wal_direction);
    byte_cuts(bytes, tail);
}

/// A text that may be absent and is cut short ends too early.
proof fn opt_text_cuts(bytes: Seq<u8>, tail: Seq<u8>)
    ensures
        cuts(wal_opt_text(bytes), wal_opt_text(bytes + tail), tail),
{
    reveal(wal_opt_text);
    flag_cuts(bytes, tail);
    if let Ok((_, r1)) = wal_flag(bytes) {
        text_cuts(r1, tail);
    }
}

/// A number that may be absent and is cut short ends too early.
proof fn opt_u16_cuts(bytes: Seq<u8>, tail: Seq<u8>)
    ensures
        cuts(wal_opt_u16(bytes), wal_opt_u16(bytes + tail), tail),
{
    reveal(wal_opt_u16);
    flag_cuts(bytes, tail);
    if let Ok((_, r1)) = wal_flag(bytes) {
        numbers_cut(r1, tail);
    }
}

/// A number that may be absent and is cut short ends too early.
proof fn opt_u32_cuts(bytes: Seq<u8>, tail: Seq<u8>)
    ensures
        cuts(wal_opt_u32(bytes), wal_opt_u32(bytes + tail), tail),
{
    reveal(wal_opt_u32);
    flag_cuts(bytes, tail);
    if let Ok((_, r1)) = wal_flag(bytes) {
        numbers_cut(r1, tail);
    }
}

/// A number that may be absent and is cut short ends too early.
proof fn opt_u64_cuts(bytes: Seq<u8>, tail: Seq<u8>)
    ensures
        cuts(wal_opt_u64(bytes), wal_opt_u64(bytes + tail), tail),
{
    reveal(wal_opt_u64);
    flag_cuts(bytes, tail);
    if let Ok((_, r1)) = wal_flag(bytes) {
        numbers_cut(r1, tail);
    }
}

/// A session that is put and is cut short ends too early.
proof fn session_upsert_cuts(bytes: Seq<u8>, tail: Seq<u8>)
    ensures
        cuts(wal_session_upsert(bytes), wal_session_upsert(bytes + tail), tail),
{
    reveal(wal_session_upsert);
    text_cuts(bytes, tail);
    if let Ok((_, r1)) = wal_text(bytes) {
        numbers_cut(r1, tail);
        if let Ok((_, r2)) = or_truncated(parse_u32(r1)) {
            opt_u64_cuts(r2, tail);
            if let Ok((_, r3)) = wal_opt_u64(r2) {
                numbers_cut(r3, tail);
            }
        }
    }
}

/// A subscription that is put and is cut short ends too early.
proof fn subscription_upsert_cuts(bytes: Seq<u8>, tail: Seq<u8>)
    ensures
        cuts(wal_subscription_upsert(bytes), wal_subscription_upsert(bytes + tail), tail),
{
    reveal(wal_subscription_upsert);
    text_cuts(bytes, tail);
    if let Ok((_, r1)) = wal_text(bytes) {
        text_cuts(r1, tail);
        if let Ok((_, r2)) = wal_text(r1) {
            text_cuts(r2, tail);
            if let Ok((_, r3)) = wal_text(r2) {
                opt_text_cuts(r3, tail);
                if let Ok((_, r4)) = wal_opt_text(r3) {
                    opt_u32_cuts(r4, tail);
                }
            }
        }
    }
}

/// A subscription that is removed and is cut short ends too early.
proof fn subscription_delete_cuts(bytes: Seq<u8>, tail: Seq<u8>)
    ensures
        cuts(wal_subscription_delete(bytes), wal_subscription_delete(bytes + tail), tail),
{
    reveal(wal_subscription_delete);
    text_cuts(bytes, tail);
    if let Ok((_, r1)) = wal_text(bytes) {
        text_cuts(r1, tail);
    }
}

/// A retained message that is put and is cut short ends too early.
proof fn retain_upsert_cuts(bytes: Seq<u8>, tail: Seq<u8>)
    ensures
        cuts(wal_retain_upsert(bytes), wal_retain_upsert(bytes + tail), tail),
{
    reveal(wal_retain_upsert);
    text_cuts(bytes, tail);
    if let Ok((_, r1)) = wal_text(bytes) {
        byte_cuts(r1, tail);
        if let Ok((_, r2)) = or_truncated(parse_u8(r1)) {
            numbers_cut(r2, tail);
            if let Ok((_, r3)) = or_truncated(parse_u32(r2)) {
                opt_u64_cuts(r3, tail);
            }
        }
    }
}

/// A retained message that is removed and is cut short ends too early.
proof fn retain_delete_cuts(bytes: Seq<u8>, tail: Seq<u8>)
    ensures
        cuts(wal_retain_delete(bytes), wal_retain_delete(bytes + tail), tail),
{
    reveal(wal_retain_delete);
    text_cuts(bytes, tail);
}

/// A publication that is queued and is cut short ends too early.
proof fn offline_enqueue_cuts(bytes: Seq<u8>, tail: Seq<u8>)
    ensures
        cuts(wal_offline_enqueue(bytes), wal_offline_enqueue(bytes + tail), tail),
{
    reveal(wal_offline_enqueue);
    text_cuts(bytes, tail);
    if let Ok((_, r1)) = wal_text(bytes) {
        numbers_cut(r1, tail);
        if let Ok((_, r2)) = or_truncated(parse_u64(r1)) {
            opt_u16_cuts(r2, tail);
            if let Ok((_, r3)) = wal_opt_u16(r2) {
                numbers_cut(r3, tail);
                if let Ok((_, r4)) = or_truncated(parse_u32(r3)) {
                    opt_u64_cuts(r4, tail);
                }
            }
        }
    }
}

/// A queued publication that is acknowledged and is cut short ends too early.
proof fn offline_ack_cuts(bytes: Seq<u8>, tail: Seq<u8>)
    ensures
        cuts(wal_offline_ack(bytes), wal_offline_ack(bytes + tail), tail),
{
    reveal(wal_offline_ack);
    text_cuts(bytes, tail);
    if let Ok((_, r1)) = wal_text(bytes) {
        numbers_cut(r1, tail);
    }
}

/// A publication in flight that is put and is cut short ends too early.
proof fn inflight_upsert_cuts(bytes: Seq<u8>, tail: Seq<u8>)
    ensures
        cuts(wal_inflight_upsert(bytes), wal_inflight_upsert(bytes + tail), tail),
{
    reveal(wal_inflight_upsert);
    text_cuts(bytes, tail);
    if let Ok((_, r1)) = wal_text(bytes) {
        numbers_cut(r1, tail);
        if let Ok((_, r2)) = or_truncated(parse_u16(r1)) {
            byte_cuts(r2, tail);
            if let Ok((_, r3)) = or_truncated(parse_u8(r2)) {
                direction_cuts(r3, tail);
                if let Ok((_, r4)) = wal_direction(r3) {
                    opt_u64_cuts(r4, tail);
                }
            }
        }
    }
}

/// A publication in flight that is acknowledged and is cut short ends too early.
proof fn inflight_ack_cuts(bytes: Seq<u8>, tail: Seq<u8>)
    ensures
        cuts(wal_inflight_ack(bytes), wal_inflight_ack(bytes + tail), tail),
{
    reveal(wal_inflight_ack);
    text_cuts(bytes, tail);
    if let Ok((_, r1)) = wal_text(bytes) {
        numbers_cut(r1, tail);
        if let Ok((_, r2)) = or_truncated(parse_u16(r1)) {
            direction_cuts(r2, tail);
        }
    }
}

/// What is behind an event's version and kind ends too early where it is cut short.
proof fn body_cuts(kind: u8, bytes: Seq<u8>, tail: Seq<u8>)
    ensures
        cuts(wal_body(kind, bytes), wal_body(kind, bytes + tail), tail),
{
    session_upsert_cuts(bytes, tail);
    subscription_upsert_cuts(bytes, tail);
    subscription_delete_cuts(bytes, tail);
    retain_upsert_cuts(bytes, tail);
    retain_delete_cuts(bytes, tail);
    offline_enqueue_cuts(bytes, tail);
    offline_ack_cuts(bytes, tail);
    inflight_upsert_cuts(bytes, tail);
    inflight_ack_cuts(bytes, tail);
}

/// An event that was written and is cut short, wherever that is, is refused because it ends too
/// early.
pub proof fn cut_event_is_refused(event: EventView, count: int)
    requires
        event_fits(event),
        0 <= count < event_bytes(event).len(),
    ensures
        event_of(event_bytes(event).take(count)) == Err::<EventView, Seq<char>>(
            truncated_event(),
        ),
{
    let bytes = event_bytes(event);
    let cut = bytes.take(count);
    let body = event_body(event);
    written_body_reads_back(event);
    assert(bytes =~= seq![EVENT_VERSION, event_kind(event)] + body);
    if count >= 1 {
        assert(cut[0] == EVENT_VERSION);
    }
    if count >= 2 {
        let head = body.take(count - 2);
        let tail = body.skip(count - 2);
        assert(head + tail =~= body);
        assert(cut.skip(1)[0] == event_kind(event));
        assert(cut.skip(1).skip(1) =~= head);
        body_cuts(event_kind(event), head, tail);
        if let Ok((_, left)) = wal_body(event_kind(event), head) {
            assert((left + tail).len() > 0);
        }
    }
}

/// Bytes of another version, and events of an unknown kind, are refused.
pub proof fn unknown_event_is_refused(bytes: Seq<u8>)
    requires
        bytes.len() > 0,
        bytes[0] != EVENT_VERSION || (bytes.len() > 1 && !(1 <= bytes[1] <= 9)),
    ensures
        event_of(bytes) == Err::<EventView, Seq<char>>(
            if bytes[0] != EVENT_VERSION {
                "unsupported Pulse vNext WAL event version"@
            } else {
                "unknown Pulse vNext WAL event kind "@ + decimal(bytes[1] as nat)
            },
        ),
{
}

} // verus!
