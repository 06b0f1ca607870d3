//! Publications that wait for a client, and when messages expire.
use vstd::prelude::*;

use crate::packet::PropertyOf;
use crate::packet::PropertyView;
use crate::packet::PublishPacket;
use crate::packet::PublishView;
use crate::value::Value;

verus! {

/// A publication that waits for a client, and when it expires.
#[derive(Debug, PartialEq)]
pub struct PendingPublish {
    pub packet: PublishPacket,
    pub expires_at_ms: Option<u64>,
}

/// What a `PendingPublish` stands for.
pub struct PendingView {
    pub packet: PublishView,
    pub expires_at_ms: Option<u64>,
}

impl DeepView for PendingPublish {
    type V = PendingView;

    open spec fn deep_view(&self) -> PendingView {
        PendingView {
            packet: self.packet.deep_view(),
            expires_at_ms: self.expires_at_ms.deep_view(),
        }
    }
}

impl Value for PendingPublish {
    fn dup(&self) -> (copy: Self) {
        PendingPublish {
            packet: self.packet.dup(),
            expires_at_ms: self.expires_at_ms.dup(),
        }
    }

    fn same(&self, other: &Self) -> (result: bool) {
        self.packet.same(&other.packet)
            && self.expires_at_ms.same(&other.expires_at_ms)
    }
}

/// A moment some seconds after another, at most the last moment there is.
pub open spec fn seconds_after(now_ms: u64, seconds: u32) -> u64 {
    if now_ms + seconds * 1_000 > u64::MAX {
        u64::MAX
    } else {
        (now_ms + seconds * 1_000) as u64
    }
}

/// The moment some seconds after another.
pub fn add_seconds(now_ms: u64, seconds: u32) -> (result: u64)
    ensures
        result == seconds_after(now_ms, seconds),
{
    now_ms.saturating_add(seconds as u64 * 1_000)
}

/// When a message with these properties, received now, expires: by its first expiry interval.
pub open spec fn expiry_of(properties: Seq<PropertyView>, now_ms: u64) -> Option<u64>
    decreases properties.len(),
{
    if properties.len() == 0 {
        None
    } else {
        match properties[0] {
            PropertyOf::MessageExpiryInterval(seconds) => Some(seconds_after(now_ms, seconds)),
            _ => expiry_of(properties.drop_first(), now_ms),
        }
    }
}

/// When a publication received now expires.
pub fn message_expires_at_ms(packet: &PublishPacket, now_ms: u64) -> (result: Option<u64>)
    ensures
        result == expiry_of(packet.deep_view().properties, now_ms),
{
    let ghost properties = packet.properties.deep_view();
    let mut index: usize = 0;
    assert(properties.skip(0) =~= properties);
    while index < packet.properties.len()
        invariant
            index <= packet.properties.len(),
            properties == packet.properties.deep_view(),
            expiry_of(properties, now_ms) == expiry_of(properties.skip(index as int), now_ms),
        decreases packet.properties.len() - index,
    {
        assert(properties.skip(index as int)[0] == packet.properties@[index as int].deep_view());
        assert(properties.skip(index as int).drop_first() =~= properties.skip(index + 1));
        if let PropertyOf::MessageExpiryInterval(seconds) = &packet.properties[index] {
            return Some(add_seconds(now_ms, *seconds));
        }
        index += 1;
    }
    None
}

/// A moment of expiry has come.
pub open spec fn expired(expires_at_ms: Option<u64>, now_ms: u64) -> bool {
    expires_at_ms matches Some(at) && at <= now_ms
}

/// Whether a moment of expiry has come.
pub fn is_message_expired(expires_at_ms: Option<u64>, now_ms: u64) -> (result: bool)
    ensures
        result == expired(expires_at_ms, now_ms),
{
    match expires_at_ms {
        Some(at) => at <= now_ms,
        None => false,
    }
}

} // verus!
