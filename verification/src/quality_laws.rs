//! Qualities of service, and moments of expiry.
use vstd::prelude::*;

use crate::connection::first_of;
use crate::message::expired;
use crate::message::expiry_of;
use crate::packet::PropertyOf;
use crate::packet::PropertyView;
use crate::packet::QoS;
use crate::packet::lower_qos;
use crate::session::session_deadline;

verus! {

/// A publication goes out with a quality of service that is neither above the one that it was
/// published with nor above the one that was granted, and is one of the two; which of them comes
/// first does not matter.
pub proof fn quality_is_never_raised(published: QoS, granted: QoS)
    ensures
        ({
            let sent = lower_qos(published, granted);
            &&& sent == published || sent == granted
            &&& sent == QoS::ExactlyOnce ==> published == QoS::ExactlyOnce && granted
                == QoS::ExactlyOnce
            &&& sent == QoS::AtLeastOnce ==> published != QoS::AtMostOnce && granted
                != QoS::AtMostOnce
            &&& sent == QoS::AtMostOnce ==> published == QoS::AtMostOnce || granted
                == QoS::AtMostOnce
            &&& sent.rank() <= published.rank()
            &&& sent.rank() <= granted.rank()
            &&& sent == lower_qos(granted, published)
        }),
{
}

/// The numbers of the qualities of service are those of the wire.
pub proof fn quality_numbers()
    ensures
        QoS::AtMostOnce.rank() == 0,
        QoS::AtLeastOnce.rank() == 1,
        QoS::ExactlyOnce.rank() == 2,
{
}

/// A publication expires as many seconds after it came as its first expiry interval says, if there
/// is one; and never where there is none.
pub proof fn expiry_counts_from_arrival(properties: Seq<PropertyView>, now_ms: u64, index: int)
    requires
        0 <= index <= properties.len(),
        forall|i: int|
            0 <= i < index ==> !((#[trigger] properties[i]) is MessageExpiryInterval),
        index < properties.len() ==> properties[index] is MessageExpiryInterval,
    ensures
        index == properties.len() ==> expiry_of(properties, now_ms) is None,
        index < properties.len() ==> (properties[index] matches PropertyOf::MessageExpiryInterval(
            seconds,
        ) && (expiry_of(properties, now_ms) matches Some(at) && if now_ms + seconds * 1000
            <= u64::MAX {
            at == now_ms + seconds * 1000
        } else {
            at == u64::MAX
        })),
    decreases properties.len(),
{
    if properties.len() > 0 && index > 0 {
        let rest = properties.drop_first();
        assert(!(properties[0] is MessageExpiryInterval));
        assert forall|i: int| 0 <= i < index - 1 implies !((
        #[trigger] rest[i]) is MessageExpiryInterval) by {
            assert(rest[i] == properties[i + 1]);
        }
        expiry_counts_from_arrival(rest, now_ms, index - 1);
    }
}

/// What has a moment of expiry has expired from that moment on; what has none never does.
pub proof fn expiry_comes_with_its_moment(at: u64, now_ms: u64)
    ensures
        expired(Some(at), now_ms) <==> now_ms >= at,
        !expired(None, now_ms),
{
}

/// A session that is left lasts for as many seconds as its client asked for, and for ever where the
/// client asked for the most there is.
pub proof fn session_lasts_as_asked(seconds: u32, left_at_ms: u64)
    ensures
        seconds == 0xffff_ffff ==> session_deadline(seconds, left_at_ms) is None,
        seconds < 0xffff_ffff ==> (session_deadline(seconds, left_at_ms) matches Some(at)
            && if left_at_ms + seconds * 1000 <= u64::MAX {
            at == left_at_ms + seconds * 1000
        } else {
            at == u64::MAX
        }),
{
}

/// What the first of some properties of a kind says is what is taken.
pub proof fn first_property_counts<T>(
    properties: Seq<PropertyView>,
    pick: spec_fn(PropertyView) -> Option<T>,
    index: int,
)
    requires
        0 <= index <= properties.len(),
        forall|i: int| 0 <= i < index ==> pick(#[trigger] properties[i]) is None,
        index < properties.len() ==> pick(properties[index]) is Some,
    ensures
        first_of(properties, pick) == (if index < properties.len() {
            pick(properties[index])
        } else {
            None
        }),
    decreases properties.len(),
{
    if properties.len() > 0 && index > 0 {
        let rest = properties.drop_first();
        assert(pick(properties[0]) is None);
        assert forall|i: int| 0 <= i < index - 1 implies pick(#[trigger] rest[i]) is None by {
            assert(rest[i] == properties[i + 1]);
        }
        first_property_counts(rest, pick, index - 1);
    }
}

} // verus!
