//! The order in which deliveries are written and sent.
use vstd::prelude::*;

use crate::delivery::Delivery;
use crate::delivery::DeliveryView;
use crate::ordered_map::OrderedMap;
use crate::packet::QoS;
use crate::value::Value;

verus! {

/// What a quality of service is called.
pub open spec fn qos_label(qos: QoS) -> Seq<char> {
    match qos {
        QoS::AtMostOnce => "0"@,
        QoS::AtLeastOnce => "1"@,
        QoS::ExactlyOnce => "2"@,
    }
}

/// What a quality of service is called.
pub fn qos_name(qos: QoS) -> (result: &'static str)
    ensures
        result@ == qos_label(qos),
{
    match qos {
        QoS::AtMostOnce => "0",
        QoS::AtLeastOnce => "1",
        QoS::ExactlyOnce => "2",
    }
}

/// Those of some deliveries that are for a connection, or those that are not, in order.
pub open spec fn delivered_to(
    deliveries: Seq<DeliveryView>,
    connection_id: u64,
    own: bool,
) -> Seq<DeliveryView>
    decreases deliveries.len(),
{
    if deliveries.len() == 0 {
        Seq::empty()
    } else {
        let front = delivered_to(deliveries.drop_last(), connection_id, own);
        if (deliveries.last().connection_id == connection_id) == own {
            front.push(deliveries.last())
        } else {
            front
        }
    }
}

/// Parts the deliveries for a connection from the others.
pub fn part_deliveries(deliveries: Vec<Delivery>, connection_id: u64) -> (result: (
    Vec<Delivery>,
    Vec<Delivery>,
))
    ensures
        result.0.deep_view() == delivered_to(deliveries.deep_view(), connection_id, true),
        result.1.deep_view() == delivered_to(deliveries.deep_view(), connection_id, false),
{
    let ghost list = deliveries.deep_view();
    let mut own: Vec<Delivery> = Vec::new();
    let mut others: Vec<Delivery> = Vec::new();
    let mut index: usize = 0;
    proof {
        assert(own.deep_view() =~= Seq::<DeliveryView>::empty());
        assert(others.deep_view() =~= Seq::<DeliveryView>::empty());
    }
    while index < deliveries.len()
        invariant
            index <= deliveries@.len(),
            list == deliveries.deep_view(),
            own.deep_view() == delivered_to(list.take(index as int), connection_id, true),
            others.deep_view() == delivered_to(list.take(index as int), connection_id, false),
        decreases deliveries@.len() - index,
    {
        let ghost before = (own.deep_view(), others.deep_view());
        proof {
            assert(list.take(index + 1).drop_last() =~= list.take(index as int));
            assert(list.take(index + 1).last() == deliveries@[index as int].deep_view());
        }
        let item: Delivery = deliveries[index].dup();
        let ghost view = item.deep_view();
        if item.connection_id == connection_id {
            own.push(item);
            assert(own.deep_view() =~= before.0.push(view));
        } else {
            others.push(item);
            assert(others.deep_view() =~= before.1.push(view));
        }
        index += 1;
    }
    assert(list.take(index as int) =~= list);
    (own, others)
}

/// Each of some connections once, in the order of their first mention.
pub open spec fn first_mentions(connections: Seq<u64>) -> Seq<u64>
    decreases connections.len(),
{
    if connections.len() == 0 {
        Seq::empty()
    } else {
        let front = first_mentions(connections.drop_last());
        if front.contains(connections.last()) {
            front
        } else {
            front.push(connections.last())
        }
    }
}

/// The connections to send on, from those that were written to.
pub fn connections_to_flush(written: &Vec<u64>) -> (result: Vec<u64>)
    ensures
        result@ == first_mentions(written@),
{
    let mut result: Vec<u64> = Vec::new();
    let mut seen: OrderedMap<u64, ()> = OrderedMap::new();
    let mut index: usize = 0;
    while index < written.len()
        invariant
            index <= written@.len(),
            result@ == first_mentions(written@.take(index as int)),
            forall|id: u64| #[trigger]
                seen.deep_view().dom().contains(id) <==> result@.contains(id),
        decreases written@.len() - index,
    {
        proof {
            assert(written@.take(index + 1).drop_last() =~= written@.take(index as int));
            assert(written@.take(index + 1).last() == written@[index as int]);
        }
        let id: u64 = written[index];
        if !seen.contains_key(&id) {
            let ghost before = result@;
            seen.insert(id, ());
            result.push(id);
            proof {
                assert forall|other: u64| #[trigger]
                    seen.deep_view().dom().contains(other) <==> result@.contains(other) by {
                    if before.contains(other) {
                        let i = choose|i: int| 0 <= i < before.len() && before[i] == other;
                        assert(result@[i] == other);
                    }
                    assert(result@[before.len() as int] == id);
                }
            }
        }
        index += 1;
    }
    assert(written@.take(index as int) =~= written@);
    result
}

/// A connection is sent on where and only where it was written to, and no connection twice.
pub proof fn every_connection_is_flushed_once(written: Seq<u64>)
    ensures
        first_mentions(written).no_duplicates(),
        forall|id: u64| #[trigger]
            first_mentions(written).contains(id) <==> written.contains(id),
    decreases written.len(),
{
    if written.len() > 0 {
        let front = written.drop_last();
        every_connection_is_flushed_once(front);
        let before = first_mentions(front);
        let last = written.last();
        let after = first_mentions(written);
        assert forall|id: u64| #[trigger] after.contains(id) <==> written.contains(id) by {
            if after.contains(id) {
                let i = choose|i: int| 0 <= i < after.len() && after[i] == id;
                if i < before.len() {
                    assert(before[i] == id);
                    assert(before.contains(id));
                    let j = choose|j: int| 0 <= j < front.len() && front[j] == id;
                    assert(written[j] == id);
                } else {
                    assert(id == last);
                    assert(written[written.len() - 1] == id);
                }
            }
            if written.contains(id) {
                let i = choose|i: int| 0 <= i < written.len() && written[i] == id;
                if i < front.len() {
                    assert(front[i] == id);
                    assert(before.contains(id));
                    let j = choose|j: int| 0 <= j < before.len() && before[j] == id;
                    assert(after[j] == id);
                } else {
                    assert(id == last);
                    if !before.contains(last) {
                        assert(after[before.len() as int] == id);
                    }
                }
            }
        }
        if !before.contains(last) {
            assert forall|i: int, j: int|
                0 <= i < after.len() && 0 <= j < after.len() && i != j implies after[i]
                != after[j] by {
                if i < before.len() {
                    assert(before[i] == after[i]);
                    assert(before.contains(after[i]));
                }
                if j < before.len() {
                    assert(before[j] == after[j]);
                    assert(before.contains(after[j]));
                }
            }
        }
    }
}

} // verus!
