//! How each packet is answered.
use vstd::prelude::*;

use crate::auth::publish_allowed;
use crate::broker::BrokerView;
use crate::broker::acknowledged_qos1;
use crate::broker::completed_qos2;
use crate::broker::finished_qos2;
use crate::broker::publication;
use crate::broker::received_qos2;
use crate::broker::repeated;
use crate::broker::stored_qos2;
use crate::broker::subscribed;
use crate::broker::unsubscribed;
use crate::connection::alias_resolved;
use crate::connection::topic_alias_in;
use crate::entrance_laws::put_out;
use crate::handler::EffectView;
use crate::handler::Handled;
use crate::handler::HandlerView;
use crate::handler::StepView;
use crate::handler::dismissed;
use crate::handler::handled;
use crate::handler::refreshed;
use crate::handler::step_taken;
use crate::netty::mqtt_encoding;
use crate::packet::AckView;
use crate::packet::DisconnectView;
use crate::packet::PacketView;
use crate::packet::PropertyView;
use crate::packet::PublishView;
use crate::packet::QoS;
use crate::packet::SubscribeView;
use crate::packet::UnsubAckView;
use crate::packet::UnsubscribeView;
use crate::protocol::SUCCESS;
use crate::quality_laws::first_property_counts;
use crate::reason::explained_ack;
use crate::reason::reason_properties_of;
use crate::session::ClientEntryView;
use crate::session::StateView;
use crate::write::suback_form;

verus! {

/// A packet is answered with some effects, and then nothing is left to do.
pub open spec fn replied(
    reply: Handled,
    handler: HandlerView,
    broker: BrokerView,
    effects: Seq<EffectView>,
) -> bool {
    reply.handler == handler && reply.broker == broker && reply.effects == effects
        && reply.step is Done
}

/// A client is told why it has to go, and is then let go, with or without its will being published;
/// until then nothing changes.
pub open spec fn sent_away(
    reply: Handled,
    handler: HandlerView,
    broker: BrokerView,
    code: u8,
    publish_will: bool,
) -> bool {
    let effects = reply.effects;
    &&& reply.handler == handler
    &&& reply.broker == broker
    &&& reply.step == StepView::Leave { publish_will }
    &&& exists|notice: DisconnectView|
        effects.len() > 0 && effects.last() == #[trigger] put_out(PacketView::Disconnect(notice))
            && notice.reason_code == code
    &&& forall|i: int|
        0 <= i < effects.len() - 1 ==> !((#[trigger] effects[i]) is WriteAndFlush)
            && !(effects[i] is Deliver)
}

/// An acknowledgement that all went well.
pub open spec fn all_well(packet_id: u16) -> AckView {
    AckView { packet_id, reason_code: 0, properties: Seq::empty() }
}

/// What went wrong is told in one reason string, and nothing is told where all went well.
pub proof fn reasons_are_told(code: u8)
    ensures
        code == 0 ==> reason_properties_of(code).len() == 0,
        reason_properties_of(code).len() <= 1,
        forall|i: int|
            0 <= i < reason_properties_of(code).len() ==> (#[trigger] reason_properties_of(
                code,
            )[i]) is ReasonString,
        reason_properties_of(code).len() == 1 <==> code == 0x81 || code == 0x82 || code == 0x85
            || code == 0x86 || code == 0x87 || code == 0x88 || code == 0x8b || code == 0x8c || code
            == 0x8f || code == 0x90 || code == 0x91 || code == 0x92 || code == 0x93 || code == 0x94
            || code == 0x95 || code == 0x97 || code == 0x99,
{
}

proof fn sent_away_by(
    handler: HandlerView,
    broker: BrokerView,
    effects: Seq<EffectView>,
    code: u8,
    publish_will: bool,
)
    requires
        forall|i: int|
            0 <= i < effects.len() ==> !((#[trigger] effects[i]) is WriteAndFlush)
                && !(effects[i] is Deliver),
    ensures
        sent_away(
            dismissed(handler, broker, effects, code, publish_will),
            handler,
            broker,
            code,
            publish_will,
        ),
{
    let notice = DisconnectView {
        reason_code: code,
        properties: reason_properties_of(code),
    };
    let reply = dismissed(handler, broker, effects, code, publish_will);
    assert(reply.effects.last() == put_out(PacketView::Disconnect(notice)));
}

/// Every packet of a connected client puts off the moment at which it counts as silent, by the
/// interval that it is watched with, and changes nothing else of the broker.
pub proof fn packet_puts_off_silence(
    handler: HandlerView,
    broker: BrokerView,
    connection_id: u64,
    now_ms: u64,
)
    requires
        broker.state.clients.dom().contains(connection_id),
    ensures
        ({
            let after = refreshed(handler, broker, connection_id, now_ms);
            let client = after.state.clients[connection_id];
            &&& after == (BrokerView {
                state: StateView {
                    clients: broker.state.clients.insert(connection_id, client),
                    ..broker.state
                },
                ..broker
            })
            &&& client == (ClientEntryView {
                keep_alive_deadline_ms: client.keep_alive_deadline_ms,
                ..broker.state.clients[connection_id]
            })
            &&& handler.keep_alive_interval_ms is None ==> client.keep_alive_deadline_ms
                == broker.state.clients[connection_id].keep_alive_deadline_ms
            &&& handler.keep_alive_interval_ms matches Some(interval_ms)
                ==> client.keep_alive_deadline_ms == if now_ms + interval_ms > u64::MAX {
                u64::MAX as int
            } else {
                now_ms + interval_ms
            }
        }),
{
    let after = refreshed(handler, broker, connection_id, now_ms);
    assert(after.state.clients =~= broker.state.clients.insert(
        connection_id,
        after.state.clients[connection_id],
    ));
}

/// Whoever is not let in and sends anything but a request to be, whoever asks twice, and whoever
/// sends what only a broker sends is sent away for breaking the protocol; whoever wants to exchange
/// further credentials is sent away for that.
pub proof fn protocol_is_kept(
    handler: HandlerView,
    broker: BrokerView,
    connection_id: u64,
    packet: PacketView,
    now_ms: u64,
)
    ensures
        ({
            let reply = handled(handler, broker, connection_id, packet, now_ms);
            let known = if handler.connected {
                refreshed(handler, broker, connection_id, now_ms)
            } else {
                broker
            };
            let from_broker = packet is ConnAck || packet is SubAck || packet is UnsubAck
                || packet is PingResp;
            &&& packet is Auth ==> sent_away(reply, handler, known, 0x8c, true)
            &&& !handler.connected && !(packet is Connect) && !(packet is Auth) ==> sent_away(
                reply,
                handler,
                known,
                0x82,
                true,
            )
            &&& handler.connected && packet is Connect ==> sent_away(
                reply,
                handler,
                known,
                0x82,
                true,
            )
            &&& handler.connected && from_broker ==> sent_away(reply, handler, known, 0x82, true)
        }),
{
    let known = if handler.connected {
        refreshed(handler, broker, connection_id, now_ms)
    } else {
        broker
    };
    sent_away_by(handler, known, Seq::empty(), 0x82, true);
    sent_away_by(handler, known, Seq::empty(), 0x8c, true);
}

/// A ping is answered, and an unsubscription is carried out and confirmed filter by filter.
pub proof fn pings_and_unsubscriptions_are_answered(
    handler: HandlerView,
    broker: BrokerView,
    connection_id: u64,
    packet: UnsubscribeView,
    now_ms: u64,
)
    requires
        handler.connected,
    ensures
        ({
            let known = refreshed(handler, broker, connection_id, now_ms);
            let ping = handled(handler, broker, connection_id, PacketView::PingReq, now_ms);
            let leave = handled(
                handler,
                broker,
                connection_id,
                PacketView::Unsubscribe(packet),
                now_ms,
            );
            &&& replied(ping, handler, known, seq![put_out(PacketView::PingResp)])
            &&& leave.handler == handler
            &&& leave.step is Done
            &&& leave.broker == (BrokerView {
                state: unsubscribed(known.state, connection_id, packet.topic_filters),
                ..known
            })
            &&& leave.effects.len() == 1
            &&& exists|answer: UnsubAckView|
                {
                    &&& leave.effects[0] == #[trigger] put_out(PacketView::UnsubAck(answer))
                    &&& answer.packet_id == packet.packet_id
                    &&& answer.properties.len() == 0
                    &&& answer.reason_codes.len() == packet.topic_filters.len()
                    &&& forall|i: int|
                        0 <= i < answer.reason_codes.len() ==> #[trigger] answer.reason_codes[i]
                            == 0
                }
        }),
{
    let ping = handled(handler, broker, connection_id, PacketView::PingReq, now_ms);
    assert(ping.effects =~= seq![put_out(PacketView::PingResp)]);
    let leave = handled(
        handler,
        broker,
        connection_id,
        PacketView::Unsubscribe(packet),
        now_ms,
    );
    let answer = UnsubAckView {
        packet_id: packet.packet_id,
        properties: Seq::empty(),
        reason_codes: repeated(SUCCESS, packet.topic_filters.len()),
    };
    assert(leave.effects[0] == put_out(PacketView::UnsubAck(answer)));
}

/// A release is confirmed under its identifier, after what was kept under it has gone out; one
/// under an unknown identifier is answered with that.
pub proof fn releases_are_confirmed(
    handler: HandlerView,
    broker: BrokerView,
    connection_id: u64,
    packet: AckView,
    now_ms: u64,
)
    requires
        handler.connected,
    ensures
        ({
            let known = refreshed(handler, broker, connection_id, now_ms);
            let reply = handled(
                handler,
                broker,
                connection_id,
                PacketView::PubRel(packet),
                now_ms,
            );
            let (after, sent) = completed_qos2(
                known.state,
                known.config,
                connection_id,
                packet.packet_id,
                now_ms,
            );
            &&& sent matches Some(list) ==> replied(
                reply,
                handler,
                BrokerView { state: after, ..known },
                seq![
                    EffectView::Deliver(list),
                    put_out(PacketView::PubComp(all_well(packet.packet_id))),
                ],
            )
            &&& sent is None ==> exists|answer: AckView| #[trigger]
                replied(reply, handler, known, seq![put_out(PacketView::PubComp(answer))])
                    && answer.packet_id == packet.packet_id && answer.reason_code == 0x92
        }),
{
    let known = refreshed(handler, broker, connection_id, now_ms);
    let reply = handled(handler, broker, connection_id, PacketView::PubRel(packet), now_ms);
    let sent = completed_qos2(
        known.state,
        known.config,
        connection_id,
        packet.packet_id,
        now_ms,
    ).1;
    reasons_are_told(0);
    assert(reason_properties_of(0) =~= Seq::empty());
    let answer = explained_ack(packet.packet_id, 0x92);
    if sent is None {
        assert(reply.effects =~= seq![put_out(PacketView::PubComp(answer))]);
        assert(replied(reply, handler, known, seq![put_out(PacketView::PubComp(answer))]));
    } else {
        assert(reply.effects =~= seq![
            EffectView::Deliver(sent->0),
            put_out(PacketView::PubComp(all_well(packet.packet_id))),
        ]);
    }
}

/// What a client acknowledges makes room for what waits; a receipt is answered with a release under
/// the same identifier first; a completion is answered with nothing. An identifier under which
/// nothing is open sends the client away.
pub proof fn acknowledgements_are_answered(
    handler: HandlerView,
    broker: BrokerView,
    connection_id: u64,
    packet: AckView,
    now_ms: u64,
)
    requires
        handler.connected,
    ensures
        ({
            let known = refreshed(handler, broker, connection_id, now_ms);
            let id = packet.packet_id;
            let ack = handled(handler, broker, connection_id, PacketView::PubAck(packet), now_ms);
            let receipt = handled(
                handler,
                broker,
                connection_id,
                PacketView::PubRec(packet),
                now_ms,
            );
            let completion = handled(
                handler,
                broker,
                connection_id,
                PacketView::PubComp(packet),
                now_ms,
            );
            let first = acknowledged_qos1(known.state, connection_id, id, now_ms);
            let second = received_qos2(known.state, connection_id, id, now_ms);
            let third = finished_qos2(known.state, connection_id, id);
            &&& first.1 matches Some(list) ==> replied(
                ack,
                handler,
                BrokerView { state: first.0, ..known },
                seq![EffectView::Deliver(list)],
            )
            &&& first.1 is None ==> sent_away(ack, handler, known, 0x92, true)
            &&& second.1 matches Some(list) ==> replied(
                receipt,
                handler,
                BrokerView { state: second.0, ..known },
                seq![put_out(PacketView::PubRel(all_well(id))), EffectView::Deliver(list)],
            )
            &&& second.1 is None ==> sent_away(receipt, handler, known, 0x92, true)
            &&& third.1 ==> replied(
                completion,
                handler,
                BrokerView { state: third.0, ..known },
                Seq::empty(),
            )
            &&& !third.1 ==> sent_away(completion, handler, known, 0x92, true)
        }),
{
    let known = refreshed(handler, broker, connection_id, now_ms);
    let id = packet.packet_id;
    sent_away_by(handler, known, Seq::empty(), 0x92, true);
    reasons_are_told(0);
    assert(reason_properties_of(0) =~= Seq::empty());
    let ack = handled(handler, broker, connection_id, PacketView::PubAck(packet), now_ms);
    let receipt = handled(handler, broker, connection_id, PacketView::PubRec(packet), now_ms);
    if let Some(list) = acknowledged_qos1(known.state, connection_id, id, now_ms).1 {
        assert(ack.effects =~= seq![EffectView::Deliver(list)]);
    }
    if let Some(list) = received_qos2(known.state, connection_id, id, now_ms).1 {
        assert(receipt.effects =~= seq![
            put_out(PacketView::PubRel(all_well(id))),
            EffectView::Deliver(list),
        ]);
    }
}

/// A publisher may publish to a topic.
pub open spec fn is_allowed(broker: BrokerView, connection_id: u64, topic: Seq<char>) -> bool {
    publish_allowed(
        broker.rules,
        if broker.state.clients.dom().contains(connection_id) {
            broker.state.clients[connection_id].principal
        } else {
            None
        },
        topic,
    )
}

/// The first of some properties that gives a topic alias.
pub open spec fn alias_at(properties: Seq<PropertyView>, index: int) -> bool {
    &&& 0 <= index < properties.len()
    &&& properties[index] is TopicAlias
    &&& forall|i: int| 0 <= i < index ==> !((#[trigger] properties[i]) is TopicAlias)
}

/// An alias stands for the topic that it came with last; one that came with none, and one that is
/// nought or beyond the limit, sends the client away. Without an alias the topic is the packet's
/// own.
pub proof fn aliases_stand_for_topics(
    aliases: Map<u16, Seq<char>>,
    limit: u16,
    packet: PublishView,
    index: int,
)
    requires
        alias_at(packet.properties, index) || (index == packet.properties.len() && forall|i: int|
            0 <= i < index ==> !((#[trigger] packet.properties[i]) is TopicAlias)),
    ensures
        ({
            let resolved = alias_resolved(aliases, limit, packet);
            &&& index == packet.properties.len() ==> resolved == Some((aliases, packet.topic_name))
            &&& index < packet.properties.len() ==> (
            packet.properties[index] matches PropertyView::TopicAlias(alias) && {
                let sound = 0 < alias <= limit;
                &&& !sound ==> resolved is None
                &&& sound && packet.topic_name.len() > 0 ==> resolved == Some(
                    (aliases.insert(alias, packet.topic_name), packet.topic_name),
                )
                &&& sound && packet.topic_name.len() == 0 && aliases.dom().contains(alias)
                    ==> resolved == Some((aliases, aliases[alias]))
                &&& sound && packet.topic_name.len() == 0 && !aliases.dom().contains(alias)
                    ==> resolved is None
            })
        }),
{
    first_property_counts(packet.properties, topic_alias_in(), index);
}

/// What is wrong with a publication, by the code that its publisher is told and whether its will is
/// published when it is sent away for it.
pub open spec fn fault_of(broker: BrokerView, packet: PublishView) -> Option<u8> {
    let topic = packet.topic_name;
    if topic.len() == 0 || topic.contains('+') || topic.contains('#') {
        Some(0x90)
    } else if mqtt_encoding(PacketView::Publish(packet), 268_435_455) matches Ok(bytes)
        && bytes.len() > broker.config.server_maximum_packet_size {
        Some(0x95)
    } else if packet.qos != QoS::AtMostOnce && packet.packet_id is None {
        Some(0x81)
    } else {
        None
    }
}

/// A publication with an alias that stands for nothing, or with a fault, sends its publisher away.
/// One that is not allowed sends its publisher away without publishing its will if it needs no
/// acknowledgement, and is refused in its acknowledgement otherwise. One that is allowed is served
/// at once if it needs no acknowledgement; it is acknowledged first and then served; or it is kept
/// until it is released.
pub proof fn publications_are_answered(
    handler: HandlerView,
    broker: BrokerView,
    connection_id: u64,
    packet: PublishView,
    now_ms: u64,
)
    requires
        handler.connected,
    ensures
        ({
            let known = refreshed(handler, broker, connection_id, now_ms);
            let reply = handled(
                handler,
                broker,
                connection_id,
                PacketView::Publish(packet),
                now_ms,
            );
            match alias_resolved(handler.aliases, handler.alias_limit, packet) {
                None => sent_away(reply, handler, known, 0x94, true),
                Some((aliases, topic)) => publish_answered(
                    HandlerView { aliases, ..handler },
                    known,
                    reply,
                    connection_id,
                    PublishView { topic_name: topic, ..packet },
                    now_ms,
                ),
            }
        }),
{
    let known = refreshed(handler, broker, connection_id, now_ms);
    let received = Seq::<EffectView>::empty().push(EffectView::PublishReceived(packet.qos));
    sent_away_by(handler, known, received, 0x94, true);
    reasons_are_told(0);
    assert(reason_properties_of(0) =~= Seq::empty());
    if let Some((aliases, topic)) = alias_resolved(handler.aliases, handler.alias_limit, packet) {
        let named = HandlerView { aliases, ..handler };
        let whole = PublishView { topic_name: topic, ..packet };
        let reply = handled(handler, broker, connection_id, PacketView::Publish(packet), now_ms);
        let mark = EffectView::PublishReceived(packet.qos);
        sent_away_by(named, known, received, 0x90, true);
        sent_away_by(named, known, received, 0x95, true);
        sent_away_by(named, known, received, 0x81, true);
        sent_away_by(named, known, received, 0x87, false);
        if fault_of(known, whole) is None {
            if packet.qos == QoS::AtMostOnce {
                let spread = publication(known.state, known.config, connection_id, whole, now_ms);
                if is_allowed(known, connection_id, topic) {
                    assert(reply.effects =~= seq![
                        mark,
                        EffectView::Deliver(spread.1),
                        EffectView::PublishServed,
                    ]);
                }
            } else {
                let id = packet.packet_id->0;
                let stored = stored_qos2(
                    known.state,
                    known.config,
                    connection_id,
                    id,
                    whole,
                    now_ms,
                );
                let ack = explained_ack(
                    id,
                    if !is_allowed(known, connection_id, topic) {
                        0x87
                    } else if packet.qos == QoS::AtLeastOnce {
                        0
                    } else {
                        stored.1
                    },
                );
                assert(reply.effects =~= seq![
                    mark,
                    confirmation(packet.qos == QoS::ExactlyOnce, ack),
                ]);
            }
        }
    }
}

/// What confirms that a publication came: a receipt if it is to be served once, an acknowledgement
/// otherwise.
pub open spec fn confirmation(once: bool, ack: AckView) -> EffectView {
    if once {
        put_out(PacketView::PubRec(ack))
    } else {
        put_out(PacketView::PubAck(ack))
    }
}

/// How a publication with its topic is answered.
pub open spec fn publish_answered(
    handler: HandlerView,
    broker: BrokerView,
    reply: Handled,
    connection_id: u64,
    packet: PublishView,
    now_ms: u64,
) -> bool {
    let allowed = is_allowed(broker, connection_id, packet.topic_name);
    let mark = EffectView::PublishReceived(packet.qos);
    if fault_of(broker, packet) is Some {
        sent_away(reply, handler, broker, fault_of(broker, packet)->0, true)
    } else if packet.qos == QoS::AtMostOnce {
        let spread = publication(broker.state, broker.config, connection_id, packet, now_ms);
        if allowed {
            replied(
                reply,
                handler,
                BrokerView { state: spread.0, ..broker },
                seq![mark, EffectView::Deliver(spread.1), EffectView::PublishServed],
            )
        } else {
            sent_away(reply, handler, broker, 0x87, false)
        }
    } else {
        let id = packet.packet_id->0;
        let stored = stored_qos2(
            broker.state,
            broker.config,
            connection_id,
            id,
            packet,
            now_ms,
        );
        let twice = packet.qos == QoS::ExactlyOnce;
        &&& reply.handler == handler
        &&& reply.broker == (if allowed && twice {
            BrokerView { state: stored.0, ..broker }
        } else {
            broker
        })
        &&& reply.step == (if allowed && !twice {
            StepView::Publish(packet)
        } else {
            StepView::Done
        })
        &&& reply.effects.len() == 2
        &&& reply.effects[0] == mark
        &&& exists|ack: AckView|
            {
                &&& reply.effects[1] == #[trigger] confirmation(twice, ack)
                &&& ack.packet_id == id
                &&& ack.reason_code == (if !allowed {
                    0x87
                } else if twice {
                    stored.1
                } else {
                    0
                })
                &&& ack.reason_code == 0 ==> ack.properties.len() == 0
            }
    }
}

/// A publication that was acknowledged is then served as any other.
pub proof fn acknowledged_publication_is_served(
    handler: HandlerView,
    broker: BrokerView,
    connection_id: u64,
    packet: PublishView,
    now_ms: u64,
)
    ensures
        ({
            let spread = publication(broker.state, broker.config, connection_id, packet, now_ms);
            replied(
                step_taken(handler, broker, connection_id, StepView::Publish(packet), now_ms),
                handler,
                BrokerView { state: spread.0, ..broker },
                seq![EffectView::Deliver(spread.1), EffectView::PublishServed],
            )
        }),
{
    let spread = publication(broker.state, broker.config, connection_id, packet, now_ms);
    let reply = step_taken(handler, broker, connection_id, StepView::Publish(packet), now_ms);
    assert(reply.effects =~= seq![EffectView::Deliver(spread.1), EffectView::PublishServed]);
}

/// A subscription is answered under its identifier before anything retained is sent, and what is
/// retained goes to the subscriber's own connection.
pub proof fn subscriptions_are_answered(
    handler: HandlerView,
    broker: BrokerView,
    connection_id: u64,
    packet: SubscribeView,
    now_ms: u64,
)
    requires
        handler.connected,
    ensures
        ({
            let known = refreshed(handler, broker, connection_id, now_ms);
            let reply = handled(
                handler,
                broker,
                connection_id,
                PacketView::Subscribe(packet),
                now_ms,
            );
            let (after, answer, sent) = subscribed(
                known.state,
                known.rules,
                known.config,
                connection_id,
                packet,
                now_ms,
            );
            &&& answer.packet_id == packet.packet_id
            &&& sent.len() == 0 ==> replied(
                reply,
                handler,
                BrokerView { state: after, ..known },
                seq![EffectView::WriteAndFlush(suback_form(answer))],
            )
            &&& sent.len() > 0 ==> replied(
                reply,
                handler,
                BrokerView { state: after, ..known },
                seq![EffectView::Write(suback_form(answer)), EffectView::DeliverHere(sent)],
            )
        }),
{
    let known = refreshed(handler, broker, connection_id, now_ms);
    let reply = handled(handler, broker, connection_id, PacketView::Subscribe(packet), now_ms);
    let (after, answer, sent) = subscribed(
        known.state,
        known.rules,
        known.config,
        connection_id,
        packet,
        now_ms,
    );
    if sent.len() == 0 {
        assert(reply.effects =~= seq![EffectView::WriteAndFlush(suback_form(answer))]);
    } else {
        assert(reply.effects =~= seq![
            EffectView::Write(suback_form(answer)),
            EffectView::DeliverHere(sent),
        ]);
    }
}

} // verus!
