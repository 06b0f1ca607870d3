//! Who is let in, under which name, and on which terms.
use vstd::prelude::*;

use crate::auth::authenticated;
use crate::broker::BrokerView;
use crate::broker::ConnectOutcomeView;
use crate::broker::attached;
use crate::broker::connecting;
use crate::broker::generated_name;
use crate::broker::number_after;
use crate::broker::resumed_session;
use crate::broker::started;
use crate::config::BrokerConfig;
use crate::connection::ConnectOptions;
use crate::connection::bad_payload_format;
use crate::connection::capabilities;
use crate::connection::connect_defect;
use crate::connection::malformed_property;
use crate::connection::maximum_packet_size_in;
use crate::connection::options_of;
use crate::connection::receive_maximum_in;
use crate::connection::session_expiry_in;
use crate::connection::some_property;
use crate::connection::wants_exchange;
use crate::handler::EffectView;
use crate::handler::Handled;
use crate::handler::HandlerView;
use crate::handler::handled;
use crate::handler::welcome;
use crate::inflight::advanced;
use crate::inflight::flushed;
use crate::inflight::free_id;
use crate::inflight::in_flight_entries;
use crate::inflight::inflight;
use crate::inflight::resent_to;
use crate::inflight::with_outbound;
use crate::inflight::without_stale;
use crate::message::PendingView;
use crate::message::expired;
use crate::numbers::decimal;
use crate::numbers::written_number_reads_back;
use crate::ordered_map::entries_of;
use crate::ordered_map::map_of_len;
use crate::packet::ConnAckView;
use crate::packet::ConnectView;
use crate::packet::PacketView;
use crate::packet::PropertyView;
use crate::packet::PublishView;
use crate::packet::QoS;
use crate::packet::WillView;
use crate::protocol::valid_topic_name;
use crate::publication_laws::sent_to;
use crate::quality_laws::first_property_counts;
use crate::reason::reason_properties_of;
use crate::reconnect_laws::identifiers_listed;
use crate::routing::wanting;
use crate::session::ClientEntryView;
use crate::session::SessionView;
use crate::session::StateView;
use crate::session::new_session;
use crate::session::session_expired;
use crate::session::without_expired;
use crate::state_laws::filtered_from;
use crate::storage::delta::lookup;
use crate::subscription::EntryView;
use crate::write::WriteView;

verus! {

/// Names that are made up from different numbers are different, and the number moves on with each
/// name: by one, and from the last to the first.
pub proof fn made_up_names_differ(first: u64, second: u64)
    ensures
        generated_name(first) == generated_name(second) <==> first == second,
        number_after(first) != first,
        number_after(first) == (first + 1) % 0x1_0000_0000_0000_0000,
{
    if generated_name(first) == generated_name(second) {
        let prefix = "pulse-"@;
        let a = generated_name(first);
        let b = generated_name(second);
        assert(decimal(first as nat) =~= a.subrange(prefix.len() as int, a.len() as int));
        assert(decimal(second as nat) =~= b.subrange(prefix.len() as int, b.len() as int));
        written_number_reads_back(first as nat, u64::MAX as nat);
        written_number_reads_back(second as nat, u64::MAX as nat);
    }
}

/// A client that asks to be let in, but for its name.
pub struct Arrival {
    pub connection_id: u64,
    pub will: Option<WillView>,
    pub principal: Option<Seq<char>>,
    pub options: ConnectOptions,
    pub now_ms: u64,
}

/// What letting a client in comes to, by the name that it asks for.
pub open spec fn arrived(broker: BrokerView, arrival: Arrival, requested: Seq<char>) -> (
    BrokerView,
    ConnectOutcomeView,
) {
    connecting(
        broker,
        arrival.connection_id,
        requested,
        arrival.will,
        arrival.principal,
        arrival.options,
        arrival.now_ms,
    )
}

/// The brokers at some moments at each of which a client without a name is let in, where nothing
/// else makes up names in between.
pub open spec fn let_in_nameless(brokers: Seq<BrokerView>, arrivals: Seq<Arrival>) -> bool {
    &&& brokers.len() == arrivals.len()
    &&& forall|i: int|
        0 <= i < brokers.len() - 1 ==> brokers[i + 1].next_generated_client_id == (
        #[trigger] arrived(brokers[i], arrivals[i], Seq::empty())).0.next_generated_client_id
}

proof fn numbers_count_up(brokers: Seq<BrokerView>, arrivals: Seq<Arrival>, index: int)
    requires
        let_in_nameless(brokers, arrivals),
        0 <= index < brokers.len(),
    ensures
        brokers[index].next_generated_client_id == (brokers[0].next_generated_client_id + index)
            % 0x1_0000_0000_0000_0000,
    decreases index,
{
    if index > 0 {
        numbers_count_up(brokers, arrivals, index - 1);
        let before = arrived(brokers[index - 1], arrivals[index - 1], Seq::empty());
        assert(brokers[index].next_generated_client_id == before.0.next_generated_client_id);
    }
}

/// Clients that are let in without a name get different names, for as long as the numbers last; the
/// next number is never the one that was just used.
pub proof fn nameless_clients_get_different_names(
    brokers: Seq<BrokerView>,
    arrivals: Seq<Arrival>,
    first: int,
    second: int,
)
    requires
        let_in_nameless(brokers, arrivals),
        brokers.len() <= 0x1_0000_0000_0000_0000,
        0 <= first < second < brokers.len(),
    ensures
        arrived(brokers[first], arrivals[first], Seq::empty()).1.client_id != arrived(
            brokers[second],
            arrivals[second],
            Seq::empty(),
        ).1.client_id,
        arrived(
            brokers[first],
            arrivals[first],
            Seq::empty(),
        ).0.next_generated_client_id != brokers[first].next_generated_client_id,
{
    numbers_count_up(brokers, arrivals, first);
    numbers_count_up(brokers, arrivals, second);
    made_up_names_differ(
        brokers[first].next_generated_client_id,
        brokers[second].next_generated_client_id,
    );
}

/// A client that brings a name keeps it, and no name is made up.
pub proof fn named_client_keeps_its_name(
    broker: BrokerView,
    arrival: Arrival,
    requested: Seq<char>,
)
    requires
        requested.len() > 0,
    ensures
        arrived(broker, arrival, requested).1.client_id == requested,
        arrived(broker, arrival, requested).0.next_generated_client_id
            == broker.next_generated_client_id,
{
}

/// A session is there at a moment: its client is connected, or it has not expired.
pub open spec fn session_lives(state: StateView, client_id: Seq<char>, now_ms: u64) -> bool {
    state.sessions.dom().contains(client_id) && (state.connections.dom().contains(client_id) || (
    state.sessions[client_id].expires_at_ms matches Some(at) ==> at > now_ms))
}

/// What is known of a client that was let in is what it asked for; nothing was asked of its will,
/// and it is not yet watched for silence.
pub open spec fn known_as_asked(
    client: ClientEntryView,
    arrival: Arrival,
    client_id: Seq<char>,
) -> bool {
    &&& client.client_id == client_id
    &&& client.will == arrival.will
    &&& client.principal == arrival.principal
    &&& client.session_expiry_interval == arrival.options.session_expiry_interval
    &&& client.receive_maximum == arrival.options.receive_maximum
    &&& client.maximum_packet_size == arrival.options.maximum_packet_size
    &&& client.keep_alive_deadline_ms == 0
    &&& client.persistent_session <==> arrival.options.session_expiry_interval > 0
}

/// A client that is let in is connected under its name and on the terms that it asked for; of a
/// connection under that name that was there before it takes the place; it is told that its session
/// is there if and only if it did not ask to start anew and the session lives; and nobody else's
/// connection or session changes, but that expired sessions are gone.
pub proof fn client_is_let_in_on_its_terms(
    broker: BrokerView,
    arrival: Arrival,
    requested: Seq<char>,
)
    ensures
        ({
            let (after, outcome) = arrived(broker, arrival, requested);
            let client_id = outcome.client_id;
            let before = broker.state;
            let old_connection = before.connections[client_id];
            let replaces = before.connections.dom().contains(client_id) && old_connection
                != arrival.connection_id && before.clients.dom().contains(old_connection);
            &&& after == (BrokerView {
                state: after.state,
                next_generated_client_id: after.next_generated_client_id,
                ..broker
            })
            &&& after.state.connections == before.connections.insert(
                client_id,
                arrival.connection_id,
            )
            &&& after.state.clients.dom().contains(arrival.connection_id)
            &&& known_as_asked(
                after.state.clients[arrival.connection_id],
                arrival,
                client_id,
            )
            &&& outcome.replaced_connection == (if replaces {
                Some(old_connection)
            } else {
                None
            })
            &&& replaces ==> !after.state.clients.dom().contains(old_connection)
            &&& forall|other: u64|
                other != arrival.connection_id && !(replaces && other == old_connection) ==> (
                #[trigger] after.state.clients.dom().contains(other)
                    <==> before.clients.dom().contains(other)) && (before.clients.dom().contains(
                    other,
                ) ==> after.state.clients[other] == before.clients[other])
            &&& outcome.session_present <==> !arrival.options.clean_start && session_lives(
                before,
                client_id,
                arrival.now_ms,
            )
            &&& after.state.sessions.dom().contains(client_id)
            &&& after.state.sessions[client_id].expires_at_ms is None
            &&& after.state.sessions[client_id].session_expiry_interval
                == arrival.options.session_expiry_interval
            &&& forall|other: Seq<char>|
                other != client_id ==> (#[trigger] after.state.sessions.dom().contains(other)
                    <==> session_lives(before, other, arrival.now_ms))
            &&& forall|other: Seq<char>|
                other != client_id && #[trigger] after.state.sessions.dom().contains(other)
                    ==> after.state.sessions[other] == before.sessions[other]
            &&& after.state.retained == before.retained
            &&& after.state.cursors == before.cursors
        }),
{
    let (after, outcome) = arrived(broker, arrival, requested);
    let live = without_expired(broker.state, arrival.now_ms);
    let begun = attached(
        started(live, outcome.client_id, arrival.options.clean_start),
        outcome.client_id,
        arrival.connection_id,
        arrival.now_ms,
    );
    let session = resumed_session(
        lookup(begun.sessions, outcome.client_id),
        arrival.options.session_expiry_interval,
    );
    sending_queue_keeps_terms(
        without_stale(session, arrival.now_ms),
        arrival.options.receive_maximum,
        arrival.options.maximum_packet_size,
        arrival.now_ms,
        Seq::empty(),
    );
}

/// A client that finds its session finds all of it, but what has expired in flight: it is sent
/// again what it had in flight, and then what waited for it. One that asked to start anew, or whose
/// session is gone, starts with nothing and is sent nothing.
pub proof fn session_is_resumed_or_begun(
    broker: BrokerView,
    arrival: Arrival,
    requested: Seq<char>,
)
    ensures
        ({
            let (after, outcome) = arrived(broker, arrival, requested);
            let client_id = outcome.client_id;
            let session = after.state.sessions[client_id];
            let found = !arrival.options.clean_start && session_lives(
                broker.state,
                client_id,
                arrival.now_ms,
            );
            let resumed = SessionView {
                expires_at_ms: None,
                session_expiry_interval: arrival.options.session_expiry_interval,
                ..broker.state.sessions[client_id]
            };
            let kept = without_stale(resumed, arrival.now_ms);
            let receive_maximum = arrival.options.receive_maximum;
            let limit = arrival.options.maximum_packet_size;
            let again = resent_to(kept, receive_maximum, limit);
            let drawn = flushed(kept, receive_maximum, limit, arrival.now_ms, Seq::empty());
            &&& found ==> {
                &&& session == drawn.0
                &&& outcome.redeliveries.len() == again.len() + drawn.1.len()
                &&& forall|i: int|
                    0 <= i < again.len() ==> #[trigger] outcome.redeliveries[i] == sent_to(
                        arrival.connection_id,
                        again[i],
                    )
                &&& forall|i: int|
                    again.len() <= i < outcome.redeliveries.len()
                        ==> #[trigger] outcome.redeliveries[i] == sent_to(
                        arrival.connection_id,
                        drawn.1[i - again.len()],
                    )
            }
            &&& !found ==> {
                &&& outcome.redeliveries.len() == 0
                &&& session.offline_queue.len() == 0
                &&& session.outbound_qos1.dom() == Set::<u16>::empty()
                &&& session.outbound_qos2_publish.dom() == Set::<u16>::empty()
                &&& session.outbound_qos2_pubrel == Set::<u16>::empty()
                &&& session.next_packet_id == 1
                &&& session.next_offline_sequence == 0
            }
        }),
{
    let (after, outcome) = arrived(broker, arrival, requested);
    let client_id = outcome.client_id;
    let now_ms = arrival.now_ms;
    let live = without_expired(broker.state, now_ms);
    let begun = attached(
        started(live, client_id, arrival.options.clean_start),
        client_id,
        arrival.connection_id,
        now_ms,
    );
    if !begun.sessions.dom().contains(client_id) {
        let fresh = new_session(arrival.options.session_expiry_interval, None);
        let kept = without_stale(fresh, now_ms);
        assert(kept.outbound_qos1 =~= Map::empty());
        assert(kept.outbound_qos2_publish =~= Map::empty());
        identifiers_listed(kept.outbound_qos1, 65_536);
        let none = entries_of::<u16, PendingView>(kept.outbound_qos1);
        map_of_len::<u16, PendingView>(none);
        assert(none.len() == 0);
        assert(in_flight_entries(kept).take(0) =~= Seq::empty());
    }
}

/// Sending what waits changes neither how long a session lasts nor what waits to be completed.
pub proof fn sending_queue_keeps_terms(
    session: SessionView,
    receive_maximum: u16,
    maximum_packet_size: u32,
    now_ms: u64,
    sent: Seq<PublishView>,
)
    ensures
        ({
            let after = flushed(session, receive_maximum, maximum_packet_size, now_ms, sent).0;
            &&& after.expires_at_ms == session.expires_at_ms
            &&& after.session_expiry_interval == session.session_expiry_interval
            &&& after.outbound_qos2_pubrel == session.outbound_qos2_pubrel
            &&& after.next_offline_sequence == session.next_offline_sequence
        }),
    decreases session.offline_queue.len(),
{
    if !(inflight(session) >= receive_maximum || session.offline_queue.len() == 0) {
        let pending = session.offline_queue[0].pending;
        let rest = SessionView { offline_queue: session.offline_queue.drop_first(), ..session };
        if expired(pending.expires_at_ms, now_ms) {
            sending_queue_keeps_terms(rest, receive_maximum, maximum_packet_size, now_ms, sent);
        } else if pending.packet.qos == QoS::AtMostOnce {
            let publish = PublishView { packet_id: None, ..pending.packet };
            sending_queue_keeps_terms(rest, receive_maximum, maximum_packet_size, now_ms, sent);
            sending_queue_keeps_terms(
                rest,
                receive_maximum,
                maximum_packet_size,
                now_ms,
                sent.push(publish),
            );
        } else if let Some(id) = free_id(session) {
            let publish = PublishView { packet_id: Some(id), ..pending.packet };
            let next = advanced(rest, id);
            sending_queue_keeps_terms(next, receive_maximum, maximum_packet_size, now_ms, sent);
            sending_queue_keeps_terms(
                with_outbound(next, id, publish, pending.expires_at_ms),
                receive_maximum,
                maximum_packet_size,
                now_ms,
                sent.push(publish),
            );
        }
    }
}

/// A client that did not ask to start anew finds its subscriptions; for one that did they are gone.
/// Those of others stay while their sessions live.
pub proof fn subscriptions_are_found_or_forgotten(
    broker: BrokerView,
    arrival: Arrival,
    requested: Seq<char>,
    entry: EntryView,
)
    ensures
        ({
            let (after, outcome) = arrived(broker, arrival, requested);
            let expired = broker.state.sessions.dom().contains(entry.client_id) && !session_lives(
                broker.state,
                entry.client_id,
                arrival.now_ms,
            );
            after.state.subscriptions.contains(entry)
                <==> broker.state.subscriptions.contains(entry) && !expired && !(
            arrival.options.clean_start && entry.client_id == outcome.client_id)
        }),
{
    let (after, outcome) = arrived(broker, arrival, requested);
    let now_ms = arrival.now_ms;
    let live = without_expired(broker.state, now_ms);
    let keep = |entry: EntryView| !session_expired(broker.state, entry.client_id, now_ms);
    let others = |entry: EntryView| entry.client_id != outcome.client_id;
    filter_holds(broker.state.subscriptions, keep, entry);
    filter_holds(live.subscriptions, others, entry);
    assert(after.state.subscriptions == started(
        live,
        outcome.client_id,
        arrival.options.clean_start,
    ).subscriptions);
}

/// What passes a test is what is there and passes it.
pub proof fn filter_holds<A>(items: Seq<A>, keep: spec_fn(A) -> bool, item: A)
    ensures
        items.filter(keep).contains(item) <==> items.contains(item) && keep(item),
{
    if items.filter(keep).contains(item) {
        let i = choose|i: int| 0 <= i < items.filter(keep).len() && items.filter(keep)[i] == item;
        filtered_from(items, keep, i);
    }
    if items.contains(item) && keep(item) {
        let i = choose|i: int| 0 <= i < items.len() && items[i] == item;
        items.lemma_filter_contains(keep, i);
    }
}

/// What a client asks for is what the first property of its kind says: a session that lasts no
/// longer than the connection, all that fits in flight, and packets of any size, where it says
/// nothing.
pub proof fn terms_are_read_from_properties(
    clean_start: bool,
    properties: Seq<PropertyView>,
    lasting: int,
    receiving: int,
    sizing: int,
)
    requires
        0 <= lasting <= properties.len(),
        0 <= receiving <= properties.len(),
        0 <= sizing <= properties.len(),
        forall|i: int| 0 <= i < lasting ==> !((#[trigger] properties[i]) is SessionExpiryInterval),
        forall|i: int| 0 <= i < receiving ==> !((#[trigger] properties[i]) is ReceiveMaximum),
        forall|i: int| 0 <= i < sizing ==> !((#[trigger] properties[i]) is MaximumPacketSize),
        lasting < properties.len() ==> properties[lasting] is SessionExpiryInterval,
        receiving < properties.len() ==> properties[receiving] is ReceiveMaximum,
        sizing < properties.len() ==> properties[sizing] is MaximumPacketSize,
    ensures
        ({
            let options = options_of(clean_start, properties);
            &&& options.clean_start == clean_start
            &&& lasting < properties.len() ==> properties[lasting]
                == PropertyView::SessionExpiryInterval(options.session_expiry_interval)
            &&& lasting == properties.len() ==> options.session_expiry_interval == 0
            &&& receiving < properties.len() ==> properties[receiving]
                == PropertyView::ReceiveMaximum(options.receive_maximum)
            &&& receiving == properties.len() ==> options.receive_maximum == 65_535
            &&& sizing < properties.len() ==> properties[sizing]
                == PropertyView::MaximumPacketSize(options.maximum_packet_size)
            &&& sizing == properties.len() ==> options.maximum_packet_size == 0xffff_ffff
        }),
{
    first_property_counts(properties, session_expiry_in(), lasting);
    first_property_counts(properties, receive_maximum_in(), receiving);
    first_property_counts(properties, maximum_packet_size_in(), sizing);
}

/// What a client is told that was let in: what the broker takes, and the name that was made up for
/// it if it brought none.
pub open spec fn told_on_entrance(
    properties: Seq<PropertyView>,
    config: BrokerConfig,
    requested: Seq<char>,
    client_id: Seq<char>,
) -> bool {
    let known = seq![
        PropertyView::ReceiveMaximum(config.server_receive_maximum),
        PropertyView::MaximumPacketSize(config.server_maximum_packet_size),
        PropertyView::TopicAliasMaximum(config.server_topic_alias_maximum),
        PropertyView::MaximumQoS(2),
        PropertyView::RetainAvailable(1),
        PropertyView::WildcardSubscriptionAvailable(1),
        PropertyView::SubscriptionIdentifierAvailable(1),
        PropertyView::SharedSubscriptionAvailable(1),
    ];
    &&& requested.len() > 0 ==> properties == known
    &&& requested.len() == 0 ==> {
        &&& properties.drop_last() == known
        &&& properties.last() == PropertyView::AssignedClientIdentifier(client_id)
        &&& properties.len() == known.len() + 1
    }
}

/// A packet that is written and sent at once.
pub open spec fn put_out(packet: PacketView) -> EffectView {
    EffectView::WriteAndFlush(WriteView::Packet(packet))
}

/// A client that is let in is answered that it is, told what it has to know, and sent what waited
/// for it; a connection that it takes the place of is closed; and it is watched for silence for
/// half as long again as it said, or not at all if it said nought.
pub proof fn client_is_welcomed(
    handler: HandlerView,
    broker: BrokerView,
    connection_id: u64,
    packet: ConnectView,
    principal: Option<Seq<char>>,
    now_ms: u64,
)
    requires
        !handler.connected,
        handler.keep_alive_interval_ms is None,
        connect_defect(packet) is None,
        !broker.shutting_down,
        authenticated(broker.rules, packet.username, packet.password) == Some(principal),
    ensures
        ({
            let reply = handled(
                handler,
                broker,
                connection_id,
                PacketView::Connect(packet),
                now_ms,
            );
            let arrival = Arrival {
                connection_id,
                will: packet.will,
                principal,
                options: options_of(packet.clean_start, packet.properties),
                now_ms,
            };
            let (entered, outcome) = arrived(broker, arrival, packet.client_id);
            let effects = reply.effects;
            let interval_ms = packet.keep_alive * 1_500;
            let answer = ConnAckView {
                session_present: outcome.session_present,
                reason_code: 0,
                properties: welcome(broker.config, packet.client_id, outcome.client_id),
            };
            &&& effects.contains(put_out(PacketView::ConnAck(answer)))
            &&& told_on_entrance(
                answer.properties,
                broker.config,
                packet.client_id,
                outcome.client_id,
            )
            &&& effects.last() == EffectView::Deliver(outcome.redeliveries)
            &&& forall|other: u64| #[trigger]
                effects.contains(EffectView::CloseConnection(other))
                    <==> outcome.replaced_connection == Some(other)
            &&& effects.contains(EffectView::ConnectionClosed("session_replaced"@))
                <==> outcome.replaced_connection is Some
            &&& effects.contains(EffectView::WatchKeepAlive) <==> packet.keep_alive > 0
            &&& forall|every: u64| #[trigger]
                effects.contains(EffectView::StartRetransmit(every)) <==> every > 0 && every
                    == broker.config.inflight_retransmit_interval_ms
            &&& effects.contains(EffectView::ConnectionOpened)
            &&& !effects.contains(EffectView::Close)
            &&& reply.step is Done
            &&& reply.handler.connected
            &&& reply.handler.client_id == Some(outcome.client_id)
            &&& packet.keep_alive == 0 ==> reply.handler.keep_alive_interval_ms is None
                && reply.broker == entered
            &&& packet.keep_alive > 0 ==> {
                let client = reply.broker.state.clients[connection_id];
                &&& reply.handler.keep_alive_interval_ms == Some(interval_ms as u64)
                &&& client.keep_alive_deadline_ms == (if now_ms + interval_ms > u64::MAX {
                    u64::MAX as int
                } else {
                    now_ms + interval_ms
                })
                &&& client == (ClientEntryView {
                    keep_alive_deadline_ms: client.keep_alive_deadline_ms,
                    ..entered.state.clients[connection_id]
                })
                &&& reply.broker == (BrokerView {
                    state: StateView {
                        clients: entered.state.clients.insert(connection_id, client),
                        ..entered.state
                    },
                    ..entered
                })
            }
        }),
{
    let arrival = Arrival {
        connection_id,
        will: packet.will,
        principal,
        options: options_of(packet.clean_start, packet.properties),
        now_ms,
    };
    let reply = handled(handler, broker, connection_id, PacketView::Connect(packet), now_ms);
    let effects = reply.effects;
    let (entered, outcome) = arrived(broker, arrival, packet.client_id);
    client_is_let_in_on_its_terms(broker, arrival, packet.client_id);
    let properties = welcome(broker.config, packet.client_id, outcome.client_id);
    if packet.client_id.len() == 0 {
        assert(properties.drop_last() =~= capabilities(broker.config));
    }
    assert(effects[effects.len() - 2] == put_out(
        PacketView::ConnAck(
            ConnAckView {
                session_present: outcome.session_present,
                reason_code: 0,
                properties,
            },
        ),
    ));
    assert(effects[effects.len() - 3] == EffectView::ConnectionOpened);
    let base: int = if outcome.replaced_connection is Some {
        2
    } else {
        0
    };
    if let Some(other) = outcome.replaced_connection {
        assert(effects[1] == EffectView::CloseConnection(other));
        assert(effects[0] == EffectView::ConnectionClosed("session_replaced"@));
    }
    let watch: int = if packet.keep_alive > 0 {
        1
    } else {
        0
    };
    if packet.keep_alive > 0 {
        assert(effects[base] == EffectView::WatchKeepAlive);
    }
    if broker.config.inflight_retransmit_interval_ms > 0 {
        assert(effects[base + watch + 1] == EffectView::StartRetransmit(
            broker.config.inflight_retransmit_interval_ms,
        ));
    }
}

/// What a client is refused for when it asks to be let in, by the code that it is told: no name and
/// no wish to start anew, a name with a NUL, a will whose topic is no topic name or whose payload
/// has a format that is not known, a property with a value that it cannot have, or the wish to
/// exchange further credentials; the first of these counts.
pub open spec fn refusal_of(packet: ConnectView) -> Option<u8> {
    let nul = exists|i: int| 0 <= i < packet.client_id.len() && packet.client_id[i] == '\0';
    let bad_topic = packet.will matches Some(will) && (will.topic.len() == 0 || exists|i: int|
        0 <= i < will.topic.len() && (#[trigger] will.topic[i] == '+' || will.topic[i] == '#'));
    let bad_format = packet.will matches Some(will) && exists|i: int|
        0 <= i < will.properties.len() && (
        #[trigger] will.properties[i] matches PropertyView::PayloadFormatIndicator(value) && value
            > 1);
    let bad_property = exists|i: int|
        0 <= i < packet.properties.len() && {
            ||| #[trigger] packet.properties[i] == PropertyView::ReceiveMaximum(0)
            ||| packet.properties[i] == PropertyView::MaximumPacketSize(0)
            ||| packet.properties[i] matches PropertyView::RequestProblemInformation(value)
                && value > 1
            ||| packet.properties[i] matches PropertyView::RequestResponseInformation(value)
                && value > 1
        };
    let exchange = exists|i: int|
        0 <= i < packet.properties.len() && ((
        #[trigger] packet.properties[i]) is AuthenticationMethod
            || packet.properties[i] is AuthenticationData);
    if packet.client_id.len() == 0 && !packet.clean_start {
        Some(0x85)
    } else if nul {
        Some(0x81)
    } else if bad_topic {
        Some(0x90)
    } else if bad_format {
        Some(0x99)
    } else if bad_property {
        Some(0x81)
    } else if exchange {
        Some(0x8c)
    } else {
        None
    }
}

/// A client is refused for just these reasons.
pub proof fn refusals_are_for_these_reasons(packet: ConnectView)
    ensures
        connect_defect(packet) == refusal_of(packet),
{
    let such = |property: PropertyView| malformed_property(property);
    let wanting = |property: PropertyView| wants_exchange(property);
    let formats = |property: PropertyView| bad_payload_format(property);
    assert(packet.client_id.contains('\0') <==> exists|i: int|
        0 <= i < packet.client_id.len() && packet.client_id[i] == '\0');
    if let Some(will) = packet.will {
        if !valid_topic_name(will.topic) && will.topic.len() > 0 {
            if will.topic.contains('+') {
                let i = choose|i: int| 0 <= i < will.topic.len() && will.topic[i] == '+';
                assert(will.topic[i] == '+');
            } else {
                let i = choose|i: int| 0 <= i < will.topic.len() && will.topic[i] == '#';
                assert(will.topic[i] == '#');
            }
        }
        if some_property(will.properties, formats) {
            let i = choose|i: int|
                0 <= i < will.properties.len() && formats(#[trigger] will.properties[i]);
            assert(bad_payload_format(will.properties[i]));
        }
        if exists|i: int|
            0 <= i < will.properties.len() && (
            #[trigger] will.properties[i] matches PropertyView::PayloadFormatIndicator(value)
                && value > 1) {
            let i = choose|i: int|
                0 <= i < will.properties.len() && (
                #[trigger] will.properties[i] matches PropertyView::PayloadFormatIndicator(value)
                    && value > 1);
            assert(formats(will.properties[i]));
        }
    }
    assert forall|i: int| 0 <= i < packet.properties.len() implies such(
        #[trigger] packet.properties[i],
    ) == malformed_property(packet.properties[i]) && wanting(packet.properties[i])
        == wants_exchange(packet.properties[i]) by {}
}

/// A client that is refused is told why and its connection is closed; it is not let in, and nothing
/// else changes.
pub open spec fn turned_away(
    handler: HandlerView,
    broker: BrokerView,
    reply: Handled,
    code: u8,
) -> bool {
    let effects = reply.effects;
    &&& reply.handler == handler
    &&& reply.broker == broker
    &&& reply.step is Done
    &&& effects.last() == EffectView::Close
    &&& exists|answer: ConnAckView|
        {
            &&& effects[effects.len() - 2] == #[trigger] put_out(PacketView::ConnAck(answer))
            &&& answer.reason_code == code
            &&& !answer.session_present
            &&& forall|i: int|
                0 <= i < answer.properties.len() ==> (
                #[trigger] answer.properties[i]) is ReasonString
        }
    &&& effects.len() == if code == 0x86 || code == 0x8c {
        3int
    } else {
        2int
    }
}

/// A client with a fault in what it asks, one that comes while the broker shuts down, and one whose
/// name and password do not fit are turned away, each with its code.
pub proof fn clients_are_turned_away(
    handler: HandlerView,
    broker: BrokerView,
    connection_id: u64,
    packet: ConnectView,
    now_ms: u64,
)
    requires
        !handler.connected,
    ensures
        ({
            let reply = handled(
                handler,
                broker,
                connection_id,
                PacketView::Connect(packet),
                now_ms,
            );
            &&& refusal_of(packet) matches Some(code) ==> turned_away(handler, broker, reply, code)
            &&& refusal_of(packet) is None && broker.shutting_down ==> turned_away(
                handler,
                broker,
                reply,
                0x88,
            )
            &&& refusal_of(packet) is None && !broker.shutting_down && authenticated(
                broker.rules,
                packet.username,
                packet.password,
            ) is None ==> turned_away(handler, broker, reply, 0x86)
        }),
{
    refusals_are_for_these_reasons(packet);
    let reply = handled(handler, broker, connection_id, PacketView::Connect(packet), now_ms);
    let code = match connect_defect(packet) {
        Some(code) => code,
        None => if broker.shutting_down {
            0x88u8
        } else {
            0x86u8
        },
    };
    let answer = ConnAckView {
        session_present: false,
        reason_code: code,
        properties: reason_properties_of(code),
    };
    if connect_defect(packet) is Some || broker.shutting_down || authenticated(
        broker.rules,
        packet.username,
        packet.password,
    ) is None {
        assert(reply.effects[reply.effects.len() - 2] == put_out(PacketView::ConnAck(answer)));
    }
}

} // verus!
