//! The broker: connections, subscriptions and publications.
use vstd::prelude::*;
use vstd::string::StringExecFns;

use crate::auth::AuthConfig;
use crate::auth::ConfiguredAuthenticator;
use crate::auth::publish_allowed;
use crate::auth::subscribe_allowed;
use crate::config::BrokerConfig;
use crate::config::MAX_OFFLINE_QUEUE_LEN;
use crate::config::MAX_RETAINED_MESSAGES;
use crate::config::MAX_RETAINED_PAYLOAD_BYTES;
use crate::config::MAX_SUBSCRIPTIONS_PER_CLIENT;
use crate::config::SERVER_MAXIMUM_PACKET_SIZE;
use crate::config::SERVER_RECEIVE_MAXIMUM;
use crate::config::SERVER_TOPIC_ALIAS_MAXIMUM;
use crate::connection::ConnectOptions;
use crate::connection::find_subscription_identifier;
use crate::connection::first_of;
use crate::connection::subscription_identifier_in;
use crate::delivery::Delivery;
use crate::delivery::DeliveryView;
use crate::delivery::after_retain;
use crate::delivery::retain_publish;
use crate::delivery::with_session;
use crate::message::PendingPublish;
use crate::message::PendingView;
use crate::message::expired;
use crate::message::expiry_of;
use crate::message::is_message_expired;
use crate::message::message_expires_at_ms;
use crate::mqtt_codec::packet_size;
use crate::mqtt_codec::wire_size;
use crate::numbers::decimal;
use crate::numbers::decimal_text;
use crate::ordered_map::entries_of;
use crate::ordered_map::key_has_entry;
use crate::packet::DisconnectPacket;
use crate::packet::DisconnectView;
use crate::packet::MqttPacket;
use crate::packet::MqttProperty;
use crate::packet::PacketView;
use crate::packet::PropertyView;
use crate::packet::PublishPacket;
use crate::packet::PublishView;
use crate::packet::SubAckPacket;
use crate::packet::SubAckView;
use crate::packet::SubscribePacket;
use crate::packet::SubscribeView;
use crate::packet::Subscription;
use crate::packet::SubscriptionView;
use crate::packet::UnsubAckPacket;
use crate::packet::UnsubAckView;
use crate::packet::UnsubscribePacket;
use crate::packet::Will;
use crate::packet::WillView;
use crate::protocol::NOT_AUTHORIZED;
use crate::protocol::QUOTA_EXCEEDED;
use crate::protocol::RECEIVE_MAXIMUM_EXCEEDED;
use crate::protocol::SERVER_SHUTTING_DOWN;
use crate::protocol::SUCCESS;
use crate::protocol::TOPIC_FILTER_INVALID;
use crate::protocol::UNSPECIFIED_ERROR;
use crate::protocol::granted_qos_code;
use crate::protocol::is_valid_topic_filter;
use crate::protocol::is_valid_topic_name;
use crate::protocol::valid_topic_filter;
use crate::protocol::valid_topic_name;
use crate::reason::reason_properties;
use crate::reason::reason_properties_of;
use crate::reason::reason_string;
use crate::reason::reason_text;
use crate::routing::deliveries_for_publish;
use crate::routing::published;
use crate::routing::queue_sent;
use crate::routing::queued_deliveries_for_client;
use crate::routing::redelivered;
use crate::routing::redeliveries_for_client;
use crate::routing::retained_for_subscription;
use crate::routing::retained_sent;
use crate::routing::retransmissions_for_connection;
use crate::routing::retransmitted;
use crate::session::BrokerState;
use crate::session::ClientEntry;
use crate::session::ClientEntryView;
use crate::session::SessionEntry;
use crate::session::SessionView;
use crate::session::StateView;
use crate::session::is_durable;
use crate::session::marked_changed;
use crate::session::marked_if_durable;
use crate::session::marked_reset;
use crate::session::new_session;
use crate::session::without_client_connection;
use crate::session::without_expired;
use crate::storage::delta::lookup;
use crate::subscription::EntryView;
use crate::subscription::SubscriptionEntry;
use crate::subscription::UpsertSubscriptionResult;
use crate::subscription::entry_for;
use crate::subscription::find_subscription;
use crate::subscription::remove_client_subscriptions;
use crate::subscription::remove_held_subscriptions;
use crate::subscription::subscription_position;
use crate::subscription::subscription_position_is_first;
use crate::subscription::upsert_subscription_at;
use crate::subscription::without_client;
use crate::subscription::without_held;
use crate::text::text_concat;
use crate::value::Value;
use crate::write::BrokerWrite;
use crate::write::WriteView;

verus! {

/// The broker.
pub struct Broker {
    pub state: BrokerState,
    pub config: BrokerConfig,
    pub authenticator: ConfiguredAuthenticator,
    pub next_generated_client_id: u64,
    pub shutting_down: bool,
}

/// What a `Broker` stands for.
pub struct BrokerView {
    pub state: StateView,
    pub config: BrokerConfig,
    pub rules: AuthConfig,
    pub next_generated_client_id: u64,
    pub shutting_down: bool,
}

impl DeepView for Broker {
    type V = BrokerView;

    open spec fn deep_view(&self) -> BrokerView {
        BrokerView {
            state: self.state.deep_view(),
            config: self.config,
            rules: self.authenticator.rules(),
            next_generated_client_id: self.next_generated_client_id,
            shutting_down: self.shutting_down,
        }
    }
}

/// A client was let in: who it is, whether it found its session, the connection that it took the
/// place of, and what it is sent.
pub struct ConnectOutcome {
    pub client_id: String,
    pub session_present: bool,
    pub replaced_connection: Option<u64>,
    pub redeliveries: Vec<Delivery>,
}

/// What a `ConnectOutcome` stands for.
pub struct ConnectOutcomeView {
    pub client_id: Seq<char>,
    pub session_present: bool,
    pub replaced_connection: Option<u64>,
    pub redeliveries: Seq<DeliveryView>,
}

impl DeepView for ConnectOutcome {
    type V = ConnectOutcomeView;

    open spec fn deep_view(&self) -> ConnectOutcomeView {
        ConnectOutcomeView {
            client_id: self.client_id@,
            session_present: self.session_present,
            replaced_connection: self.replaced_connection,
            redeliveries: self.redeliveries.deep_view(),
        }
    }
}

/// A client is gone: who it was, and its will.
pub struct RemoveConnectionOutcome {
    pub client_id: String,
    pub will: Option<Will>,
}

/// A client was silent for too long.
pub struct ExpiredKeepAliveClient {
    pub connection_id: u64,
    pub will: Option<Will>,
}

/// What an `ExpiredKeepAliveClient` stands for.
pub struct ExpiredKeepAliveView {
    pub connection_id: u64,
    pub will: Option<WillView>,
}

impl DeepView for ExpiredKeepAliveClient {
    type V = ExpiredKeepAliveView;

    open spec fn deep_view(&self) -> ExpiredKeepAliveView {
        ExpiredKeepAliveView { connection_id: self.connection_id, will: self.will.deep_view() }
    }
}

/// A client as it connects.
pub open spec fn client_entry(
    client_id: Seq<char>,
    will: Option<WillView>,
    principal: Option<Seq<char>>,
    options: ConnectOptions,
    subscription_count: usize,
) -> ClientEntryView {
    ClientEntryView {
        client_id,
        will,
        principal,
        session_expiry_interval: options.session_expiry_interval,
        receive_maximum: options.receive_maximum,
        maximum_packet_size: options.maximum_packet_size,
        keep_alive_deadline_ms: 0,
        persistent_session: options.session_expiry_interval != 0,
        subscription_count,
    }
}

/// The session of a client as it connects.
pub open spec fn resumed_session(
    session: Option<SessionView>,
    session_expiry_interval: u32,
) -> SessionView {
    match session {
        Some(session) => SessionView { expires_at_ms: None, session_expiry_interval, ..session },
        None => new_session(session_expiry_interval, None),
    }
}

/// How many of the subscriptions are a client's.
pub open spec fn held_count(subscriptions: Seq<EntryView>, client_id: Seq<char>) -> nat
    decreases subscriptions.len(),
{
    if subscriptions.len() == 0 {
        0
    } else {
        held_count(subscriptions.drop_last(), client_id) + if subscriptions.last().client_id
            == client_id {
            1nat
        } else {
            0nat
        }
    }
}

/// The connection that a client has before it connects again over another one.
pub open spec fn replaced_by(
    state: StateView,
    client_id: Seq<char>,
    connection_id: u64,
) -> Option<u64> {
    match lookup(state.connections, client_id) {
        Some(previous) => if previous != connection_id && state.clients.dom().contains(previous) {
            Some(previous)
        } else {
            None
        },
        None => None,
    }
}

/// The state with sessions and subscriptions of a client that starts anew dropped.
pub open spec fn started(state: StateView, client_id: Seq<char>, clean_start: bool) -> StateView {
    if clean_start {
        StateView {
            sessions: state.sessions.remove(client_id),
            subscriptions: without_client(state.subscriptions, client_id),
            ..state
        }
    } else {
        state
    }
}

/// The state with a client's connection in place of another one it may have had.
pub open spec fn attached(
    state: StateView,
    client_id: Seq<char>,
    connection_id: u64,
    now_ms: u64,
) -> StateView {
    let named = StateView {
        connections: state.connections.insert(client_id, connection_id),
        ..state
    };
    match lookup(state.connections, client_id) {
        Some(previous) => if previous != connection_id {
            without_client_connection(named, previous, true, now_ms)
        } else {
            named
        },
        None => named,
    }
}

/// The state with what has to be stored of a client that connects: all of it anew where it starts
/// anew or its session was stored and is no longer to be, what changed where its session is to be
/// stored.
pub open spec fn noted(
    state: StateView,
    client_id: Seq<char>,
    options: ConnectOptions,
    was_durable: bool,
) -> StateView {
    let durable = options.session_expiry_interval != 0;
    if (options.clean_start || !durable) && (was_durable || durable) {
        marked_reset(state, client_id)
    } else if durable {
        marked_changed(state, client_id)
    } else {
        state
    }
}

/// What a client's connecting does: the state afterwards, and what it is sent.
pub open spec fn connected(
    state: StateView,
    connection_id: u64,
    client_id: Seq<char>,
    will: Option<WillView>,
    principal: Option<Seq<char>>,
    options: ConnectOptions,
    now_ms: u64,
) -> (StateView, Seq<DeliveryView>) {
    let live = without_expired(state, now_ms);
    let begun = attached(
        started(live, client_id, options.clean_start),
        client_id,
        connection_id,
        now_ms,
    );
    let entered = StateView {
        sessions: begun.sessions.insert(
            client_id,
            resumed_session(
                lookup(begun.sessions, client_id),
                options.session_expiry_interval,
            ),
        ),
        clients: begun.clients.insert(
            connection_id,
            client_entry(
                client_id,
                will,
                principal,
                options,
                held_count(begun.subscriptions, client_id) as usize,
            ),
        ),
        ..begun
    };
    redelivered(
        noted(entered, client_id, options, is_durable(live, client_id)),
        client_id,
        now_ms,
    )
}

/// The state without a client's connection.
pub open spec fn disconnected(state: StateView, connection_id: u64, now_ms: u64) -> StateView {
    match lookup(state.clients, connection_id) {
        None => state,
        Some(client) => {
            let left = without_client_connection(state, connection_id, false, now_ms);
            StateView { connections: left.connections.remove(client.client_id), ..left }
        },
    }
}

/// What a client is told when the broker shuts down.
pub open spec fn farewell(connection_id: u64) -> DeliveryView {
    DeliveryView {
        connection_id,
        packet: WriteView::Packet(
            PacketView::Disconnect(
                DisconnectView {
                    reason_code: SERVER_SHUTTING_DOWN,
                    properties: reason_properties_of(SERVER_SHUTTING_DOWN),
                },
            ),
        ),
    }
}

/// What some clients are told when the broker shuts down.
pub open spec fn farewells(entries: Seq<(u64, ClientEntryView)>) -> Seq<DeliveryView> {
    Seq::new(entries.len(), |i: int| farewell(entries[i].0))
}

/// The name that a number gives.
pub open spec fn generated_name(id: u64) -> Seq<char> {
    "pulse-"@ + decimal(id as nat)
}

/// The number after a number; zero after the largest.
pub open spec fn number_after(id: u64) -> u64 {
    if id == u64::MAX {
        0
    } else {
        (id + 1) as u64
    }
}

/// What a client's connecting does to the broker, and what comes of it.
pub open spec fn connecting(
    broker: BrokerView,
    connection_id: u64,
    requested: Seq<char>,
    will: Option<WillView>,
    principal: Option<Seq<char>>,
    options: ConnectOptions,
    now_ms: u64,
) -> (BrokerView, ConnectOutcomeView) {
    let client_id = if requested.len() == 0 {
        generated_name(broker.next_generated_client_id)
    } else {
        requested
    };
    let live = without_expired(broker.state, now_ms);
    let outcome = connected(
        broker.state,
        connection_id,
        client_id,
        will,
        principal,
        options,
        now_ms,
    );
    (
        BrokerView {
            state: outcome.0,
            next_generated_client_id: if requested.len() == 0 {
                number_after(broker.next_generated_client_id)
            } else {
                broker.next_generated_client_id
            },
            ..broker
        },
        ConnectOutcomeView {
            client_id,
            session_present: !options.clean_start && live.sessions.dom().contains(client_id),
            replaced_connection: replaced_by(
                started(live, client_id, options.clean_start),
                client_id,
                connection_id,
            ),
            redeliveries: outcome.1,
        },
    )
}

/// How many of the subscriptions are a client's.
fn count_held(subscriptions: &Vec<SubscriptionEntry>, client_id: &String) -> (result: usize)
    ensures
        result == held_count(subscriptions.deep_view(), client_id@),
{
    let ghost list = subscriptions.deep_view();
    let mut count: usize = 0;
    let mut index: usize = 0;
    while index < subscriptions.len()
        invariant
            index <= subscriptions@.len(),
            list == subscriptions.deep_view(),
            count <= index,
            count == held_count(list.take(index as int), client_id@),
        decreases subscriptions@.len() - index,
    {
        proof {
            assert(list.take(index + 1).drop_last() =~= list.take(index as int));
            assert(list.take(index + 1).last() == subscriptions@[index as int].deep_view());
        }
        if subscriptions[index].client_id.same(client_id) {
            count += 1;
        }
        index += 1;
    }
    assert(list.take(index as int) =~= list);
    count
}

/// Whether the retained messages are sent for a subscription: always, only for a new one, or not.
pub open spec fn sends_retained(retain_handling: u8, inserted: bool) -> bool {
    if retain_handling == 1 {
        inserted
    } else {
        retain_handling != 2
    }
}

/// Whether the retained messages are sent for a subscription.
pub fn should_send_retained_on_subscribe(retain_handling: u8, inserted: bool) -> (result: bool)
    ensures
        result == sends_retained(retain_handling, inserted),
{
    match retain_handling {
        1 => inserted,
        2 => false,
        _ => true,
    }
}

/// How far a SUBSCRIBE packet has been worked off.
pub struct SubscribeProgress {
    pub state: StateView,
    pub reason_codes: Seq<u8>,
    pub sent: Seq<DeliveryView>,
    pub inserted: nat,
}

/// Who subscribes, and by which rules.
pub struct Subscriber {
    pub client: ClientEntryView,
    pub rules: AuthConfig,
    pub config: BrokerConfig,
    pub subscription_identifier: Option<u32>,
    pub now_ms: u64,
}

/// The position where a client already holds a subscription under a filter, looked for only where
/// it holds any.
pub open spec fn held_position(
    subscriptions: Seq<EntryView>,
    client_id: Seq<char>,
    filter: Seq<char>,
    known: nat,
) -> Option<int> {
    if known == 0 {
        None
    } else {
        subscription_position(subscriptions, client_id, filter)
    }
}

/// Works off one requested subscription: it is refused for its filter, for want of permission or of
/// room, or it is stored and granted, and the retained messages that it matches are sent.
pub open spec fn subscribed_one(
    progress: SubscribeProgress,
    subscriber: Subscriber,
    subscription: SubscriptionView,
) -> SubscribeProgress {
    let client = subscriber.client;
    let filter = subscription.topic_filter;
    let known = client.subscription_count as nat + progress.inserted;
    let existing = held_position(progress.state.subscriptions, client.client_id, filter, known);
    if !valid_topic_filter(filter) {
        SubscribeProgress {
            reason_codes: progress.reason_codes.push(TOPIC_FILTER_INVALID),
            ..progress
        }
    } else if !subscribe_allowed(subscriber.rules, client.principal, filter) {
        SubscribeProgress {
            reason_codes: progress.reason_codes.push(NOT_AUTHORIZED),
            ..progress
        }
    } else if existing is None && known >= subscriber.config.max_subscriptions_per_client {
        SubscribeProgress {
            reason_codes: progress.reason_codes.push(QUOTA_EXCEEDED),
            ..progress
        }
    } else {
        let entry = entry_for(
            client.client_id,
            subscription,
            subscriber.subscription_identifier,
        );
        let stored = StateView {
            subscriptions: match existing {
                Some(index) => progress.state.subscriptions.update(index, entry),
                None => progress.state.subscriptions.push(entry),
            },
            ..progress.state
        };
        let noted = if client.persistent_session {
            marked_changed(stored, client.client_id)
        } else {
            stored
        };
        let retained = if sends_retained(subscription.options.retain_handling, existing is None) {
            retained_sent(noted, entry, subscriber.config, subscriber.now_ms)
        } else {
            (noted, Seq::empty())
        };
        SubscribeProgress {
            state: retained.0,
            reason_codes: progress.reason_codes.push(subscription.options.maximum_qos.rank()),
            sent: progress.sent + retained.1,
            inserted: progress.inserted + if existing is None {
                1nat
            } else {
                0nat
            },
        }
    }
}

/// Works off some requested subscriptions, one after the other.
pub open spec fn subscribed_all(
    state: StateView,
    subscriber: Subscriber,
    subscriptions: Seq<SubscriptionView>,
) -> SubscribeProgress
    decreases subscriptions.len(),
{
    if subscriptions.len() == 0 {
        SubscribeProgress {
            state,
            reason_codes: Seq::empty(),
            sent: Seq::empty(),
            inserted: 0,
        }
    } else {
        subscribed_one(
            subscribed_all(state, subscriber, subscriptions.drop_last()),
            subscriber,
            subscriptions.last(),
        )
    }
}

/// The explanation of the first reason code that has one.
pub open spec fn first_reason(reason_codes: Seq<u8>) -> Seq<PropertyView>
    decreases reason_codes.len(),
{
    if reason_codes.len() == 0 {
        Seq::empty()
    } else if reason_text(reason_codes[0]) is Some {
        reason_properties_of(reason_codes[0])
    } else {
        first_reason(reason_codes.drop_first())
    }
}

/// The same reason code some times over.
pub open spec fn repeated(reason_code: u8, count: nat) -> Seq<u8> {
    Seq::new(count, |i: int| reason_code)
}

/// What a SUBSCRIBE packet does: the state afterwards, the answer, and what is sent.
pub open spec fn subscribed(
    state: StateView,
    rules: AuthConfig,
    config: BrokerConfig,
    connection_id: u64,
    packet: SubscribeView,
    now_ms: u64,
) -> (StateView, SubAckView, Seq<DeliveryView>) {
    match lookup(state.clients, connection_id) {
        None => (
            state,
            SubAckView {
                packet_id: packet.packet_id,
                properties: Seq::empty(),
                reason_codes: repeated(UNSPECIFIED_ERROR, packet.subscriptions.len()),
            },
            Seq::empty(),
        ),
        Some(client) => {
            let subscriber = Subscriber {
                client,
                rules,
                config,
                subscription_identifier: first_of(
                    packet.properties,
                    subscription_identifier_in(),
                ),
                now_ms,
            };
            let progress = subscribed_all(state, subscriber, packet.subscriptions);
            (
                counted(
                    progress.state,
                    connection_id,
                    client.subscription_count as nat + progress.inserted,
                ),
                SubAckView {
                    packet_id: packet.packet_id,
                    properties: first_reason(progress.reason_codes),
                    reason_codes: progress.reason_codes,
                },
                progress.sent,
            )
        },
    }
}

/// The state with how many subscriptions a connection's client holds.
pub open spec fn counted(state: StateView, connection_id: u64, count: nat) -> StateView {
    if state.clients.dom().contains(connection_id) {
        StateView {
            clients: state.clients.insert(
                connection_id,
                ClientEntryView {
                    subscription_count: count as usize,
                    ..state.clients[connection_id]
                },
            ),
            ..state
        }
    } else {
        state
    }
}

/// The subscriptions without those that a client holds under some filters.
pub open spec fn without_all_held(
    subscriptions: Seq<EntryView>,
    client_id: Seq<char>,
    filters: Seq<Seq<char>>,
) -> Seq<EntryView>
    decreases filters.len(),
{
    if filters.len() == 0 {
        subscriptions
    } else {
        without_held(
            without_all_held(subscriptions, client_id, filters.drop_last()),
            client_id,
            filters.last(),
        )
    }
}

/// What an UNSUBSCRIBE packet does to the state.
pub open spec fn unsubscribed(
    state: StateView,
    connection_id: u64,
    filters: Seq<Seq<char>>,
) -> StateView {
    match lookup(state.clients, connection_id) {
        None => state,
        Some(client) => {
            let left = without_all_held(state.subscriptions, client.client_id, filters);
            let removed = state.subscriptions.len() - left.len();
            let base = StateView { subscriptions: left, ..state };
            if removed == 0 {
                base
            } else {
                let next = counted(
                    base,
                    connection_id,
                    if client.subscription_count >= removed {
                        (client.subscription_count - removed) as nat
                    } else {
                        0
                    },
                );
                if client.persistent_session {
                    marked_changed(next, client.client_id)
                } else {
                    next
                }
            }
        },
    }
}

/// What a client's publication does: expired sessions are dropped, the retain flag is heeded, and
/// the publication is sent to those who want it.
pub open spec fn publication(
    state: StateView,
    config: BrokerConfig,
    connection_id: u64,
    packet: PublishView,
    now_ms: u64,
) -> (StateView, Seq<DeliveryView>) {
    published(
        after_retain(without_expired(state, now_ms), packet, config, now_ms),
        connection_id,
        packet,
        config,
        now_ms,
    )
}

/// How many publications of a connection wait for their release.
pub open spec fn waiting_count(entries: Seq<((u64, u16), PendingView)>, connection_id: u64) -> nat
    decreases entries.len(),
{
    if entries.len() == 0 {
        0
    } else {
        waiting_count(entries.drop_last(), connection_id) + if entries.last().0.0
            == connection_id {
            1nat
        } else {
            0nat
        }
    }
}

/// What a QoS 2 publication does until it is released: it waits, unless it already does, or too
/// many do.
pub open spec fn stored_qos2(
    state: StateView,
    config: BrokerConfig,
    connection_id: u64,
    packet_id: u16,
    packet: PublishView,
    now_ms: u64,
) -> (StateView, u8) {
    let key = (connection_id, packet_id);
    if state.qos2_inflight.dom().contains(key) {
        (state, SUCCESS)
    } else if waiting_count(
        entries_of::<(u64, u16), PendingView>(state.qos2_inflight),
        connection_id,
    ) >= config.server_receive_maximum {
        (state, RECEIVE_MAXIMUM_EXCEEDED)
    } else {
        (
            StateView {
                qos2_inflight: state.qos2_inflight.insert(
                    key,
                    PendingView { packet, expires_at_ms: expiry_of(packet.properties, now_ms) },
                ),
                ..state
            },
            SUCCESS,
        )
    }
}

/// What the release of a QoS 2 publication does: nothing where none waits, else it is published
/// unless it has expired.
pub open spec fn completed_qos2(
    state: StateView,
    config: BrokerConfig,
    connection_id: u64,
    packet_id: u16,
    now_ms: u64,
) -> (StateView, Option<Seq<DeliveryView>>) {
    let key = (connection_id, packet_id);
    if !state.qos2_inflight.dom().contains(key) {
        (state, None)
    } else {
        let pending = state.qos2_inflight[key];
        let released = StateView { qos2_inflight: state.qos2_inflight.remove(key), ..state };
        if expired(pending.expires_at_ms, now_ms) {
            (without_expired(released, now_ms), Some(Seq::empty()))
        } else {
            let outcome = publication(released, config, connection_id, pending.packet, now_ms);
            (outcome.0, Some(outcome.1))
        }
    }
}

/// The session of a connection's client.
pub open spec fn session_of(state: StateView, connection_id: u64) -> Option<
    (Seq<char>, SessionView),
> {
    match lookup(state.clients, connection_id) {
        None => None,
        Some(client) => match lookup(state.sessions, client.client_id) {
            None => None,
            Some(session) => Some((client.client_id, session)),
        },
    }
}

/// What the acknowledgement of a QoS 1 publication does: it is no longer in flight, and what waits
/// is sent; nothing where it was not in flight.
pub open spec fn acknowledged_qos1(
    state: StateView,
    connection_id: u64,
    packet_id: u16,
    now_ms: u64,
) -> (StateView, Option<Seq<DeliveryView>>) {
    match session_of(state, connection_id) {
        None => (state, None),
        Some((client_id, session)) => if !session.outbound_qos1.dom().contains(packet_id) {
            (state, None)
        } else {
            let outcome = queue_sent(
                with_session(
                    state,
                    client_id,
                    SessionView {
                        outbound_qos1: session.outbound_qos1.remove(packet_id),
                        ..session
                    },
                ),
                client_id,
                now_ms,
            );
            (outcome.0, Some(outcome.1))
        },
    }
}

/// What the receipt of a QoS 2 publication does: it is no longer in flight but to be released, and
/// what waits is sent; nothing where it was not in flight.
pub open spec fn received_qos2(
    state: StateView,
    connection_id: u64,
    packet_id: u16,
    now_ms: u64,
) -> (StateView, Option<Seq<DeliveryView>>) {
    match session_of(state, connection_id) {
        None => (state, None),
        Some((client_id, session)) => if !session.outbound_qos2_publish.dom().contains(packet_id) {
            (state, None)
        } else {
            let outcome = queue_sent(
                with_session(
                    state,
                    client_id,
                    SessionView {
                        outbound_qos2_publish: session.outbound_qos2_publish.remove(packet_id),
                        outbound_qos2_pubrel: session.outbound_qos2_pubrel.insert(packet_id),
                        ..session
                    },
                ),
                client_id,
                now_ms,
            );
            (outcome.0, Some(outcome.1))
        },
    }
}

/// What the completion of a QoS 2 publication does: it is no longer to be released; nothing where
/// it was not.
pub open spec fn finished_qos2(
    state: StateView,
    connection_id: u64,
    packet_id: u16,
) -> (StateView, bool) {
    match session_of(state, connection_id) {
        None => (state, false),
        Some((client_id, session)) => if !session.outbound_qos2_pubrel.contains(packet_id) {
            (state, false)
        } else {
            (
                marked_if_durable(
                    with_session(
                        state,
                        client_id,
                        SessionView {
                            outbound_qos2_pubrel: session.outbound_qos2_pubrel.remove(packet_id),
                            ..session
                        },
                    ),
                    client_id,
                ),
                true,
            )
        },
    }
}

/// The publication that a will asks for.
pub open spec fn will_publication(will: WillView) -> PublishView {
    PublishView {
        dup: false,
        qos: will.qos,
        retain: will.retain,
        topic_name: will.topic,
        packet_id: None,
        properties: will.properties,
        payload: will.payload,
    }
}

/// What the publication of a will does: nothing where its topic cannot be published to.
pub open spec fn will_published(
    state: StateView,
    config: BrokerConfig,
    connection_id: u64,
    will: WillView,
    now_ms: u64,
) -> (StateView, Seq<DeliveryView>) {
    if valid_topic_name(will.topic) {
        publication(state, config, connection_id, will_publication(will), now_ms)
    } else {
        (state, Seq::empty())
    }
}

/// The state with until when a connection's client may be silent.
pub open spec fn with_deadline(
    state: StateView,
    connection_id: u64,
    deadline_ms: u64,
) -> StateView {
    match lookup(state.clients, connection_id) {
        Some(client) => StateView {
            clients: state.clients.insert(
                connection_id,
                ClientEntryView { keep_alive_deadline_ms: deadline_ms, ..client },
            ),
            ..state
        },
        None => state,
    }
}

/// A client was silent for too long.
pub open spec fn is_silent(client: ClientEntryView, now_ms: u64) -> bool {
    client.keep_alive_deadline_ms != 0 && client.keep_alive_deadline_ms <= now_ms
}

/// The state without the clients of some entries that were silent for too long, and those clients.
pub open spec fn silent_removed(
    state: StateView,
    entries: Seq<(u64, ClientEntryView)>,
    now_ms: u64,
) -> (StateView, Seq<ExpiredKeepAliveView>)
    decreases entries.len(),
{
    if entries.len() == 0 {
        (state, Seq::empty())
    } else {
        let front = silent_removed(state, entries.drop_last(), now_ms);
        let (connection_id, client) = entries.last();
        if is_silent(client, now_ms) {
            (
                disconnected(front.0, connection_id, now_ms),
                front.1.push(ExpiredKeepAliveView { connection_id, will: client.will }),
            )
        } else {
            front
        }
    }
}

impl Broker {
    /// Nothing but the state differs.
    pub open spec fn same_setup(&self, other: &Broker) -> bool {
        &&& self.config == other.config
        &&& self.authenticator == other.authenticator
        &&& self.next_generated_client_id == other.next_generated_client_id
        &&& self.shutting_down == other.shutting_down
    }

    /// A broker with the usual limits that lets everybody in.
    pub fn new() -> (result: Self)
        ensures
            result.state.wf(),
            result.state.deep_view() == (StateView {
                clients: Map::empty(),
                connections: Map::empty(),
                sessions: Map::empty(),
                subscriptions: Seq::empty(),
                retained: Map::empty(),
                qos2_inflight: Map::empty(),
                cursors: Map::empty(),
                client_changes: Map::empty(),
                retained_changes: Set::empty(),
            }),
            result.config == (BrokerConfig {
                server_receive_maximum: SERVER_RECEIVE_MAXIMUM,
                server_maximum_packet_size: SERVER_MAXIMUM_PACKET_SIZE,
                server_topic_alias_maximum: SERVER_TOPIC_ALIAS_MAXIMUM,
                max_subscriptions_per_client: MAX_SUBSCRIPTIONS_PER_CLIENT,
                max_offline_queue_len: MAX_OFFLINE_QUEUE_LEN,
                max_retained_messages: MAX_RETAINED_MESSAGES,
                max_retained_payload_bytes: MAX_RETAINED_PAYLOAD_BYTES,
                inflight_retransmit_interval_ms: 0,
            }),
            !result.authenticator.rules().enabled,
            result.authenticator.rules().users@.len() == 0,
            result.authenticator.rules().acl@.len() == 0,
            result.next_generated_client_id == 1,
            !result.shutting_down,
    {
        Broker::with_config_and_auth(BrokerConfig::default(), ConfiguredAuthenticator::default())
    }

    /// A broker with limits and rules.
    pub fn with_config_and_auth(
        config: BrokerConfig,
        authenticator: ConfiguredAuthenticator,
    ) -> (result: Self)
        ensures
            result.state.wf(),
            result.state.deep_view() == (StateView {
                clients: Map::empty(),
                connections: Map::empty(),
                sessions: Map::empty(),
                subscriptions: Seq::empty(),
                retained: Map::empty(),
                qos2_inflight: Map::empty(),
                cursors: Map::empty(),
                client_changes: Map::empty(),
                retained_changes: Set::empty(),
            }),
            result.config == config,
            result.authenticator == authenticator,
            result.next_generated_client_id == 1,
            !result.shutting_down,
    {
        Broker::with_state(BrokerState::new(), config, authenticator)
    }

    /// A broker that goes on from a state.
    pub fn with_state(
        state: BrokerState,
        config: BrokerConfig,
        authenticator: ConfiguredAuthenticator,
    ) -> (result: Self)
        ensures
            result.state == state,
            result.config == config,
            result.authenticator == authenticator,
            result.next_generated_client_id == 1,
            !result.shutting_down,
    {
        Broker {
            state,
            config,
            authenticator,
            next_generated_client_id: 1,
            shutting_down: false,
        }
    }

    /// Whether a connection's client may publish to a topic.
    pub fn authorize_publish(&self, connection_id: u64, topic_name: &str) -> (result: bool)
        ensures
            result == publish_allowed(
                self.authenticator.rules(),
                match lookup(self.state.deep_view().clients, connection_id) {
                    Some(client) => client.principal,
                    None => None,
                },
                topic_name@,
            ),
    {
        let nobody: Option<String> = None;
        match self.state.clients_by_connection.get(&connection_id) {
            Some(client) => self.authenticator.authorize_publish(&client.principal, topic_name),
            None => self.authenticator.authorize_publish(&nobody, topic_name),
        }
    }

    /// From now on no client is let in.
    pub fn begin_shutdown(&mut self)
        ensures
            *final(self) == (Broker { shutting_down: true, ..*old(self) }),
    {
        self.shutting_down = true;
    }

    /// From now on no client is let in. Returns what every connected client is told.
    pub fn shutdown_active_sessions(&mut self) -> (result: Vec<Delivery>)
        requires
            old(self).state.wf(),
        ensures
            *final(self) == (Broker { shutting_down: true, ..*old(self) }),
            result.deep_view() == farewells(
                entries_of::<u64, ClientEntryView>(old(self).state.deep_view().clients),
            ),
    {
        self.begin_shutdown();
        let count: usize = self.state.clients_by_connection.len();
        let ghost entries = self.state.clients_by_connection.entries();
        let mut result: Vec<Delivery> = Vec::new();
        let mut index: usize = 0;
        while index < count
            invariant
                index <= count == entries.len(),
                entries == self.state.clients_by_connection.entries(),
                result@.len() == index,
                forall|i: int|
                    0 <= i < index ==> (#[trigger] result@[i]).deep_view() == farewell(
                        entries[i].0,
                    ),
            decreases count - index,
        {
            let packet: MqttPacket = MqttPacket::Disconnect(
                DisconnectPacket {
                    reason_code: SERVER_SHUTTING_DOWN,
                    properties: reason_properties(SERVER_SHUTTING_DOWN),
                },
            );
            let connection_id: u64 = *self.state.clients_by_connection.key_at(index);
            result.push(Delivery { connection_id, packet: BrokerWrite::packet(packet) });
            index += 1;
        }
        assert(result.deep_view() =~= farewells(entries));
        result
    }

    /// A name for a client that has none.
    pub fn generated_client_id(&mut self) -> (result: String)
        ensures
            result@ == generated_name(old(self).next_generated_client_id),
            *final(self) == (Broker {
                next_generated_client_id: number_after(old(self).next_generated_client_id),
                ..*old(self)
            }),
    {
        let id: u64 = self.next_generated_client_id;
        self.next_generated_client_id = if id == u64::MAX {
            0
        } else {
            id + 1
        };
        text_concat("pulse-", decimal_text(id).as_str())
    }

    /// Lets a client in under the name that it asks for, or under a new one where it asks for none.
    pub fn connect(
        &mut self,
        connection_id: u64,
        requested_client_id: String,
        will: Option<Will>,
        principal: Option<String>,
        options: ConnectOptions,
        now_ms: u64,
    ) -> (result: ConnectOutcome)
        requires
            old(self).state.wf(),
        ensures
            final(self).state.wf(),
            (final(self).deep_view(), result.deep_view()) == connecting(
                old(self).deep_view(),
                connection_id,
                requested_client_id@,
                will.deep_view(),
                principal.deep_view(),
                options,
                now_ms,
            ),
    {
        let client_id: String = if requested_client_id.as_str().is_empty() {
            self.generated_client_id()
        } else {
            requested_client_id
        };
        self.connect_as(connection_id, client_id, will, principal, options, now_ms)
    }

    /// Lets a client in under a name.
    fn connect_as(
        &mut self,
        connection_id: u64,
        client_id: String,
        will: Option<Will>,
        principal: Option<String>,
        options: ConnectOptions,
        now_ms: u64,
    ) -> (result: ConnectOutcome)
        requires
            old(self).state.wf(),
        ensures
            final(self).state.wf(),
            final(self).same_setup(old(self)),
            result.client_id@ == client_id@,
            result.session_present == (!options.clean_start && without_expired(
                old(self).state.deep_view(),
                now_ms,
            ).sessions.dom().contains(client_id@)),
            result.replaced_connection == replaced_by(
                started(
                    without_expired(old(self).state.deep_view(), now_ms),
                    client_id@,
                    options.clean_start,
                ),
                client_id@,
                connection_id,
            ),
            (final(self).state.deep_view(), result.redeliveries.deep_view()) == connected(
                old(self).state.deep_view(),
                connection_id,
                client_id@,
                will.deep_view(),
                principal.deep_view(),
                options,
                now_ms,
            ),
    {
        let ghost id = client_id@;
        self.state.expire_sessions(now_ms);
        let ghost live = self.state.deep_view();
        let was_durable: bool = self.state.is_client_durable(&client_id);
        let had_session: bool = self.state.sessions_by_client_id.contains_key(&client_id);
        if options.clean_start {
            self.state.sessions_by_client_id.remove(&client_id);
            remove_client_subscriptions(&mut self.state.subscriptions, client_id.as_str());
        }
        let ghost begun = self.state.deep_view();
        assert(begun == started(live, id, options.clean_start));
        let mut replaced: Option<u64> = None;
        if let Some(previous) = self.state.connection_by_client_id.insert(
            client_id.dup(),
            connection_id,
        ) {
            if previous != connection_id {
                if self.state.remove_connection_state(previous, true, now_ms).is_some() {
                    replaced = Some(previous);
                }
            }
        }
        let ghost joined = self.state.deep_view();
        assert(joined == attached(begun, id, connection_id, now_ms));
        let session: SessionEntry = match self.state.sessions_by_client_id.remove(&client_id) {
            Some(mut session) => {
                session.expires_at_ms = None;
                session.session_expiry_interval = options.session_expiry_interval;
                session
            },
            None => SessionEntry::connected(options.session_expiry_interval),
        };
        let ghost view = session.deep_view();
        self.state.sessions_by_client_id.insert(client_id.dup(), session);
        assert(joined.sessions.remove(id).insert(id, view) =~= joined.sessions.insert(id, view));
        let subscription_count: usize = count_held(&self.state.subscriptions, &client_id);
        self.state.clients_by_connection.insert(
            connection_id,
            ClientEntry {
                client_id: client_id.dup(),
                will,
                principal,
                session_expiry_interval: options.session_expiry_interval,
                receive_maximum: options.receive_maximum,
                maximum_packet_size: options.maximum_packet_size,
                keep_alive_deadline_ms: 0,
                persistent_session: options.session_expiry_interval != 0,
                subscription_count,
            },
        );
        let durable: bool = options.session_expiry_interval != 0;
        if (options.clean_start || !durable) && (was_durable || durable) {
            self.state.mark_client_reset(client_id.dup());
        } else if durable {
            self.state.mark_client_changed(client_id.dup());
        }
        let redeliveries: Vec<Delivery> = redeliveries_for_client(
            &mut self.state,
            &client_id,
            now_ms,
        );
        ConnectOutcome {
            client_id,
            session_present: !options.clean_start && had_session,
            replaced_connection: replaced,
            redeliveries,
        }
    }

    /// Forgets a connection and returns who used it.
    pub fn remove_connection(&mut self, connection_id: u64, now_ms: u64) -> (result: Option<
        RemoveConnectionOutcome,
    >)
        requires
            old(self).state.wf(),
        ensures
            final(self).state.wf(),
            final(self).same_setup(old(self)),
            final(self).state.deep_view() == disconnected(
                old(self).state.deep_view(),
                connection_id,
                now_ms,
            ),
            match lookup(old(self).state.deep_view().clients, connection_id) {
                Some(client) => result matches Some(outcome) && outcome.client_id@
                    == client.client_id && outcome.will.deep_view() == client.will,
                None => result is None,
            },
    {
        match self.state.remove_connection_state(connection_id, false, now_ms) {
            Some(client) => {
                self.state.connection_by_client_id.remove(&client.client_id);
                Some(RemoveConnectionOutcome { client_id: client.client_id, will: client.will })
            },
            None => None,
        }
    }

    /// Works off one requested subscription.
    fn subscribe_one(
        &mut self,
        client: &ClientEntry,
        subscription: &Subscription,
        subscription_identifier: Option<u32>,
        inserted: usize,
        now_ms: u64,
        Ghost(progress): Ghost<SubscribeProgress>,
    ) -> (result: (u8, bool, Vec<Delivery>))
        requires
            old(self).state.wf(),
            old(self).state.deep_view() == progress.state,
            progress.inserted == inserted,
            client.subscription_count + inserted <= usize::MAX,
        ensures
            final(self).state.wf(),
            final(self).same_setup(old(self)),
            ({
                let next = subscribed_one(
                    progress,
                    Subscriber {
                        client: client.deep_view(),
                        rules: old(self).authenticator.rules(),
                        config: old(self).config,
                        subscription_identifier,
                        now_ms,
                    },
                    subscription.deep_view(),
                );
                &&& final(self).state.deep_view() == next.state
                &&& next.reason_codes == progress.reason_codes.push(result.0)
                &&& next.sent == progress.sent + result.2.deep_view()
                &&& next.inserted == progress.inserted + if result.1 {
                    1nat
                } else {
                    0nat
                }
                &&& result.1 ==> client.subscription_count + inserted
                    < old(self).config.max_subscriptions_per_client
            }),
    {
        let none: Vec<Delivery> = Vec::new();
        let filter: &str = subscription.topic_filter.as_str();
        proof {
            assert(none.deep_view() =~= Seq::<DeliveryView>::empty());
            assert(progress.sent + Seq::<DeliveryView>::empty() =~= progress.sent);
        }
        if !is_valid_topic_filter(filter) {
            return (TOPIC_FILTER_INVALID, false, none);
        }
        if !self.authenticator.authorize_subscribe(&client.principal, filter) {
            return (NOT_AUTHORIZED, false, none);
        }
        let known: usize = client.subscription_count + inserted;
        let existing: Option<usize> = if known == 0 {
            None
        } else {
            find_subscription(&self.state.subscriptions, client.client_id.as_str(), filter)
        };
        if existing.is_none() && known >= self.config.max_subscriptions_per_client {
            return (QUOTA_EXCEEDED, false, none);
        }
        let ghost before = self.state.deep_view();
        proof {
            subscription_position_is_first(before.subscriptions, client.client_id@, filter@);
        }
        let upsert: UpsertSubscriptionResult = upsert_subscription_at(
            &mut self.state.subscriptions,
            client.client_id.as_str(),
            subscription.dup(),
            subscription_identifier,
            existing,
        );
        let ghost entry = entry_for(
            client.client_id@,
            subscription.deep_view(),
            subscription_identifier,
        );
        let ghost after = self.state.deep_view();
        assert(after.subscriptions.len() == self.state.subscriptions@.len());
        assert(after.subscriptions == match existing {
            Some(index) => before.subscriptions.update(index as int, entry),
            None => before.subscriptions.push(entry),
        });
        assert(after.subscriptions[upsert.index as int] == entry);
        let stored: SubscriptionEntry = self.state.subscriptions[upsert.index].dup();
        assert(stored.deep_view() == entry);
        if client.persistent_session {
            self.state.mark_client_changed(client.client_id.dup());
        }
        let code: u8 = granted_qos_code(stored.options.maximum_qos);
        let sent: Vec<Delivery> = if should_send_retained_on_subscribe(
            stored.options.retain_handling,
            upsert.inserted,
        ) {
            retained_for_subscription(&mut self.state, &stored, &self.config, now_ms)
        } else {
            none
        };
        (code, upsert.inserted, sent)
    }

    /// Works off a SUBSCRIBE packet.
    pub fn subscribe(
        &mut self,
        connection_id: u64,
        packet: SubscribePacket,
        now_ms: u64,
    ) -> (result: (SubAckPacket, Vec<Delivery>))
        requires
            old(self).state.wf(),
        ensures
            final(self).state.wf(),
            final(self).same_setup(old(self)),
            (final(self).state.deep_view(), result.0.deep_view(), result.1.deep_view())
                == subscribed(
                old(self).state.deep_view(),
                old(self).authenticator.rules(),
                old(self).config,
                connection_id,
                packet.deep_view(),
                now_ms,
            ),
    {
        let client: ClientEntry = match self.state.clients_by_connection.get(&connection_id) {
            Some(client) => client.dup(),
            None => {
                let ack: SubAckPacket = SubAckPacket {
                    packet_id: packet.packet_id,
                    properties: Vec::new(),
                    reason_codes: repeat_code(UNSPECIFIED_ERROR, packet.subscriptions.len()),
                };
                let none: Vec<Delivery> = Vec::new();
                proof {
                    assert(ack.properties.deep_view() =~= Seq::<PropertyView>::empty());
                    assert(none.deep_view() =~= Seq::<DeliveryView>::empty());
                    assert(packet.subscriptions.deep_view().len() == packet.subscriptions@.len());
                }
                return (ack, none);
            },
        };
        let identifier: Option<u32> = find_subscription_identifier(&packet.properties);
        let ghost start = self.state.deep_view();
        let ghost subscriber = Subscriber {
            client: client.deep_view(),
            rules: self.authenticator.rules(),
            config: self.config,
            subscription_identifier: identifier,
            now_ms,
        };
        let ghost list = packet.subscriptions.deep_view();
        let mut reason_codes: Vec<u8> = Vec::new();
        let mut sent: Vec<Delivery> = Vec::new();
        let mut inserted: usize = 0;
        let mut index: usize = 0;
        proof {
            assert(reason_codes.deep_view() =~= Seq::<u8>::empty());
            assert(sent.deep_view() =~= Seq::<DeliveryView>::empty());
        }
        while index < packet.subscriptions.len()
            invariant
                index <= packet.subscriptions@.len(),
                list == packet.subscriptions.deep_view(),
                self.state.wf(),
                self.same_setup(old(self)),
                subscriber == (Subscriber {
                    client: client.deep_view(),
                    rules: self.authenticator.rules(),
                    config: self.config,
                    subscription_identifier: identifier,
                    now_ms,
                }),
                inserted > 0 ==> client.subscription_count + inserted
                    <= self.config.max_subscriptions_per_client,
                ({
                    let progress = subscribed_all(start, subscriber, list.take(index as int));
                    &&& self.state.deep_view() == progress.state
                    &&& reason_codes.deep_view() == progress.reason_codes
                    &&& sent.deep_view() == progress.sent
                    &&& inserted == progress.inserted
                }),
            decreases packet.subscriptions@.len() - index,
        {
            let ghost progress = subscribed_all(start, subscriber, list.take(index as int));
            proof {
                assert(list.take(index + 1).drop_last() =~= list.take(index as int));
                assert(list.take(index + 1).last()
                    == packet.subscriptions@[index as int].deep_view());
            }
            let ghost codes = reason_codes.deep_view();
            let ghost collected = sent.deep_view();
            let (code, is_new, mut retained): (u8, bool, Vec<Delivery>) = self.subscribe_one(
                &client,
                &packet.subscriptions[index],
                identifier,
                inserted,
                now_ms,
                Ghost(progress),
            );
            let ghost more = retained.deep_view();
            reason_codes.push(code);
            sent.append(&mut retained);
            proof {
                assert(reason_codes.deep_view() =~= codes.push(code));
                assert(sent.deep_view() =~= collected + more);
            }
            if is_new {
                inserted = inserted + 1;
            }
            index += 1;
        }
        assert(list.take(index as int) =~= list);
        let ghost done = self.state.deep_view();
        if let Some(mut entry) = self.state.clients_by_connection.remove(&connection_id) {
            entry.subscription_count = client.subscription_count + inserted;
            let ghost view = entry.deep_view();
            self.state.clients_by_connection.insert(connection_id, entry);
            assert(done.clients.remove(connection_id).insert(connection_id, view)
                =~= done.clients.insert(connection_id, view));
        } else {
            assert(done.clients.remove(connection_id) =~= done.clients);
        }
        let properties: Vec<MqttProperty> = first_reason_properties(&reason_codes);
        (SubAckPacket { packet_id: packet.packet_id, properties, reason_codes }, sent)
    }

    /// Works off an UNSUBSCRIBE packet.
    pub fn unsubscribe(&mut self, connection_id: u64, packet: &UnsubscribePacket) -> (result:
        UnsubAckPacket)
        requires
            old(self).state.wf(),
        ensures
            final(self).state.wf(),
            final(self).same_setup(old(self)),
            final(self).state.deep_view() == unsubscribed(
                old(self).state.deep_view(),
                connection_id,
                packet.deep_view().topic_filters,
            ),
            result.deep_view() == (UnsubAckView {
                packet_id: packet.packet_id,
                properties: Seq::empty(),
                reason_codes: repeated(SUCCESS, packet.deep_view().topic_filters.len()),
            }),
    {
        let properties: Vec<MqttProperty> = Vec::new();
        let reason_codes: Vec<u8> = repeat_code(SUCCESS, packet.topic_filters.len());
        proof {
            assert(properties.deep_view() =~= Seq::<PropertyView>::empty());
            assert(packet.topic_filters.deep_view().len() == packet.topic_filters@.len());
        }
        let ack: UnsubAckPacket = UnsubAckPacket {
            packet_id: packet.packet_id,
            properties,
            reason_codes,
        };
        let (client_id, persistent): (String, bool) = match self.state.clients_by_connection.get(
            &connection_id,
        ) {
            Some(client) => (client.client_id.dup(), client.persistent_session),
            None => return ack,
        };
        let ghost start = self.state.deep_view();
        let ghost filters = packet.topic_filters.deep_view();
        let total: usize = self.state.subscriptions.len();
        let mut index: usize = 0;
        while index < packet.topic_filters.len()
            invariant
                index <= packet.topic_filters@.len(),
                filters == packet.topic_filters.deep_view(),
                self.state.wf(),
                self.same_setup(old(self)),
                total == start.subscriptions.len(),
                self.state.subscriptions@.len() <= total,
                self.state.deep_view() == (StateView {
                    subscriptions: without_all_held(
                        start.subscriptions,
                        client_id@,
                        filters.take(index as int),
                    ),
                    ..start
                }),
            decreases packet.topic_filters@.len() - index,
        {
            proof {
                assert(filters.take(index + 1).drop_last() =~= filters.take(index as int));
                assert(filters.take(index + 1).last() == packet.topic_filters@[index as int]@);
            }
            remove_held_subscriptions(
                &mut self.state.subscriptions,
                client_id.as_str(),
                packet.topic_filters[index].as_str(),
            );
            index += 1;
        }
        assert(filters.take(index as int) =~= filters);
        let removed: usize = total - self.state.subscriptions.len();
        assert(self.state.deep_view().subscriptions.len() == self.state.subscriptions@.len());
        if removed != 0 {
            let ghost done = self.state.deep_view();
            if let Some(mut entry) = self.state.clients_by_connection.remove(&connection_id) {
                entry.subscription_count = entry.subscription_count.saturating_sub(removed);
                let ghost view = entry.deep_view();
                self.state.clients_by_connection.insert(connection_id, entry);
                assert(done.clients.remove(connection_id).insert(connection_id, view)
                    =~= done.clients.insert(connection_id, view));
            }
            if persistent {
                self.state.mark_client_changed(client_id);
            }
        }
        ack
    }

    /// Publishes a client's publication.
    pub fn publish(&mut self, connection_id: u64, packet: &PublishPacket, now_ms: u64) -> (result:
        Vec<Delivery>)
        requires
            old(self).state.wf(),
        ensures
            final(self).state.wf(),
            final(self).same_setup(old(self)),
            (final(self).state.deep_view(), result.deep_view()) == publication(
                old(self).state.deep_view(),
                old(self).config,
                connection_id,
                packet.deep_view(),
                now_ms,
            ),
    {
        self.state.expire_sessions(now_ms);
        retain_publish(&mut self.state, packet, &self.config, now_ms);
        deliveries_for_publish(&mut self.state, connection_id, packet, &self.config, now_ms)
    }

    /// Keeps a QoS 2 publication until it is released. Returns the reason code of the answer.
    pub fn store_qos2_publish(
        &mut self,
        connection_id: u64,
        packet_id: u16,
        packet: PublishPacket,
        now_ms: u64,
    ) -> (result: u8)
        requires
            old(self).state.wf(),
        ensures
            final(self).state.wf(),
            final(self).same_setup(old(self)),
            (final(self).state.deep_view(), result) == stored_qos2(
                old(self).state.deep_view(),
                old(self).config,
                connection_id,
                packet_id,
                packet.deep_view(),
                now_ms,
            ),
    {
        let key: (u64, u16) = (connection_id, packet_id);
        if self.state.qos2_inflight.contains_key(&key) {
            return SUCCESS;
        }
        let count: usize = self.state.qos2_inflight.len();
        let ghost entries = self.state.qos2_inflight.entries();
        let mut waiting: usize = 0;
        let mut index: usize = 0;
        while index < count
            invariant
                index <= count == entries.len(),
                entries == self.state.qos2_inflight.entries(),
                waiting <= index,
                waiting == waiting_count(entries.take(index as int), connection_id),
            decreases count - index,
        {
            proof {
                assert(entries.take(index + 1).drop_last() =~= entries.take(index as int));
                assert(entries.take(index + 1).last() == entries[index as int]);
            }
            if self.state.qos2_inflight.key_at(index).0 == connection_id {
                waiting += 1;
            }
            index += 1;
        }
        assert(entries.take(index as int) =~= entries);
        if waiting >= self.config.server_receive_maximum as usize {
            return RECEIVE_MAXIMUM_EXCEEDED;
        }
        let expires_at_ms: Option<u64> = message_expires_at_ms(&packet, now_ms);
        self.state.qos2_inflight.insert(key, PendingPublish { packet, expires_at_ms });
        SUCCESS
    }

    /// Publishes a QoS 2 publication that is released.
    pub fn complete_qos2_publish(&mut self, connection_id: u64, packet_id: u16, now_ms: u64) -> (
    result: Option<Vec<Delivery>>)
        requires
            old(self).state.wf(),
        ensures
            final(self).state.wf(),
            final(self).same_setup(old(self)),
            (final(self).state.deep_view(), result.deep_view()) == completed_qos2(
                old(self).state.deep_view(),
                old(self).config,
                connection_id,
                packet_id,
                now_ms,
            ),
    {
        let ghost before = self.state.deep_view();
        let key: (u64, u16) = (connection_id, packet_id);
        let pending: PendingPublish = match self.state.qos2_inflight.remove(&key) {
            Some(pending) => pending,
            None => {
                assert(before.qos2_inflight.remove(key) =~= before.qos2_inflight);
                return None;
            },
        };
        if is_message_expired(pending.expires_at_ms, now_ms) {
            self.state.expire_sessions(now_ms);
            let none: Vec<Delivery> = Vec::new();
            assert(none.deep_view() =~= Seq::<DeliveryView>::empty());
            return Some(none);
        }
        Some(self.publish(connection_id, &pending.packet, now_ms))
    }

    /// Takes note that a QoS 1 publication was acknowledged.
    pub fn complete_outbound_qos1(&mut self, connection_id: u64, packet_id: u16, now_ms: u64) -> (
    result: Option<Vec<Delivery>>)
        requires
            old(self).state.wf(),
        ensures
            final(self).state.wf(),
            final(self).same_setup(old(self)),
            (final(self).state.deep_view(), result.deep_view()) == acknowledged_qos1(
                old(self).state.deep_view(),
                connection_id,
                packet_id,
                now_ms,
            ),
    {
        let ghost before = self.state.deep_view();
        let client_id: String = match self.state.clients_by_connection.get(&connection_id) {
            Some(client) => client.client_id.dup(),
            None => return None,
        };
        let mut session: SessionEntry = match self.state.sessions_by_client_id.remove(&client_id) {
            Some(session) => session,
            None => {
                assert(before.sessions.remove(client_id@) =~= before.sessions);
                return None;
            },
        };
        let ghost first = session.deep_view();
        let removed: bool = session.outbound_qos1.remove(&packet_id).is_some();
        let ghost view = session.deep_view();
        self.state.sessions_by_client_id.insert(client_id.dup(), session);
        proof {
            assert(before.sessions.remove(client_id@).insert(client_id@, view)
                =~= before.sessions.insert(client_id@, view));
            if !removed {
                assert(first.outbound_qos1.remove(packet_id) =~= first.outbound_qos1);
                assert(before.sessions.insert(client_id@, view) =~= before.sessions);
            }
        }
        if !removed {
            return None;
        }
        Some(queued_deliveries_for_client(&mut self.state, &client_id, now_ms))
    }

    /// Takes note that a QoS 2 publication was received.
    pub fn receive_outbound_qos2(&mut self, connection_id: u64, packet_id: u16, now_ms: u64) -> (
    result: Option<Vec<Delivery>>)
        requires
            old(self).state.wf(),
        ensures
            final(self).state.wf(),
            final(self).same_setup(old(self)),
            (final(self).state.deep_view(), result.deep_view()) == received_qos2(
                old(self).state.deep_view(),
                connection_id,
                packet_id,
                now_ms,
            ),
    {
        let ghost before = self.state.deep_view();
        let client_id: String = match self.state.clients_by_connection.get(&connection_id) {
            Some(client) => client.client_id.dup(),
            None => return None,
        };
        let mut session: SessionEntry = match self.state.sessions_by_client_id.remove(&client_id) {
            Some(session) => session,
            None => {
                assert(before.sessions.remove(client_id@) =~= before.sessions);
                return None;
            },
        };
        let ghost first = session.deep_view();
        let removed: bool = session.outbound_qos2_publish.remove(&packet_id).is_some();
        if removed {
            let ghost released = session.outbound_qos2_pubrel.deep_view();
            session.outbound_qos2_pubrel.insert(packet_id, ());
            assert(session.outbound_qos2_pubrel.deep_view().dom() =~= released.dom().insert(
                packet_id,
            ));
        }
        let ghost view = session.deep_view();
        self.state.sessions_by_client_id.insert(client_id.dup(), session);
        proof {
            assert(before.sessions.remove(client_id@).insert(client_id@, view)
                =~= before.sessions.insert(client_id@, view));
            if !removed {
                assert(first.outbound_qos2_publish.remove(packet_id)
                    =~= first.outbound_qos2_publish);
                assert(before.sessions.insert(client_id@, view) =~= before.sessions);
            }
        }
        if !removed {
            return None;
        }
        Some(queued_deliveries_for_client(&mut self.state, &client_id, now_ms))
    }

    /// Takes note that a QoS 2 publication is complete. Returns whether it was to be.
    pub fn complete_outbound_qos2(&mut self, connection_id: u64, packet_id: u16) -> (result: bool)
        requires
            old(self).state.wf(),
        ensures
            final(self).state.wf(),
            final(self).same_setup(old(self)),
            (final(self).state.deep_view(), result) == finished_qos2(
                old(self).state.deep_view(),
                connection_id,
                packet_id,
            ),
    {
        let ghost before = self.state.deep_view();
        let client_id: String = match self.state.clients_by_connection.get(&connection_id) {
            Some(client) => client.client_id.dup(),
            None => return false,
        };
        let mut session: SessionEntry = match self.state.sessions_by_client_id.remove(&client_id) {
            Some(session) => session,
            None => {
                assert(before.sessions.remove(client_id@) =~= before.sessions);
                return false;
            },
        };
        let ghost first = session.deep_view();
        let ghost released = session.outbound_qos2_pubrel.deep_view();
        let removed: bool = session.outbound_qos2_pubrel.remove(&packet_id).is_some();
        assert(session.outbound_qos2_pubrel.deep_view().dom() =~= released.dom().remove(
            packet_id,
        ));
        let ghost view = session.deep_view();
        self.state.sessions_by_client_id.insert(client_id.dup(), session);
        proof {
            assert(before.sessions.remove(client_id@).insert(client_id@, view)
                =~= before.sessions.insert(client_id@, view));
            if !removed {
                assert(first.outbound_qos2_pubrel.remove(packet_id)
                    =~= first.outbound_qos2_pubrel);
                assert(before.sessions.insert(client_id@, view) =~= before.sessions);
            }
        }
        if removed {
            self.state.mark_client_changed_if_durable(client_id);
        }
        removed
    }

    /// Sends again what a connection has not acknowledged.
    pub fn retransmit_outbound(&mut self, connection_id: u64, now_ms: u64) -> (result: Option<
        Vec<Delivery>,
    >)
        requires
            old(self).state.wf(),
        ensures
            final(self).state.wf(),
            final(self).same_setup(old(self)),
            (final(self).state.deep_view(), result.deep_view()) == retransmitted(
                old(self).state.deep_view(),
                connection_id,
                now_ms,
            ),
    {
        retransmissions_for_connection(&mut self.state, connection_id, now_ms)
    }

    /// Whether a packet is longer than this server accepts.
    pub fn packet_exceeds_server_maximum(&self, packet: &MqttPacket) -> (result: bool)
        ensures
            result == (wire_size(packet.deep_view()) matches Some(size) && size
                > self.config.server_maximum_packet_size),
    {
        match packet_size(packet) {
            Some(size) => size > self.config.server_maximum_packet_size as usize,
            None => false,
        }
    }

    /// Publishes a will, where its topic may be published to.
    pub fn publish_will(&mut self, connection_id: u64, will: Will, now_ms: u64) -> (result: Vec<
        Delivery,
    >)
        requires
            old(self).state.wf(),
        ensures
            final(self).state.wf(),
            final(self).same_setup(old(self)),
            (final(self).state.deep_view(), result.deep_view()) == will_published(
                old(self).state.deep_view(),
                old(self).config,
                connection_id,
                will.deep_view(),
                now_ms,
            ),
    {
        if !is_valid_topic_name(will.topic.as_str()) {
            let none: Vec<Delivery> = Vec::new();
            assert(none.deep_view() =~= Seq::<DeliveryView>::empty());
            return none;
        }
        let packet: PublishPacket = PublishPacket {
            dup: false,
            qos: will.qos,
            retain: will.retain,
            topic_name: will.topic,
            packet_id: None,
            properties: will.properties,
            payload: will.payload,
        };
        self.publish(connection_id, &packet, now_ms)
    }

    /// Sets until when a connection's client may be silent; zero is for ever.
    pub fn set_keep_alive_deadline(&mut self, connection_id: u64, deadline_ms: u64)
        requires
            old(self).state.wf(),
        ensures
            final(self).state.wf(),
            final(self).same_setup(old(self)),
            final(self).state.deep_view() == with_deadline(
                old(self).state.deep_view(),
                connection_id,
                deadline_ms,
            ),
    {
        let ghost before = self.state.deep_view().clients;
        if let Some(mut client) = self.state.clients_by_connection.remove(&connection_id) {
            client.keep_alive_deadline_ms = deadline_ms;
            let ghost view = client.deep_view();
            self.state.clients_by_connection.insert(connection_id, client);
            assert(before.remove(connection_id).insert(connection_id, view) =~= before.insert(
                connection_id,
                view,
            ));
        } else {
            assert(before.remove(connection_id) =~= before);
        }
    }

    /// Whether some client may be silent only until some moment.
    pub fn has_keep_alive_deadlines(&self) -> (result: bool)
        ensures
            result == exists|connection_id: u64| #[trigger]
                self.state.deep_view().clients.dom().contains(connection_id)
                    && self.state.deep_view().clients[connection_id].keep_alive_deadline_ms != 0,
    {
        let count: usize = self.state.clients_by_connection.len();
        let ghost entries = self.state.clients_by_connection.entries();
        let mut index: usize = 0;
        while index < count
            invariant
                index <= count == entries.len(),
                entries == self.state.clients_by_connection.entries(),
                forall|i: int|
                    0 <= i < index ==> (#[trigger] entries[i]).1.keep_alive_deadline_ms == 0,
            decreases count - index,
        {
            let client: &ClientEntry = self.state.clients_by_connection.value_at(index);
            if client.keep_alive_deadline_ms != 0 {
                assert(self.state.deep_view().clients.dom().contains(entries[index as int].0));
                return true;
            }
            index += 1;
        }
        proof {
            assert forall|connection_id: u64| #[trigger]
                self.state.deep_view().clients.dom().contains(connection_id) implies
                self.state.deep_view().clients[connection_id].keep_alive_deadline_ms == 0 by {
                key_has_entry(entries, connection_id);
            }
        }
        false
    }

    /// Forgets the connections whose clients were silent for too long.
    pub fn expire_keep_alive_clients(&mut self, now_ms: u64) -> (result: Vec<
        ExpiredKeepAliveClient,
    >)
        requires
            old(self).state.wf(),
        ensures
            final(self).state.wf(),
            final(self).same_setup(old(self)),
            (final(self).state.deep_view(), result.deep_view()) == silent_removed(
                old(self).state.deep_view(),
                entries_of::<u64, ClientEntryView>(old(self).state.deep_view().clients),
                now_ms,
            ),
    {
        let ghost start = self.state.deep_view();
        let count: usize = self.state.clients_by_connection.len();
        let ghost entries = self.state.clients_by_connection.entries();
        let mut silent: Vec<(u64, Option<Will>)> = Vec::new();
        let mut index: usize = 0;
        while index < count
            invariant
                index <= count == entries.len(),
                entries == self.state.clients_by_connection.entries(),
                self.state.deep_view() == start,
                silent.deep_view() == silent_entries(entries.take(index as int), now_ms),
            decreases count - index,
        {
            let ghost before = silent.deep_view();
            proof {
                assert(entries.take(index + 1).drop_last() =~= entries.take(index as int));
                assert(entries.take(index + 1).last() == entries[index as int]);
            }
            let client: &ClientEntry = self.state.clients_by_connection.value_at(index);
            if client.keep_alive_deadline_ms != 0 && client.keep_alive_deadline_ms <= now_ms {
                let item: (u64, Option<Will>) = (
                    *self.state.clients_by_connection.key_at(index),
                    client.will.dup(),
                );
                let ghost view = item.deep_view();
                silent.push(item);
                assert(silent.deep_view() =~= before.push(view));
            }
            index += 1;
        }
        assert(entries.take(index as int) =~= entries);
        let mut result: Vec<ExpiredKeepAliveClient> = Vec::new();
        let ghost found = silent.deep_view();
        let mut position: usize = 0;
        assert(result.deep_view() =~= Seq::<ExpiredKeepAliveView>::empty());
        while position < silent.len()
            invariant
                position <= silent@.len(),
                found == silent.deep_view(),
                self.state.wf(),
                self.same_setup(old(self)),
                (self.state.deep_view(), result.deep_view()) == removed_in_turn(
                    start,
                    found.take(position as int),
                    now_ms,
                ),
            decreases silent@.len() - position,
        {
            let ghost before = result.deep_view();
            proof {
                assert(found.take(position + 1).drop_last() =~= found.take(position as int));
                assert(found.take(position + 1).last() == silent@[position as int].deep_view());
            }
            let connection_id: u64 = silent[position].0;
            let will: Option<Will> = silent[position].1.dup();
            self.remove_connection(connection_id, now_ms);
            let client: ExpiredKeepAliveClient = ExpiredKeepAliveClient { connection_id, will };
            let ghost view = client.deep_view();
            result.push(client);
            assert(result.deep_view() =~= before.push(view));
            position += 1;
        }
        assert(found.take(position as int) =~= found);
        proof {
            removed_in_turn_is(start, entries, now_ms);
        }
        result
    }
}

/// The connections of the clients of some entries that were silent for too long, with their wills.
spec fn silent_entries(entries: Seq<(u64, ClientEntryView)>, now_ms: u64) -> Seq<
    (u64, Option<WillView>),
>
    decreases entries.len(),
{
    if entries.len() == 0 {
        Seq::empty()
    } else {
        let front = silent_entries(entries.drop_last(), now_ms);
        if is_silent(entries.last().1, now_ms) {
            front.push((entries.last().0, entries.last().1.will))
        } else {
            front
        }
    }
}

/// The state without some connections, removed in turn.
spec fn removed_in_turn(
    state: StateView,
    silent: Seq<(u64, Option<WillView>)>,
    now_ms: u64,
) -> (StateView, Seq<ExpiredKeepAliveView>)
    decreases silent.len(),
{
    if silent.len() == 0 {
        (state, Seq::empty())
    } else {
        let front = removed_in_turn(state, silent.drop_last(), now_ms);
        let (connection_id, will) = silent.last();
        (
            disconnected(front.0, connection_id, now_ms),
            front.1.push(ExpiredKeepAliveView { connection_id, will }),
        )
    }
}

proof fn removed_in_turn_is(state: StateView, entries: Seq<(u64, ClientEntryView)>, now_ms: u64)
    ensures
        removed_in_turn(state, silent_entries(entries, now_ms), now_ms) == silent_removed(
            state,
            entries,
            now_ms,
        ),
    decreases entries.len(),
{
    if entries.len() > 0 {
        removed_in_turn_is(state, entries.drop_last(), now_ms);
        let front = silent_entries(entries.drop_last(), now_ms);
        if is_silent(entries.last().1, now_ms) {
            let item = (entries.last().0, entries.last().1.will);
            assert(front.push(item).drop_last() =~= front);
            assert(front.push(item).last() == item);
        }
    }
}

/// The same reason code some times over.
fn repeat_code(reason_code: u8, count: usize) -> (result: Vec<u8>)
    ensures
        result.deep_view() == repeated(reason_code, count as nat),
{
    let mut result: Vec<u8> = Vec::new();
    while result.len() < count
        invariant
            result@.len() <= count,
            forall|i: int| 0 <= i < result@.len() ==> result@[i] == reason_code,
        decreases count - result@.len(),
    {
        result.push(reason_code);
    }
    assert(result.deep_view() =~= repeated(reason_code, count as nat));
    result
}

/// The explanation of the first reason code that has one.
fn first_reason_properties(reason_codes: &Vec<u8>) -> (result: Vec<MqttProperty>)
    ensures
        result.deep_view() == first_reason(reason_codes.deep_view()),
{
    let ghost list = reason_codes.deep_view();
    let mut index: usize = 0;
    assert(list.skip(0) =~= list);
    while index < reason_codes.len()
        invariant
            index <= reason_codes@.len(),
            list == reason_codes.deep_view(),
            first_reason(list) == first_reason(list.skip(index as int)),
        decreases reason_codes@.len() - index,
    {
        assert(list.skip(index as int)[0] == reason_codes@[index as int]);
        assert(list.skip(index as int).drop_first() =~= list.skip(index + 1));
        if reason_string(reason_codes[index]).is_some() {
            return reason_properties(reason_codes[index]);
        }
        index += 1;
    }
    let none: Vec<MqttProperty> = Vec::new();
    assert(none.deep_view() =~= Seq::<PropertyView>::empty());
    none
}

} // verus!
