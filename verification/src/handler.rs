//! What a connection's packets lead to.
use vstd::prelude::*;

use crate::auth::authenticated;
use crate::auth::publish_allowed;
use crate::broker::Broker;
use crate::broker::BrokerView;
use crate::broker::ConnectOutcome;
use crate::broker::acknowledged_qos1;
use crate::broker::completed_qos2;
use crate::broker::connecting;
use crate::broker::disconnected;
use crate::broker::finished_qos2;
use crate::broker::publication;
use crate::broker::received_qos2;
use crate::broker::repeated;
use crate::broker::stored_qos2;
use crate::broker::subscribed;
use crate::broker::unsubscribed;
use crate::broker::will_published;
use crate::broker::with_deadline;
use crate::config::BrokerConfig;
use crate::connection::CloseReason;
use crate::connection::ConnectOptions;
use crate::connection::TopicAliases;
use crate::connection::alias_resolved;
use crate::connection::auth_failure_name;
use crate::connection::auth_failure_reason;
use crate::connection::capabilities;
use crate::connection::close_reason_label;
use crate::connection::close_reason_name;
use crate::connection::closed_here;
use crate::connection::connack_capabilities;
use crate::connection::connect_defect;
use crate::connection::is_auth_failure;
use crate::connection::is_packet_parse_error;
use crate::connection::keep_alive_interval_ms;
use crate::connection::options_of;
use crate::connection::should_publish_will;
use crate::connection::validate_connect;
use crate::delivery::Delivery;
use crate::delivery::DeliveryView;
use crate::mqtt_codec::wire_size;
use crate::packet::ConnAckPacket;
use crate::packet::ConnAckView;
use crate::packet::ConnectPacket;
use crate::packet::ConnectView;
use crate::packet::DisconnectPacket;
use crate::packet::DisconnectView;
use crate::packet::MqttPacket;
use crate::packet::MqttProperty;
use crate::packet::PacketView;
use crate::packet::PropertyView;
use crate::packet::PublishPacket;
use crate::packet::PublishView;
use crate::packet::QoS;
use crate::packet::SubAckPacket;
use crate::packet::SubscribeView;
use crate::packet::UnsubAckPacket;
use crate::packet::UnsubAckView;
use crate::protocol::BAD_AUTHENTICATION_METHOD;
use crate::protocol::BAD_USER_NAME_OR_PASSWORD;
use crate::protocol::MALFORMED_PACKET;
use crate::protocol::NOT_AUTHORIZED;
use crate::protocol::PACKET_IDENTIFIER_NOT_FOUND;
use crate::protocol::PACKET_TOO_LARGE;
use crate::protocol::PROTOCOL_ERROR;
use crate::protocol::SERVER_UNAVAILABLE;
use crate::protocol::SUCCESS;
use crate::protocol::TOPIC_ALIAS_INVALID;
use crate::protocol::TOPIC_NAME_INVALID;
use crate::protocol::is_valid_topic_name;
use crate::protocol::valid_topic_name;
use crate::reason::ack_packet;
use crate::reason::explained_ack;
use crate::reason::reason_properties;
use crate::reason::reason_properties_of;
use crate::session::StateView;
use crate::storage::delta::lookup;
use crate::value::Value;
use crate::write::BrokerWrite;
use crate::write::WriteView;
use crate::write::suback_form;
use crate::write::suback_write;

verus! {

/// Something that a connection's packet leads to, beside a change of the broker.
pub enum Effect {
    /// Write to this connection, without sending yet.
    Write(BrokerWrite),
    /// Write to this connection, and send.
    WriteAndFlush(BrokerWrite),
    /// Write to some connections, and send.
    Deliver(Vec<Delivery>),
    /// Write to this connection through its own context, and send.
    DeliverHere(Vec<Delivery>),
    /// Close this connection.
    Close,
    /// Close another connection.
    CloseConnection(u64),
    /// Watch for clients that are silent for too long.
    WatchKeepAlive,
    /// Start sending again what this connection has not acknowledged, at an interval in
    /// milliseconds.
    StartRetransmit(u64),
    /// Stop sending again.
    StopRetransmit,
    /// Forget the number of this connection.
    ForgetConnection,
    /// Count that a client was let in.
    ConnectionOpened,
    /// Count that a client is gone.
    ConnectionClosed(&'static str),
    /// Count that a client was not who it said.
    AuthFailed(&'static str),
    /// Count bytes that are no packet.
    PacketParseError(&'static str),
    /// Count a publication that came in.
    PublishReceived(QoS),
    /// Measure how long a publication took.
    PublishServed,
}

/// What an `Effect` stands for.
pub enum EffectView {
    Write(WriteView),
    WriteAndFlush(WriteView),
    Deliver(Seq<DeliveryView>),
    DeliverHere(Seq<DeliveryView>),
    Close,
    CloseConnection(u64),
    WatchKeepAlive,
    StartRetransmit(u64),
    StopRetransmit,
    ForgetConnection,
    ConnectionOpened,
    ConnectionClosed(Seq<char>),
    AuthFailed(Seq<char>),
    PacketParseError(Seq<char>),
    PublishReceived(QoS),
    PublishServed,
}

impl DeepView for Effect {
    type V = EffectView;

    open spec fn deep_view(&self) -> EffectView {
        match *self {
            Effect::Write(item) => EffectView::Write(item.deep_view()),
            Effect::WriteAndFlush(item) => EffectView::WriteAndFlush(item.deep_view()),
            Effect::Deliver(list) => EffectView::Deliver(list.deep_view()),
            Effect::DeliverHere(list) => EffectView::DeliverHere(list.deep_view()),
            Effect::Close => EffectView::Close,
            Effect::CloseConnection(id) => EffectView::CloseConnection(id),
            Effect::WatchKeepAlive => EffectView::WatchKeepAlive,
            Effect::StartRetransmit(interval) => EffectView::StartRetransmit(interval),
            Effect::StopRetransmit => EffectView::StopRetransmit,
            Effect::ForgetConnection => EffectView::ForgetConnection,
            Effect::ConnectionOpened => EffectView::ConnectionOpened,
            Effect::ConnectionClosed(label) => EffectView::ConnectionClosed(label@),
            Effect::AuthFailed(label) => EffectView::AuthFailed(label@),
            Effect::PacketParseError(label) => EffectView::PacketParseError(label@),
            Effect::PublishReceived(qos) => EffectView::PublishReceived(qos),
            Effect::PublishServed => EffectView::PublishServed,
        }
    }
}

/// What is left to do once the effects so far have succeeded.
pub enum Step {
    /// Nothing.
    Done,
    /// Publish a publication that has been acknowledged.
    Publish(PublishPacket),
    /// Let go of a client that has been told so.
    Leave { publish_will: bool },
}

/// What a `Step` stands for.
pub enum StepView {
    Done,
    Publish(PublishView),
    Leave { publish_will: bool },
}

impl DeepView for Step {
    type V = StepView;

    open spec fn deep_view(&self) -> StepView {
        match *self {
            Step::Done => StepView::Done,
            Step::Publish(packet) => StepView::Publish(packet.deep_view()),
            Step::Leave { publish_will } => StepView::Leave { publish_will },
        }
    }
}

/// The effects of a packet, in order, and what is left to do after them.
pub struct Reply {
    pub effects: Vec<Effect>,
    pub step: Step,
}

/// What a connection's packets are handled by.
pub struct MqttHandler {
    connected: bool,
    client_id: Option<String>,
    keep_alive_interval_ms: Option<u64>,
    topic_aliases: TopicAliases,
}

/// What an `MqttHandler` stands for.
pub struct HandlerView {
    pub connected: bool,
    pub client_id: Option<Seq<char>>,
    pub keep_alive_interval_ms: Option<u64>,
    pub aliases: Map<u16, Seq<char>>,
    pub alias_limit: u16,
}

impl DeepView for MqttHandler {
    type V = HandlerView;

    closed spec fn deep_view(&self) -> HandlerView {
        HandlerView {
            connected: self.connected,
            client_id: self.client_id.deep_view(),
            keep_alive_interval_ms: self.keep_alive_interval_ms,
            aliases: self.topic_aliases.known(),
            alias_limit: self.topic_aliases.limit(),
        }
    }
}

/// What a packet leads to: the handler and the broker afterwards, the effects, and what is left to
/// do after them.
pub struct Handled {
    pub handler: HandlerView,
    pub broker: BrokerView,
    pub effects: Seq<EffectView>,
    pub step: StepView,
}

/// A packet to write and send.
pub open spec fn sending(packet: PacketView) -> EffectView {
    EffectView::WriteAndFlush(WriteView::Packet(packet))
}

/// The broker in another state.
pub open spec fn in_state(broker: BrokerView, state: StateView) -> BrokerView {
    BrokerView { state, ..broker }
}

/// A moment after another one, or the last one.
pub open spec fn moment_after(now_ms: u64, interval_ms: u64) -> u64 {
    if now_ms + interval_ms > u64::MAX {
        u64::MAX
    } else {
        (now_ms + interval_ms) as u64
    }
}

/// The count of a client that was not who it said, where the reason code says so.
pub open spec fn failure_counted(reason_code: u8) -> Seq<EffectView> {
    if reason_code == BAD_USER_NAME_OR_PASSWORD || reason_code == BAD_AUTHENTICATION_METHOD {
        seq![EffectView::AuthFailed(auth_failure_name(reason_code))]
    } else {
        Seq::empty()
    }
}

/// A packet that only leads to effects.
pub open spec fn answered(
    handler: HandlerView,
    broker: BrokerView,
    effects: Seq<EffectView>,
) -> Handled {
    Handled { handler, broker, effects, step: StepView::Done }
}

/// A client is not let in.
pub open spec fn connect_refused(
    handler: HandlerView,
    broker: BrokerView,
    reason_code: u8,
) -> Handled {
    answered(
        handler,
        broker,
        failure_counted(reason_code).push(
            sending(
                PacketView::ConnAck(
                    ConnAckView {
                        session_present: false,
                        reason_code,
                        properties: reason_properties_of(reason_code),
                    },
                ),
            ),
        ).push(EffectView::Close),
    )
}

/// A client is told that it is let go, after some other effects.
pub open spec fn dismissed(
    handler: HandlerView,
    broker: BrokerView,
    effects: Seq<EffectView>,
    reason_code: u8,
    publish_will: bool,
) -> Handled {
    Handled {
        handler,
        broker,
        effects: (effects + failure_counted(reason_code)).push(
            sending(
                PacketView::Disconnect(
                    DisconnectView { reason_code, properties: reason_properties_of(reason_code) },
                ),
            ),
        ),
        step: StepView::Leave { publish_will },
    }
}

/// A client is no longer watched for silence.
pub open spec fn unwatched(
    handler: HandlerView,
    broker: BrokerView,
    connection_id: u64,
) -> BrokerView {
    if handler.keep_alive_interval_ms is Some {
        in_state(broker, with_deadline(broker.state, connection_id, 0))
    } else {
        broker
    }
}

/// A client may be silent for as long again.
pub open spec fn refreshed(
    handler: HandlerView,
    broker: BrokerView,
    connection_id: u64,
    now_ms: u64,
) -> BrokerView {
    match handler.keep_alive_interval_ms {
        Some(interval_ms) => in_state(
            broker,
            with_deadline(broker.state, connection_id, moment_after(now_ms, interval_ms)),
        ),
        None => broker,
    }
}

/// A client is let go: its connection is forgotten, and its will is published where that is asked
/// for.
pub open spec fn let_go(
    handler: HandlerView,
    broker: BrokerView,
    connection_id: u64,
    publish_will: bool,
    now_ms: u64,
) -> Handled {
    let calm = unwatched(handler, broker, connection_id);
    let silent = HandlerView { keep_alive_interval_ms: None, ..handler };
    let stopped = Seq::empty().push(EffectView::StopRetransmit);
    if !handler.connected {
        answered(silent, calm, stopped.push(EffectView::Close))
    } else {
        let gone = HandlerView { connected: false, ..silent };
        match lookup(calm.state.clients, connection_id) {
            None => answered(
                gone,
                calm,
                stopped.push(EffectView::ForgetConnection).push(EffectView::Close),
            ),
            Some(client) => {
                let left = disconnected(calm.state, connection_id, now_ms);
                let counted = stopped.push(EffectView::ConnectionClosed("broker_disconnect"@));
                let named = HandlerView { client_id: Some(client.client_id), ..gone };
                match client.will {
                    Some(will) if publish_will => {
                        let outcome = will_published(
                            left,
                            broker.config,
                            connection_id,
                            will,
                            now_ms,
                        );
                        answered(
                            named,
                            in_state(calm, outcome.0),
                            counted.push(EffectView::Deliver(outcome.1)).push(
                                EffectView::ForgetConnection,
                            ).push(EffectView::Close),
                        )
                    },
                    _ => answered(
                        named,
                        in_state(calm, left),
                        counted.push(EffectView::ForgetConnection).push(EffectView::Close),
                    ),
                }
            },
        }
    }
}

/// A client asks to be let in.
pub open spec fn connect_handled(
    handler: HandlerView,
    broker: BrokerView,
    connection_id: u64,
    packet: ConnectView,
    now_ms: u64,
) -> Handled {
    if handler.connected {
        dismissed(handler, broker, Seq::empty(), PROTOCOL_ERROR, true)
    } else if connect_defect(packet) is Some {
        connect_refused(handler, broker, connect_defect(packet)->0)
    } else if broker.shutting_down {
        connect_refused(handler, broker, SERVER_UNAVAILABLE)
    } else {
        match authenticated(broker.rules, packet.username, packet.password) {
            None => connect_refused(handler, broker, BAD_USER_NAME_OR_PASSWORD),
            Some(principal) => let_in(
                handler,
                broker,
                connection_id,
                packet,
                principal,
                now_ms,
            ),
        }
    }
}

/// The properties of the answer to a client that is let in.
pub open spec fn welcome(
    config: BrokerConfig,
    requested: Seq<char>,
    client_id: Seq<char>,
) -> Seq<PropertyView> {
    if requested.len() == 0 {
        capabilities(config).push(PropertyView::AssignedClientIdentifier(client_id))
    } else {
        capabilities(config)
    }
}

/// A client is let in.
pub open spec fn let_in(
    handler: HandlerView,
    broker: BrokerView,
    connection_id: u64,
    packet: ConnectView,
    principal: Option<Seq<char>>,
    now_ms: u64,
) -> Handled {
    let (joined, outcome) = connecting(
        broker,
        connection_id,
        packet.client_id,
        packet.will,
        principal,
        options_of(packet.clean_start, packet.properties),
        now_ms,
    );
    let calm = unwatched(handler, joined, connection_id);
    let interval_ms = (packet.keep_alive * 1_500) as u64;
    let watched = if packet.keep_alive == 0 {
        calm
    } else {
        in_state(
            calm,
            with_deadline(calm.state, connection_id, moment_after(now_ms, interval_ms)),
        )
    };
    let replaced = match outcome.replaced_connection {
        Some(previous) => Seq::empty().push(
            EffectView::ConnectionClosed("session_replaced"@),
        ).push(EffectView::CloseConnection(previous)),
        None => Seq::empty(),
    };
    let watching = if packet.keep_alive == 0 {
        replaced
    } else {
        replaced.push(EffectView::WatchKeepAlive)
    };
    let stopped = watching.push(EffectView::StopRetransmit);
    let retransmitting = if broker.config.inflight_retransmit_interval_ms == 0 {
        stopped
    } else {
        stopped.push(
            EffectView::StartRetransmit(broker.config.inflight_retransmit_interval_ms),
        )
    };
    answered(
        HandlerView {
            connected: true,
            client_id: Some(outcome.client_id),
            keep_alive_interval_ms: if packet.keep_alive == 0 {
                None
            } else {
                Some(interval_ms)
            },
            ..handler
        },
        watched,
        retransmitting.push(EffectView::ConnectionOpened).push(
            sending(
                PacketView::ConnAck(
                    ConnAckView {
                        session_present: outcome.session_present,
                        reason_code: SUCCESS,
                        properties: welcome(
                            broker.config,
                            packet.client_id,
                            outcome.client_id,
                        ),
                    },
                ),
            ),
        ).push(EffectView::Deliver(outcome.redeliveries)),
    )
}

/// A client takes its leave: its will is not published.
pub open spec fn leave_handled(
    handler: HandlerView,
    broker: BrokerView,
    connection_id: u64,
    now_ms: u64,
) -> Handled {
    let calm = unwatched(handler, broker, connection_id);
    let stopped = Seq::empty().push(EffectView::StopRetransmit);
    let counted = if calm.state.clients.dom().contains(connection_id) {
        stopped.push(EffectView::ConnectionClosed("client_disconnect"@))
    } else {
        stopped
    };
    answered(
        HandlerView { connected: false, keep_alive_interval_ms: None, ..handler },
        in_state(calm, disconnected(calm.state, connection_id, now_ms)),
        counted.push(EffectView::ForgetConnection).push(EffectView::Close),
    )
}

/// A client subscribes.
pub open spec fn subscribe_handled(
    handler: HandlerView,
    broker: BrokerView,
    connection_id: u64,
    packet: SubscribeView,
    now_ms: u64,
) -> Handled {
    let (state, suback, retained) = subscribed(
        broker.state,
        broker.rules,
        broker.config,
        connection_id,
        packet,
        now_ms,
    );
    answered(
        handler,
        in_state(broker, state),
        if retained.len() == 0 {
            Seq::empty().push(EffectView::WriteAndFlush(suback_form(suback)))
        } else {
            Seq::empty().push(EffectView::Write(suback_form(suback))).push(
                EffectView::DeliverHere(retained),
            )
        },
    )
}

/// A client's publication is sent to those who want it, after some other effects.
pub open spec fn publish_served(
    handler: HandlerView,
    broker: BrokerView,
    effects: Seq<EffectView>,
    connection_id: u64,
    packet: PublishView,
    now_ms: u64,
) -> Handled {
    let outcome = publication(broker.state, broker.config, connection_id, packet, now_ms);
    answered(
        handler,
        in_state(broker, outcome.0),
        effects.push(EffectView::Deliver(outcome.1)).push(EffectView::PublishServed),
    )
}

/// Who a connection's client is.
pub open spec fn principal_of(state: StateView, connection_id: u64) -> Option<Seq<char>> {
    match lookup(state.clients, connection_id) {
        Some(client) => client.principal,
        None => None,
    }
}

/// The packet is longer than the server accepts.
pub open spec fn too_long(broker: BrokerView, packet: PublishView) -> bool {
    wire_size(PacketView::Publish(packet)) matches Some(size) && size
        > broker.config.server_maximum_packet_size
}

/// A client publishes with its topic known: it is let go where it must not, or else the publication
/// is served, acknowledged, or kept until it is released.
pub open spec fn resolved_publish_handled(
    handler: HandlerView,
    broker: BrokerView,
    effects: Seq<EffectView>,
    connection_id: u64,
    packet: PublishView,
    now_ms: u64,
) -> Handled {
    let allowed = publish_allowed(
        broker.rules,
        principal_of(broker.state, connection_id),
        packet.topic_name,
    );
    if !valid_topic_name(packet.topic_name) {
        dismissed(handler, broker, effects, TOPIC_NAME_INVALID, true)
    } else if too_long(broker, packet) {
        dismissed(handler, broker, effects, PACKET_TOO_LARGE, true)
    } else if packet.qos == QoS::AtMostOnce {
        if allowed {
            publish_served(handler, broker, effects, connection_id, packet, now_ms)
        } else {
            dismissed(handler, broker, effects, NOT_AUTHORIZED, false)
        }
    } else if packet.packet_id is None {
        dismissed(handler, broker, effects, MALFORMED_PACKET, true)
    } else {
        let packet_id = packet.packet_id->0;
        if packet.qos == QoS::AtLeastOnce {
            if allowed {
                Handled {
                    handler,
                    broker,
                    effects: effects.push(
                        sending(PacketView::PubAck(explained_ack(packet_id, SUCCESS))),
                    ),
                    step: StepView::Publish(packet),
                }
            } else {
                answered(
                    handler,
                    broker,
                    effects.push(
                        sending(PacketView::PubAck(explained_ack(packet_id, NOT_AUTHORIZED))),
                    ),
                )
            }
        } else if allowed {
            let stored = stored_qos2(
                broker.state,
                broker.config,
                connection_id,
                packet_id,
                packet,
                now_ms,
            );
            answered(
                handler,
                in_state(broker, stored.0),
                effects.push(sending(PacketView::PubRec(explained_ack(packet_id, stored.1)))),
            )
        } else {
            answered(
                handler,
                broker,
                effects.push(
                    sending(PacketView::PubRec(explained_ack(packet_id, NOT_AUTHORIZED))),
                ),
            )
        }
    }
}

/// A client publishes.
pub open spec fn publish_handled(
    handler: HandlerView,
    broker: BrokerView,
    connection_id: u64,
    packet: PublishView,
    now_ms: u64,
) -> Handled {
    let received = Seq::empty().push(EffectView::PublishReceived(packet.qos));
    match alias_resolved(handler.aliases, handler.alias_limit, packet) {
        None => dismissed(handler, broker, received, TOPIC_ALIAS_INVALID, true),
        Some(resolved) => resolved_publish_handled(
            HandlerView { aliases: resolved.0, ..handler },
            broker,
            received,
            connection_id,
            PublishView { topic_name: resolved.1, ..packet },
            now_ms,
        ),
    }
}

/// A client releases a QoS 2 publication.
pub open spec fn release_handled(
    handler: HandlerView,
    broker: BrokerView,
    connection_id: u64,
    packet_id: u16,
    now_ms: u64,
) -> Handled {
    let outcome = completed_qos2(broker.state, broker.config, connection_id, packet_id, now_ms);
    match outcome.1 {
        None => answered(
            handler,
            broker,
            Seq::empty().push(
                sending(
                    PacketView::PubComp(explained_ack(packet_id, PACKET_IDENTIFIER_NOT_FOUND)),
                ),
            ),
        ),
        Some(sent) => answered(
            handler,
            in_state(broker, outcome.0),
            Seq::empty().push(EffectView::Deliver(sent)).push(
                sending(PacketView::PubComp(explained_ack(packet_id, SUCCESS))),
            ),
        ),
    }
}

/// A client acknowledges a QoS 1 publication.
pub open spec fn ack_handled(
    handler: HandlerView,
    broker: BrokerView,
    connection_id: u64,
    packet_id: u16,
    now_ms: u64,
) -> Handled {
    let outcome = acknowledged_qos1(broker.state, connection_id, packet_id, now_ms);
    match outcome.1 {
        None => dismissed(handler, broker, Seq::empty(), PACKET_IDENTIFIER_NOT_FOUND, true),
        Some(sent) => answered(
            handler,
            in_state(broker, outcome.0),
            Seq::empty().push(EffectView::Deliver(sent)),
        ),
    }
}

/// A client says that it received a QoS 2 publication.
pub open spec fn receipt_handled(
    handler: HandlerView,
    broker: BrokerView,
    connection_id: u64,
    packet_id: u16,
    now_ms: u64,
) -> Handled {
    let outcome = received_qos2(broker.state, connection_id, packet_id, now_ms);
    match outcome.1 {
        None => dismissed(handler, broker, Seq::empty(), PACKET_IDENTIFIER_NOT_FOUND, true),
        Some(sent) => answered(
            handler,
            in_state(broker, outcome.0),
            Seq::empty().push(
                sending(PacketView::PubRel(explained_ack(packet_id, SUCCESS))),
            ).push(EffectView::Deliver(sent)),
        ),
    }
}

/// A client completes a QoS 2 publication.
pub open spec fn completion_handled(
    handler: HandlerView,
    broker: BrokerView,
    connection_id: u64,
    packet_id: u16,
) -> Handled {
    let outcome = finished_qos2(broker.state, connection_id, packet_id);
    if outcome.1 {
        answered(handler, in_state(broker, outcome.0), Seq::empty())
    } else {
        dismissed(handler, broker, Seq::empty(), PACKET_IDENTIFIER_NOT_FOUND, true)
    }
}

/// What a packet leads to once the client's silence has been noted to be over.
pub open spec fn packet_handled(
    handler: HandlerView,
    broker: BrokerView,
    connection_id: u64,
    packet: PacketView,
    now_ms: u64,
) -> Handled {
    match packet {
        PacketView::Connect(packet) => connect_handled(
            handler,
            broker,
            connection_id,
            packet,
            now_ms,
        ),
        PacketView::Auth(_) => dismissed(
            handler,
            broker,
            Seq::empty(),
            BAD_AUTHENTICATION_METHOD,
            true,
        ),
        _ => if !handler.connected {
            dismissed(handler, broker, Seq::empty(), PROTOCOL_ERROR, true)
        } else {
            match packet {
                PacketView::PingReq => answered(
                    handler,
                    broker,
                    Seq::empty().push(sending(PacketView::PingResp)),
                ),
                PacketView::Disconnect(_) => leave_handled(
                    handler,
                    broker,
                    connection_id,
                    now_ms,
                ),
                PacketView::Subscribe(packet) => subscribe_handled(
                    handler,
                    broker,
                    connection_id,
                    packet,
                    now_ms,
                ),
                PacketView::Unsubscribe(packet) => answered(
                    handler,
                    in_state(
                        broker,
                        unsubscribed(broker.state, connection_id, packet.topic_filters),
                    ),
                    Seq::empty().push(
                        sending(
                            PacketView::UnsubAck(
                                UnsubAckView {
                                    packet_id: packet.packet_id,
                                    properties: Seq::empty(),
                                    reason_codes: repeated(SUCCESS, packet.topic_filters.len()),
                                },
                            ),
                        ),
                    ),
                ),
                PacketView::Publish(packet) => publish_handled(
                    handler,
                    broker,
                    connection_id,
                    packet,
                    now_ms,
                ),
                PacketView::PubRel(packet) => release_handled(
                    handler,
                    broker,
                    connection_id,
                    packet.packet_id,
                    now_ms,
                ),
                PacketView::PubAck(packet) => ack_handled(
                    handler,
                    broker,
                    connection_id,
                    packet.packet_id,
                    now_ms,
                ),
                PacketView::PubRec(packet) => receipt_handled(
                    handler,
                    broker,
                    connection_id,
                    packet.packet_id,
                    now_ms,
                ),
                PacketView::PubComp(packet) => completion_handled(
                    handler,
                    broker,
                    connection_id,
                    packet.packet_id,
                ),
                _ => dismissed(handler, broker, Seq::empty(), PROTOCOL_ERROR, true),
            }
        },
    }
}

/// What a packet leads to.
pub open spec fn handled(
    handler: HandlerView,
    broker: BrokerView,
    connection_id: u64,
    packet: PacketView,
    now_ms: u64,
) -> Handled {
    packet_handled(
        handler,
        if handler.connected {
            refreshed(handler, broker, connection_id, now_ms)
        } else {
            broker
        },
        connection_id,
        packet,
        now_ms,
    )
}

/// What is done after the effects of a packet have succeeded.
pub open spec fn step_taken(
    handler: HandlerView,
    broker: BrokerView,
    connection_id: u64,
    step: StepView,
    now_ms: u64,
) -> Handled {
    match step {
        StepView::Done => answered(handler, broker, Seq::empty()),
        StepView::Publish(packet) => publish_served(
            handler,
            broker,
            Seq::empty(),
            connection_id,
            packet,
            now_ms,
        ),
        StepView::Leave { publish_will } => let_go(
            handler,
            broker,
            connection_id,
            publish_will,
            now_ms,
        ),
    }
}

/// No effects yet.
fn no_effects() -> (result: Vec<Effect>)
    ensures
        result.deep_view() == Seq::<EffectView>::empty(),
{
    let result: Vec<Effect> = Vec::new();
    assert(result.deep_view() =~= Seq::<EffectView>::empty());
    result
}

/// One more effect.
fn also(effects: &mut Vec<Effect>, effect: Effect)
    ensures
        final(effects).deep_view() == old(effects).deep_view().push(effect.deep_view()),
{
    let ghost before = effects.deep_view();
    let ghost view = effect.deep_view();
    effects.push(effect);
    assert(effects.deep_view() =~= before.push(view));
}

/// One more packet to write and send.
fn also_send(effects: &mut Vec<Effect>, packet: MqttPacket)
    ensures
        final(effects).deep_view() == old(effects).deep_view().push(sending(packet.deep_view())),
{
    also(effects, Effect::WriteAndFlush(BrokerWrite::packet(packet)));
}

/// Counts a client that was not who it said, where the reason code says so.
fn count_failure(effects: &mut Vec<Effect>, reason_code: u8)
    ensures
        final(effects).deep_view() == old(effects).deep_view() + failure_counted(reason_code),
{
    let ghost before = effects.deep_view();
    if is_auth_failure(reason_code) {
        also(effects, Effect::AuthFailed(auth_failure_reason(reason_code)));
        assert(effects.deep_view() =~= before + failure_counted(reason_code));
    } else {
        assert(before =~= before + failure_counted(reason_code));
    }
}

/// A reply that leaves nothing to do.
fn done(effects: Vec<Effect>) -> (result: Reply)
    ensures
        result.effects == effects,
        result.step == Step::Done,
{
    Reply { effects, step: Step::Done }
}

/// Tells a client that it is let go, after some other effects.
fn dismiss(effects: Vec<Effect>, reason_code: u8, publish_will: bool) -> (result: Reply)
    ensures
        forall|handler: HandlerView, broker: BrokerView|
            {
                let outcome = #[trigger] dismissed(
                    handler,
                    broker,
                    effects.deep_view(),
                    reason_code,
                    publish_will,
                );
                result.effects.deep_view() == outcome.effects && result.step.deep_view()
                    == outcome.step
            },
{
    let mut effects: Vec<Effect> = effects;
    count_failure(&mut effects, reason_code);
    also_send(
        &mut effects,
        MqttPacket::Disconnect(
            DisconnectPacket { reason_code, properties: reason_properties(reason_code) },
        ),
    );
    Reply { effects, step: Step::Leave { publish_will } }
}

/// Does not let a client in.
fn reject_connect(reason_code: u8) -> (result: Reply)
    ensures
        forall|handler: HandlerView, broker: BrokerView|
            {
                let outcome = #[trigger] connect_refused(handler, broker, reason_code);
                result.effects.deep_view() == outcome.effects && result.step.deep_view()
                    == outcome.step
            },
{
    let mut effects: Vec<Effect> = no_effects();
    count_failure(&mut effects, reason_code);
    assert(Seq::<EffectView>::empty() + failure_counted(reason_code) =~= failure_counted(
        reason_code,
    ));
    also_send(
        &mut effects,
        MqttPacket::ConnAck(
            ConnAckPacket {
                session_present: false,
                reason_code,
                properties: reason_properties(reason_code),
            },
        ),
    );
    also(&mut effects, Effect::Close);
    done(effects)
}

impl MqttHandler {
    /// A connection whose client has not been let in yet.
    pub fn new(config: &BrokerConfig) -> (result: Self)
        ensures
            result.deep_view() == (HandlerView {
                connected: false,
                client_id: None,
                keep_alive_interval_ms: None,
                aliases: Map::empty(),
                alias_limit: config.server_topic_alias_maximum,
            }),
    {
        MqttHandler {
            connected: false,
            client_id: None,
            keep_alive_interval_ms: None,
            topic_aliases: TopicAliases::new(config.server_topic_alias_maximum),
        }
    }

    /// Whether the connection's client has been let in.
    pub fn is_connected(&self) -> (result: bool)
        ensures
            result == self.deep_view().connected,
    {
        self.connected
    }

    /// The name of the connection's client.
    pub fn client_id(&self) -> (result: &Option<String>)
        ensures
            result.deep_view() == self.deep_view().client_id,
    {
        &self.client_id
    }

    /// The outcome is as some specification says.
    spec fn agrees(&self, broker: &Broker, reply: &Reply, outcome: Handled) -> bool {
        &&& broker.state.wf()
        &&& self.deep_view() == outcome.handler
        &&& broker.deep_view() == outcome.broker
        &&& reply.effects.deep_view() == outcome.effects
        &&& reply.step.deep_view() == outcome.step
    }

    /// Lets the client be silent for as long again.
    fn refresh_keep_alive(&self, broker: &mut Broker, connection_id: u64, now_ms: u64)
        requires
            old(broker).state.wf(),
        ensures
            final(broker).state.wf(),
            final(broker).deep_view() == refreshed(
                self.deep_view(),
                old(broker).deep_view(),
                connection_id,
                now_ms,
            ),
    {
        if let Some(interval_ms) = self.keep_alive_interval_ms {
            broker.set_keep_alive_deadline(connection_id, now_ms.saturating_add(interval_ms));
        }
    }

    /// No longer watches for the client's silence.
    fn stop_keep_alive(&mut self, broker: &mut Broker, connection_id: u64)
        requires
            old(broker).state.wf(),
        ensures
            final(broker).state.wf(),
            final(broker).deep_view() == unwatched(
                old(self).deep_view(),
                old(broker).deep_view(),
                connection_id,
            ),
            final(self).deep_view() == (HandlerView {
                keep_alive_interval_ms: None,
                ..old(self).deep_view()
            }),
    {
        if self.keep_alive_interval_ms.is_some() {
            broker.set_keep_alive_deadline(connection_id, 0);
        }
        self.keep_alive_interval_ms = None;
    }

    /// Lets the client in, if it may.
    fn read_connect(
        &mut self,
        broker: &mut Broker,
        connection_id: u64,
        packet: ConnectPacket,
        now_ms: u64,
    ) -> (result: Reply)
        requires
            old(broker).state.wf(),
        ensures
            final(self).agrees(
                final(broker),
                &result,
                connect_handled(
                    old(self).deep_view(),
                    old(broker).deep_view(),
                    connection_id,
                    packet.deep_view(),
                    now_ms,
                ),
            ),
    {
        let mut effects: Vec<Effect> = no_effects();
        if self.connected {
            return dismiss(effects, PROTOCOL_ERROR, true);
        }
        if let Some(reason_code) = validate_connect(&packet) {
            return reject_connect(reason_code);
        }
        if broker.shutting_down {
            return reject_connect(SERVER_UNAVAILABLE);
        }
        let principal: Option<String> = match broker.authenticator.authenticate(
            &packet.username,
            &packet.password,
        ) {
            Ok(authentication) => authentication.principal,
            Err(reason_code) => return reject_connect(reason_code),
        };
        let ghost requested = packet.client_id@;
        let assigned_client_id: bool = packet.client_id.as_str().is_empty();
        let options: ConnectOptions = ConnectOptions::from_properties(
            packet.clean_start,
            &packet.properties,
        );
        let outcome: ConnectOutcome = broker.connect(
            connection_id,
            packet.client_id,
            packet.will,
            principal,
            options,
            now_ms,
        );
        if let Some(previous) = outcome.replaced_connection {
            also(&mut effects, Effect::ConnectionClosed("session_replaced"));
            also(&mut effects, Effect::CloseConnection(previous));
        }
        self.stop_keep_alive(broker, connection_id);
        if packet.keep_alive != 0 {
            let interval_ms: u64 = keep_alive_interval_ms(packet.keep_alive);
            broker.set_keep_alive_deadline(connection_id, now_ms.saturating_add(interval_ms));
            self.keep_alive_interval_ms = Some(interval_ms);
            also(&mut effects, Effect::WatchKeepAlive);
        }
        also(&mut effects, Effect::StopRetransmit);
        let retransmit_interval_ms: u64 = broker.config.inflight_retransmit_interval_ms;
        if retransmit_interval_ms != 0 {
            also(&mut effects, Effect::StartRetransmit(retransmit_interval_ms));
        }
        self.connected = true;
        self.client_id = Some(outcome.client_id.dup());
        also(&mut effects, Effect::ConnectionOpened);
        let mut properties: Vec<MqttProperty> = connack_capabilities(&broker.config);
        if assigned_client_id {
            let ghost before = properties.deep_view();
            properties.push(MqttProperty::AssignedClientIdentifier(outcome.client_id));
            assert(properties.deep_view() =~= before.push(
                PropertyView::AssignedClientIdentifier(outcome.client_id@),
            ));
        }
        also_send(
            &mut effects,
            MqttPacket::ConnAck(
                ConnAckPacket {
                    session_present: outcome.session_present,
                    reason_code: SUCCESS,
                    properties,
                },
            ),
        );
        also(&mut effects, Effect::Deliver(outcome.redeliveries));
        done(effects)
    }

    /// Handles a publication.
    fn read_publish(
        &mut self,
        broker: &mut Broker,
        connection_id: u64,
        packet: PublishPacket,
        now_ms: u64,
    ) -> (result: Reply)
        requires
            old(broker).state.wf(),
        ensures
            final(self).agrees(
                final(broker),
                &result,
                publish_handled(
                    old(self).deep_view(),
                    old(broker).deep_view(),
                    connection_id,
                    packet.deep_view(),
                    now_ms,
                ),
            ),
    {
        let mut packet: PublishPacket = packet;
        let mut effects: Vec<Effect> = no_effects();
        also(&mut effects, Effect::PublishReceived(packet.qos));
        if !self.topic_aliases.resolve_publish(&mut packet) {
            return dismiss(effects, TOPIC_ALIAS_INVALID, true);
        }
        if !is_valid_topic_name(packet.topic_name.as_str()) {
            return dismiss(effects, TOPIC_NAME_INVALID, true);
        }
        if broker.packet_exceeds_server_maximum(&MqttPacket::Publish(packet.dup())) {
            return dismiss(effects, PACKET_TOO_LARGE, true);
        }
        match packet.qos {
            QoS::AtMostOnce => {
                if !broker.authorize_publish(connection_id, packet.topic_name.as_str()) {
                    return dismiss(effects, NOT_AUTHORIZED, false);
                }
                let deliveries: Vec<Delivery> = broker.publish(connection_id, &packet, now_ms);
                also(&mut effects, Effect::Deliver(deliveries));
                also(&mut effects, Effect::PublishServed);
                done(effects)
            },
            QoS::AtLeastOnce => {
                let packet_id: u16 = match packet.packet_id {
                    Some(packet_id) => packet_id,
                    None => return dismiss(effects, MALFORMED_PACKET, true),
                };
                if !broker.authorize_publish(connection_id, packet.topic_name.as_str()) {
                    also_send(
                        &mut effects,
                        MqttPacket::PubAck(ack_packet(packet_id, NOT_AUTHORIZED)),
                    );
                    return done(effects);
                }
                also_send(&mut effects, MqttPacket::PubAck(ack_packet(packet_id, SUCCESS)));
                Reply { effects, step: Step::Publish(packet) }
            },
            QoS::ExactlyOnce => {
                let packet_id: u16 = match packet.packet_id {
                    Some(packet_id) => packet_id,
                    None => return dismiss(effects, MALFORMED_PACKET, true),
                };
                if !broker.authorize_publish(connection_id, packet.topic_name.as_str()) {
                    also_send(
                        &mut effects,
                        MqttPacket::PubRec(ack_packet(packet_id, NOT_AUTHORIZED)),
                    );
                    return done(effects);
                }
                let reason_code: u8 = broker.store_qos2_publish(
                    connection_id,
                    packet_id,
                    packet,
                    now_ms,
                );
                also_send(&mut effects, MqttPacket::PubRec(ack_packet(packet_id, reason_code)));
                done(effects)
            },
        }
    }

    /// Handles a packet of a client that has been let in, other than those that are answered alike
    /// for every client.
    fn read_connected(
        &mut self,
        broker: &mut Broker,
        connection_id: u64,
        packet: MqttPacket,
        now_ms: u64,
    ) -> (result: Reply)
        requires
            old(broker).state.wf(),
            old(self).deep_view().connected,
            !(packet is Connect),
            !(packet is Auth),
        ensures
            final(self).agrees(
                final(broker),
                &result,
                packet_handled(
                    old(self).deep_view(),
                    old(broker).deep_view(),
                    connection_id,
                    packet.deep_view(),
                    now_ms,
                ),
            ),
    {
        let mut effects: Vec<Effect> = no_effects();
        match packet {
            MqttPacket::PingReq => {
                also_send(&mut effects, MqttPacket::PingResp);
                done(effects)
            },
            MqttPacket::Disconnect(_) => {
                self.stop_keep_alive(broker, connection_id);
                also(&mut effects, Effect::StopRetransmit);
                if broker.remove_connection(connection_id, now_ms).is_some() {
                    also(&mut effects, Effect::ConnectionClosed("client_disconnect"));
                }
                also(&mut effects, Effect::ForgetConnection);
                self.connected = false;
                also(&mut effects, Effect::Close);
                done(effects)
            },
            MqttPacket::Subscribe(packet) => {
                let (suback, retained): (SubAckPacket, Vec<Delivery>) = broker.subscribe(
                    connection_id,
                    packet,
                    now_ms,
                );
                assert(retained.deep_view().len() == retained@.len());
                if retained.len() == 0 {
                    also(&mut effects, Effect::WriteAndFlush(suback_write(suback)));
                } else {
                    also(&mut effects, Effect::Write(suback_write(suback)));
                    also(&mut effects, Effect::DeliverHere(retained));
                }
                done(effects)
            },
            MqttPacket::Unsubscribe(packet) => {
                let unsuback: UnsubAckPacket = broker.unsubscribe(connection_id, &packet);
                also_send(&mut effects, MqttPacket::UnsubAck(unsuback));
                done(effects)
            },
            MqttPacket::Publish(packet) => self.read_publish(
                broker,
                connection_id,
                packet,
                now_ms,
            ),
            MqttPacket::PubRel(packet) => {
                let deliveries: Vec<Delivery> = match broker.complete_qos2_publish(
                    connection_id,
                    packet.packet_id,
                    now_ms,
                ) {
                    Some(deliveries) => deliveries,
                    None => {
                        also_send(
                            &mut effects,
                            MqttPacket::PubComp(
                                ack_packet(packet.packet_id, PACKET_IDENTIFIER_NOT_FOUND),
                            ),
                        );
                        return done(effects);
                    },
                };
                also(&mut effects, Effect::Deliver(deliveries));
                also_send(
                    &mut effects,
                    MqttPacket::PubComp(ack_packet(packet.packet_id, SUCCESS)),
                );
                done(effects)
            },
            MqttPacket::PubAck(packet) => match broker.complete_outbound_qos1(
                connection_id,
                packet.packet_id,
                now_ms,
            ) {
                Some(deliveries) => {
                    also(&mut effects, Effect::Deliver(deliveries));
                    done(effects)
                },
                None => dismiss(effects, PACKET_IDENTIFIER_NOT_FOUND, true),
            },
            MqttPacket::PubRec(packet) => match broker.receive_outbound_qos2(
                connection_id,
                packet.packet_id,
                now_ms,
            ) {
                Some(deliveries) => {
                    also_send(
                        &mut effects,
                        MqttPacket::PubRel(ack_packet(packet.packet_id, SUCCESS)),
                    );
                    also(&mut effects, Effect::Deliver(deliveries));
                    done(effects)
                },
                None => dismiss(effects, PACKET_IDENTIFIER_NOT_FOUND, true),
            },
            MqttPacket::PubComp(packet) => {
                if broker.complete_outbound_qos2(connection_id, packet.packet_id) {
                    done(effects)
                } else {
                    dismiss(effects, PACKET_IDENTIFIER_NOT_FOUND, true)
                }
            },
            _ => dismiss(effects, PROTOCOL_ERROR, true),
        }
    }

    /// Handles a packet.
    pub fn read(
        &mut self,
        broker: &mut Broker,
        connection_id: u64,
        packet: MqttPacket,
        now_ms: u64,
    ) -> (result: Reply)
        requires
            old(broker).state.wf(),
        ensures
            final(broker).state.wf(),
            ({
                let outcome = handled(
                    old(self).deep_view(),
                    old(broker).deep_view(),
                    connection_id,
                    packet.deep_view(),
                    now_ms,
                );
                &&& final(self).deep_view() == outcome.handler
                &&& final(broker).deep_view() == outcome.broker
                &&& result.effects.deep_view() == outcome.effects
                &&& result.step.deep_view() == outcome.step
            }),
    {
        if self.connected {
            self.refresh_keep_alive(broker, connection_id, now_ms);
        }
        match packet {
            MqttPacket::Connect(packet) => self.read_connect(
                broker,
                connection_id,
                packet,
                now_ms,
            ),
            MqttPacket::Auth(_) => dismiss(no_effects(), BAD_AUTHENTICATION_METHOD, true),
            packet => if self.connected {
                self.read_connected(broker, connection_id, packet, now_ms)
            } else {
                dismiss(no_effects(), PROTOCOL_ERROR, true)
            },
        }
    }

    /// Does what is left after the effects of a packet have succeeded.
    pub fn proceed(
        &mut self,
        broker: &mut Broker,
        connection_id: u64,
        step: Step,
        now_ms: u64,
    ) -> (result: Vec<Effect>)
        requires
            old(broker).state.wf(),
        ensures
            final(broker).state.wf(),
            ({
                let outcome = step_taken(
                    old(self).deep_view(),
                    old(broker).deep_view(),
                    connection_id,
                    step.deep_view(),
                    now_ms,
                );
                &&& final(self).deep_view() == outcome.handler
                &&& final(broker).deep_view() == outcome.broker
                &&& result.deep_view() == outcome.effects
            }),
    {
        let mut effects: Vec<Effect> = no_effects();
        match step {
            Step::Done => {},
            Step::Publish(packet) => {
                let deliveries: Vec<Delivery> = broker.publish(connection_id, &packet, now_ms);
                also(&mut effects, Effect::Deliver(deliveries));
                also(&mut effects, Effect::PublishServed);
            },
            Step::Leave { publish_will } => {
                self.stop_keep_alive(broker, connection_id);
                also(&mut effects, Effect::StopRetransmit);
                if self.connected {
                    self.connected = false;
                    if let Some(outcome) = broker.remove_connection(connection_id, now_ms) {
                        also(&mut effects, Effect::ConnectionClosed("broker_disconnect"));
                        self.client_id = Some(outcome.client_id);
                        if let Some(will) = outcome.will {
                            if publish_will {
                                let deliveries: Vec<Delivery> = broker.publish_will(
                                    connection_id,
                                    will,
                                    now_ms,
                                );
                                also(&mut effects, Effect::Deliver(deliveries));
                            }
                        }
                    }
                    also(&mut effects, Effect::ForgetConnection);
                }
                also(&mut effects, Effect::Close);
            },
        }
        effects
    }
}

/// A connection with a number closed: its client is forgotten, and its will is published unless
/// this side closed the connection.
pub open spec fn closing(
    broker: BrokerView,
    connection_id: Option<u64>,
    reason: CloseReason,
    now_ms: u64,
) -> (BrokerView, Seq<EffectView>) {
    let counted = if reason == CloseReason::DecodeError || reason == CloseReason::FrameTooLarge {
        Seq::empty().push(EffectView::PacketParseError(close_reason_name(reason)))
    } else {
        Seq::empty()
    };
    match connection_id {
        None => (broker, counted),
        Some(id) => match lookup(broker.state.clients, id) {
            None => (broker, counted),
            Some(client) => {
                let left = disconnected(broker.state, id, now_ms);
                let closed = counted.push(EffectView::ConnectionClosed(close_reason_name(reason)));
                match client.will {
                    Some(will) if !closed_here(reason) => {
                        let outcome = will_published(left, broker.config, id, will, now_ms);
                        (
                            in_state(broker, outcome.0),
                            closed.push(EffectView::Deliver(outcome.1)),
                        )
                    },
                    _ => (in_state(broker, left), closed),
                }
            },
        },
    }
}

/// Takes note that a connection closed; it has no number where none was handed out.
pub fn tcp_connection_closed(
    broker: &mut Broker,
    connection_id: Option<u64>,
    reason: CloseReason,
    now_ms: u64,
) -> (result: Vec<Effect>)
    requires
        old(broker).state.wf(),
    ensures
        final(broker).state.wf(),
        (final(broker).deep_view(), result.deep_view()) == closing(
            old(broker).deep_view(),
            connection_id,
            reason,
            now_ms,
        ),
{
    let mut effects: Vec<Effect> = no_effects();
    if is_packet_parse_error(reason) {
        also(&mut effects, Effect::PacketParseError(close_reason_label(reason)));
    }
    if let Some(id) = connection_id {
        if let Some(outcome) = broker.remove_connection(id, now_ms) {
            also(&mut effects, Effect::ConnectionClosed(close_reason_label(reason)));
            if let Some(will) = outcome.will {
                if should_publish_will(reason) {
                    let deliveries: Vec<Delivery> = broker.publish_will(id, will, now_ms);
                    also(&mut effects, Effect::Deliver(deliveries));
                }
            }
        }
    }
    effects
}

} // verus!
