//! Clients that talk to the broker through the codec, with a clock that the test moves.
use std::cell::RefCell;
use std::collections::VecDeque;
use std::rc::Rc;

use pulse::auth::{AuthAclConfig, AuthAction, AuthConfig, AuthUserConfig, ConfiguredAuthenticator};
use pulse::broker::Broker;
use pulse::config::{
    BrokerConfig, MAX_OFFLINE_QUEUE_LEN, MAX_RETAINED_MESSAGES, MAX_SUBSCRIPTIONS_PER_CLIENT,
};
use pulse::connection::CloseReason;
use pulse::delivery::Delivery;
use pulse::handler::{Effect, MqttHandler, tcp_connection_closed};
use pulse::packet::{
    AckPacket, ConnAckPacket, ConnectPacket, DisconnectPacket, MqttPacket, MqttProperty,
    PublishPacket, QoS, SubscribePacket, Subscription, SubscriptionOptions, Will,
};
use pulse::protocol::{
    BAD_AUTHENTICATION_METHOD, BAD_USER_NAME_OR_PASSWORD, CLIENT_IDENTIFIER_NOT_VALID,
    NOT_AUTHORIZED, PACKET_IDENTIFIER_NOT_FOUND, PROTOCOL_ERROR, QOS_0_GRANTED, QUOTA_EXCEEDED,
    SERVER_SHUTTING_DOWN, SERVER_UNAVAILABLE, SUCCESS, TOPIC_ALIAS_INVALID, TOPIC_NAME_INVALID,
};
use pulse::websocket::{WebSocketAction, WebSocketInput, WebSocketMqttHandler};
use pulse::write::{BrokerWrite, PulseMqttCodec};

const MAX_PACKET_SIZE: usize = 1024 * 1024;

struct Connection {
    handler: MqttHandler,
    websocket: Option<WebSocketMqttHandler>,
    received: Vec<u8>,
    inbox: VecDeque<MqttPacket>,
    closed: bool,
    retransmit: Option<(u64, u64)>,
}

struct Net {
    broker: Broker,
    now_ms: u64,
    connections: Vec<Connection>,
}

impl Net {
    fn codec() -> PulseMqttCodec {
        PulseMqttCodec::with_max_packet_size(MAX_PACKET_SIZE)
    }

    fn send(&mut self, connection_id: u64, item: &BrokerWrite) {
        let connection = &mut self.connections[connection_id as usize];
        if connection.closed {
            return;
        }
        let bytes = Net::codec().encode(item).expect("encode for a client");
        let (packet, left) = Net::codec()
            .decode(&bytes)
            .expect("decode at a client")
            .expect("whole packet at a client");
        assert_eq!(left, 0);
        connection.inbox.push_back(packet);
    }

    fn deliver(&mut self, deliveries: Vec<Delivery>) {
        for delivery in deliveries {
            self.send(delivery.connection_id, &delivery.packet);
        }
    }

    fn close(&mut self, connection_id: u64, reason: CloseReason) {
        if self.connections[connection_id as usize].closed {
            return;
        }
        self.connections[connection_id as usize].closed = true;
        let effects =
            tcp_connection_closed(&mut self.broker, Some(connection_id), reason, self.now_ms);
        self.perform(connection_id, effects);
    }

    fn perform(&mut self, connection_id: u64, effects: Vec<Effect>) {
        for effect in effects {
            match effect {
                Effect::Write(item) | Effect::WriteAndFlush(item) => {
                    self.send(connection_id, &item)
                }
                Effect::Deliver(deliveries) | Effect::DeliverHere(deliveries) => {
                    self.deliver(deliveries)
                }
                Effect::Close => self.close(connection_id, CloseReason::HandlerClosed),
                Effect::CloseConnection(other) => self.close(other, CloseReason::LocalClosed),
                Effect::StartRetransmit(interval_ms) => {
                    self.connections[connection_id as usize].retransmit =
                        Some((interval_ms, self.now_ms + interval_ms));
                }
                Effect::StopRetransmit => {
                    self.connections[connection_id as usize].retransmit = None;
                }
                _ => {}
            }
        }
    }

    fn handle(&mut self, connection_id: u64, packet: MqttPacket) {
        let now_ms = self.now_ms;
        let reply = self.connections[connection_id as usize].handler.read(
            &mut self.broker,
            connection_id,
            packet,
            now_ms,
        );
        self.perform(connection_id, reply.effects);
        let effects = self.connections[connection_id as usize].handler.proceed(
            &mut self.broker,
            connection_id,
            reply.step,
            now_ms,
        );
        self.perform(connection_id, effects);
    }

    fn receive(&mut self, connection_id: u64, bytes: &[u8]) {
        if let Some(websocket) = &mut self.connections[connection_id as usize].websocket {
            match websocket.read(WebSocketInput::Binary(bytes.to_vec())) {
                WebSocketAction::Handle(packet) => self.handle(connection_id, packet),
                _ => panic!("websocket frame was not handled"),
            }
            return;
        }
        self.connections[connection_id as usize]
            .received
            .extend_from_slice(bytes);
        loop {
            let connection = &mut self.connections[connection_id as usize];
            if connection.closed {
                return;
            }
            match Net::codec().decode(&connection.received) {
                Ok(Some((packet, left))) => {
                    let used = connection.received.len() - left;
                    connection.received.drain(..used);
                    self.handle(connection_id, packet);
                }
                Ok(None) => return,
                Err(_) => {
                    self.close(connection_id, CloseReason::DecodeError);
                    return;
                }
            }
        }
    }

    fn advance(&mut self, milliseconds: u64) {
        for _ in 0..milliseconds / 10 {
            self.now_ms += 10;
            let now_ms = self.now_ms;
            for index in 0..self.connections.len() {
                if let Some((interval_ms, due_ms)) = self.connections[index].retransmit {
                    if due_ms <= now_ms {
                        match self.broker.retransmit_outbound(index as u64, now_ms) {
                            Some(deliveries) => {
                                self.connections[index].retransmit =
                                    Some((interval_ms, now_ms + interval_ms));
                                self.deliver(deliveries);
                            }
                            None => self.connections[index].retransmit = None,
                        }
                    }
                }
            }
            if now_ms % 100 == 0 {
                for client in self.broker.expire_keep_alive_clients(now_ms) {
                    if let Some(will) = client.will {
                        let deliveries =
                            self.broker
                                .publish_will(client.connection_id, will, now_ms);
                        self.deliver(deliveries);
                    }
                    self.close(client.connection_id, CloseReason::LocalClosed);
                }
            }
        }
    }
}

struct TestBroker {
    net: Rc<RefCell<Net>>,
}

impl TestBroker {
    fn start() -> Self {
        Self::start_with_broker(Broker::new())
    }

    fn start_with_websocket() -> Self {
        Self::start()
    }

    fn start_with_broker(broker: Broker) -> Self {
        TestBroker {
            net: Rc::new(RefCell::new(Net {
                broker,
                now_ms: 1_000_000,
                connections: Vec::new(),
            })),
        }
    }

    fn open(&self, websocket: Option<WebSocketMqttHandler>) -> TestClient {
        let mut net = self.net.borrow_mut();
        let handler = MqttHandler::new(&net.broker.config);
        net.connections.push(Connection {
            handler,
            websocket,
            received: Vec::new(),
            inbox: VecDeque::new(),
            closed: false,
            retransmit: None,
        });
        TestClient {
            net: self.net.clone(),
            connection_id: net.connections.len() as u64 - 1,
        }
    }

    fn open_client(&self) -> TestClient {
        self.open(None)
    }

    fn connect(&self, client_id: &str) -> TestClient {
        let mut client = self.open_client();
        client.write(connect(client_id));
        client.expect_connack();
        client
    }

    fn connect_websocket(&self, client_id: &str) -> TestClient {
        let mut websocket = WebSocketMqttHandler::new("/mqtt".to_string(), MAX_PACKET_SIZE);
        let action = websocket.read(WebSocketInput::Handshake {
            path: "/mqtt".to_string(),
            protocols: Some("mqtt".to_string()),
        });
        assert!(matches!(action, WebSocketAction::Accept { protocol: "mqtt" }));
        let mut client = self.open(Some(websocket));
        client.write(connect(client_id));
        client.expect_connack();
        client
    }

    fn sleep(&self, milliseconds: u64) {
        self.net.borrow_mut().advance(milliseconds);
    }

    fn begin_shutdown(&self) {
        self.net.borrow_mut().broker.begin_shutdown();
    }

    fn graceful_shutdown(&self, _timeout: u64) {
        let mut net = self.net.borrow_mut();
        let deliveries = net.broker.shutdown_active_sessions();
        let connections: Vec<u64> = deliveries
            .iter()
            .map(|delivery| delivery.connection_id)
            .collect();
        net.deliver(deliveries);
        for connection_id in connections {
            net.close(connection_id, CloseReason::LocalClosed);
        }
    }
}

struct TestClient {
    net: Rc<RefCell<Net>>,
    connection_id: u64,
}

impl TestClient {
    fn write(&mut self, packet: MqttPacket) {
        let bytes = Net::codec()
            .encode(&BrokerWrite::packet(packet))
            .expect("encode at a client");
        self.write_raw(&bytes);
    }

    fn write_raw(&mut self, bytes: &[u8]) {
        self.net.borrow_mut().receive(self.connection_id, bytes);
    }

    fn next(&mut self) -> Option<MqttPacket> {
        self.net.borrow_mut().connections[self.connection_id as usize]
            .inbox
            .pop_front()
    }

    fn is_closed(&self) -> bool {
        self.net.borrow().connections[self.connection_id as usize].closed
    }

    fn read(&mut self) -> MqttPacket {
        for _ in 0..300 {
            if let Some(packet) = self.next() {
                return packet;
            }
            self.net.borrow_mut().advance(10);
        }
        panic!("no packet came")
    }

    fn subscribe(&mut self, packet_id: u16, topic_filter: &str, maximum_qos: QoS) {
        self.write(subscribe(packet_id, topic_filter, maximum_qos));
        assert!(matches!(self.read(), MqttPacket::SubAck(_)));
    }

    fn expect_connack(&mut self) {
        assert!(matches!(
            self.read(),
            MqttPacket::ConnAck(packet) if packet.reason_code == SUCCESS
        ));
    }

    fn expect_connack_session_present(&mut self, session_present: bool) {
        assert!(matches!(
            self.read(),
            MqttPacket::ConnAck(packet) if packet.session_present == session_present
        ));
    }

    fn expect_connack_reason(&mut self, reason_code: u8) {
        assert!(matches!(
            self.read(),
            MqttPacket::ConnAck(packet) if packet.reason_code == reason_code
        ));
        assert!(self.is_closed());
    }

    fn expect_closed(&mut self, timeout_ms: u64) {
        let mut waited = 0;
        while !self.is_closed() && waited < timeout_ms {
            self.net.borrow_mut().advance(10);
            waited += 10;
        }
        assert!(self.is_closed(), "connection should close before timeout");
        assert!(self.next().is_none());
    }

    fn expect_no_packet(&mut self, timeout_ms: u64) {
        assert!(self.next().is_none(), "unexpected MQTT packet");
        self.net.borrow_mut().advance(timeout_ms);
        assert!(self.next().is_none(), "unexpected MQTT packet before timeout");
    }

    fn expect_disconnect_reason(&mut self, reason_code: u8) {
        assert!(matches!(
            self.read(),
            MqttPacket::Disconnect(packet) if packet.reason_code == reason_code
        ));
        assert!(self.is_closed());
    }

    fn expect_disconnect_reason_string(&mut self, reason_code: u8, reason_string: &str) {
        assert!(matches!(
            self.read(),
            MqttPacket::Disconnect(packet)
                if packet.reason_code == reason_code
                    && packet.properties.contains(
                        &MqttProperty::ReasonString(reason_string.to_string()),
                    )
        ));
    }

    fn expect_publish(&mut self, message: &str) -> PublishPacket {
        let delivered = self.read();
        let MqttPacket::Publish(packet) = delivered else {
            panic!("{message}, got {delivered:?}");
        };
        packet
    }

    fn expect_puback(&mut self, packet_id: u16) {
        self.expect_puback_reason(packet_id, SUCCESS);
    }

    fn expect_puback_reason(&mut self, packet_id: u16, reason_code: u8) {
        assert!(matches!(
            self.read(),
            MqttPacket::PubAck(packet)
                if packet.packet_id == packet_id && packet.reason_code == reason_code
        ));
    }

    fn expect_pubrec(&mut self, packet_id: u16) {
        self.expect_pubrec_reason(packet_id, SUCCESS);
    }

    fn expect_pubrec_reason(&mut self, packet_id: u16, reason_code: u8) {
        assert!(matches!(
            self.read(),
            MqttPacket::PubRec(packet)
                if packet.packet_id == packet_id && packet.reason_code == reason_code
        ));
    }

    fn expect_pubrel(&mut self, packet_id: u16) {
        assert!(matches!(
            self.read(),
            MqttPacket::PubRel(packet) if packet.packet_id == packet_id
        ));
    }

    fn expect_pubcomp(&mut self, packet_id: u16) {
        self.expect_pubcomp_reason(packet_id, SUCCESS);
    }

    fn expect_pubcomp_reason(&mut self, packet_id: u16, reason_code: u8) {
        assert!(matches!(
            self.read(),
            MqttPacket::PubComp(packet)
                if packet.packet_id == packet_id && packet.reason_code == reason_code
        ));
    }
}

fn ack(packet_id: u16, reason_code: u8) -> AckPacket {
    AckPacket {
        packet_id,
        reason_code,
        properties: Vec::new(),
    }
}

fn auth_broker(acl: Vec<AuthAclConfig>, mut extra_users: Vec<AuthUserConfig>) -> Broker {
    let mut users = vec![AuthUserConfig {
        username: "alice".to_string(),
        password: "secret".to_string(),
    }];
    users.append(&mut extra_users);
    Broker::with_config_and_auth(
        BrokerConfig::default(),
        ConfiguredAuthenticator::new(AuthConfig {
            enabled: true,
            users,
            acl,
        }),
    )
}

fn retransmit_broker(interval_ms: u64) -> Broker {
    let mut config = BrokerConfig::default();
    config.inflight_retransmit_interval_ms = interval_ms;
    Broker::with_config_and_auth(config, ConfiguredAuthenticator::default())
}

fn connect_packet_with_protocol_name(protocol_name: &str) -> Vec<u8> {
    let client_id = "client";
    let mut packet = Vec::new();
    packet.push(0x10);
    let remaining_len = 2 + protocol_name.len() + 1 + 1 + 2 + 1 + 2 + client_id.len();
    packet.push(remaining_len as u8);
    packet.extend_from_slice(&(protocol_name.len() as u16).to_be_bytes());
    packet.extend_from_slice(protocol_name.as_bytes());
    packet.extend_from_slice(&[5, 0x02, 0x00, 0x3c, 0x00]);
    packet.extend_from_slice(&(client_id.len() as u16).to_be_bytes());
    packet.extend_from_slice(client_id.as_bytes());
    packet
}

fn connect(client_id: &str) -> MqttPacket {
    connect_with_clean_start(client_id, true)
}

fn connect_with_clean_start(client_id: &str, clean_start: bool) -> MqttPacket {
    connect_with_properties(client_id, clean_start, Vec::new())
}

fn connect_with_session_expiry(
    client_id: &str,
    clean_start: bool,
    session_expiry_interval: u32,
) -> MqttPacket {
    connect_with_properties(
        client_id,
        clean_start,
        vec![MqttProperty::SessionExpiryInterval(session_expiry_interval)],
    )
}

fn plain_connect(client_id: &str) -> ConnectPacket {
    ConnectPacket {
        clean_start: true,
        keep_alive: 60,
        properties: Vec::new(),
        client_id: client_id.to_string(),
        will: None,
        username: None,
        password: None,
    }
}

fn connect_with_properties(
    client_id: &str,
    clean_start: bool,
    properties: Vec<MqttProperty>,
) -> MqttPacket {
    MqttPacket::Connect(ConnectPacket {
        clean_start,
        properties,
        ..plain_connect(client_id)
    })
}

fn connect_with_keep_alive(client_id: &str, keep_alive: u16) -> MqttPacket {
    MqttPacket::Connect(ConnectPacket {
        keep_alive,
        ..plain_connect(client_id)
    })
}

fn connect_with_credentials(client_id: &str, username: &str, password: &str) -> MqttPacket {
    MqttPacket::Connect(ConnectPacket {
        username: Some(username.to_string()),
        password: Some(password.as_bytes().to_vec()),
        ..plain_connect(client_id)
    })
}

fn connect_with_will(client_id: &str, topic: &str, payload: &str) -> MqttPacket {
    MqttPacket::Connect(ConnectPacket {
        will: Some(Will {
            qos: QoS::AtMostOnce,
            retain: false,
            properties: Vec::new(),
            topic: topic.to_string(),
            payload: payload.as_bytes().to_vec(),
        }),
        ..plain_connect(client_id)
    })
}

fn disconnect_success() -> MqttPacket {
    MqttPacket::Disconnect(DisconnectPacket {
        reason_code: SUCCESS,
        properties: Vec::new(),
    })
}

fn subscribe(packet_id: u16, topic_filter: &str, maximum_qos: QoS) -> MqttPacket {
    subscribe_with_retain_handling(packet_id, topic_filter, maximum_qos, 0)
}

fn subscribe_with_retain_handling(
    packet_id: u16,
    topic_filter: &str,
    maximum_qos: QoS,
    retain_handling: u8,
) -> MqttPacket {
    MqttPacket::Subscribe(SubscribePacket {
        packet_id,
        properties: Vec::new(),
        subscriptions: vec![Subscription {
            topic_filter: topic_filter.to_string(),
            options: SubscriptionOptions {
                maximum_qos,
                retain_handling,
                ..SubscriptionOptions::default()
            },
        }],
    })
}

fn subscribe_with_subscription_identifier(
    packet_id: u16,
    topic_filter: &str,
    maximum_qos: QoS,
    subscription_identifier: u32,
) -> MqttPacket {
    MqttPacket::Subscribe(SubscribePacket {
        packet_id,
        properties: vec![MqttProperty::SubscriptionIdentifier(subscription_identifier)],
        subscriptions: vec![Subscription {
            topic_filter: topic_filter.to_string(),
            options: SubscriptionOptions {
                maximum_qos,
                ..SubscriptionOptions::default()
            },
        }],
    })
}

fn publish(topic_name: &str, qos: QoS, packet_id: Option<u16>, payload: &str) -> MqttPacket {
    publish_with_retain(topic_name, qos, packet_id, payload, false)
}

fn publish_with_retain(
    topic_name: &str,
    qos: QoS,
    packet_id: Option<u16>,
    payload: &str,
    retain: bool,
) -> MqttPacket {
    MqttPacket::Publish(PublishPacket {
        dup: false,
        qos,
        retain,
        topic_name: topic_name.to_string(),
        packet_id,
        properties: Vec::new(),
        payload: payload.as_bytes().to_vec(),
    })
}

fn publish_with_message_expiry(
    topic_name: &str,
    qos: QoS,
    packet_id: Option<u16>,
    payload: &str,
    retain: bool,
    expiry_seconds: u32,
) -> MqttPacket {
    MqttPacket::Publish(PublishPacket {
        dup: false,
        qos,
        retain,
        topic_name: topic_name.to_string(),
        packet_id,
        properties: vec![MqttProperty::MessageExpiryInterval(expiry_seconds)],
        payload: payload.as_bytes().to_vec(),
    })
}

fn publish_with_properties(
    topic_name: &str,
    qos: QoS,
    packet_id: Option<u16>,
    payload: &str,
    properties: Vec<MqttProperty>,
) -> MqttPacket {
    MqttPacket::Publish(PublishPacket {
        dup: false,
        qos,
        retain: false,
        topic_name: topic_name.to_string(),
        packet_id,
        properties,
        payload: payload.as_bytes().to_vec(),
    })
}

#[test]
fn tests_duplicate_client_id_closes_previous_connection() {
    let broker = TestBroker::start();
    let mut first = broker.connect("same-client");
    let _second = broker.connect("same-client");

    first.expect_closed(200);
}

#[test]
fn websocket_publish_reaches_tcp_subscriber() {
    let broker = TestBroker::start_with_websocket();
    let mut subscriber = broker.connect("tcp-subscriber");
    subscriber.subscribe(1, "devices/ws", QoS::AtMostOnce);

    let mut publisher = broker.connect_websocket("ws-publisher");
    publisher.write(publish("devices/ws", QoS::AtMostOnce, None, "hello-ws"));

    let packet = subscriber.expect_publish("expected websocket publish over tcp");
    assert_eq!(packet.payload, b"hello-ws".to_vec());

    drop(publisher);
    drop(subscriber);
}

#[test]
fn tcp_publish_reaches_websocket_subscriber() {
    let broker = TestBroker::start_with_websocket();
    let mut subscriber = broker.connect_websocket("ws-subscriber");
    subscriber.subscribe(1, "devices/tcp", QoS::AtMostOnce);

    let mut publisher = broker.connect("tcp-publisher");
    publisher.write(publish("devices/tcp", QoS::AtMostOnce, None, "hello-tcp"));

    let packet = subscriber.expect_publish("expected tcp publish over websocket");
    assert_eq!(packet.payload, b"hello-tcp".to_vec());

    drop(publisher);
    drop(subscriber);
}

#[test]
fn connect_rejects_empty_client_id_without_clean_start() {
    let broker = TestBroker::start();
    let mut client = broker.open_client();

    client.write(connect_with_clean_start("", false));
    client.expect_connack_reason(CLIENT_IDENTIFIER_NOT_VALID);
}

#[test]
fn connect_rejects_invalid_will_topic() {
    let broker = TestBroker::start();
    let mut client = broker.open_client();

    let mut packet = connect("publisher");
    let MqttPacket::Connect(connect) = &mut packet else {
        unreachable!();
    };
    connect.will = Some(Will {
        qos: QoS::AtMostOnce,
        retain: false,
        properties: Vec::new(),
        topic: "devices/+/state".to_string(),
        payload: b"offline".to_vec(),
    });

    client.write(packet);
    client.expect_connack_reason(TOPIC_NAME_INVALID);
}

#[test]
fn connect_rejects_unsupported_authentication_method() {
    let broker = TestBroker::start();
    let mut client = broker.open_client();

    let mut packet = connect("auth-client");
    let MqttPacket::Connect(connect) = &mut packet else {
        unreachable!();
    };
    connect
        .properties
        .push(MqttProperty::AuthenticationMethod("token".to_string()));

    client.write(packet);
    client.expect_connack_reason(BAD_AUTHENTICATION_METHOD);
}

#[test]
fn connect_rejects_username_password_until_auth_is_supported() {
    let broker = TestBroker::start();
    let mut client = broker.open_client();

    let mut packet = connect("auth-client");
    let MqttPacket::Connect(connect) = &mut packet else {
        unreachable!();
    };
    connect.username = Some("alice".to_string());
    connect.password = Some(b"secret".to_vec());

    client.write(packet);
    client.expect_connack_reason(BAD_USER_NAME_OR_PASSWORD);
}

#[test]
fn auth_enabled_accepts_configured_username_password() {
    let broker = TestBroker::start_with_broker(auth_broker(vec![], vec![]));
    let mut client = broker.open_client();

    client.write(connect_with_credentials("auth-client", "alice", "secret"));
    client.expect_connack();
}

#[test]
fn auth_enabled_rejects_bad_password() {
    let broker = TestBroker::start_with_broker(auth_broker(vec![], vec![]));
    let mut client = broker.open_client();

    client.write(connect_with_credentials("auth-client", "alice", "wrong"));
    client.expect_connack_reason(BAD_USER_NAME_OR_PASSWORD);
}

#[test]
fn subscribe_acl_partially_denies_subscriptions() {
    let broker = TestBroker::start_with_broker(auth_broker(
        vec![AuthAclConfig {
            username: "alice".to_string(),
            action: AuthAction::Subscribe,
            topic_filter: "devices/alice/#".to_string(),
        }],
        vec![],
    ));
    let mut client = broker.open_client();
    client.write(connect_with_credentials("auth-client", "alice", "secret"));
    client.expect_connack();

    client
        .write(MqttPacket::Subscribe(SubscribePacket {
            packet_id: 1,
            properties: Vec::new(),
            subscriptions: vec![
                Subscription {
                    topic_filter: "devices/alice/temp".to_string(),
                    options: SubscriptionOptions::default(),
                },
                Subscription {
                    topic_filter: "devices/bob/temp".to_string(),
                    options: SubscriptionOptions::default(),
                },
            ],
        }));

    assert!(matches!(
        client.read(),
        MqttPacket::SubAck(packet)
            if packet.reason_codes == vec![QOS_0_GRANTED, NOT_AUTHORIZED]
    ));
}

#[test]
fn publish_acl_denies_qos0_with_disconnect() {
    let broker = TestBroker::start_with_broker(auth_broker(
        vec![AuthAclConfig {
            username: "alice".to_string(),
            action: AuthAction::Publish,
            topic_filter: "devices/alice/#".to_string(),
        }],
        vec![],
    ));
    let mut client = broker.open_client();
    client.write(connect_with_credentials("auth-client", "alice", "secret"));
    client.expect_connack();

    client.write(publish("devices/bob/temp", QoS::AtMostOnce, None, "denied"));
    client.expect_disconnect_reason(NOT_AUTHORIZED);
}

#[test]
fn publish_acl_denies_qos1_and_qos2_without_routing() {
    let broker = TestBroker::start_with_broker(auth_broker(
        vec![
            AuthAclConfig {
                username: "alice".to_string(),
                action: AuthAction::Publish,
                topic_filter: "devices/alice/#".to_string(),
            },
            AuthAclConfig {
                username: "bob".to_string(),
                action: AuthAction::Subscribe,
                topic_filter: "devices/bob/#".to_string(),
            },
        ],
        vec![AuthUserConfig {
            username: "bob".to_string(),
            password: "secret".to_string(),
        }],
    ));
    let mut subscriber = broker.open_client();
    subscriber.write(connect_with_credentials("subscriber", "bob", "secret"));
    subscriber.expect_connack();
    subscriber.subscribe(1, "devices/bob/#", QoS::ExactlyOnce);

    let mut publisher = broker.open_client();
    publisher.write(connect_with_credentials("publisher", "alice", "secret"));
    publisher.expect_connack();

    publisher
        .write(publish(
            "devices/bob/temp",
            QoS::AtLeastOnce,
            Some(1),
            "denied",
        ));
    publisher.expect_puback_reason(1, NOT_AUTHORIZED);
    subscriber.expect_no_packet(100);

    publisher
        .write(publish(
            "devices/bob/temp",
            QoS::ExactlyOnce,
            Some(2),
            "denied",
        ));
    publisher.expect_pubrec_reason(2, NOT_AUTHORIZED);
    subscriber.expect_no_packet(100);
}

#[test]
fn malformed_connect_protocol_name_closes_connection() {
    let broker = TestBroker::start();
    let mut client = broker.open_client();

    client.write_raw(&connect_packet_with_protocol_name("MQIs"));
    client.expect_closed(200);
}

#[test]
fn malformed_packet_after_connect_closes_connection() {
    let broker = TestBroker::start();
    let mut client = broker.connect("client");

    client.write_raw(&[0x40, 0x02, 0x00, 0x00]);
    client.expect_closed(200);
}

#[test]
fn keep_alive_timeout_closes_idle_client() {
    let broker = TestBroker::start();
    let mut client = broker.open_client();

    client.write(connect_with_keep_alive("idle-client", 1));
    client.expect_connack();
    client.expect_closed(2_500);
}

#[test]
fn keep_alive_activity_resets_timeout() {
    let broker = TestBroker::start();
    let mut client = broker.open_client();

    client.write(connect_with_keep_alive("active-client", 1));
    client.expect_connack();
    broker.sleep(1_000);
    client.write(MqttPacket::PingReq);
    assert!(matches!(client.read(), MqttPacket::PingResp));
    broker.sleep(800);
    client.write(MqttPacket::PingReq);
    assert!(matches!(client.read(), MqttPacket::PingResp));
}

#[test]
fn protocol_error_publishes_will_message() {
    let broker = TestBroker::start();
    let mut subscriber = broker.connect("subscriber");
    subscriber.subscribe(1, "clients/publisher/status", QoS::AtMostOnce);

    let mut publisher = broker.open_client();
    publisher
        .write(connect_with_will(
            "publisher",
            "clients/publisher/status",
            "offline",
        ));
    publisher.expect_connack();
    publisher
        .write(MqttPacket::ConnAck(ConnAckPacket {
            session_present: false,
            reason_code: SUCCESS,
            properties: Vec::new(),
        }));
    publisher.expect_disconnect_reason(PROTOCOL_ERROR);

    let packet = subscriber.expect_publish("expected will publish");
    assert_eq!(packet.topic_name, "clients/publisher/status");
    assert_eq!(packet.payload, b"offline".to_vec());
}

#[test]
fn normal_disconnect_does_not_publish_will_message() {
    let broker = TestBroker::start();
    let mut subscriber = broker.connect("subscriber");
    subscriber.subscribe(1, "clients/publisher/status", QoS::AtMostOnce);

    let mut publisher = broker.open_client();
    publisher
        .write(connect_with_will(
            "publisher",
            "clients/publisher/status",
            "offline",
        ));
    publisher.expect_connack();
    publisher
        .write(MqttPacket::Disconnect(DisconnectPacket {
            reason_code: SUCCESS,
            properties: Vec::new(),
        }));
    subscriber.expect_no_packet(200);
}

#[test]
fn graceful_shutdown_sends_server_disconnect_and_suppresses_will() {
    let broker = TestBroker::start();
    let mut subscriber = broker.connect("subscriber");
    subscriber.subscribe(1, "clients/publisher/status", QoS::AtMostOnce);

    let mut publisher = broker.open_client();
    publisher
        .write(connect_with_will(
            "publisher",
            "clients/publisher/status",
            "offline",
        ));
    publisher.expect_connack();

    broker.graceful_shutdown(500);

    publisher.expect_disconnect_reason_string(SERVER_SHUTTING_DOWN, "server shutting down");
    assert!(matches!(
        subscriber.read(),
        MqttPacket::Disconnect(packet) if packet.reason_code == SERVER_SHUTTING_DOWN
    ));
    subscriber.expect_closed(200);
}

#[test]
fn connect_after_shutdown_started_is_rejected() {
    let broker = TestBroker::start();
    broker.begin_shutdown();

    let mut client = broker.open_client();
    client.write(connect("client"));
    client.expect_connack_reason(SERVER_UNAVAILABLE);
}

#[test]
fn persistent_session_preserves_subscriptions_across_reconnect() {
    let broker = TestBroker::start();
    let mut subscriber = broker.open_client();
    subscriber.write(connect_with_session_expiry("subscriber", true, 60));
    subscriber.expect_connack_session_present(false);
    subscriber.subscribe(1, "devices/session", QoS::AtMostOnce);
    subscriber
        .write(MqttPacket::Disconnect(DisconnectPacket {
            reason_code: SUCCESS,
            properties: Vec::new(),
        }));
    subscriber.expect_closed(200);

    let mut subscriber = broker.open_client();
    subscriber.write(connect_with_session_expiry("subscriber", false, 60));
    subscriber.expect_connack_session_present(true);

    let mut publisher = broker.connect("publisher");
    publisher.write(publish("devices/session", QoS::AtMostOnce, None, "resumed"));

    let packet = subscriber.expect_publish("expected resumed subscription publish");
    assert_eq!(packet.payload, b"resumed".to_vec());
}

#[test]
fn clean_start_clears_persistent_session_subscriptions() {
    let broker = TestBroker::start();
    let mut subscriber = broker.open_client();
    subscriber.write(connect_with_session_expiry("subscriber", true, 60));
    subscriber.expect_connack_session_present(false);
    subscriber.subscribe(1, "devices/session", QoS::AtMostOnce);
    subscriber
        .write(MqttPacket::Disconnect(DisconnectPacket {
            reason_code: SUCCESS,
            properties: Vec::new(),
        }));
    subscriber.expect_closed(200);

    let mut subscriber = broker.open_client();
    subscriber.write(connect_with_session_expiry("subscriber", true, 60));
    subscriber.expect_connack_session_present(false);

    let mut publisher = broker.connect("publisher");
    publisher.write(publish("devices/session", QoS::AtMostOnce, None, "cleared"));
    subscriber.expect_no_packet(200);
}

#[test]
fn expired_session_does_not_resume_subscriptions() {
    let broker = TestBroker::start();
    let mut subscriber = broker.open_client();
    subscriber.write(connect_with_session_expiry("subscriber", true, 1));
    subscriber.expect_connack_session_present(false);
    subscriber.subscribe(1, "devices/session", QoS::AtMostOnce);
    subscriber
        .write(MqttPacket::Disconnect(DisconnectPacket {
            reason_code: SUCCESS,
            properties: Vec::new(),
        }));
    subscriber.expect_closed(200);

    broker.sleep(1_100);
    let mut subscriber = broker.open_client();
    subscriber.write(connect_with_session_expiry("subscriber", false, 60));
    subscriber.expect_connack_session_present(false);

    let mut publisher = broker.connect("publisher");
    publisher.write(publish("devices/session", QoS::AtMostOnce, None, "expired"));
    subscriber.expect_no_packet(200);
}

#[test]
fn qos1_outbound_inflight_is_redelivered_after_reconnect() {
    let broker = TestBroker::start();
    let mut subscriber = broker.open_client();
    subscriber.write(connect_with_session_expiry("subscriber", true, 60));
    subscriber.expect_connack_session_present(false);
    subscriber.subscribe(1, "devices/inflight", QoS::AtLeastOnce);

    let mut publisher = broker.connect("publisher");
    publisher
        .write(publish(
            "devices/inflight",
            QoS::AtLeastOnce,
            Some(7),
            "pending",
        ));
    publisher.expect_puback(7);

    let packet = subscriber.expect_publish("expected first qos1 delivery");
    assert!(!packet.dup);
    assert_eq!(packet.packet_id, Some(1));
    subscriber.write(disconnect_success());
    subscriber.expect_closed(200);

    let mut subscriber = broker.open_client();
    subscriber.write(connect_with_session_expiry("subscriber", false, 60));
    subscriber.expect_connack_session_present(true);
    let packet = subscriber.expect_publish("expected redelivered qos1 publish");
    assert!(packet.dup);
    assert_eq!(packet.qos, QoS::AtLeastOnce);
    assert_eq!(packet.packet_id, Some(1));
    assert_eq!(packet.payload, b"pending".to_vec());
    subscriber.write(MqttPacket::PubAck(ack(1, SUCCESS)));
}

#[test]
fn qos2_outbound_inflight_is_redelivered_after_reconnect() {
    let broker = TestBroker::start();
    let mut subscriber = broker.open_client();
    subscriber.write(connect_with_session_expiry("subscriber", true, 60));
    subscriber.expect_connack_session_present(false);
    subscriber.subscribe(1, "devices/inflight", QoS::ExactlyOnce);

    let mut publisher = broker.connect("publisher");
    publisher
        .write(publish(
            "devices/inflight",
            QoS::ExactlyOnce,
            Some(9),
            "pending",
        ));
    publisher.expect_pubrec(9);
    publisher.write(MqttPacket::PubRel(ack(9, SUCCESS)));
    publisher.expect_pubcomp(9);

    let packet = subscriber.expect_publish("expected first qos2 delivery");
    assert!(!packet.dup);
    assert_eq!(packet.packet_id, Some(1));
    subscriber.write(disconnect_success());
    subscriber.expect_closed(200);

    let mut subscriber = broker.open_client();
    subscriber.write(connect_with_session_expiry("subscriber", false, 60));
    subscriber.expect_connack_session_present(true);
    let packet = subscriber.expect_publish("expected redelivered qos2 publish");
    assert!(packet.dup);
    assert_eq!(packet.qos, QoS::ExactlyOnce);
    assert_eq!(packet.packet_id, Some(1));
    assert_eq!(packet.payload, b"pending".to_vec());
    subscriber.write(MqttPacket::PubRec(ack(1, SUCCESS)));
    subscriber.expect_pubrel(1);
    subscriber.write(MqttPacket::PubComp(ack(1, SUCCESS)));
}

#[test]
fn clean_start_does_not_redeliver_outbound_inflight() {
    let broker = TestBroker::start();
    let mut subscriber = broker.open_client();
    subscriber.write(connect_with_session_expiry("subscriber", true, 60));
    subscriber.expect_connack_session_present(false);
    subscriber.subscribe(1, "devices/inflight", QoS::AtLeastOnce);

    let mut publisher = broker.connect("publisher");
    publisher
        .write(publish(
            "devices/inflight",
            QoS::AtLeastOnce,
            Some(7),
            "pending",
        ));
    publisher.expect_puback(7);
    let _ = subscriber.expect_publish("expected first qos1 delivery");
    subscriber.write(disconnect_success());
    subscriber.expect_closed(200);

    let mut subscriber = broker.open_client();
    subscriber.write(connect_with_session_expiry("subscriber", true, 60));
    subscriber.expect_connack_session_present(false);
    subscriber.expect_no_packet(200);
}

#[test]
fn persistent_session_queues_qos1_messages_while_offline() {
    let broker = TestBroker::start();
    let mut subscriber = broker.open_client();
    subscriber.write(connect_with_session_expiry("subscriber", true, 60));
    subscriber.expect_connack_session_present(false);
    subscriber.subscribe(1, "devices/offline", QoS::AtLeastOnce);
    subscriber.write(disconnect_success());
    subscriber.expect_closed(200);

    let mut publisher = broker.connect("publisher");
    publisher
        .write(publish(
            "devices/offline",
            QoS::AtLeastOnce,
            Some(7),
            "queued",
        ));
    publisher.expect_puback(7);

    let mut subscriber = broker.open_client();
    subscriber.write(connect_with_session_expiry("subscriber", false, 60));
    subscriber.expect_connack_session_present(true);
    let packet = subscriber.expect_publish("expected queued qos1 publish");
    assert!(!packet.dup);
    assert_eq!(packet.qos, QoS::AtLeastOnce);
    assert_eq!(packet.packet_id, Some(1));
    assert_eq!(packet.payload, b"queued".to_vec());
    subscriber.write(MqttPacket::PubAck(ack(1, SUCCESS)));
}

#[test]
fn persistent_session_queues_qos2_messages_while_offline() {
    let broker = TestBroker::start();
    let mut subscriber = broker.open_client();
    subscriber.write(connect_with_session_expiry("subscriber", true, 60));
    subscriber.expect_connack_session_present(false);
    subscriber.subscribe(1, "devices/offline", QoS::ExactlyOnce);
    subscriber.write(disconnect_success());
    subscriber.expect_closed(200);

    let mut publisher = broker.connect("publisher");
    publisher
        .write(publish(
            "devices/offline",
            QoS::ExactlyOnce,
            Some(9),
            "queued",
        ));
    publisher.expect_pubrec(9);
    publisher.write(MqttPacket::PubRel(ack(9, SUCCESS)));
    publisher.expect_pubcomp(9);

    let mut subscriber = broker.open_client();
    subscriber.write(connect_with_session_expiry("subscriber", false, 60));
    subscriber.expect_connack_session_present(true);
    let packet = subscriber.expect_publish("expected queued qos2 publish");
    assert!(!packet.dup);
    assert_eq!(packet.qos, QoS::ExactlyOnce);
    assert_eq!(packet.packet_id, Some(1));
    assert_eq!(packet.payload, b"queued".to_vec());
    subscriber.write(MqttPacket::PubRec(ack(1, SUCCESS)));
    subscriber.expect_pubrel(1);
    subscriber.write(MqttPacket::PubComp(ack(1, SUCCESS)));
}

#[test]
fn persistent_session_does_not_queue_qos0_messages_while_offline() {
    let broker = TestBroker::start();
    let mut subscriber = broker.open_client();
    subscriber.write(connect_with_session_expiry("subscriber", true, 60));
    subscriber.expect_connack_session_present(false);
    subscriber.subscribe(1, "devices/offline", QoS::AtMostOnce);
    subscriber.write(disconnect_success());
    subscriber.expect_closed(200);

    let mut publisher = broker.connect("publisher");
    publisher.write(publish("devices/offline", QoS::AtMostOnce, None, "dropped"));

    let mut subscriber = broker.open_client();
    subscriber.write(connect_with_session_expiry("subscriber", false, 60));
    subscriber.expect_connack_session_present(true);
    subscriber.expect_no_packet(200);
}

#[test]
fn receive_maximum_queues_online_qos1_until_ack() {
    let broker = TestBroker::start();
    let mut subscriber = broker.open_client();
    subscriber
        .write(connect_with_properties(
            "subscriber",
            true,
            vec![MqttProperty::ReceiveMaximum(1)],
        ));
    subscriber.expect_connack();
    subscriber.subscribe(1, "devices/receive-maximum", QoS::AtLeastOnce);

    let mut publisher = broker.connect("publisher");
    publisher
        .write(publish(
            "devices/receive-maximum",
            QoS::AtLeastOnce,
            Some(7),
            "first",
        ));
    publisher.expect_puback(7);
    publisher
        .write(publish(
            "devices/receive-maximum",
            QoS::AtLeastOnce,
            Some(8),
            "second",
        ));
    publisher.expect_puback(8);

    let first = subscriber.expect_publish("expected first receive-maximum publish");
    assert_eq!(first.payload, b"first".to_vec());
    subscriber.expect_no_packet(200);

    subscriber
        .write(MqttPacket::PubAck(ack(
            first.packet_id.unwrap(),
            SUCCESS,
        )));
    let second = subscriber.expect_publish("expected queued publish after ack");
    assert_eq!(second.payload, b"second".to_vec());
}

#[test]
fn qos1_outbound_inflight_retransmits_until_ack() {
    let broker = TestBroker::start_with_broker(retransmit_broker(50));
    let mut subscriber = broker.connect("subscriber");
    subscriber.subscribe(1, "devices/retransmit", QoS::AtLeastOnce);

    let mut publisher = broker.connect("publisher");
    publisher
        .write(publish(
            "devices/retransmit",
            QoS::AtLeastOnce,
            Some(7),
            "retry",
        ));
    publisher.expect_puback(7);

    let first = subscriber.expect_publish("expected initial publish");
    assert!(!first.dup);
    let duplicate = subscriber.expect_publish("expected retransmit");
    assert!(duplicate.dup);
    assert_eq!(duplicate.packet_id, first.packet_id);

    subscriber
        .write(MqttPacket::PubAck(ack(
            first.packet_id.unwrap(),
            SUCCESS,
        )));
    subscriber.expect_no_packet(120);
}

#[test]
fn qos2_outbound_publish_and_pubrel_retransmit() {
    let broker = TestBroker::start_with_broker(retransmit_broker(50));
    let mut subscriber = broker.connect("subscriber");
    subscriber.subscribe(1, "devices/retransmit-qos2", QoS::ExactlyOnce);

    let mut publisher = broker.connect("publisher");
    publisher
        .write(publish(
            "devices/retransmit-qos2",
            QoS::ExactlyOnce,
            Some(7),
            "retry",
        ));
    publisher.expect_pubrec(7);
    publisher.write(MqttPacket::PubRel(ack(7, SUCCESS)));
    publisher.expect_pubcomp(7);

    let first = subscriber.expect_publish("expected initial qos2");
    assert!(!first.dup);
    let duplicate = subscriber.expect_publish("expected qos2 publish retransmit");
    assert!(duplicate.dup);
    assert_eq!(duplicate.packet_id, first.packet_id);

    subscriber
        .write(MqttPacket::PubRec(ack(
            first.packet_id.unwrap(),
            SUCCESS,
        )));
    subscriber.expect_pubrel(first.packet_id.unwrap());
    subscriber.expect_pubrel(first.packet_id.unwrap());

    subscriber
        .write(MqttPacket::PubComp(ack(
            first.packet_id.unwrap(),
            SUCCESS,
        )));
    subscriber.expect_no_packet(120);
}

#[test]
fn expired_outbound_inflight_is_not_retransmitted() {
    let broker = TestBroker::start_with_broker(retransmit_broker(1_100));
    let mut subscriber = broker.connect("subscriber");
    subscriber.subscribe(1, "devices/retransmit-expiry", QoS::AtLeastOnce);

    let mut publisher = broker.connect("publisher");
    publisher
        .write(publish_with_message_expiry(
            "devices/retransmit-expiry",
            QoS::AtLeastOnce,
            Some(7),
            "expires",
            false,
            1,
        ));
    publisher.expect_puback(7);
    let first = subscriber.expect_publish("expected initial expiring publish");
    assert!(!first.dup);
    subscriber.expect_no_packet(1_300);
}

#[test]
fn maximum_packet_size_drops_oversized_outbound_publish() {
    let broker = TestBroker::start();
    let mut subscriber = broker.open_client();
    subscriber
        .write(connect_with_properties(
            "subscriber",
            true,
            vec![MqttProperty::MaximumPacketSize(40)],
        ));
    subscriber.expect_connack();
    subscriber.subscribe(1, "devices/max-packet", QoS::AtMostOnce);

    let mut publisher = broker.connect("publisher");
    publisher
        .write(publish(
            "devices/max-packet",
            QoS::AtMostOnce,
            None,
            "this payload is intentionally too large for the subscriber",
        ));
    subscriber.expect_no_packet(200);
}

#[test]
fn subscription_identifier_is_forwarded_on_matching_publish() {
    let broker = TestBroker::start();
    let mut subscriber = broker.connect("subscriber");
    subscriber
        .write(subscribe_with_subscription_identifier(
            1,
            "devices/sub-id",
            QoS::AtMostOnce,
            42,
        ));
    assert!(matches!(subscriber.read(), MqttPacket::SubAck(_)));

    let mut publisher = broker.connect("publisher");
    publisher.write(publish("devices/sub-id", QoS::AtMostOnce, None, "tagged"));

    let packet = subscriber.expect_publish("expected subscription identifier publish");
    assert!(
        packet
            .properties
            .contains(&MqttProperty::SubscriptionIdentifier(42))
    );
}

#[test]
fn publish_properties_are_forwarded() {
    let broker = TestBroker::start();
    let mut subscriber = broker.connect("subscriber");
    subscriber.subscribe(1, "devices/properties", QoS::AtMostOnce);

    let mut publisher = broker.connect("publisher");
    publisher
        .write(publish_with_properties(
            "devices/properties",
            QoS::AtMostOnce,
            None,
            "props",
            vec![
                MqttProperty::UserProperty("trace".to_string(), "abc".to_string()),
                MqttProperty::ResponseTopic("devices/reply".to_string()),
                MqttProperty::CorrelationData(b"corr".to_vec()),
            ],
        ));

    let packet = subscriber.expect_publish("expected forwarded properties");
    assert!(packet.properties.contains(&MqttProperty::UserProperty(
        "trace".to_string(),
        "abc".to_string()
    )));
    assert!(
        packet
            .properties
            .contains(&MqttProperty::ResponseTopic("devices/reply".to_string()))
    );
    assert!(
        packet
            .properties
            .contains(&MqttProperty::CorrelationData(b"corr".to_vec()))
    );
}

#[test]
fn topic_alias_resolves_subsequent_empty_topic_publish() {
    let broker = TestBroker::start();
    let mut subscriber = broker.connect("subscriber");
    subscriber.subscribe(1, "devices/alias", QoS::AtMostOnce);

    let mut publisher = broker.connect("publisher");
    publisher
        .write(publish_with_properties(
            "devices/alias",
            QoS::AtMostOnce,
            None,
            "first",
            vec![MqttProperty::TopicAlias(1)],
        ));
    let first = subscriber.expect_publish("expected aliased seed");
    assert_eq!(first.payload, b"first".to_vec());

    publisher
        .write(publish_with_properties(
            "",
            QoS::AtMostOnce,
            None,
            "second",
            vec![MqttProperty::TopicAlias(1)],
        ));
    let second = subscriber.expect_publish("expected resolved topic alias");
    assert_eq!(second.topic_name, "devices/alias");
    assert_eq!(second.payload, b"second".to_vec());
}

#[test]
fn invalid_topic_alias_disconnects_with_reason_string() {
    let broker = TestBroker::start();
    let mut publisher = broker.connect("publisher");
    publisher
        .write(publish_with_properties(
            "",
            QoS::AtMostOnce,
            None,
            "invalid",
            vec![MqttProperty::TopicAlias(1)],
        ));
    publisher.expect_disconnect_reason_string(TOPIC_ALIAS_INVALID, "topic alias invalid");
}

#[test]
fn shared_subscription_round_robins_online_group_members() {
    let broker = TestBroker::start();
    let mut first = broker.connect("shared-a");
    let mut second = broker.connect("shared-b");
    first.subscribe(1, "$share/group/devices/shared", QoS::AtMostOnce);
    second.subscribe(1, "$share/group/devices/shared", QoS::AtMostOnce);

    let mut publisher = broker.connect("publisher");
    publisher.write(publish("devices/shared", QoS::AtMostOnce, None, "one"));
    publisher.write(publish("devices/shared", QoS::AtMostOnce, None, "two"));

    let first_packet = first.expect_publish("expected first shared publish");
    let second_packet = second.expect_publish("expected second shared publish");
    assert_eq!(first_packet.payload, b"one".to_vec());
    assert_eq!(second_packet.payload, b"two".to_vec());
}

#[test]
fn subscription_quota_returns_quota_exceeded() {
    let broker = TestBroker::start();
    let mut client = broker.connect("subscriber");

    for index in 0..MAX_SUBSCRIPTIONS_PER_CLIENT {
        client
            .write(subscribe(
                (index + 1) as u16,
                &format!("devices/quota/{index}"),
                QoS::AtMostOnce,
            ));
        assert!(matches!(
            client.read(),
            MqttPacket::SubAck(packet) if packet.reason_codes == vec![QOS_0_GRANTED]
        ));
    }

    client.write(subscribe(65_000, "devices/quota/overflow", QoS::AtMostOnce));
    assert!(matches!(
        client.read(),
        MqttPacket::SubAck(packet)
            if packet.reason_codes == vec![QUOTA_EXCEEDED]
                && packet.properties.contains(
                    &MqttProperty::ReasonString("quota exceeded".to_string()),
                )
    ));
}

#[test]
fn offline_queue_limit_drops_new_messages_after_capacity() {
    let broker = TestBroker::start();
    let mut subscriber = broker.open_client();
    subscriber.write(connect_with_session_expiry("subscriber", true, 60));
    subscriber.expect_connack_session_present(false);
    subscriber.subscribe(1, "devices/offline-limit", QoS::AtLeastOnce);
    subscriber.write(disconnect_success());
    subscriber.expect_closed(200);

    let mut publisher = broker.connect("publisher");
    for index in 0..=MAX_OFFLINE_QUEUE_LEN {
        publisher
            .write(publish(
                "devices/offline-limit",
                QoS::AtLeastOnce,
                Some((index + 1) as u16),
                &format!("queued-{index}"),
            ));
        publisher.expect_puback((index + 1) as u16);
    }

    let mut subscriber = broker.open_client();
    subscriber.write(connect_with_session_expiry("subscriber", false, 60));
    subscriber.expect_connack_session_present(true);
    for index in 0..MAX_OFFLINE_QUEUE_LEN {
        let packet = subscriber.expect_publish("expected capped offline publish");
        assert_eq!(
            packet.payload,
            format!("queued-{index}").into_bytes()
        );
        subscriber
            .write(MqttPacket::PubAck(ack(
                packet.packet_id.unwrap(),
                SUCCESS,
            )));
    }
    subscriber.expect_no_packet(200);
}

#[test]
fn retained_message_limit_drops_new_retained_messages_after_capacity() {
    let broker = TestBroker::start();
    let mut publisher = broker.connect("publisher");
    for index in 0..=MAX_RETAINED_MESSAGES {
        publisher
            .write(publish_with_retain(
                &format!("devices/retained-limit/{index}"),
                QoS::AtMostOnce,
                None,
                "retained",
                true,
            ));
    }

    let mut subscriber = broker.connect("subscriber");
    subscriber
        .subscribe(
            1,
            &format!("devices/retained-limit/{MAX_RETAINED_MESSAGES}"),
            QoS::AtMostOnce,
        );
    subscriber.expect_no_packet(200);
}

#[test]
fn expired_offline_message_is_not_delivered_after_reconnect() {
    let broker = TestBroker::start();
    let mut subscriber = broker.open_client();
    subscriber.write(connect_with_session_expiry("subscriber", true, 60));
    subscriber.expect_connack_session_present(false);
    subscriber.subscribe(1, "devices/expiry/offline", QoS::AtLeastOnce);
    subscriber.write(disconnect_success());
    subscriber.expect_closed(200);

    let mut publisher = broker.connect("publisher");
    publisher
        .write(publish_with_message_expiry(
            "devices/expiry/offline",
            QoS::AtLeastOnce,
            Some(7),
            "expired",
            false,
            1,
        ));
    publisher.expect_puback(7);

    broker.sleep(1_100);
    let mut subscriber = broker.open_client();
    subscriber.write(connect_with_session_expiry("subscriber", false, 60));
    subscriber.expect_connack_session_present(true);
    subscriber.expect_no_packet(200);
}

#[test]
fn offline_message_expiry_is_not_refreshed_when_delivered() {
    let broker = TestBroker::start();
    let mut subscriber = broker.open_client();
    subscriber.write(connect_with_session_expiry("subscriber", true, 60));
    subscriber.expect_connack_session_present(false);
    subscriber.subscribe(1, "devices/expiry/offline-inflight", QoS::AtLeastOnce);
    subscriber.write(disconnect_success());
    subscriber.expect_closed(200);

    let mut publisher = broker.connect("publisher");
    publisher
        .write(publish_with_message_expiry(
            "devices/expiry/offline-inflight",
            QoS::AtLeastOnce,
            Some(7),
            "expires-soon",
            false,
            2,
        ));
    publisher.expect_puback(7);

    broker.sleep(1_000);
    let mut subscriber = broker.open_client();
    subscriber.write(connect_with_session_expiry("subscriber", false, 60));
    subscriber.expect_connack_session_present(true);
    let packet = subscriber.expect_publish("expected queued publish before expiry");
    assert_eq!(packet.payload, b"expires-soon".to_vec());
    subscriber.write(disconnect_success());
    subscriber.expect_closed(200);

    broker.sleep(1_200);
    let mut subscriber = broker.open_client();
    subscriber.write(connect_with_session_expiry("subscriber", false, 60));
    subscriber.expect_connack_session_present(true);
    subscriber.expect_no_packet(200);
}

#[test]
fn expired_outbound_inflight_is_not_redelivered_after_reconnect() {
    let broker = TestBroker::start();
    let mut subscriber = broker.open_client();
    subscriber.write(connect_with_session_expiry("subscriber", true, 60));
    subscriber.expect_connack_session_present(false);
    subscriber.subscribe(1, "devices/expiry/inflight", QoS::AtLeastOnce);

    let mut publisher = broker.connect("publisher");
    publisher
        .write(publish_with_message_expiry(
            "devices/expiry/inflight",
            QoS::AtLeastOnce,
            Some(8),
            "expired",
            false,
            1,
        ));
    publisher.expect_puback(8);

    let packet = subscriber.expect_publish("expected first expiring qos1 delivery");
    assert_eq!(packet.packet_id, Some(1));
    subscriber.write(disconnect_success());
    subscriber.expect_closed(200);

    broker.sleep(1_100);
    let mut subscriber = broker.open_client();
    subscriber.write(connect_with_session_expiry("subscriber", false, 60));
    subscriber.expect_connack_session_present(true);
    subscriber.expect_no_packet(200);
}

#[test]
fn expired_inbound_qos2_publish_is_not_delivered_on_pubrel() {
    let broker = TestBroker::start();
    let mut subscriber = broker.connect("subscriber");
    subscriber.subscribe(1, "devices/expiry/inbound-qos2", QoS::ExactlyOnce);

    let mut publisher = broker.connect("publisher");
    publisher
        .write(publish_with_message_expiry(
            "devices/expiry/inbound-qos2",
            QoS::ExactlyOnce,
            Some(9),
            "expired",
            false,
            1,
        ));
    publisher.expect_pubrec(9);

    broker.sleep(1_100);
    publisher.write(MqttPacket::PubRel(ack(9, SUCCESS)));
    publisher.expect_pubcomp(9);
    subscriber.expect_no_packet(200);
}

#[test]
fn tests_qos1_publish_is_delivered_with_qos1_and_acknowledged() {
    let broker = TestBroker::start();
    let mut subscriber = broker.connect("subscriber");
    subscriber.subscribe(1, "devices/one", QoS::AtLeastOnce);

    let mut publisher = broker.connect("publisher");
    publisher.write(publish("devices/one", QoS::AtLeastOnce, Some(7), "hello"));
    publisher.expect_puback(7);

    let packet = subscriber.expect_publish("expected publish");
    assert_eq!(packet.qos, QoS::AtLeastOnce);
    assert_eq!(packet.packet_id, Some(1));
    assert_eq!(packet.payload, b"hello".to_vec());
    subscriber
        .write(MqttPacket::PubAck(ack(
            packet.packet_id.unwrap(),
            SUCCESS,
        )));
}

#[test]
fn tests_qos2_publish_completes_both_handshakes() {
    let broker = TestBroker::start();
    let mut subscriber = broker.connect("subscriber");
    subscriber.subscribe(1, "devices/two", QoS::ExactlyOnce);

    let mut publisher = broker.connect("publisher");
    publisher.write(publish("devices/two", QoS::ExactlyOnce, Some(9), "hello"));
    publisher.expect_pubrec(9);
    publisher.write(MqttPacket::PubRel(ack(9, SUCCESS)));
    publisher.expect_pubcomp(9);

    let packet = subscriber.expect_publish("expected publish");
    assert_eq!(packet.qos, QoS::ExactlyOnce);
    assert_eq!(packet.packet_id, Some(1));
    assert_eq!(packet.payload, b"hello".to_vec());
    subscriber
        .write(MqttPacket::PubRec(ack(
            packet.packet_id.unwrap(),
            SUCCESS,
        )));
    subscriber.expect_pubrel(1);
    subscriber.write(MqttPacket::PubComp(ack(1, SUCCESS)));
}

#[test]
fn qos2_duplicate_packet_id_is_acknowledged_without_replacing_original() {
    let broker = TestBroker::start();
    let mut subscriber = broker.connect("subscriber");
    subscriber.subscribe(1, "devices/dup", QoS::ExactlyOnce);

    let mut publisher = broker.connect("publisher");
    publisher.write(publish("devices/dup", QoS::ExactlyOnce, Some(9), "first"));
    publisher.expect_pubrec(9);
    publisher.write(publish("devices/dup", QoS::ExactlyOnce, Some(9), "second"));
    publisher.expect_pubrec(9);
    publisher.write(MqttPacket::PubRel(ack(9, SUCCESS)));
    publisher.expect_pubcomp(9);

    let packet = subscriber.expect_publish("expected original publish");
    assert_eq!(packet.payload, b"first".to_vec());
}

#[test]
fn pubrel_for_missing_inbound_packet_id_returns_not_found() {
    let broker = TestBroker::start();
    let mut publisher = broker.connect("publisher");

    publisher.write(MqttPacket::PubRel(ack(42, SUCCESS)));
    publisher.expect_pubcomp_reason(42, PACKET_IDENTIFIER_NOT_FOUND);
}

#[test]
fn unexpected_outbound_ack_disconnects_client() {
    let broker = TestBroker::start();
    let mut client = broker.connect("subscriber");

    client.write(MqttPacket::PubAck(ack(42, SUCCESS)));
    client.expect_disconnect_reason(PACKET_IDENTIFIER_NOT_FOUND);
}

#[test]
fn tests_retained_qos2_publish_replays_at_subscriber_qos() {
    let broker = TestBroker::start();
    let mut publisher = broker.connect("publisher");
    publisher
        .write(publish_with_retain(
            "devices/retained",
            QoS::ExactlyOnce,
            Some(11),
            "sticky",
            true,
        ));
    publisher.expect_pubrec(11);
    publisher.write(MqttPacket::PubRel(ack(11, SUCCESS)));
    publisher.expect_pubcomp(11);

    let mut subscriber = broker.connect("subscriber");
    subscriber.subscribe(1, "devices/retained", QoS::ExactlyOnce);

    let packet = subscriber.expect_publish("expected retained publish");
    assert_eq!(packet.qos, QoS::ExactlyOnce);
    assert!(packet.retain);
    assert_eq!(packet.packet_id, Some(1));
    assert_eq!(packet.payload, b"sticky".to_vec());
}

#[test]
fn retained_replay_preserves_subscription_identifier() {
    let broker = TestBroker::start();
    let mut publisher = broker.connect("publisher");
    publisher
        .write(publish_with_retain(
            "devices/retained-identifier",
            QoS::AtMostOnce,
            None,
            "sticky",
            true,
        ));

    let mut subscriber = broker.connect("subscriber");
    subscriber
        .write(subscribe_with_subscription_identifier(
            1,
            "devices/retained-identifier",
            QoS::AtMostOnce,
            7,
        ));
    assert!(matches!(subscriber.read(), MqttPacket::SubAck(_)));

    let packet = subscriber.expect_publish("expected retained publish");
    assert!(packet.retain);
    assert_eq!(packet.payload, b"sticky".to_vec());
    assert!(
        packet
            .properties
            .iter()
            .any(|property| matches!(property, MqttProperty::SubscriptionIdentifier(7)))
    );
}

#[test]
fn retain_handling_one_replays_only_for_new_subscription() {
    let broker = TestBroker::start();
    let mut publisher = broker.connect("publisher");
    publisher
        .write(publish_with_retain(
            "devices/retained-once",
            QoS::AtMostOnce,
            None,
            "sticky",
            true,
        ));

    let mut subscriber = broker.connect("subscriber");
    subscriber
        .write(subscribe_with_retain_handling(
            1,
            "devices/retained-once",
            QoS::AtMostOnce,
            1,
        ));
    assert!(matches!(subscriber.read(), MqttPacket::SubAck(_)));
    let packet = subscriber.expect_publish("expected retained publish for new subscription");
    assert_eq!(packet.payload, b"sticky".to_vec());

    subscriber
        .write(subscribe_with_retain_handling(
            2,
            "devices/retained-once",
            QoS::AtMostOnce,
            1,
        ));
    assert!(matches!(subscriber.read(), MqttPacket::SubAck(_)));
    subscriber.expect_no_packet(200);
}

#[test]
fn expired_retained_message_is_not_replayed() {
    let broker = TestBroker::start();
    let mut publisher = broker.connect("publisher");
    publisher
        .write(publish_with_message_expiry(
            "devices/expiry/retained",
            QoS::AtMostOnce,
            None,
            "expired",
            true,
            1,
        ));

    broker.sleep(1_100);
    let mut subscriber = broker.connect("subscriber");
    subscriber.subscribe(1, "devices/expiry/retained", QoS::AtMostOnce);
    subscriber.expect_no_packet(200);
}

#[test]
fn non_expired_message_expiry_is_delivered() {
    let broker = TestBroker::start();
    let mut subscriber = broker.connect("subscriber");
    subscriber.subscribe(1, "devices/expiry/live", QoS::AtMostOnce);

    let mut publisher = broker.connect("publisher");
    publisher
        .write(publish_with_message_expiry(
            "devices/expiry/live",
            QoS::AtMostOnce,
            None,
            "fresh",
            false,
            60,
        ));

    let packet = subscriber.expect_publish("expected non-expired publish");
    assert_eq!(packet.payload, b"fresh".to_vec());
}
