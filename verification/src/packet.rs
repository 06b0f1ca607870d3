//! MQTT packets as plain values.
use vstd::prelude::*;

use crate::value::Value;

verus! {

/// Quality of service.
#[derive(Clone, Copy, Debug, PartialEq, Eq, Structural)]
pub enum QoS {
    AtMostOnce,
    AtLeastOnce,
    ExactlyOnce,
}

impl QoS {
    /// The number that stands for a quality of service on the wire.
    pub open spec fn rank(self) -> u8 {
        match self {
            QoS::AtMostOnce => 0,
            QoS::AtLeastOnce => 1,
            QoS::ExactlyOnce => 2,
        }
    }
}

impl DeepView for QoS {
    type V = QoS;

    open spec fn deep_view(&self) -> QoS {
        *self
    }
}

impl Value for QoS {
    fn dup(&self) -> (copy: Self) {
        *self
    }

    fn same(&self, other: &Self) -> (result: bool) {
        *self == *other
    }
}

/// The number that stands for a quality of service.
pub fn qos_to_u8(qos: QoS) -> (result: u8)
    ensures
        result == qos.rank(),
        result <= 2,
{
    match qos {
        QoS::AtMostOnce => 0,
        QoS::AtLeastOnce => 1,
        QoS::ExactlyOnce => 2,
    }
}

/// The quality of service that a number stands for.
pub fn qos_from_u8(value: u8) -> (result: Option<QoS>)
    ensures
        result is Some <==> value <= 2,
        result matches Some(qos) ==> qos.rank() == value,
{
    match value {
        0 => Some(QoS::AtMostOnce),
        1 => Some(QoS::AtLeastOnce),
        2 => Some(QoS::ExactlyOnce),
        _ => None,
    }
}

/// The lower of two qualities of service.
pub open spec fn lower_qos(a: QoS, b: QoS) -> QoS {
    if a.rank() <= b.rank() {
        a
    } else {
        b
    }
}

/// The quality of service of a delivery: the lower of what was published and what was granted.
pub fn effective_qos(publish_qos: QoS, maximum_qos: QoS) -> (result: QoS)
    ensures
        result == lower_qos(publish_qos, maximum_qos),
{
    if qos_to_u8(publish_qos) <= qos_to_u8(maximum_qos) {
        publish_qos
    } else {
        maximum_qos
    }
}

/// An MQTT property, with texts of type `T` and binary data of type `B`.
#[derive(Debug, PartialEq)]
pub enum PropertyOf<T, B> {
    PayloadFormatIndicator(u8),
    MessageExpiryInterval(u32),
    ContentType(T),
    ResponseTopic(T),
    CorrelationData(B),
    SubscriptionIdentifier(u32),
    SessionExpiryInterval(u32),
    AssignedClientIdentifier(T),
    ServerKeepAlive(u16),
    AuthenticationMethod(T),
    AuthenticationData(B),
    RequestProblemInformation(u8),
    WillDelayInterval(u32),
    RequestResponseInformation(u8),
    ResponseInformation(T),
    ServerReference(T),
    ReasonString(T),
    ReceiveMaximum(u16),
    TopicAliasMaximum(u16),
    TopicAlias(u16),
    MaximumQoS(u8),
    RetainAvailable(u8),
    UserProperty(T, T),
    MaximumPacketSize(u32),
    WildcardSubscriptionAvailable(u8),
    SubscriptionIdentifierAvailable(u8),
    SharedSubscriptionAvailable(u8),
}

/// An MQTT property.
pub type MqttProperty = PropertyOf<String, Vec<u8>>;

/// What an MQTT property stands for.
pub type PropertyView = PropertyOf<Seq<char>, Seq<u8>>;

impl DeepView for PropertyOf<String, Vec<u8>> {
    type V = PropertyView;

    open spec fn deep_view(&self) -> PropertyView {
        match *self {
            PropertyOf::PayloadFormatIndicator(a) => PropertyOf::PayloadFormatIndicator(a),
            PropertyOf::MessageExpiryInterval(a) => PropertyOf::MessageExpiryInterval(a),
            PropertyOf::ContentType(a) => PropertyOf::ContentType(a.deep_view()),
            PropertyOf::ResponseTopic(a) => PropertyOf::ResponseTopic(a.deep_view()),
            PropertyOf::CorrelationData(a) => PropertyOf::CorrelationData(a.deep_view()),
            PropertyOf::SubscriptionIdentifier(a) => PropertyOf::SubscriptionIdentifier(a),
            PropertyOf::SessionExpiryInterval(a) => PropertyOf::SessionExpiryInterval(a),
            PropertyOf::AssignedClientIdentifier(a) => {
                PropertyOf::AssignedClientIdentifier(a.deep_view())
            },
            PropertyOf::ServerKeepAlive(a) => PropertyOf::ServerKeepAlive(a),
            PropertyOf::AuthenticationMethod(a) => PropertyOf::AuthenticationMethod(a.deep_view()),
            PropertyOf::AuthenticationData(a) => PropertyOf::AuthenticationData(a.deep_view()),
            PropertyOf::RequestProblemInformation(a) => PropertyOf::RequestProblemInformation(a),
            PropertyOf::WillDelayInterval(a) => PropertyOf::WillDelayInterval(a),
            PropertyOf::RequestResponseInformation(a) => PropertyOf::RequestResponseInformation(a),
            PropertyOf::ResponseInformation(a) => PropertyOf::ResponseInformation(a.deep_view()),
            PropertyOf::ServerReference(a) => PropertyOf::ServerReference(a.deep_view()),
            PropertyOf::ReasonString(a) => PropertyOf::ReasonString(a.deep_view()),
            PropertyOf::ReceiveMaximum(a) => PropertyOf::ReceiveMaximum(a),
            PropertyOf::TopicAliasMaximum(a) => PropertyOf::TopicAliasMaximum(a),
            PropertyOf::TopicAlias(a) => PropertyOf::TopicAlias(a),
            PropertyOf::MaximumQoS(a) => PropertyOf::MaximumQoS(a),
            PropertyOf::RetainAvailable(a) => PropertyOf::RetainAvailable(a),
            PropertyOf::UserProperty(a, b) => PropertyOf::UserProperty(a@, b@),
            PropertyOf::MaximumPacketSize(a) => PropertyOf::MaximumPacketSize(a),
            PropertyOf::WildcardSubscriptionAvailable(a) => {
                PropertyOf::WildcardSubscriptionAvailable(a)
            },
            PropertyOf::SubscriptionIdentifierAvailable(a) => {
                PropertyOf::SubscriptionIdentifierAvailable(a)
            },
            PropertyOf::SharedSubscriptionAvailable(a) => {
                PropertyOf::SharedSubscriptionAvailable(a)
            },
        }
    }
}

impl Value for PropertyOf<String, Vec<u8>> {
    fn dup(&self) -> (copy: Self) {
        match self {
            PropertyOf::PayloadFormatIndicator(a) => PropertyOf::PayloadFormatIndicator(*a),
            PropertyOf::MessageExpiryInterval(a) => PropertyOf::MessageExpiryInterval(*a),
            PropertyOf::ContentType(a) => PropertyOf::ContentType(a.dup()),
            PropertyOf::ResponseTopic(a) => PropertyOf::ResponseTopic(a.dup()),
            PropertyOf::CorrelationData(a) => PropertyOf::CorrelationData(a.dup()),
            PropertyOf::SubscriptionIdentifier(a) => PropertyOf::SubscriptionIdentifier(*a),
            PropertyOf::SessionExpiryInterval(a) => PropertyOf::SessionExpiryInterval(*a),
            PropertyOf::AssignedClientIdentifier(a) => {
                PropertyOf::AssignedClientIdentifier(a.dup())
            },
            PropertyOf::ServerKeepAlive(a) => PropertyOf::ServerKeepAlive(*a),
            PropertyOf::AuthenticationMethod(a) => PropertyOf::AuthenticationMethod(a.dup()),
            PropertyOf::AuthenticationData(a) => PropertyOf::AuthenticationData(a.dup()),
            PropertyOf::RequestProblemInformation(a) => PropertyOf::RequestProblemInformation(*a),
            PropertyOf::WillDelayInterval(a) => PropertyOf::WillDelayInterval(*a),
            PropertyOf::RequestResponseInformation(a) => PropertyOf::RequestResponseInformation(*a),
            PropertyOf::ResponseInformation(a) => PropertyOf::ResponseInformation(a.dup()),
            PropertyOf::ServerReference(a) => PropertyOf::ServerReference(a.dup()),
            PropertyOf::ReasonString(a) => PropertyOf::ReasonString(a.dup()),
            PropertyOf::ReceiveMaximum(a) => PropertyOf::ReceiveMaximum(*a),
            PropertyOf::TopicAliasMaximum(a) => PropertyOf::TopicAliasMaximum(*a),
            PropertyOf::TopicAlias(a) => PropertyOf::TopicAlias(*a),
            PropertyOf::MaximumQoS(a) => PropertyOf::MaximumQoS(*a),
            PropertyOf::RetainAvailable(a) => PropertyOf::RetainAvailable(*a),
            PropertyOf::UserProperty(a, b) => PropertyOf::UserProperty(a.dup(), b.dup()),
            PropertyOf::MaximumPacketSize(a) => PropertyOf::MaximumPacketSize(*a),
            PropertyOf::WildcardSubscriptionAvailable(a) => {
                PropertyOf::WildcardSubscriptionAvailable(*a)
            },
            PropertyOf::SubscriptionIdentifierAvailable(a) => {
                PropertyOf::SubscriptionIdentifierAvailable(*a)
            },
            PropertyOf::SharedSubscriptionAvailable(a) => {
                PropertyOf::SharedSubscriptionAvailable(*a)
            },
        }
    }

    fn same(&self, other: &Self) -> (result: bool) {
        match (self, other) {
            (PropertyOf::PayloadFormatIndicator(a), PropertyOf::PayloadFormatIndicator(b)) => {
                *a == *b
            },
            (PropertyOf::MessageExpiryInterval(a), PropertyOf::MessageExpiryInterval(b)) => {
                *a == *b
            },
            (PropertyOf::ContentType(a), PropertyOf::ContentType(b)) => a.same(b),
            (PropertyOf::ResponseTopic(a), PropertyOf::ResponseTopic(b)) => a.same(b),
            (PropertyOf::CorrelationData(a), PropertyOf::CorrelationData(b)) => a.same(b),
            (PropertyOf::SubscriptionIdentifier(a), PropertyOf::SubscriptionIdentifier(b)) => {
                *a == *b
            },
            (PropertyOf::SessionExpiryInterval(a), PropertyOf::SessionExpiryInterval(b)) => {
                *a == *b
            },
            (PropertyOf::AssignedClientIdentifier(a), PropertyOf::AssignedClientIdentifier(b)) => {
                a.same(b)
            },
            (PropertyOf::ServerKeepAlive(a), PropertyOf::ServerKeepAlive(b)) => *a == *b,
            (PropertyOf::AuthenticationMethod(a), PropertyOf::AuthenticationMethod(b)) => a.same(b),
            (PropertyOf::AuthenticationData(a), PropertyOf::AuthenticationData(b)) => a.same(b),
            (
                PropertyOf::RequestProblemInformation(a),
                PropertyOf::RequestProblemInformation(b),
            ) => *a == *b,
            (PropertyOf::WillDelayInterval(a), PropertyOf::WillDelayInterval(b)) => *a == *b,
            (
                PropertyOf::RequestResponseInformation(a),
                PropertyOf::RequestResponseInformation(b),
            ) => *a == *b,
            (PropertyOf::ResponseInformation(a), PropertyOf::ResponseInformation(b)) => a.same(b),
            (PropertyOf::ServerReference(a), PropertyOf::ServerReference(b)) => a.same(b),
            (PropertyOf::ReasonString(a), PropertyOf::ReasonString(b)) => a.same(b),
            (PropertyOf::ReceiveMaximum(a), PropertyOf::ReceiveMaximum(b)) => *a == *b,
            (PropertyOf::TopicAliasMaximum(a), PropertyOf::TopicAliasMaximum(b)) => *a == *b,
            (PropertyOf::TopicAlias(a), PropertyOf::TopicAlias(b)) => *a == *b,
            (PropertyOf::MaximumQoS(a), PropertyOf::MaximumQoS(b)) => *a == *b,
            (PropertyOf::RetainAvailable(a), PropertyOf::RetainAvailable(b)) => *a == *b,
            (PropertyOf::UserProperty(a, b), PropertyOf::UserProperty(c, d)) => {
                a.same(c) && b.same(d)
            },
            (PropertyOf::MaximumPacketSize(a), PropertyOf::MaximumPacketSize(b)) => *a == *b,
            (
                PropertyOf::WildcardSubscriptionAvailable(a),
                PropertyOf::WildcardSubscriptionAvailable(b),
            ) => *a == *b,
            (
                PropertyOf::SubscriptionIdentifierAvailable(a),
                PropertyOf::SubscriptionIdentifierAvailable(b),
            ) => *a == *b,
            (
                PropertyOf::SharedSubscriptionAvailable(a),
                PropertyOf::SharedSubscriptionAvailable(b),
            ) => *a == *b,
            _ => false,
        }
    }
}

/// A PUBLISH packet.
#[derive(Debug, PartialEq)]
pub struct PublishPacket {
    pub dup: bool,
    pub qos: QoS,
    pub retain: bool,
    pub topic_name: String,
    pub packet_id: Option<u16>,
    pub properties: Vec<MqttProperty>,
    pub payload: Vec<u8>,
}

/// What a `PublishPacket` stands for.
pub struct PublishView {
    pub dup: bool,
    pub qos: QoS,
    pub retain: bool,
    pub topic_name: Seq<char>,
    pub packet_id: Option<u16>,
    pub properties: Seq<PropertyView>,
    pub payload: Seq<u8>,
}

impl DeepView for PublishPacket {
    type V = PublishView;

    open spec fn deep_view(&self) -> PublishView {
        PublishView {
            dup: self.dup.deep_view(),
            qos: self.qos.deep_view(),
            retain: self.retain.deep_view(),
            topic_name: self.topic_name.deep_view(),
            packet_id: self.packet_id.deep_view(),
            properties: self.properties.deep_view(),
            payload: self.payload.deep_view(),
        }
    }
}

impl Value for PublishPacket {
    fn dup(&self) -> (copy: Self) {
        PublishPacket {
            dup: self.dup.dup(),
            qos: self.qos.dup(),
            retain: self.retain.dup(),
            topic_name: self.topic_name.dup(),
            packet_id: self.packet_id.dup(),
            properties: self.properties.dup(),
            payload: self.payload.dup(),
        }
    }

    fn same(&self, other: &Self) -> (result: bool) {
        self.dup.same(&other.dup)
            && self.qos.same(&other.qos)
            && self.retain.same(&other.retain)
            && self.topic_name.same(&other.topic_name)
            && self.packet_id.same(&other.packet_id)
            && self.properties.same(&other.properties)
            && self.payload.same(&other.payload)
    }
}

/// The message that the server publishes when a client goes away unexpectedly.
#[derive(Debug, PartialEq)]
pub struct Will {
    pub qos: QoS,
    pub retain: bool,
    pub properties: Vec<MqttProperty>,
    pub topic: String,
    pub payload: Vec<u8>,
}

/// What a `Will` stands for.
pub struct WillView {
    pub qos: QoS,
    pub retain: bool,
    pub properties: Seq<PropertyView>,
    pub topic: Seq<char>,
    pub payload: Seq<u8>,
}

impl DeepView for Will {
    type V = WillView;

    open spec fn deep_view(&self) -> WillView {
        WillView {
            qos: self.qos.deep_view(),
            retain: self.retain.deep_view(),
            properties: self.properties.deep_view(),
            topic: self.topic.deep_view(),
            payload: self.payload.deep_view(),
        }
    }
}

impl Value for Will {
    fn dup(&self) -> (copy: Self) {
        Will {
            qos: self.qos.dup(),
            retain: self.retain.dup(),
            properties: self.properties.dup(),
            topic: self.topic.dup(),
            payload: self.payload.dup(),
        }
    }

    fn same(&self, other: &Self) -> (result: bool) {
        self.qos.same(&other.qos)
            && self.retain.same(&other.retain)
            && self.properties.same(&other.properties)
            && self.topic.same(&other.topic)
            && self.payload.same(&other.payload)
    }
}

/// A CONNECT packet.
#[derive(Debug, PartialEq)]
pub struct ConnectPacket {
    pub clean_start: bool,
    pub keep_alive: u16,
    pub properties: Vec<MqttProperty>,
    pub client_id: String,
    pub will: Option<Will>,
    pub username: Option<String>,
    pub password: Option<Vec<u8>>,
}

/// What a `ConnectPacket` stands for.
pub struct ConnectView {
    pub clean_start: bool,
    pub keep_alive: u16,
    pub properties: Seq<PropertyView>,
    pub client_id: Seq<char>,
    pub will: Option<WillView>,
    pub username: Option<Seq<char>>,
    pub password: Option<Seq<u8>>,
}

impl DeepView for ConnectPacket {
    type V = ConnectView;

    open spec fn deep_view(&self) -> ConnectView {
        ConnectView {
            clean_start: self.clean_start.deep_view(),
            keep_alive: self.keep_alive.deep_view(),
            properties: self.properties.deep_view(),
            client_id: self.client_id.deep_view(),
            will: self.will.deep_view(),
            username: self.username.deep_view(),
            password: self.password.deep_view(),
        }
    }
}

impl Value for ConnectPacket {
    fn dup(&self) -> (copy: Self) {
        ConnectPacket {
            clean_start: self.clean_start.dup(),
            keep_alive: self.keep_alive.dup(),
            properties: self.properties.dup(),
            client_id: self.client_id.dup(),
            will: self.will.dup(),
            username: self.username.dup(),
            password: self.password.dup(),
        }
    }

    fn same(&self, other: &Self) -> (result: bool) {
        self.clean_start.same(&other.clean_start)
            && self.keep_alive.same(&other.keep_alive)
            && self.properties.same(&other.properties)
            && self.client_id.same(&other.client_id)
            && self.will.same(&other.will)
            && self.username.same(&other.username)
            && self.password.same(&other.password)
    }
}

/// A CONNACK packet.
#[derive(Debug, PartialEq)]
pub struct ConnAckPacket {
    pub session_present: bool,
    pub reason_code: u8,
    pub properties: Vec<MqttProperty>,
}

/// What a `ConnAckPacket` stands for.
pub struct ConnAckView {
    pub session_present: bool,
    pub reason_code: u8,
    pub properties: Seq<PropertyView>,
}

impl DeepView for ConnAckPacket {
    type V = ConnAckView;

    open spec fn deep_view(&self) -> ConnAckView {
        ConnAckView {
            session_present: self.session_present.deep_view(),
            reason_code: self.reason_code.deep_view(),
            properties: self.properties.deep_view(),
        }
    }
}

impl Value for ConnAckPacket {
    fn dup(&self) -> (copy: Self) {
        ConnAckPacket {
            session_present: self.session_present.dup(),
            reason_code: self.reason_code.dup(),
            properties: self.properties.dup(),
        }
    }

    fn same(&self, other: &Self) -> (result: bool) {
        self.session_present.same(&other.session_present)
            && self.reason_code.same(&other.reason_code)
            && self.properties.same(&other.properties)
    }
}

/// The shape of PUBACK, PUBREC, PUBREL and PUBCOMP packets.
#[derive(Debug, PartialEq)]
pub struct AckPacket {
    pub packet_id: u16,
    pub reason_code: u8,
    pub properties: Vec<MqttProperty>,
}

/// What an `AckPacket` stands for.
pub struct AckView {
    pub packet_id: u16,
    pub reason_code: u8,
    pub properties: Seq<PropertyView>,
}

impl DeepView for AckPacket {
    type V = AckView;

    open spec fn deep_view(&self) -> AckView {
        AckView {
            packet_id: self.packet_id.deep_view(),
            reason_code: self.reason_code.deep_view(),
            properties: self.properties.deep_view(),
        }
    }
}

impl Value for AckPacket {
    fn dup(&self) -> (copy: Self) {
        AckPacket {
            packet_id: self.packet_id.dup(),
            reason_code: self.reason_code.dup(),
            properties: self.properties.dup(),
        }
    }

    fn same(&self, other: &Self) -> (result: bool) {
        self.packet_id.same(&other.packet_id)
            && self.reason_code.same(&other.reason_code)
            && self.properties.same(&other.properties)
    }
}

/// Options of one subscription.
#[derive(Clone, Copy, Debug, PartialEq, Eq, Structural)]
pub struct SubscriptionOptions {
    pub maximum_qos: QoS,
    pub no_local: bool,
    pub retain_as_published: bool,
    pub retain_handling: u8,
}

impl Default for SubscriptionOptions {
    fn default() -> (result: Self)
        ensures
            result == (SubscriptionOptions {
                maximum_qos: QoS::AtMostOnce,
                no_local: false,
                retain_as_published: false,
                retain_handling: 0,
            }),
    {
        SubscriptionOptions {
            maximum_qos: QoS::AtMostOnce,
            no_local: false,
            retain_as_published: false,
            retain_handling: 0,
        }
    }
}

impl DeepView for SubscriptionOptions {
    type V = SubscriptionOptions;

    open spec fn deep_view(&self) -> SubscriptionOptions {
        *self
    }
}

impl Value for SubscriptionOptions {
    fn dup(&self) -> (copy: Self) {
        *self
    }

    fn same(&self, other: &Self) -> (result: bool) {
        *self == *other
    }
}

/// One topic filter of a SUBSCRIBE packet.
#[derive(Debug, PartialEq)]
pub struct Subscription {
    pub topic_filter: String,
    pub options: SubscriptionOptions,
}

/// What a `Subscription` stands for.
pub struct SubscriptionView {
    pub topic_filter: Seq<char>,
    pub options: SubscriptionOptions,
}

impl DeepView for Subscription {
    type V = SubscriptionView;

    open spec fn deep_view(&self) -> SubscriptionView {
        SubscriptionView {
            topic_filter: self.topic_filter.deep_view(),
            options: self.options.deep_view(),
        }
    }
}

impl Value for Subscription {
    fn dup(&self) -> (copy: Self) {
        Subscription {
            topic_filter: self.topic_filter.dup(),
            options: self.options.dup(),
        }
    }

    fn same(&self, other: &Self) -> (result: bool) {
        self.topic_filter.same(&other.topic_filter)
            && self.options.same(&other.options)
    }
}

/// A SUBSCRIBE packet.
#[derive(Debug, PartialEq)]
pub struct SubscribePacket {
    pub packet_id: u16,
    pub properties: Vec<MqttProperty>,
    pub subscriptions: Vec<Subscription>,
}

/// What a `SubscribePacket` stands for.
pub struct SubscribeView {
    pub packet_id: u16,
    pub properties: Seq<PropertyView>,
    pub subscriptions: Seq<SubscriptionView>,
}

impl DeepView for SubscribePacket {
    type V = SubscribeView;

    open spec fn deep_view(&self) -> SubscribeView {
        SubscribeView {
            packet_id: self.packet_id.deep_view(),
            properties: self.properties.deep_view(),
            subscriptions: self.subscriptions.deep_view(),
        }
    }
}

impl Value for SubscribePacket {
    fn dup(&self) -> (copy: Self) {
        SubscribePacket {
            packet_id: self.packet_id.dup(),
            properties: self.properties.dup(),
            subscriptions: self.subscriptions.dup(),
        }
    }

    fn same(&self, other: &Self) -> (result: bool) {
        self.packet_id.same(&other.packet_id)
            && self.properties.same(&other.properties)
            && self.subscriptions.same(&other.subscriptions)
    }
}

/// A SUBACK packet.
#[derive(Debug, PartialEq)]
pub struct SubAckPacket {
    pub packet_id: u16,
    pub properties: Vec<MqttProperty>,
    pub reason_codes: Vec<u8>,
}

/// What a `SubAckPacket` stands for.
pub struct SubAckView {
    pub packet_id: u16,
    pub properties: Seq<PropertyView>,
    pub reason_codes: Seq<u8>,
}

impl DeepView for SubAckPacket {
    type V = SubAckView;

    open spec fn deep_view(&self) -> SubAckView {
        SubAckView {
            packet_id: self.packet_id.deep_view(),
            properties: self.properties.deep_view(),
            reason_codes: self.reason_codes.deep_view(),
        }
    }
}

impl Value for SubAckPacket {
    fn dup(&self) -> (copy: Self) {
        SubAckPacket {
            packet_id: self.packet_id.dup(),
            properties: self.properties.dup(),
            reason_codes: self.reason_codes.dup(),
        }
    }

    fn same(&self, other: &Self) -> (result: bool) {
        self.packet_id.same(&other.packet_id)
            && self.properties.same(&other.properties)
            && self.reason_codes.same(&other.reason_codes)
    }
}

/// An UNSUBSCRIBE packet.
#[derive(Debug, PartialEq)]
pub struct UnsubscribePacket {
    pub packet_id: u16,
    pub properties: Vec<MqttProperty>,
    pub topic_filters: Vec<String>,
}

/// What an `UnsubscribePacket` stands for.
pub struct UnsubscribeView {
    pub packet_id: u16,
    pub properties: Seq<PropertyView>,
    pub topic_filters: Seq<Seq<char>>,
}

impl DeepView for UnsubscribePacket {
    type V = UnsubscribeView;

    open spec fn deep_view(&self) -> UnsubscribeView {
        UnsubscribeView {
            packet_id: self.packet_id.deep_view(),
            properties: self.properties.deep_view(),
            topic_filters: self.topic_filters.deep_view(),
        }
    }
}

impl Value for UnsubscribePacket {
    fn dup(&self) -> (copy: Self) {
        UnsubscribePacket {
            packet_id: self.packet_id.dup(),
            properties: self.properties.dup(),
            topic_filters: self.topic_filters.dup(),
        }
    }

    fn same(&self, other: &Self) -> (result: bool) {
        self.packet_id.same(&other.packet_id)
            && self.properties.same(&other.properties)
            && self.topic_filters.same(&other.topic_filters)
    }
}

/// An UNSUBACK packet.
#[derive(Debug, PartialEq)]
pub struct UnsubAckPacket {
    pub packet_id: u16,
    pub properties: Vec<MqttProperty>,
    pub reason_codes: Vec<u8>,
}

/// What an `UnsubAckPacket` stands for.
pub struct UnsubAckView {
    pub packet_id: u16,
    pub properties: Seq<PropertyView>,
    pub reason_codes: Seq<u8>,
}

impl DeepView for UnsubAckPacket {
    type V = UnsubAckView;

    open spec fn deep_view(&self) -> UnsubAckView {
        UnsubAckView {
            packet_id: self.packet_id.deep_view(),
            properties: self.properties.deep_view(),
            reason_codes: self.reason_codes.deep_view(),
        }
    }
}

impl Value for UnsubAckPacket {
    fn dup(&self) -> (copy: Self) {
        UnsubAckPacket {
            packet_id: self.packet_id.dup(),
            properties: self.properties.dup(),
            reason_codes: self.reason_codes.dup(),
        }
    }

    fn same(&self, other: &Self) -> (result: bool) {
        self.packet_id.same(&other.packet_id)
            && self.properties.same(&other.properties)
            && self.reason_codes.same(&other.reason_codes)
    }
}

/// A DISCONNECT packet.
#[derive(Debug, PartialEq)]
pub struct DisconnectPacket {
    pub reason_code: u8,
    pub properties: Vec<MqttProperty>,
}

/// What a `DisconnectPacket` stands for.
pub struct DisconnectView {
    pub reason_code: u8,
    pub properties: Seq<PropertyView>,
}

impl DeepView for DisconnectPacket {
    type V = DisconnectView;

    open spec fn deep_view(&self) -> DisconnectView {
        DisconnectView {
            reason_code: self.reason_code.deep_view(),
            properties: self.properties.deep_view(),
        }
    }
}

impl Value for DisconnectPacket {
    fn dup(&self) -> (copy: Self) {
        DisconnectPacket {
            reason_code: self.reason_code.dup(),
            properties: self.properties.dup(),
        }
    }

    fn same(&self, other: &Self) -> (result: bool) {
        self.reason_code.same(&other.reason_code)
            && self.properties.same(&other.properties)
    }
}

/// An AUTH packet.
#[derive(Debug, PartialEq)]
pub struct AuthPacket {
    pub reason_code: u8,
    pub properties: Vec<MqttProperty>,
}

/// What an `AuthPacket` stands for.
pub struct AuthView {
    pub reason_code: u8,
    pub properties: Seq<PropertyView>,
}

impl DeepView for AuthPacket {
    type V = AuthView;

    open spec fn deep_view(&self) -> AuthView {
        AuthView {
            reason_code: self.reason_code.deep_view(),
            properties: self.properties.deep_view(),
        }
    }
}

impl Value for AuthPacket {
    fn dup(&self) -> (copy: Self) {
        AuthPacket {
            reason_code: self.reason_code.dup(),
            properties: self.properties.dup(),
        }
    }

    fn same(&self, other: &Self) -> (result: bool) {
        self.reason_code.same(&other.reason_code)
            && self.properties.same(&other.properties)
    }
}

/// An MQTT control packet.
#[derive(Debug, PartialEq)]
pub enum MqttPacket {
    Connect(ConnectPacket),
    ConnAck(ConnAckPacket),
    Publish(PublishPacket),
    PubAck(AckPacket),
    PubRec(AckPacket),
    PubRel(AckPacket),
    PubComp(AckPacket),
    Subscribe(SubscribePacket),
    SubAck(SubAckPacket),
    Unsubscribe(UnsubscribePacket),
    UnsubAck(UnsubAckPacket),
    PingReq,
    PingResp,
    Disconnect(DisconnectPacket),
    Auth(AuthPacket),
}

/// What an `MqttPacket` stands for.
pub enum PacketView {
    Connect(ConnectView),
    ConnAck(ConnAckView),
    Publish(PublishView),
    PubAck(AckView),
    PubRec(AckView),
    PubRel(AckView),
    PubComp(AckView),
    Subscribe(SubscribeView),
    SubAck(SubAckView),
    Unsubscribe(UnsubscribeView),
    UnsubAck(UnsubAckView),
    PingReq,
    PingResp,
    Disconnect(DisconnectView),
    Auth(AuthView),
}

impl DeepView for MqttPacket {
    type V = PacketView;

    open spec fn deep_view(&self) -> PacketView {
        match *self {
            MqttPacket::Connect(packet) => PacketView::Connect(packet.deep_view()),
            MqttPacket::ConnAck(packet) => PacketView::ConnAck(packet.deep_view()),
            MqttPacket::Publish(packet) => PacketView::Publish(packet.deep_view()),
            MqttPacket::PubAck(packet) => PacketView::PubAck(packet.deep_view()),
            MqttPacket::PubRec(packet) => PacketView::PubRec(packet.deep_view()),
            MqttPacket::PubRel(packet) => PacketView::PubRel(packet.deep_view()),
            MqttPacket::PubComp(packet) => PacketView::PubComp(packet.deep_view()),
            MqttPacket::Subscribe(packet) => PacketView::Subscribe(packet.deep_view()),
            MqttPacket::SubAck(packet) => PacketView::SubAck(packet.deep_view()),
            MqttPacket::Unsubscribe(packet) => PacketView::Unsubscribe(packet.deep_view()),
            MqttPacket::UnsubAck(packet) => PacketView::UnsubAck(packet.deep_view()),
            MqttPacket::PingReq => PacketView::PingReq,
            MqttPacket::PingResp => PacketView::PingResp,
            MqttPacket::Disconnect(packet) => PacketView::Disconnect(packet.deep_view()),
            MqttPacket::Auth(packet) => PacketView::Auth(packet.deep_view()),
        }
    }
}

impl Value for MqttPacket {
    fn dup(&self) -> (copy: Self) {
        match self {
            MqttPacket::Connect(packet) => MqttPacket::Connect(packet.dup()),
            MqttPacket::ConnAck(packet) => MqttPacket::ConnAck(packet.dup()),
            MqttPacket::Publish(packet) => MqttPacket::Publish(packet.dup()),
            MqttPacket::PubAck(packet) => MqttPacket::PubAck(packet.dup()),
            MqttPacket::PubRec(packet) => MqttPacket::PubRec(packet.dup()),
            MqttPacket::PubRel(packet) => MqttPacket::PubRel(packet.dup()),
            MqttPacket::PubComp(packet) => MqttPacket::PubComp(packet.dup()),
            MqttPacket::Subscribe(packet) => MqttPacket::Subscribe(packet.dup()),
            MqttPacket::SubAck(packet) => MqttPacket::SubAck(packet.dup()),
            MqttPacket::Unsubscribe(packet) => MqttPacket::Unsubscribe(packet.dup()),
            MqttPacket::UnsubAck(packet) => MqttPacket::UnsubAck(packet.dup()),
            MqttPacket::PingReq => MqttPacket::PingReq,
            MqttPacket::PingResp => MqttPacket::PingResp,
            MqttPacket::Disconnect(packet) => MqttPacket::Disconnect(packet.dup()),
            MqttPacket::Auth(packet) => MqttPacket::Auth(packet.dup()),
        }
    }

    fn same(&self, other: &Self) -> (result: bool) {
        match (self, other) {
            (MqttPacket::Connect(a), MqttPacket::Connect(b)) => a.same(b),
            (MqttPacket::ConnAck(a), MqttPacket::ConnAck(b)) => a.same(b),
            (MqttPacket::Publish(a), MqttPacket::Publish(b)) => a.same(b),
            (MqttPacket::PubAck(a), MqttPacket::PubAck(b)) => a.same(b),
            (MqttPacket::PubRec(a), MqttPacket::PubRec(b)) => a.same(b),
            (MqttPacket::PubRel(a), MqttPacket::PubRel(b)) => a.same(b),
            (MqttPacket::PubComp(a), MqttPacket::PubComp(b)) => a.same(b),
            (MqttPacket::Subscribe(a), MqttPacket::Subscribe(b)) => a.same(b),
            (MqttPacket::SubAck(a), MqttPacket::SubAck(b)) => a.same(b),
            (MqttPacket::Unsubscribe(a), MqttPacket::Unsubscribe(b)) => a.same(b),
            (MqttPacket::UnsubAck(a), MqttPacket::UnsubAck(b)) => a.same(b),
            (MqttPacket::PingReq, MqttPacket::PingReq) => true,
            (MqttPacket::PingResp, MqttPacket::PingResp) => true,
            (MqttPacket::Disconnect(a), MqttPacket::Disconnect(b)) => a.same(b),
            (MqttPacket::Auth(a), MqttPacket::Auth(b)) => a.same(b),
            _ => false,
        }
    }
}

} // verus!
