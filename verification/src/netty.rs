//! The MQTT wire codec of the `rs_netty` crate.
//!
//! Packets are turned into the codec's packets and back, field by field; the codec does the rest.
use bytes::Bytes;
use bytes::BytesMut;
use rs_netty::codec::Decoder;
use rs_netty::codec::Encoder;
use rs_netty::codec::MqttCodec;
use rs_netty::codec::mqtt::AckPacket as NettyAck;
use rs_netty::codec::mqtt::AuthPacket as NettyAuth;
use rs_netty::codec::mqtt::ConnAckPacket as NettyConnAck;
use rs_netty::codec::mqtt::ConnectPacket as NettyConnect;
use rs_netty::codec::mqtt::DisconnectPacket as NettyDisconnect;
use rs_netty::codec::mqtt::MqttPacket as NettyPacket;
use rs_netty::codec::mqtt::MqttProperty as NettyProperty;
use rs_netty::codec::mqtt::PublishPacket as NettyPublish;
use rs_netty::codec::mqtt::QoS as NettyQoS;
use rs_netty::codec::mqtt::SubAckPacket as NettySubAck;
use rs_netty::codec::mqtt::SubscribePacket as NettySubscribe;
use rs_netty::codec::mqtt::Subscription as NettySubscription;
use rs_netty::codec::mqtt::SubscriptionOptions as NettyOptions;
use rs_netty::codec::mqtt::UnsubAckPacket as NettyUnsubAck;
use rs_netty::codec::mqtt::UnsubscribePacket as NettyUnsubscribe;
use rs_netty::codec::mqtt::Will as NettyWill;
use rs_netty::Error as NettyError;
use vstd::prelude::*;

use crate::mqtt_codec::MAX_REMAINING_LENGTH;
use crate::mqtt_codec::is_plain;
use crate::mqtt_codec::plain_body_len;
use crate::mqtt_codec::plain_header;
use crate::mqtt_codec::plain_publish_bytes;
use crate::packet::AckPacket;
use crate::packet::AuthPacket;
use crate::packet::ConnAckPacket;
use crate::packet::ConnectPacket;
use crate::packet::DisconnectPacket;
use crate::packet::MqttPacket;
use crate::packet::MqttProperty;
use crate::packet::PacketView;
use crate::packet::PropertyOf;
use crate::packet::PublishPacket;
use crate::packet::QoS;
use crate::packet::SubAckPacket;
use crate::packet::SubscribePacket;
use crate::packet::Subscription;
use crate::packet::SubscriptionOptions;
use crate::packet::UnsubAckPacket;
use crate::packet::UnsubscribePacket;
use crate::packet::Will;

verus! {

/// The codec's property.
#[verifier::external_type_specification]
#[verifier::external_body]
pub struct ExNettyProperty(NettyProperty);

/// The codec's quality of service.
#[verifier::external_type_specification]
#[verifier::external_body]
pub struct ExNettyQoS(NettyQoS);

/// The codec's packet.
#[verifier::external_type_specification]
#[verifier::external_body]
pub struct ExNettyPacket(NettyPacket);

/// The codec's will.
#[verifier::external_type_specification]
#[verifier::external_body]
pub struct ExNettyWill(NettyWill);

/// The codec's acknowledgement.
#[verifier::external_type_specification]
#[verifier::external_body]
pub struct ExNettyAck(NettyAck);

/// The codec's requested subscription.
#[verifier::external_type_specification]
#[verifier::external_body]
pub struct ExNettySubscription(NettySubscription);

/// The codec's CONNECT packet.
#[verifier::external_type_specification]
#[verifier::external_body]
pub struct ExNettyConnect(NettyConnect);

/// The codec's PUBLISH packet.
#[verifier::external_type_specification]
#[verifier::external_body]
pub struct ExNettyPublish(NettyPublish);

/// The codec's SUBSCRIBE packet.
#[verifier::external_type_specification]
#[verifier::external_body]
pub struct ExNettySubscribe(NettySubscribe);

/// The codec's error.
#[verifier::external_type_specification]
#[verifier::external_body]
pub struct ExNettyError(NettyError);

/// Why the codec refuses a packet or some bytes.
#[derive(Debug, PartialEq)]
pub enum CodecError {
    /// The packet's body is longer than the limit.
    FrameTooLarge { current: usize, max: usize },
    /// The packet or the bytes are not well formed.
    Malformed(String),
}

/// What a `CodecError` stands for.
pub enum CodecErrorView {
    FrameTooLarge { current: usize, max: usize },
    Malformed(Seq<char>),
}

impl DeepView for CodecError {
    type V = CodecErrorView;

    open spec fn deep_view(&self) -> CodecErrorView {
        match *self {
            CodecError::FrameTooLarge { current, max } => CodecErrorView::FrameTooLarge {
                current,
                max,
            },
            CodecError::Malformed(message) => CodecErrorView::Malformed(message@),
        }
    }
}

/// A property as the codec's `MqttProperty`, variant by variant.
#[verifier::external_body]
fn netty_property_1(property: &MqttProperty) -> (result: Option<NettyProperty>) {
    Some(match property {
        PropertyOf::PayloadFormatIndicator(v) => NettyProperty::PayloadFormatIndicator(*v),
        PropertyOf::MessageExpiryInterval(v) => NettyProperty::MessageExpiryInterval(*v),
        PropertyOf::ContentType(v) => NettyProperty::ContentType(v.clone()),
        PropertyOf::ResponseTopic(v) => NettyProperty::ResponseTopic(v.clone()),
        PropertyOf::CorrelationData(v) => NettyProperty::CorrelationData(Bytes::copy_from_slice(v)),
        PropertyOf::SubscriptionIdentifier(v) => NettyProperty::SubscriptionIdentifier(*v),
        PropertyOf::SessionExpiryInterval(v) => NettyProperty::SessionExpiryInterval(*v),
        PropertyOf::AssignedClientIdentifier(v) => NettyProperty::AssignedClientIdentifier(v.clone()),
        PropertyOf::ServerKeepAlive(v) => NettyProperty::ServerKeepAlive(*v),
        _ => return netty_property_2(property),
    })
}

/// A property as the codec's `MqttProperty`, variant by variant, for the variants that the
/// conversion before this one leaves.
#[verifier::external_body]
fn netty_property_2(property: &MqttProperty) -> (result: Option<NettyProperty>) {
    Some(match property {
        PropertyOf::AuthenticationMethod(v) => NettyProperty::AuthenticationMethod(v.clone()),
        PropertyOf::AuthenticationData(v) => NettyProperty::AuthenticationData(Bytes::copy_from_slice(v)),
        PropertyOf::RequestProblemInformation(v) => NettyProperty::RequestProblemInformation(*v),
        PropertyOf::WillDelayInterval(v) => NettyProperty::WillDelayInterval(*v),
        PropertyOf::RequestResponseInformation(v) => NettyProperty::RequestResponseInformation(*v),
        PropertyOf::ResponseInformation(v) => NettyProperty::ResponseInformation(v.clone()),
        PropertyOf::ServerReference(v) => NettyProperty::ServerReference(v.clone()),
        PropertyOf::ReasonString(v) => NettyProperty::ReasonString(v.clone()),
        PropertyOf::ReceiveMaximum(v) => NettyProperty::ReceiveMaximum(*v),
        _ => return netty_property_3(property),
    })
}

/// A property as the codec's `MqttProperty`, variant by variant, for the variants that the
/// conversion before this one leaves.
#[verifier::external_body]
fn netty_property_3(property: &MqttProperty) -> (result: Option<NettyProperty>) {
    Some(match property {
        PropertyOf::TopicAliasMaximum(v) => NettyProperty::TopicAliasMaximum(*v),
        PropertyOf::TopicAlias(v) => NettyProperty::TopicAlias(*v),
        PropertyOf::MaximumQoS(v) => NettyProperty::MaximumQoS(*v),
        PropertyOf::RetainAvailable(v) => NettyProperty::RetainAvailable(*v),
        PropertyOf::UserProperty(k, v) => NettyProperty::UserProperty(k.clone(), v.clone()),
        PropertyOf::MaximumPacketSize(v) => NettyProperty::MaximumPacketSize(*v),
        PropertyOf::WildcardSubscriptionAvailable(v) => NettyProperty::WildcardSubscriptionAvailable(*v),
        PropertyOf::SubscriptionIdentifierAvailable(v) => NettyProperty::SubscriptionIdentifierAvailable(*v),
        PropertyOf::SharedSubscriptionAvailable(v) => NettyProperty::SharedSubscriptionAvailable(*v),
        _ => return None,
    })
}

/// The codec's `MqttProperty` as a property, variant by variant.
#[verifier::external_body]
fn own_property_1(property: NettyProperty) -> (result: Option<MqttProperty>) {
    Some(match property {
        NettyProperty::PayloadFormatIndicator(v) => PropertyOf::PayloadFormatIndicator(v),
        NettyProperty::MessageExpiryInterval(v) => PropertyOf::MessageExpiryInterval(v),
        NettyProperty::ContentType(v) => PropertyOf::ContentType(v),
        NettyProperty::ResponseTopic(v) => PropertyOf::ResponseTopic(v),
        NettyProperty::CorrelationData(v) => PropertyOf::CorrelationData(v.to_vec()),
        NettyProperty::SubscriptionIdentifier(v) => PropertyOf::SubscriptionIdentifier(v),
        NettyProperty::SessionExpiryInterval(v) => PropertyOf::SessionExpiryInterval(v),
        NettyProperty::AssignedClientIdentifier(v) => PropertyOf::AssignedClientIdentifier(v),
        NettyProperty::ServerKeepAlive(v) => PropertyOf::ServerKeepAlive(v),
        other => return own_property_2(other),
    })
}

/// The codec's `MqttProperty` as a property, variant by variant, for the variants that the
/// conversion before this one leaves.
#[verifier::external_body]
fn own_property_2(property: NettyProperty) -> (result: Option<MqttProperty>) {
    Some(match property {
        NettyProperty::AuthenticationMethod(v) => PropertyOf::AuthenticationMethod(v),
        NettyProperty::AuthenticationData(v) => PropertyOf::AuthenticationData(v.to_vec()),
        NettyProperty::RequestProblemInformation(v) => PropertyOf::RequestProblemInformation(v),
        NettyProperty::WillDelayInterval(v) => PropertyOf::WillDelayInterval(v),
        NettyProperty::RequestResponseInformation(v) => PropertyOf::RequestResponseInformation(v),
        NettyProperty::ResponseInformation(v) => PropertyOf::ResponseInformation(v),
        NettyProperty::ServerReference(v) => PropertyOf::ServerReference(v),
        NettyProperty::ReasonString(v) => PropertyOf::ReasonString(v),
        NettyProperty::ReceiveMaximum(v) => PropertyOf::ReceiveMaximum(v),
        other => return own_property_3(other),
    })
}

/// The codec's `MqttProperty` as a property, variant by variant, for the variants that the
/// conversion before this one leaves.
#[verifier::external_body]
fn own_property_3(property: NettyProperty) -> (result: Option<MqttProperty>) {
    Some(match property {
        NettyProperty::TopicAliasMaximum(v) => PropertyOf::TopicAliasMaximum(v),
        NettyProperty::TopicAlias(v) => PropertyOf::TopicAlias(v),
        NettyProperty::MaximumQoS(v) => PropertyOf::MaximumQoS(v),
        NettyProperty::RetainAvailable(v) => PropertyOf::RetainAvailable(v),
        NettyProperty::UserProperty(k, v) => PropertyOf::UserProperty(k, v),
        NettyProperty::MaximumPacketSize(v) => PropertyOf::MaximumPacketSize(v),
        NettyProperty::WildcardSubscriptionAvailable(v) => PropertyOf::WildcardSubscriptionAvailable(v),
        NettyProperty::SubscriptionIdentifierAvailable(v) => PropertyOf::SubscriptionIdentifierAvailable(v),
        NettyProperty::SharedSubscriptionAvailable(v) => PropertyOf::SharedSubscriptionAvailable(v),
        _ => return None,
    })
}

/// Properties as the codec's.
#[verifier::external_body]
fn netty_properties(properties: &Vec<MqttProperty>) -> (result: Option<Vec<NettyProperty>>) {
    properties.iter().map(netty_property_1).collect()
}

/// The codec's properties as properties.
#[verifier::external_body]
fn own_properties(properties: Vec<NettyProperty>) -> (result: Option<Vec<MqttProperty>>) {
    properties.into_iter().map(own_property_1).collect()
}

/// A quality of service as the codec's `QoS`.
#[verifier::external_body]
fn netty_qos(qos: QoS) -> (result: NettyQoS) {
    match qos {
        QoS::AtMostOnce => NettyQoS::AtMostOnce,
        QoS::AtLeastOnce => NettyQoS::AtLeastOnce,
        QoS::ExactlyOnce => NettyQoS::ExactlyOnce,
    }
}

/// The codec's `QoS` as a quality of service.
#[verifier::external_body]
fn own_qos(qos: NettyQoS) -> (result: QoS) {
    match qos {
        NettyQoS::AtMostOnce => QoS::AtMostOnce,
        NettyQoS::AtLeastOnce => QoS::AtLeastOnce,
        NettyQoS::ExactlyOnce => QoS::ExactlyOnce,
    }
}

/// A will as the codec's `Will`.
#[verifier::external_body]
fn netty_will(will: &Will) -> (result: Option<NettyWill>) {
    Some(NettyWill {
        qos: netty_qos(will.qos),
        retain: will.retain,
        properties: netty_properties(&will.properties)?,
        topic: will.topic.clone(),
        payload: Bytes::copy_from_slice(&will.payload),
    })
}

/// The codec's `Will` as a will.
#[verifier::external_body]
fn own_will(will: NettyWill) -> (result: Option<Will>) {
    Some(Will {
        qos: own_qos(will.qos),
        retain: will.retain,
        properties: own_properties(will.properties)?,
        topic: will.topic,
        payload: will.payload.to_vec(),
    })
}

/// A CONNECT packet as the codec's.
#[verifier::external_body]
fn netty_connect(packet: &ConnectPacket) -> (result: Option<NettyConnect>) {
    Some(NettyConnect {
        clean_start: packet.clean_start,
        keep_alive: packet.keep_alive,
        properties: netty_properties(&packet.properties)?,
        client_id: packet.client_id.clone(),
        will: match &packet.will {
            Some(will) => Some(netty_will(will)?),
            None => None,
        },
        username: packet.username.clone(),
        password: packet.password.as_ref().map(|bytes| Bytes::copy_from_slice(bytes)),
    })
}

/// The codec's CONNECT packet as a CONNECT packet.
#[verifier::external_body]
fn own_connect(packet: NettyConnect) -> (result: Option<ConnectPacket>) {
    Some(ConnectPacket {
        clean_start: packet.clean_start,
        keep_alive: packet.keep_alive,
        properties: own_properties(packet.properties)?,
        client_id: packet.client_id,
        will: match packet.will {
            Some(will) => Some(own_will(will)?),
            None => None,
        },
        username: packet.username,
        password: packet.password.map(|bytes| bytes.to_vec()),
    })
}

/// A PUBLISH packet as the codec's.
#[verifier::external_body]
fn netty_publish(packet: &PublishPacket) -> (result: Option<NettyPublish>) {
    Some(NettyPublish {
        dup: packet.dup,
        qos: netty_qos(packet.qos),
        retain: packet.retain,
        topic_name: packet.topic_name.clone(),
        packet_id: packet.packet_id,
        properties: netty_properties(&packet.properties)?,
        payload: Bytes::copy_from_slice(&packet.payload),
    })
}

/// The codec's PUBLISH packet as a PUBLISH packet.
#[verifier::external_body]
fn own_publish(packet: NettyPublish) -> (result: Option<PublishPacket>) {
    Some(PublishPacket {
        dup: packet.dup,
        qos: own_qos(packet.qos),
        retain: packet.retain,
        topic_name: packet.topic_name,
        packet_id: packet.packet_id,
        properties: own_properties(packet.properties)?,
        payload: packet.payload.to_vec(),
    })
}

/// An acknowledgement as the codec's.
#[verifier::external_body]
fn netty_ack(packet: &AckPacket) -> (result: Option<NettyAck>) {
    Some(NettyAck {
        packet_id: packet.packet_id,
        reason_code: packet.reason_code,
        properties: netty_properties(&packet.properties)?,
    })
}

/// The codec's acknowledgement as an acknowledgement.
#[verifier::external_body]
fn own_ack(packet: NettyAck) -> (result: Option<AckPacket>) {
    Some(AckPacket {
        packet_id: packet.packet_id,
        reason_code: packet.reason_code,
        properties: own_properties(packet.properties)?,
    })
}

/// A requested subscription as the codec's.
#[verifier::external_body]
fn netty_subscription(subscription: &Subscription) -> (result: NettySubscription) {
    NettySubscription {
        topic_filter: subscription.topic_filter.clone(),
        options: NettyOptions {
            maximum_qos: netty_qos(subscription.options.maximum_qos),
            no_local: subscription.options.no_local,
            retain_as_published: subscription.options.retain_as_published,
            retain_handling: subscription.options.retain_handling,
        },
    }
}

/// The codec's requested subscription as a requested subscription.
#[verifier::external_body]
fn own_subscription(subscription: NettySubscription) -> (result: Subscription) {
    Subscription {
        topic_filter: subscription.topic_filter,
        options: SubscriptionOptions {
            maximum_qos: own_qos(subscription.options.maximum_qos),
            no_local: subscription.options.no_local,
            retain_as_published: subscription.options.retain_as_published,
            retain_handling: subscription.options.retain_handling,
        },
    }
}

/// A SUBSCRIBE packet as the codec's.
#[verifier::external_body]
fn netty_subscribe(packet: &SubscribePacket) -> (result: Option<NettySubscribe>) {
    Some(NettySubscribe {
        packet_id: packet.packet_id,
        properties: netty_properties(&packet.properties)?,
        subscriptions: packet.subscriptions.iter().map(netty_subscription).collect(),
    })
}

/// The codec's SUBSCRIBE packet as a SUBSCRIBE packet.
#[verifier::external_body]
fn own_subscribe(packet: NettySubscribe) -> (result: Option<SubscribePacket>) {
    Some(SubscribePacket {
        packet_id: packet.packet_id,
        properties: own_properties(packet.properties)?,
        subscriptions: packet.subscriptions.into_iter().map(own_subscription).collect(),
    })
}

/// A packet as the codec's `MqttPacket`, for the packets that carry a message or acknowledge one.
#[verifier::external_body]
fn netty_packet_1(packet: &MqttPacket) -> (result: Option<NettyPacket>) {
    Some(match packet {
        MqttPacket::Connect(packet) => NettyPacket::Connect(netty_connect(packet)?),
        MqttPacket::Publish(packet) => NettyPacket::Publish(netty_publish(packet)?),
        MqttPacket::PubAck(packet) => NettyPacket::PubAck(netty_ack(packet)?),
        MqttPacket::PubRec(packet) => NettyPacket::PubRec(netty_ack(packet)?),
        MqttPacket::PubRel(packet) => NettyPacket::PubRel(netty_ack(packet)?),
        MqttPacket::PubComp(packet) => NettyPacket::PubComp(netty_ack(packet)?),
        MqttPacket::Subscribe(packet) => NettyPacket::Subscribe(netty_subscribe(packet)?),
        MqttPacket::PingReq => NettyPacket::PingReq,
        MqttPacket::PingResp => NettyPacket::PingResp,
        _ => return netty_packet_2(packet),
    })
}

/// A packet as the codec's `MqttPacket`, for the packets that answer a request.
#[verifier::external_body]
fn netty_packet_2(packet: &MqttPacket) -> (result: Option<NettyPacket>) {
    Some(match packet {
        MqttPacket::SubAck(packet) => NettyPacket::SubAck(NettySubAck {
            packet_id: packet.packet_id,
            properties: netty_properties(&packet.properties)?,
            reason_codes: packet.reason_codes.clone(),
        }),
        MqttPacket::UnsubAck(packet) => NettyPacket::UnsubAck(NettyUnsubAck {
            packet_id: packet.packet_id,
            properties: netty_properties(&packet.properties)?,
            reason_codes: packet.reason_codes.clone(),
        }),
        _ => return netty_packet_3(packet),
    })
}

/// A packet as the codec's `MqttPacket`, for the packets that the conversions before this one
/// leave.
#[verifier::external_body]
fn netty_packet_3(packet: &MqttPacket) -> (result: Option<NettyPacket>) {
    Some(match packet {
        MqttPacket::ConnAck(packet) => NettyPacket::ConnAck(NettyConnAck {
            session_present: packet.session_present,
            reason_code: packet.reason_code,
            properties: netty_properties(&packet.properties)?,
        }),
        MqttPacket::Unsubscribe(packet) => NettyPacket::Unsubscribe(NettyUnsubscribe {
            packet_id: packet.packet_id,
            properties: netty_properties(&packet.properties)?,
            topic_filters: packet.topic_filters.clone(),
        }),
        _ => return netty_packet_4(packet),
    })
}

/// A packet as the codec's `MqttPacket`, for the packets that the conversions before this one
/// leave.
#[verifier::external_body]
fn netty_packet_4(packet: &MqttPacket) -> (result: Option<NettyPacket>) {
    Some(match packet {
        MqttPacket::Disconnect(packet) => NettyPacket::Disconnect(NettyDisconnect {
            reason_code: packet.reason_code,
            properties: netty_properties(&packet.properties)?,
        }),
        MqttPacket::Auth(packet) => NettyPacket::Auth(NettyAuth {
            reason_code: packet.reason_code,
            properties: netty_properties(&packet.properties)?,
        }),
        _ => return None,
    })
}

/// The codec's `MqttPacket` as a packet, for the packets that carry a message or acknowledge one.
#[verifier::external_body]
fn own_packet_1(packet: NettyPacket) -> (result: Option<MqttPacket>) {
    Some(match packet {
        NettyPacket::Connect(packet) => MqttPacket::Connect(own_connect(packet)?),
        NettyPacket::Publish(packet) => MqttPacket::Publish(own_publish(packet)?),
        NettyPacket::PubAck(packet) => MqttPacket::PubAck(own_ack(packet)?),
        NettyPacket::PubRec(packet) => MqttPacket::PubRec(own_ack(packet)?),
        NettyPacket::PubRel(packet) => MqttPacket::PubRel(own_ack(packet)?),
        NettyPacket::PubComp(packet) => MqttPacket::PubComp(own_ack(packet)?),
        NettyPacket::Subscribe(packet) => MqttPacket::Subscribe(own_subscribe(packet)?),
        NettyPacket::PingReq => MqttPacket::PingReq,
        NettyPacket::PingResp => MqttPacket::PingResp,
        other => return own_packet_2(other),
    })
}

/// The codec's `MqttPacket` as a packet, for the packets that answer a request.
#[verifier::external_body]
fn own_packet_2(packet: NettyPacket) -> (result: Option<MqttPacket>) {
    Some(match packet {
        NettyPacket::SubAck(packet) => MqttPacket::SubAck(SubAckPacket {
            packet_id: packet.packet_id,
            properties: own_properties(packet.properties)?,
            reason_codes: packet.reason_codes,
        }),
        NettyPacket::UnsubAck(packet) => MqttPacket::UnsubAck(UnsubAckPacket {
            packet_id: packet.packet_id,
            properties: own_properties(packet.properties)?,
            reason_codes: packet.reason_codes,
        }),
        other => return own_packet_3(other),
    })
}

/// The codec's `MqttPacket` as a packet, for the packets that the conversions before this one
/// leave.
#[verifier::external_body]
fn own_packet_3(packet: NettyPacket) -> (result: Option<MqttPacket>) {
    Some(match packet {
        NettyPacket::ConnAck(packet) => MqttPacket::ConnAck(ConnAckPacket {
            session_present: packet.session_present,
            reason_code: packet.reason_code,
            properties: own_properties(packet.properties)?,
        }),
        NettyPacket::Unsubscribe(packet) => MqttPacket::Unsubscribe(UnsubscribePacket {
            packet_id: packet.packet_id,
            properties: own_properties(packet.properties)?,
            topic_filters: packet.topic_filters,
        }),
        other => return own_packet_4(other),
    })
}

/// The codec's `MqttPacket` as a packet, for the packets that the conversions before this one
/// leave.
#[verifier::external_body]
fn own_packet_4(packet: NettyPacket) -> (result: Option<MqttPacket>) {
    Some(match packet {
        NettyPacket::Disconnect(packet) => MqttPacket::Disconnect(DisconnectPacket {
            reason_code: packet.reason_code,
            properties: own_properties(packet.properties)?,
        }),
        NettyPacket::Auth(packet) => MqttPacket::Auth(AuthPacket {
            reason_code: packet.reason_code,
            properties: own_properties(packet.properties)?,
        }),
        _ => return None,
    })
}

/// The codec's error as a `CodecError`.
#[verifier::external_body]
fn own_error(error: NettyError) -> (result: CodecError) {
    match error {
        NettyError::FrameTooLarge { current, max } => CodecError::FrameTooLarge { current, max },
        other => CodecError::Malformed(other.to_string()),
    }
}

/// What the codec, with a limit on bodies, writes for a packet, or why it refuses the packet.
pub uninterp spec fn mqtt_encoding(packet: PacketView, max: nat) -> Result<
    Seq<u8>,
    CodecErrorView,
>;

/// What the codec, with a limit on bodies, reads at the start of some bytes: nothing where the
/// packet is not complete, else the packet and how many bytes follow it; or why it refuses them.
pub uninterp spec fn mqtt_decoding(bytes: Seq<u8>, max: nat) -> Result<
    Option<(PacketView, nat)>,
    CodecErrorView,
>;

/// What a writing came to.
pub open spec fn encode_view(result: Result<Vec<u8>, CodecError>) -> Result<
    Seq<u8>,
    CodecErrorView,
> {
    match result {
        Ok(bytes) => Ok(bytes@),
        Err(error) => Err(error.deep_view()),
    }
}

/// What a reading came to.
pub open spec fn decode_view(result: Result<Option<(MqttPacket, usize)>, CodecError>) -> Result<
    Option<(PacketView, nat)>,
    CodecErrorView,
> {
    match result {
        Ok(Some(found)) => Ok(Some((found.0.deep_view(), found.1 as nat))),
        Ok(None) => Ok(None),
        Err(error) => Err(error.deep_view()),
    }
}

/// The bytes of a PUBLISH packet, written with a limit that the wire can tell, decode to the
/// packet, with nothing left over, by a codec without a limit of its own.
pub open spec fn reads_back(
    result: Result<Vec<u8>, CodecError>,
    packet: PacketView,
    max: nat,
) -> bool {
    packet is Publish && max <= MAX_REMAINING_LENGTH ==> match result {
        Ok(bytes) => mqtt_decoding(bytes@, MAX_REMAINING_LENGTH as nat) == Ok::<
            Option<(PacketView, nat)>,
            CodecErrorView,
        >(Some((packet, 0nat))),
        Err(_) => true,
    }
}

/// A QoS 0 PUBLISH packet without identifier and properties, within the limit and short enough for
/// the wire, is written as its plain bytes.
pub open spec fn writes_plain(
    result: Result<Vec<u8>, CodecError>,
    packet: PacketView,
    max: nat,
) -> bool {
    packet matches PacketView::Publish(publish) ==> (is_plain(publish) && plain_body_len(
        publish.topic_name,
        publish.payload,
    ) <= max ==> (result matches Ok(bytes) && bytes@ == plain_publish_bytes(
        plain_header(publish.dup, publish.retain),
        publish.topic_name,
        publish.payload,
    )))
}

/// `MqttCodec::with_max_packet_size` and `MqttCodec::encode`.
///
/// What is written depends on the packet and the limit alone. A PUBLISH packet that is written with
/// a limit up to the longest body of the wire decodes to itself with nothing left over, by a codec
/// without a limit of its own. A QoS 0
/// PUBLISH packet without identifier and properties, within the limit and short enough for the
/// wire, is written, and its bytes are the fixed header, the body's length, the topic with its
/// length before it, an empty property list and the payload.
#[verifier::external_body]
pub(crate) fn codec_encode(packet: &MqttPacket, max: usize) -> (result: Result<
    Vec<u8>,
    CodecError,
>)
    ensures
        encode_view(result) == mqtt_encoding(packet.deep_view(), max as nat),
        reads_back(result, packet.deep_view(), max as nat),
        writes_plain(result, packet.deep_view(), max as nat),
{
    let mut buffer = BytesMut::new();
    let Some(item) = netty_packet_1(packet) else {
        return Err(CodecError::Malformed(String::new()));
    };
    match MqttCodec::with_max_packet_size(max).encode(item, &mut buffer) {
        Ok(()) => Ok(buffer.to_vec()),
        Err(error) => Err(own_error(error)),
    }
}

/// `MqttCodec::with_max_packet_size` and `MqttCodec::decode`. The result depends on the bytes and
/// the limit alone; where a packet is read, no more bytes are left than there were.
#[verifier::external_body]
pub(crate) fn codec_decode(bytes: &[u8], max: usize) -> (result: Result<
    Option<(MqttPacket, usize)>,
    CodecError,
>)
    ensures
        decode_view(result) == mqtt_decoding(bytes@, max as nat),
        result matches Ok(Some(found)) ==> found.1 <= bytes@.len(),
{
    let mut buffer = BytesMut::from(bytes);
    match MqttCodec::with_max_packet_size(max).decode(&mut buffer) {
        Ok(packet) => Ok(packet.and_then(own_packet_1).map(|packet| (packet, buffer.len()))),
        Err(error) => Err(own_error(error)),
    }
}

} // verus!
