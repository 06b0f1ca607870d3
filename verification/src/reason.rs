//! Reason strings and acknowledgements.
use vstd::prelude::*;

use crate::packet::AckPacket;
use crate::packet::AckView;
use crate::packet::MqttProperty;
use crate::packet::PropertyOf;
use crate::packet::PropertyView;
use crate::protocol::BAD_AUTHENTICATION_METHOD;
use crate::protocol::BAD_USER_NAME_OR_PASSWORD;
use crate::protocol::CLIENT_IDENTIFIER_NOT_VALID;
use crate::protocol::MALFORMED_PACKET;
use crate::protocol::NOT_AUTHORIZED;
use crate::protocol::PACKET_IDENTIFIER_IN_USE;
use crate::protocol::PACKET_IDENTIFIER_NOT_FOUND;
use crate::protocol::PACKET_TOO_LARGE;
use crate::protocol::PAYLOAD_FORMAT_INVALID;
use crate::protocol::PROTOCOL_ERROR;
use crate::protocol::QUOTA_EXCEEDED;
use crate::protocol::RECEIVE_MAXIMUM_EXCEEDED;
use crate::protocol::SERVER_SHUTTING_DOWN;
use crate::protocol::SERVER_UNAVAILABLE;
use crate::protocol::TOPIC_ALIAS_INVALID;
use crate::protocol::TOPIC_FILTER_INVALID;
use crate::protocol::TOPIC_NAME_INVALID;

verus! {

/// What a reason code means, in words, where it means a failure.
pub open spec fn reason_text(reason_code: u8) -> Option<Seq<char>> {
    if reason_code == MALFORMED_PACKET {
        Some("malformed packet"@)
    } else if reason_code == PROTOCOL_ERROR {
        Some("protocol error"@)
    } else if reason_code == CLIENT_IDENTIFIER_NOT_VALID {
        Some("client identifier not valid"@)
    } else if reason_code == BAD_USER_NAME_OR_PASSWORD {
        Some("bad user name or password"@)
    } else if reason_code == NOT_AUTHORIZED {
        Some("not authorized"@)
    } else if reason_code == SERVER_UNAVAILABLE {
        Some("server unavailable"@)
    } else if reason_code == SERVER_SHUTTING_DOWN {
        Some("server shutting down"@)
    } else if reason_code == BAD_AUTHENTICATION_METHOD {
        Some("bad authentication method"@)
    } else if reason_code == TOPIC_FILTER_INVALID {
        Some("topic filter invalid"@)
    } else if reason_code == TOPIC_NAME_INVALID {
        Some("topic name invalid"@)
    } else if reason_code == PACKET_IDENTIFIER_IN_USE {
        Some("packet identifier in use"@)
    } else if reason_code == PACKET_IDENTIFIER_NOT_FOUND {
        Some("packet identifier not found"@)
    } else if reason_code == RECEIVE_MAXIMUM_EXCEEDED {
        Some("receive maximum exceeded"@)
    } else if reason_code == TOPIC_ALIAS_INVALID {
        Some("topic alias invalid"@)
    } else if reason_code == PACKET_TOO_LARGE {
        Some("packet too large"@)
    } else if reason_code == QUOTA_EXCEEDED {
        Some("quota exceeded"@)
    } else if reason_code == PAYLOAD_FORMAT_INVALID {
        Some("payload format invalid"@)
    } else {
        None
    }
}

/// The properties that explain a reason code.
pub open spec fn reason_properties_of(reason_code: u8) -> Seq<PropertyView> {
    match reason_text(reason_code) {
        Some(text) => seq![PropertyOf::ReasonString(text)],
        None => Seq::empty(),
    }
}

/// The property that explains a reason code.
pub fn reason_string(reason_code: u8) -> (result: Option<MqttProperty>)
    ensures
        match reason_text(reason_code) {
            Some(text) => result matches Some(property) && property.deep_view()
                == PropertyView::ReasonString(text),
            None => result is None,
        },
{
    let reason: &str = match reason_code {
        MALFORMED_PACKET => "malformed packet",
        PROTOCOL_ERROR => "protocol error",
        CLIENT_IDENTIFIER_NOT_VALID => "client identifier not valid",
        BAD_USER_NAME_OR_PASSWORD => "bad user name or password",
        NOT_AUTHORIZED => "not authorized",
        SERVER_UNAVAILABLE => "server unavailable",
        SERVER_SHUTTING_DOWN => "server shutting down",
        BAD_AUTHENTICATION_METHOD => "bad authentication method",
        TOPIC_FILTER_INVALID => "topic filter invalid",
        TOPIC_NAME_INVALID => "topic name invalid",
        PACKET_IDENTIFIER_IN_USE => "packet identifier in use",
        PACKET_IDENTIFIER_NOT_FOUND => "packet identifier not found",
        RECEIVE_MAXIMUM_EXCEEDED => "receive maximum exceeded",
        TOPIC_ALIAS_INVALID => "topic alias invalid",
        PACKET_TOO_LARGE => "packet too large",
        QUOTA_EXCEEDED => "quota exceeded",
        PAYLOAD_FORMAT_INVALID => "payload format invalid",
        _ => return None,
    };
    Some(PropertyOf::ReasonString(reason.to_owned()))
}

/// The properties that explain a reason code.
pub fn reason_properties(reason_code: u8) -> (result: Vec<MqttProperty>)
    ensures
        result.deep_view() == reason_properties_of(reason_code),
{
    let mut result: Vec<MqttProperty> = Vec::new();
    if let Some(property) = reason_string(reason_code) {
        result.push(property);
    }
    assert(result.deep_view() =~= reason_properties_of(reason_code));
    result
}

/// An acknowledgement that explains itself.
pub open spec fn explained_ack(packet_id: u16, reason_code: u8) -> AckView {
    AckView { packet_id, reason_code, properties: reason_properties_of(reason_code) }
}

/// An acknowledgement that explains itself.
pub fn ack_packet(packet_id: u16, reason_code: u8) -> (result: AckPacket)
    ensures
        result.deep_view() == explained_ack(packet_id, reason_code),
{
    AckPacket { packet_id, reason_code, properties: reason_properties(reason_code) }
}

} // verus!
