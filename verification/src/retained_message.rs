//! Retained messages.
use vstd::prelude::*;

use crate::mqtt_codec::encode_plain_qos0_retained;
use crate::mqtt_codec::plain_retained;
use crate::packet::MqttProperty;
use crate::packet::PropertyView;
use crate::packet::QoS;
use crate::value::Value;

verus! {

/// A message kept for later subscribers. Where it is sent with QoS 0 and carries no property, its
/// bytes on the wire are kept too.
#[derive(Debug, PartialEq)]
pub struct RetainedMessage {
    pub qos: QoS,
    pub topic_name: String,
    pub properties: Vec<MqttProperty>,
    pub payload: Vec<u8>,
    pub expires_at_ms: Option<u64>,
    pub preencoded_qos0: Option<Vec<u8>>,
}

/// What a `RetainedMessage` stands for.
pub struct RetainedView {
    pub qos: QoS,
    pub topic_name: Seq<char>,
    pub properties: Seq<PropertyView>,
    pub payload: Seq<u8>,
    pub expires_at_ms: Option<u64>,
    pub preencoded_qos0: Option<Seq<u8>>,
}

impl DeepView for RetainedMessage {
    type V = RetainedView;

    open spec fn deep_view(&self) -> RetainedView {
        RetainedView {
            qos: self.qos.deep_view(),
            topic_name: self.topic_name.deep_view(),
            properties: self.properties.deep_view(),
            payload: self.payload.deep_view(),
            expires_at_ms: self.expires_at_ms.deep_view(),
            preencoded_qos0: self.preencoded_qos0.deep_view(),
        }
    }
}

impl Value for RetainedMessage {
    fn dup(&self) -> (copy: Self) {
        RetainedMessage {
            qos: self.qos.dup(),
            topic_name: self.topic_name.dup(),
            properties: self.properties.dup(),
            payload: self.payload.dup(),
            expires_at_ms: self.expires_at_ms.dup(),
            preencoded_qos0: self.preencoded_qos0.dup(),
        }
    }

    fn same(&self, other: &Self) -> (result: bool) {
        self.qos.same(&other.qos)
            && self.topic_name.same(&other.topic_name)
            && self.properties.same(&other.properties)
            && self.payload.same(&other.payload)
            && self.expires_at_ms.same(&other.expires_at_ms)
            && self.preencoded_qos0.same(&other.preencoded_qos0)
    }
}

/// The retained message with these parts.
pub open spec fn retained_view(
    qos: QoS,
    topic_name: Seq<char>,
    properties: Seq<PropertyView>,
    payload: Seq<u8>,
    expires_at_ms: Option<u64>,
) -> RetainedView {
    RetainedView {
        qos,
        topic_name,
        properties,
        payload,
        expires_at_ms,
        preencoded_qos0: if qos == QoS::AtMostOnce && properties.len() == 0 {
            plain_retained(topic_name, payload)
        } else {
            None
        },
    }
}

impl RetainedMessage {
    /// The retained message with these parts.
    pub fn new(
        qos: QoS,
        topic_name: String,
        properties: Vec<MqttProperty>,
        payload: Vec<u8>,
        expires_at_ms: Option<u64>,
    ) -> (result: Self)
        ensures
            result.deep_view() == retained_view(
                qos,
                topic_name.deep_view(),
                properties.deep_view(),
                payload.deep_view(),
                expires_at_ms,
            ),
    {
        let preencoded_qos0: Option<Vec<u8>> = if qos == QoS::AtMostOnce && properties.len() == 0 {
            encode_plain_qos0_retained(topic_name.as_str(), &payload)
        } else {
            None
        };
        assert(payload.deep_view() =~= payload@);
        RetainedMessage { qos, topic_name, properties, payload, expires_at_ms, preencoded_qos0 }
    }
}

} // verus!
