//! What the broker writes to a connection.
use vstd::prelude::*;

use crate::netty::CodecError;
use crate::netty::CodecErrorView;
use crate::netty::codec_decode;
use crate::netty::codec_encode;
use crate::netty::decode_view;
use crate::netty::encode_view;
use crate::netty::mqtt_decoding;
use crate::netty::mqtt_encoding;
use crate::packet::MqttPacket;
use crate::packet::PacketView;
use crate::packet::QoS;
use crate::packet::SubAckPacket;
use crate::packet::SubAckView;
use crate::value::Value;

verus! {

/// Something to write: a packet, or bytes that already are one.
#[derive(Debug, PartialEq)]
pub enum BrokerWrite {
    Packet(Box<MqttPacket>),
    Preencoded { bytes: Vec<u8>, publish_qos: Option<QoS> },
}

/// What a `BrokerWrite` stands for.
pub enum WriteView {
    Packet(PacketView),
    Preencoded(Seq<u8>, Option<QoS>),
}

impl DeepView for BrokerWrite {
    type V = WriteView;

    open spec fn deep_view(&self) -> WriteView {
        match *self {
            BrokerWrite::Packet(packet) => WriteView::Packet(packet.deep_view()),
            BrokerWrite::Preencoded { bytes, publish_qos } => WriteView::Preencoded(
                bytes.deep_view(),
                publish_qos,
            ),
        }
    }
}

impl Value for BrokerWrite {
    fn dup(&self) -> (copy: Self) {
        match self {
            BrokerWrite::Packet(packet) => BrokerWrite::Packet(Box::new((**packet).dup())),
            BrokerWrite::Preencoded { bytes, publish_qos } => BrokerWrite::Preencoded {
                bytes: bytes.dup(),
                publish_qos: *publish_qos,
            },
        }
    }

    fn same(&self, other: &Self) -> (result: bool) {
        match (self, other) {
            (BrokerWrite::Packet(a), BrokerWrite::Packet(b)) => (**a).same(&**b),
            (
                BrokerWrite::Preencoded { bytes: a, publish_qos: p },
                BrokerWrite::Preencoded { bytes: b, publish_qos: q },
            ) => a.same(b) && p.same(q),
            _ => false,
        }
    }
}

impl BrokerWrite {
    /// A packet to write.
    pub fn packet(packet: MqttPacket) -> (result: Self)
        ensures
            result.deep_view() == WriteView::Packet(packet.deep_view()),
    {
        BrokerWrite::Packet(Box::new(packet))
    }

    /// The quality of service of what is written, if it is a publication.
    pub fn publish_qos(&self) -> (result: Option<QoS>)
        ensures
            result == (match self.deep_view() {
                WriteView::Packet(PacketView::Publish(packet)) => Some(packet.qos),
                WriteView::Packet(_) => None,
                WriteView::Preencoded(_, publish_qos) => publish_qos,
            }),
    {
        match self {
            BrokerWrite::Packet(packet) => match &**packet {
                MqttPacket::Publish(publish) => Some(publish.qos),
                _ => None,
            },
            BrokerWrite::Preencoded { bytes, publish_qos } => *publish_qos,
        }
    }
}

/// The codec of connections: packets are encoded by the MQTT codec, bytes that already are a
/// packet are passed on.
pub struct PulseMqttCodec {
    max_packet_size: usize,
}

impl PulseMqttCodec {
    /// The limit on packets.
    pub closed spec fn limit(&self) -> usize {
        self.max_packet_size
    }

    /// A codec with a limit on packets.
    pub fn with_max_packet_size(max_packet_size: usize) -> (result: Self)
        ensures
            result.limit() == max_packet_size,
    {
        PulseMqttCodec { max_packet_size }
    }

    /// What is read at the start of some bytes: the packet and how many bytes follow it, or
    /// nothing where the packet is not complete.
    pub fn decode(&self, bytes: &[u8]) -> (result: Result<
        Option<(MqttPacket, usize)>,
        CodecError,
    >)
        ensures
            decode_view(result) == mqtt_decoding(bytes@, self.limit() as nat),
            result matches Ok(Some(found)) ==> found.1 <= bytes@.len(),
    {
        codec_decode(bytes, self.max_packet_size)
    }

    /// The bytes to send for something to write.
    pub fn encode(&self, item: &BrokerWrite) -> (result: Result<Vec<u8>, CodecError>)
        ensures
            encode_view(result) == (match item.deep_view() {
                WriteView::Packet(packet) => mqtt_encoding(packet, self.limit() as nat),
                WriteView::Preencoded(bytes, _) => if bytes.len() > self.limit() {
                    Err(
                        CodecErrorView::FrameTooLarge {
                            current: bytes.len() as usize,
                            max: self.limit(),
                        },
                    )
                } else {
                    Ok(bytes)
                },
            }),
    {
        match item {
            BrokerWrite::Packet(packet) => codec_encode(&**packet, self.max_packet_size),
            BrokerWrite::Preencoded { bytes, publish_qos } => {
                assert(bytes.deep_view() =~= bytes@);
                if bytes.len() > self.max_packet_size {
                    return Err(
                        CodecError::FrameTooLarge {
                            current: bytes.len(),
                            max: self.max_packet_size,
                        },
                    );
                }
                let copy: Vec<u8> = bytes.dup();
                assert(copy.deep_view() =~= copy@);
                Ok(copy)
            },
        }
    }
}

/// The bytes of a SUBACK packet with one reason code and no property.
pub open spec fn single_suback_bytes(packet_id: u16, reason_code: u8) -> Seq<u8> {
    seq![
        0x90u8,
        0x04u8,
        (packet_id / 256) as u8,
        (packet_id % 256) as u8,
        0x00u8,
        reason_code,
    ]
}

/// A SUBACK packet with one reason code and no property, as bytes.
pub fn preencoded_single_suback(packet_id: u16, reason_code: u8) -> (result: BrokerWrite)
    ensures
        result.deep_view() == WriteView::Preencoded(
            single_suback_bytes(packet_id, reason_code),
            None,
        ),
{
    let bytes: Vec<u8> = vec![
        0x90,
        0x04,
        (packet_id / 256) as u8,
        (packet_id % 256) as u8,
        0x00,
        reason_code,
    ];
    assert(bytes.deep_view() =~= single_suback_bytes(packet_id, reason_code));
    BrokerWrite::Preencoded { bytes, publish_qos: None }
}

/// How a SUBACK packet is written: as ready bytes where it has one reason code and no property.
pub open spec fn suback_form(packet: SubAckView) -> WriteView {
    if packet.properties.len() == 0 && packet.reason_codes.len() == 1 {
        WriteView::Preencoded(
            single_suback_bytes(packet.packet_id, packet.reason_codes[0]),
            None,
        )
    } else {
        WriteView::Packet(PacketView::SubAck(packet))
    }
}

/// How a SUBACK packet is written.
pub fn suback_write(packet: SubAckPacket) -> (result: BrokerWrite)
    ensures
        result.deep_view() == suback_form(packet.deep_view()),
{
    if packet.properties.len() == 0 && packet.reason_codes.len() == 1 {
        assert(packet.deep_view().reason_codes[0] == packet.reason_codes@[0]);
        preencoded_single_suback(packet.packet_id, packet.reason_codes[0])
    } else {
        BrokerWrite::packet(MqttPacket::SubAck(packet))
    }
}

} // verus!
