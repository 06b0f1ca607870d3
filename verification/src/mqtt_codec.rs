//! The wire form of PUBLISH packets: bytes, sizes and storage.
use vstd::prelude::*;
use vstd::string::StringSliceAdditionalSpecFns;
use vstd::utf8::encode_utf8;

use crate::netty::codec_decode;
use crate::netty::codec_encode;
use crate::netty::mqtt_decoding;
use crate::netty::mqtt_encoding;
use crate::packet::MqttPacket;
use crate::packet::MqttProperty;
use crate::packet::PacketView;
use crate::packet::PropertyOf;
use crate::packet::PublishPacket;
use crate::packet::PublishView;
use crate::packet::QoS;
use crate::value::Value;

verus! {

/// The longest MQTT packet body.
pub const MAX_REMAINING_LENGTH: usize = 268_435_455;

/// The bytes that the codec writes for a PUBLISH packet, if it takes the packet.
pub open spec fn publish_bytes(packet: PublishView) -> Option<Seq<u8>> {
    match mqtt_encoding(PacketView::Publish(packet), MAX_REMAINING_LENGTH as nat) {
        Ok(bytes) => Some(bytes),
        Err(_) => None,
    }
}

/// The PUBLISH packet at the start of some bytes, by the codec, and how many bytes follow it.
pub open spec fn decoded_publish(bytes: Seq<u8>) -> Option<(PublishView, nat)> {
    match mqtt_decoding(bytes, MAX_REMAINING_LENGTH as nat) {
        Ok(Some((PacketView::Publish(packet), rest))) => Some((packet, rest)),
        _ => None,
    }
}

/// The bytes of a number in MQTT's variable length form.
pub open spec fn varint(value: nat) -> Seq<u8>
    decreases value,
{
    if value < 128 {
        seq![value as u8]
    } else {
        seq![(value % 128 + 128) as u8] + varint(value / 128)
    }
}

/// The length of the body of a PUBLISH packet that carries no packet identifier and no property.
pub open spec fn plain_body_len(topic: Seq<char>, payload: Seq<u8>) -> nat {
    2 + encode_utf8(topic).len() + 1 + payload.len()
}

/// The bytes of a PUBLISH packet that carries no packet identifier and no property.
pub open spec fn plain_publish_bytes(header: u8, topic: Seq<char>, payload: Seq<u8>) -> Seq<u8> {
    let name = encode_utf8(topic);
    seq![header] + varint(plain_body_len(topic, payload)) + seq![
        (name.len() / 256) as u8,
        (name.len() % 256) as u8,
    ] + name + seq![0u8] + payload
}

/// A topic and a payload short enough for a PUBLISH packet.
pub open spec fn plain_fits(topic: Seq<char>, payload: Seq<u8>) -> bool {
    &&& encode_utf8(topic).len() <= 65_535
    &&& plain_body_len(topic, payload) <= MAX_REMAINING_LENGTH
}

/// The first byte of a QoS 0 PUBLISH packet.
pub open spec fn plain_header(dup: bool, retain: bool) -> u8 {
    match (dup, retain) {
        (false, false) => 0x30,
        (false, true) => 0x31,
        (true, false) => 0x38,
        (true, true) => 0x39,
    }
}

/// A QoS 0 packet that carries no packet identifier and no property, and that fits.
pub open spec fn is_plain(packet: PublishView) -> bool {
    &&& packet.qos == QoS::AtMostOnce
    &&& packet.packet_id is None
    &&& packet.properties.len() == 0
    &&& plain_fits(packet.topic_name, packet.payload)
}

/// The bytes that the codec writes for a PUBLISH packet. They decode to the packet, and for a plain
/// packet they are the plain bytes.
fn encode_packet(packet: &PublishPacket) -> (result: Option<Vec<u8>>)
    ensures
        result.deep_view() == publish_bytes(packet.deep_view()),
        result matches Some(bytes) ==> decoded_publish(bytes@) == Some(
            (packet.deep_view(), 0nat),
        ),
        is_plain(packet.deep_view()) ==> result.deep_view() == Some(
            plain_publish_bytes(
                plain_header(packet.dup, packet.retain),
                packet.deep_view().topic_name,
                packet.deep_view().payload,
            ),
        ),
{
    let whole: MqttPacket = MqttPacket::Publish(packet.dup());
    match codec_encode(&whole, MAX_REMAINING_LENGTH) {
        Ok(bytes) => {
            assert(bytes.deep_view() =~= bytes@);
            Some(bytes)
        },
        Err(_) => None,
    }
}

/// The PUBLISH packet at the start of some bytes, and how many bytes follow it.
fn decode_packet(bytes: &[u8]) -> (result: Option<(PublishPacket, usize)>)
    ensures
        result is Some <==> decoded_publish(bytes@) is Some,
        result matches Some(found) ==> decoded_publish(bytes@) == Some(
            (found.0.deep_view(), found.1 as nat),
        ),
{
    match codec_decode(bytes, MAX_REMAINING_LENGTH) {
        Ok(Some((packet, rest))) => match packet {
            MqttPacket::Publish(publish) => Some((publish, rest)),
            _ => None,
        },
        _ => None,
    }
}

/// The size of a packet on the wire, if the codec takes the packet.
pub open spec fn wire_size(packet: PacketView) -> Option<nat> {
    match mqtt_encoding(packet, MAX_REMAINING_LENGTH as nat) {
        Ok(bytes) => Some(bytes.len()),
        Err(_) => None,
    }
}

/// The size of a PUBLISH packet on the wire, if the codec takes the packet.
pub open spec fn publish_size(packet: PublishView) -> Option<nat> {
    wire_size(PacketView::Publish(packet))
}

/// The size of a packet on the wire.
pub fn packet_size(packet: &MqttPacket) -> (result: Option<usize>)
    ensures
        result is Some <==> wire_size(packet.deep_view()) is Some,
        result matches Some(size) ==> wire_size(packet.deep_view()) == Some(size as nat),
{
    match codec_encode(packet, MAX_REMAINING_LENGTH) {
        Ok(bytes) => Some(bytes.len()),
        Err(_) => None,
    }
}

/// The number of bytes of a body length on the wire.
pub fn varint_len(value: usize) -> (result: usize)
    ensures
        result == (if value <= 127 {
            1int
        } else if value <= 16_383 {
            2
        } else if value <= 2_097_151 {
            3
        } else {
            4
        }),
        value <= MAX_REMAINING_LENGTH ==> result == varint(value as nat).len(),
{
    proof {
        reveal_with_fuel(varint, 4);
    }
    if value <= 127 {
        1
    } else if value <= 16_383 {
        2
    } else if value <= 2_097_151 {
        3
    } else {
        4
    }
}

/// The size of a PUBLISH packet without identifier and properties, added up with saturation.
pub open spec fn plain_size(topic: Seq<char>, payload: Seq<u8>) -> int {
    let body = plain_body_len(topic, payload);
    let capped = if body > usize::MAX {
        usize::MAX as int
    } else {
        body as int
    };
    let length = if capped <= 127 {
        1int
    } else if capped <= 16_383 {
        2
    } else if capped <= 2_097_151 {
        3
    } else {
        4
    };
    if 1 + length + capped > usize::MAX {
        usize::MAX as int
    } else {
        1 + length + capped
    }
}

/// The bytes of a plain PUBLISH packet are as many as its added-up size says.
pub proof fn plain_size_is_length(header: u8, topic: Seq<char>, payload: Seq<u8>)
    requires
        plain_fits(topic, payload),
    ensures
        plain_publish_bytes(header, topic, payload).len() == plain_size(topic, payload),
{
    reveal_with_fuel(varint, 4);
}

/// The size of a PUBLISH packet on the wire.
pub fn publish_packet_size(packet: &PublishPacket) -> (result: Option<usize>)
    ensures
        result is Some <==> publish_size(packet.deep_view()) is Some,
        result matches Some(size) ==> publish_size(packet.deep_view()) == Some(size as nat),
        is_plain(packet.deep_view()) ==> result is Some && result->0 == plain_size(
            packet.deep_view().topic_name,
            packet.deep_view().payload,
        ),
{
    proof {
        let view = packet.deep_view();
        if is_plain(view) {
            plain_size_is_length(
                plain_header(view.dup, view.retain),
                view.topic_name,
                view.payload,
            );
        }
    }
    match encode_packet(packet) {
        Some(bytes) => Some(bytes.len()),
        None => None,
    }
}

/// A PUBLISH packet is no longer than a client accepts.
pub open spec fn fits_size(packet: PublishView, maximum_packet_size: u32) -> bool {
    publish_size(packet) matches Some(size) && size <= maximum_packet_size
}

/// Whether a size, if there is one, is within a limit.
pub fn size_within(size: Option<usize>, maximum_packet_size: u32) -> (result: bool)
    ensures
        result == (size matches Some(bytes) && bytes <= maximum_packet_size),
{
    match size {
        Some(bytes) => bytes <= maximum_packet_size as usize,
        None => false,
    }
}

/// Whether a PUBLISH packet is no longer than a client accepts. For a packet without identifier
/// and properties the encoded size is the added-up size.
pub fn fits_maximum_packet_size(packet: &PublishPacket, maximum_packet_size: u32) -> (result: bool)
    ensures
        result == fits_size(packet.deep_view(), maximum_packet_size),
        is_plain(packet.deep_view()) ==> result == (plain_size(
            packet.deep_view().topic_name,
            packet.deep_view().payload,
        ) <= maximum_packet_size),
{
    size_within(publish_packet_size(packet), maximum_packet_size)
}

/// What is sent to one subscriber for a publication: the publication's topic, payload and
/// properties, with the subscription's identifier after them.
pub open spec fn outgoing(
    packet: PublishView,
    qos: QoS,
    retain: bool,
    packet_id: Option<u16>,
    dup: bool,
    subscription_identifier: Option<u32>,
) -> PublishView {
    PublishView {
        dup,
        qos,
        retain,
        topic_name: packet.topic_name,
        packet_id,
        properties: match subscription_identifier {
            Some(identifier) => packet.properties.push(
                PropertyOf::SubscriptionIdentifier(identifier),
            ),
            None => packet.properties,
        },
        payload: packet.payload,
    }
}

/// What is sent to one subscriber for a publication.
pub fn pending_publish(
    packet: &PublishPacket,
    qos: QoS,
    retain: bool,
    packet_id: Option<u16>,
    dup: bool,
    subscription_identifier: Option<u32>,
) -> (result: PublishPacket)
    ensures
        result.deep_view() == outgoing(
            packet.deep_view(),
            qos,
            retain,
            packet_id,
            dup,
            subscription_identifier,
        ),
{
    let mut properties: Vec<MqttProperty> = packet.properties.dup();
    let ghost before = properties.deep_view();
    if let Some(identifier) = subscription_identifier {
        properties.push(PropertyOf::SubscriptionIdentifier(identifier));
        assert(properties.deep_view() =~= before.push(
            PropertyOf::SubscriptionIdentifier(identifier),
        ));
    }
    PublishPacket {
        dup,
        qos,
        retain,
        topic_name: packet.topic_name.dup(),
        packet_id,
        properties,
        payload: packet.payload.dup(),
    }
}

/// A QoS 0 delivery passes the size check: by its added-up size where it carries no property, by
/// its encoded size where it does.
pub open spec fn fits_fast(
    packet: PublishView,
    subscription_identifier: Option<u32>,
    maximum_packet_size: u32,
) -> bool {
    if packet.properties.len() == 0 && subscription_identifier is None {
        plain_size(packet.topic_name, packet.payload) <= maximum_packet_size
    } else {
        fits_size(
            outgoing(packet, QoS::AtMostOnce, false, None, false, subscription_identifier),
            maximum_packet_size,
        )
    }
}

/// Whether a QoS 0 delivery is no longer than a client accepts, without encoding it where it
/// carries no property.
pub fn fits_qos0_publish_fast(
    packet: &PublishPacket,
    subscription_identifier: Option<u32>,
    maximum_packet_size: u32,
) -> (result: bool)
    ensures
        result == fits_fast(packet.deep_view(), subscription_identifier, maximum_packet_size),
{
    if packet.properties.len() == 0 && subscription_identifier.is_none() {
        let name: &str = packet.topic_name.as_str();
        let name_len: usize = name.as_bytes().len();
        let body_len: usize = 2usize.saturating_add(name_len).saturating_add(1).saturating_add(
            packet.payload.len(),
        );
        let packet_len: usize = 1usize.saturating_add(varint_len(body_len)).saturating_add(
            body_len,
        );
        assert(packet.deep_view().payload.len() == packet.payload.len());
        return packet_len <= maximum_packet_size as usize;
    }
    let publish: PublishPacket = pending_publish(
        packet,
        QoS::AtMostOnce,
        false,
        None,
        false,
        subscription_identifier,
    );
    fits_maximum_packet_size(&publish, maximum_packet_size)
}

/// A packet as it is stored: a QoS 1 or 2 packet without an identifier gets the identifier 1.
pub open spec fn stored_form(packet: PublishView) -> PublishView {
    if packet.qos != QoS::AtMostOnce && packet.packet_id is None {
        PublishView { packet_id: Some(1), ..packet }
    } else {
        packet
    }
}

/// The PUBLISH packet that makes up some bytes, with nothing behind it.
pub open spec fn exact_publish(bytes: Seq<u8>) -> Option<PublishView> {
    match decoded_publish(bytes) {
        Some(found) => if found.1 == 0 {
            Some(found.0)
        } else {
            None
        },
        None => None,
    }
}

/// The bytes under which a packet is stored. Decoding them gives the stored form back.
pub fn encode_publish(packet: &PublishPacket) -> (result: Option<Vec<u8>>)
    ensures
        result.deep_view() == publish_bytes(stored_form(packet.deep_view())),
        result matches Some(bytes) ==> exact_publish(bytes@) == Some(
            stored_form(packet.deep_view()),
        ),
{
    let mut stored: PublishPacket = packet.dup();
    if stored.qos != QoS::AtMostOnce && stored.packet_id.is_none() {
        stored.packet_id = Some(1);
    }
    encode_packet(&stored)
}

/// The packet that is all of a decoding: `found` is what the codec made of some bytes.
pub fn whole_packet(found: Option<(PublishPacket, usize)>) -> (result: Option<PublishPacket>)
    ensures
        result == (match found {
            Some((packet, 0)) => Some(packet),
            _ => None,
        }),
{
    match found {
        Some((packet, rest)) => if rest == 0 {
            Some(packet)
        } else {
            None
        },
        None => None,
    }
}

/// The packet that is stored as some bytes.
pub fn decode_publish(bytes: &[u8]) -> (result: Option<PublishPacket>)
    ensures
        result.deep_view() == exact_publish(bytes@),
{
    whole_packet(decode_packet(bytes))
}

/// The packet at the start of some bytes, whatever is behind it.
pub fn decode_leading_publish(bytes: &[u8]) -> (result: Option<PublishPacket>)
    ensures
        result is Some <==> decoded_publish(bytes@) is Some,
        result matches Some(packet) ==> (decoded_publish(bytes@)->0).0 == packet.deep_view(),
{
    match decode_packet(bytes) {
        Some((packet, rest)) => Some(packet),
        None => None,
    }
}

/// The bytes of a QoS 0 retained message without properties, if it fits a packet.
pub open spec fn plain_retained(topic: Seq<char>, payload: Seq<u8>) -> Option<Seq<u8>> {
    if plain_fits(topic, payload) {
        Some(plain_publish_bytes(0x31, topic, payload))
    } else {
        None
    }
}

/// Appends a body length.
fn write_remaining_len(value: usize, buffer: &mut Vec<u8>)
    requires
        value <= MAX_REMAINING_LENGTH,
    ensures
        final(buffer)@ == old(buffer)@ + varint(value as nat),
{
    let mut rest: usize = value;
    while rest >= 128
        invariant
            buffer@ + varint(rest as nat) == old(buffer)@ + varint(value as nat),
        decreases rest,
    {
        let ghost before = buffer@;
        let ghost tail = varint((rest / 128) as nat);
        buffer.push((rest % 128 + 128) as u8);
        assert(before + varint(rest as nat) =~= buffer@ + tail);
        rest = rest / 128;
    }
    let ghost before = buffer@;
    buffer.push(rest as u8);
    assert(buffer@ =~= before + varint(rest as nat));
}

/// The bytes of a QoS 0 retained message without properties.
pub fn encode_plain_qos0_retained(topic_name: &str, payload: &Vec<u8>) -> (result: Option<Vec<u8>>)
    ensures
        result.deep_view() == plain_retained(topic_name@, payload@),
{
    let name: &[u8] = topic_name.as_bytes();
    if name.len() > 65_535 || payload.len() > MAX_REMAINING_LENGTH {
        return None;
    }
    let body_len: usize = 2 + name.len() + 1 + payload.len();
    if body_len > MAX_REMAINING_LENGTH {
        return None;
    }
    let mut buffer: Vec<u8> = Vec::with_capacity(1 + varint_len(body_len) + body_len);
    buffer.push(0x31);
    write_remaining_len(body_len, &mut buffer);
    buffer.push((name.len() / 256) as u8);
    buffer.push((name.len() % 256) as u8);
    buffer.extend_from_slice(name);
    buffer.push(0);
    buffer.extend_from_slice(payload.as_slice());
    proof {
        assert(buffer.deep_view() =~= buffer@);
        assert(buffer@ =~= plain_publish_bytes(0x31, topic_name@, payload@));
    }
    Some(buffer)
}

} // verus!
