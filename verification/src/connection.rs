//! What a connection asks for, and what its handler decides by itself.
use vstd::prelude::*;

use crate::config::BrokerConfig;
use crate::ordered_map::OrderedMap;
use crate::packet::ConnectPacket;
use crate::packet::ConnectView;
use crate::packet::MqttProperty;
use crate::packet::PropertyOf;
use crate::packet::PropertyView;
use crate::packet::PublishPacket;
use crate::packet::PublishView;
use crate::protocol::BAD_AUTHENTICATION_METHOD;
use crate::protocol::BAD_USER_NAME_OR_PASSWORD;
use crate::protocol::CLIENT_IDENTIFIER_NOT_VALID;
use crate::protocol::MALFORMED_PACKET;
use crate::protocol::PAYLOAD_FORMAT_INVALID;
use crate::protocol::TOPIC_NAME_INVALID;
use crate::protocol::is_valid_topic_name;
use crate::protocol::valid_topic_name;
use crate::storage::delta::lookup;
use crate::text::eq_ignore_ascii_case;
use crate::text::equal_ignoring_case;
use crate::text::pieces;
use crate::text::split_text;
use crate::text::text_has;
use crate::text::trim_text;
use crate::text::trimmed;
use crate::value::Value;

verus! {

/// What the first property that carries it says.
pub open spec fn first_of<T>(
    properties: Seq<PropertyView>,
    pick: spec_fn(PropertyView) -> Option<T>,
) -> Option<T>
    decreases properties.len(),
{
    if properties.len() == 0 {
        None
    } else {
        match pick(properties[0]) {
            Some(value) => Some(value),
            None => first_of(properties.drop_first(), pick),
        }
    }
}

/// What the first property that carries it says, or a default.
pub open spec fn first_or<T>(
    properties: Seq<PropertyView>,
    pick: spec_fn(PropertyView) -> Option<T>,
    default: T,
) -> T {
    match first_of(properties, pick) {
        Some(value) => value,
        None => default,
    }
}

/// The session expiry interval that a property carries.
pub open spec fn session_expiry_in() -> spec_fn(PropertyView) -> Option<u32> {
    |property: PropertyView|
        match property {
            PropertyOf::SessionExpiryInterval(value) => Some(value),
            _ => None,
        }
}

/// The receive maximum that a property carries.
pub open spec fn receive_maximum_in() -> spec_fn(PropertyView) -> Option<u16> {
    |property: PropertyView|
        match property {
            PropertyOf::ReceiveMaximum(value) => Some(value),
            _ => None,
        }
}

/// The maximum packet size that a property carries.
pub open spec fn maximum_packet_size_in() -> spec_fn(PropertyView) -> Option<u32> {
    |property: PropertyView|
        match property {
            PropertyOf::MaximumPacketSize(value) => Some(value),
            _ => None,
        }
}

/// The topic alias that a property carries.
pub open spec fn topic_alias_in() -> spec_fn(PropertyView) -> Option<u16> {
    |property: PropertyView|
        match property {
            PropertyOf::TopicAlias(value) => Some(value),
            _ => None,
        }
}

/// The subscription identifier that a property carries.
pub open spec fn subscription_identifier_in() -> spec_fn(PropertyView) -> Option<u32> {
    |property: PropertyView|
        match property {
            PropertyOf::SubscriptionIdentifier(value) => Some(value),
            _ => None,
        }
}

/// The session expiry interval among some properties.
pub fn find_session_expiry_interval(properties: &Vec<MqttProperty>) -> (result: Option<u32>)
    ensures
        result == first_of(properties.deep_view(), session_expiry_in()),
{
    let ghost list = properties.deep_view();
    let mut index: usize = 0;
    assert(list.skip(0) =~= list);
    while index < properties.len()
        invariant
            index <= properties@.len(),
            list == properties.deep_view(),
            first_of(list, session_expiry_in()) == first_of(
                list.skip(index as int),
                session_expiry_in(),
            ),
        decreases properties@.len() - index,
    {
        assert(list.skip(index as int)[0] == properties@[index as int].deep_view());
        assert(list.skip(index as int).drop_first() =~= list.skip(index + 1));
        if let PropertyOf::SessionExpiryInterval(value) = &properties[index] {
            return Some(*value);
        }
        index += 1;
    }
    None
}

/// The receive maximum among some properties.
pub fn find_receive_maximum(properties: &Vec<MqttProperty>) -> (result: Option<u16>)
    ensures
        result == first_of(properties.deep_view(), receive_maximum_in()),
{
    let ghost list = properties.deep_view();
    let mut index: usize = 0;
    assert(list.skip(0) =~= list);
    while index < properties.len()
        invariant
            index <= properties@.len(),
            list == properties.deep_view(),
            first_of(list, receive_maximum_in()) == first_of(
                list.skip(index as int),
                receive_maximum_in(),
            ),
        decreases properties@.len() - index,
    {
        assert(list.skip(index as int)[0] == properties@[index as int].deep_view());
        assert(list.skip(index as int).drop_first() =~= list.skip(index + 1));
        if let PropertyOf::ReceiveMaximum(value) = &properties[index] {
            return Some(*value);
        }
        index += 1;
    }
    None
}

/// The maximum packet size among some properties.
pub fn find_maximum_packet_size(properties: &Vec<MqttProperty>) -> (result: Option<u32>)
    ensures
        result == first_of(properties.deep_view(), maximum_packet_size_in()),
{
    let ghost list = properties.deep_view();
    let mut index: usize = 0;
    assert(list.skip(0) =~= list);
    while index < properties.len()
        invariant
            index <= properties@.len(),
            list == properties.deep_view(),
            first_of(list, maximum_packet_size_in()) == first_of(
                list.skip(index as int),
                maximum_packet_size_in(),
            ),
        decreases properties@.len() - index,
    {
        assert(list.skip(index as int)[0] == properties@[index as int].deep_view());
        assert(list.skip(index as int).drop_first() =~= list.skip(index + 1));
        if let PropertyOf::MaximumPacketSize(value) = &properties[index] {
            return Some(*value);
        }
        index += 1;
    }
    None
}

/// The topic alias among some properties.
pub fn find_topic_alias(properties: &Vec<MqttProperty>) -> (result: Option<u16>)
    ensures
        result == first_of(properties.deep_view(), topic_alias_in()),
{
    let ghost list = properties.deep_view();
    let mut index: usize = 0;
    assert(list.skip(0) =~= list);
    while index < properties.len()
        invariant
            index <= properties@.len(),
            list == properties.deep_view(),
            first_of(list, topic_alias_in()) == first_of(list.skip(index as int), topic_alias_in()),
        decreases properties@.len() - index,
    {
        assert(list.skip(index as int)[0] == properties@[index as int].deep_view());
        assert(list.skip(index as int).drop_first() =~= list.skip(index + 1));
        if let PropertyOf::TopicAlias(value) = &properties[index] {
            return Some(*value);
        }
        index += 1;
    }
    None
}

/// The subscription identifier among some properties.
pub fn find_subscription_identifier(properties: &Vec<MqttProperty>) -> (result: Option<u32>)
    ensures
        result == first_of(properties.deep_view(), subscription_identifier_in()),
{
    let ghost list = properties.deep_view();
    let mut index: usize = 0;
    assert(list.skip(0) =~= list);
    while index < properties.len()
        invariant
            index <= properties@.len(),
            list == properties.deep_view(),
            first_of(list, subscription_identifier_in()) == first_of(
                list.skip(index as int),
                subscription_identifier_in(),
            ),
        decreases properties@.len() - index,
    {
        assert(list.skip(index as int)[0] == properties@[index as int].deep_view());
        assert(list.skip(index as int).drop_first() =~= list.skip(index + 1));
        if let PropertyOf::SubscriptionIdentifier(value) = &properties[index] {
            return Some(*value);
        }
        index += 1;
    }
    None
}

/// What a client asks for when it connects.
#[derive(Clone, Copy, Debug, PartialEq, Eq, Structural)]
pub struct ConnectOptions {
    pub clean_start: bool,
    pub session_expiry_interval: u32,
    pub receive_maximum: u16,
    pub maximum_packet_size: u32,
}

/// What a client asks for when it connects.
pub open spec fn options_of(clean_start: bool, properties: Seq<PropertyView>) -> ConnectOptions {
    ConnectOptions {
        clean_start,
        session_expiry_interval: first_or(properties, session_expiry_in(), 0),
        receive_maximum: first_or(properties, receive_maximum_in(), u16::MAX),
        maximum_packet_size: first_or(properties, maximum_packet_size_in(), u32::MAX),
    }
}

impl ConnectOptions {
    /// What a client asks for when it connects.
    pub fn from_properties(clean_start: bool, properties: &Vec<MqttProperty>) -> (result: Self)
        ensures
            result == options_of(clean_start, properties.deep_view()),
    {
        ConnectOptions {
            clean_start,
            session_expiry_interval: match find_session_expiry_interval(properties) {
                Some(value) => value,
                None => 0,
            },
            receive_maximum: match find_receive_maximum(properties) {
                Some(value) => value,
                None => u16::MAX,
            },
            maximum_packet_size: match find_maximum_packet_size(properties) {
                Some(value) => value,
                None => u32::MAX,
            },
        }
    }
}

/// What the server says of itself when a client connects.
pub open spec fn capabilities(config: BrokerConfig) -> Seq<PropertyView> {
    seq![
        PropertyOf::ReceiveMaximum(config.server_receive_maximum),
        PropertyOf::MaximumPacketSize(config.server_maximum_packet_size),
        PropertyOf::TopicAliasMaximum(config.server_topic_alias_maximum),
        PropertyOf::MaximumQoS(2),
        PropertyOf::RetainAvailable(1),
        PropertyOf::WildcardSubscriptionAvailable(1),
        PropertyOf::SubscriptionIdentifierAvailable(1),
        PropertyOf::SharedSubscriptionAvailable(1),
    ]
}

/// What the server says of itself when a client connects.
pub fn connack_capabilities(config: &BrokerConfig) -> (result: Vec<MqttProperty>)
    ensures
        result.deep_view() == capabilities(*config),
{
    let result: Vec<MqttProperty> = vec![
        PropertyOf::ReceiveMaximum(config.server_receive_maximum),
        PropertyOf::MaximumPacketSize(config.server_maximum_packet_size),
        PropertyOf::TopicAliasMaximum(config.server_topic_alias_maximum),
        PropertyOf::MaximumQoS(2),
        PropertyOf::RetainAvailable(1),
        PropertyOf::WildcardSubscriptionAvailable(1),
        PropertyOf::SubscriptionIdentifierAvailable(1),
        PropertyOf::SharedSubscriptionAvailable(1),
    ];
    assert(result.deep_view() =~= capabilities(*config));
    result
}

/// A property says of the payload what no payload is.
pub open spec fn bad_payload_format(property: PropertyView) -> bool {
    property matches PropertyOf::PayloadFormatIndicator(value) && value > 1
}

/// A property carries a value that a CONNECT packet may not carry.
pub open spec fn malformed_property(property: PropertyView) -> bool {
    match property {
        PropertyOf::ReceiveMaximum(value) => value == 0,
        PropertyOf::MaximumPacketSize(value) => value == 0,
        PropertyOf::RequestProblemInformation(value) => value > 1,
        PropertyOf::RequestResponseInformation(value) => value > 1,
        _ => false,
    }
}

/// A property asks for an authentication exchange.
pub open spec fn wants_exchange(property: PropertyView) -> bool {
    property is AuthenticationMethod || property is AuthenticationData
}

/// Some property is such.
pub open spec fn some_property(
    properties: Seq<PropertyView>,
    such: spec_fn(PropertyView) -> bool,
) -> bool {
    exists|i: int| 0 <= i < properties.len() && such(#[trigger] properties[i])
}

/// Why a CONNECT packet is refused before anything else is looked at.
pub open spec fn connect_defect(packet: ConnectView) -> Option<u8> {
    if packet.client_id.len() == 0 && !packet.clean_start {
        Some(CLIENT_IDENTIFIER_NOT_VALID)
    } else if packet.client_id.contains('\0') {
        Some(MALFORMED_PACKET)
    } else if packet.will matches Some(will) && !valid_topic_name(will.topic) {
        Some(TOPIC_NAME_INVALID)
    } else if packet.will matches Some(will) && some_property(
        will.properties,
        |property: PropertyView| bad_payload_format(property),
    ) {
        Some(PAYLOAD_FORMAT_INVALID)
    } else if some_property(
        packet.properties,
        |property: PropertyView| malformed_property(property),
    ) {
        Some(MALFORMED_PACKET)
    } else if some_property(
        packet.properties,
        |property: PropertyView| wants_exchange(property),
    ) {
        Some(BAD_AUTHENTICATION_METHOD)
    } else {
        None
    }
}

fn has_bad_payload_format(properties: &Vec<MqttProperty>) -> (result: bool)
    ensures
        result == some_property(
            properties.deep_view(),
            |property: PropertyView| bad_payload_format(property),
        ),
{
    let ghost list = properties.deep_view();
    let mut index: usize = 0;
    while index < properties.len()
        invariant
            index <= properties@.len(),
            list == properties.deep_view(),
            forall|i: int| 0 <= i < index ==> !bad_payload_format(#[trigger] list[i]),
        decreases properties@.len() - index,
    {
        assert(list[index as int] == properties@[index as int].deep_view());
        if let PropertyOf::PayloadFormatIndicator(value) = &properties[index] {
            if *value > 1 {
                return true;
            }
        }
        index += 1;
    }
    false
}

/// Whether some property is malformed, and whether some property asks for an authentication
/// exchange.
fn check_connect_properties(properties: &Vec<MqttProperty>) -> (result: (bool, bool))
    ensures
        result.0 == some_property(
            properties.deep_view(),
            |property: PropertyView| malformed_property(property),
        ),
        result.1 == some_property(
            properties.deep_view(),
            |property: PropertyView| wants_exchange(property),
        ),
{
    let ghost list = properties.deep_view();
    let mut malformed: bool = false;
    let mut exchange: bool = false;
    let mut index: usize = 0;
    while index < properties.len()
        invariant
            index <= properties@.len(),
            list == properties.deep_view(),
            malformed <==> exists|i: int| 0 <= i < index && malformed_property(#[trigger] list[i]),
            exchange <==> exists|i: int| 0 <= i < index && wants_exchange(#[trigger] list[i]),
        decreases properties@.len() - index,
    {
        assert(list[index as int] == properties@[index as int].deep_view());
        match &properties[index] {
            PropertyOf::AuthenticationMethod(_) => {
                exchange = true;
            },
            PropertyOf::AuthenticationData(_) => {
                exchange = true;
            },
            PropertyOf::ReceiveMaximum(value) => {
                if *value == 0 {
                    malformed = true;
                }
            },
            PropertyOf::MaximumPacketSize(value) => {
                if *value == 0 {
                    malformed = true;
                }
            },
            PropertyOf::RequestProblemInformation(value) => {
                if *value > 1 {
                    malformed = true;
                }
            },
            PropertyOf::RequestResponseInformation(value) => {
                if *value > 1 {
                    malformed = true;
                }
            },
            _ => {},
        }
        index += 1;
    }
    (malformed, exchange)
}

/// Why a CONNECT packet is refused before anything else is looked at.
pub fn validate_connect(packet: &ConnectPacket) -> (result: Option<u8>)
    ensures
        result == connect_defect(packet.deep_view()),
{
    if packet.client_id.as_str().is_empty() && !packet.clean_start {
        return Some(CLIENT_IDENTIFIER_NOT_VALID);
    }
    if text_has(packet.client_id.as_str(), '\0') {
        return Some(MALFORMED_PACKET);
    }
    if let Some(will) = &packet.will {
        if !is_valid_topic_name(will.topic.as_str()) {
            return Some(TOPIC_NAME_INVALID);
        }
        if has_bad_payload_format(&will.properties) {
            return Some(PAYLOAD_FORMAT_INVALID);
        }
    }
    let (malformed, exchange): (bool, bool) = check_connect_properties(&packet.properties);
    if malformed {
        return Some(MALFORMED_PACKET);
    }
    if exchange {
        return Some(BAD_AUTHENTICATION_METHOD);
    }
    None
}

/// A reason code tells of a failed authentication.
pub fn is_auth_failure(reason_code: u8) -> (result: bool)
    ensures
        result == (reason_code == BAD_USER_NAME_OR_PASSWORD || reason_code
            == BAD_AUTHENTICATION_METHOD),
{
    reason_code == BAD_USER_NAME_OR_PASSWORD || reason_code == BAD_AUTHENTICATION_METHOD
}

/// What a failed authentication is called.
pub open spec fn auth_failure_name(reason_code: u8) -> Seq<char> {
    if reason_code == BAD_USER_NAME_OR_PASSWORD {
        "bad_username_or_password"@
    } else if reason_code == BAD_AUTHENTICATION_METHOD {
        "bad_authentication_method"@
    } else {
        "unknown"@
    }
}

/// What a failed authentication is called.
pub fn auth_failure_reason(reason_code: u8) -> (result: &'static str)
    ensures
        result@ == auth_failure_name(reason_code),
{
    if reason_code == BAD_USER_NAME_OR_PASSWORD {
        "bad_username_or_password"
    } else if reason_code == BAD_AUTHENTICATION_METHOD {
        "bad_authentication_method"
    } else {
        "unknown"
    }
}

/// The topics that a client has given short names.
pub struct TopicAliases {
    aliases: OrderedMap<u16, String>,
    maximum: u16,
}

/// What became of a publication's topic alias: the aliases and the topic afterwards, or that the
/// alias is not valid.
pub open spec fn alias_resolved(
    aliases: Map<u16, Seq<char>>,
    maximum: u16,
    packet: PublishView,
) -> Option<(Map<u16, Seq<char>>, Seq<char>)> {
    match first_of(packet.properties, topic_alias_in()) {
        None => Some((aliases, packet.topic_name)),
        Some(alias) => if alias == 0 || alias > maximum {
            None
        } else if packet.topic_name.len() > 0 {
            Some((aliases.insert(alias, packet.topic_name), packet.topic_name))
        } else if aliases.dom().contains(alias) {
            Some((aliases, aliases[alias]))
        } else {
            None
        },
    }
}

impl TopicAliases {
    /// The topics by short name.
    pub closed spec fn known(&self) -> Map<u16, Seq<char>> {
        self.aliases.deep_view()
    }

    /// The highest short name.
    pub closed spec fn limit(&self) -> u16 {
        self.maximum
    }

    /// No short names yet.
    pub fn new(maximum: u16) -> (result: Self)
        ensures
            result.known() == Map::<u16, Seq<char>>::empty(),
            result.limit() == maximum,
    {
        TopicAliases { aliases: OrderedMap::new(), maximum }
    }

    /// Gives a publication its topic by its short name, or the short name its topic. Returns
    /// whether the short name is valid; where it is not, nothing changes.
    pub fn resolve_publish(&mut self, packet: &mut PublishPacket) -> (result: bool)
        ensures
            final(self).limit() == old(self).limit(),
            match alias_resolved(
                old(self).known(),
                old(self).limit(),
                old(packet).deep_view(),
            ) {
                Some(resolved) => {
                    &&& result
                    &&& final(self).known() == resolved.0
                    &&& final(packet).deep_view() == (PublishView {
                        topic_name: resolved.1,
                        ..old(packet).deep_view()
                    })
                },
                None => {
                    &&& !result
                    &&& final(self).known() == old(self).known()
                    &&& final(packet).deep_view() == old(packet).deep_view()
                },
            },
    {
        let alias: u16 = match find_topic_alias(&packet.properties) {
            Some(alias) => alias,
            None => return true,
        };
        if alias == 0 || alias > self.maximum {
            return false;
        }
        if packet.topic_name.as_str().is_empty() {
            let topic_name: String = match self.aliases.get(&alias) {
                Some(topic_name) => topic_name.dup(),
                None => return false,
            };
            packet.topic_name = topic_name;
        } else {
            self.aliases.insert(alias, packet.topic_name.dup());
        }
        true
    }
}

/// Hands out connection numbers.
pub struct ConnectionIdAllocator {
    next: u64,
}

impl ConnectionIdAllocator {
    /// The last number that was handed out.
    pub closed spec fn last(&self) -> u64 {
        self.next
    }

    /// No number has been handed out.
    pub fn new() -> (result: Self)
        ensures
            result.last() == 0,
    {
        ConnectionIdAllocator { next: 0 }
    }

    /// Whether no number is left.
    pub fn is_exhausted(&self) -> (result: bool)
        ensures
            result == (self.last() == u64::MAX),
    {
        self.next == u64::MAX
    }

    /// Hands out the next number.
    pub fn allocate(&mut self) -> (result: u64)
        requires
            old(self).last() < u64::MAX,
        ensures
            result == old(self).last() + 1,
            final(self).last() == result,
    {
        self.next = self.next + 1;
        self.next
    }
}

/// The connection numbers of one listener: its own, or numbers that several listeners share.
pub enum ConnectionIdMap {
    Identity,
    Allocated { ids: OrderedMap<u64, u64> },
}

impl ConnectionIdMap {
    /// The shared numbers by the listener's own; none where the listener uses its own.
    pub open spec fn known(&self) -> Option<Map<u64, u64>> {
        match *self {
            ConnectionIdMap::Identity => None,
            ConnectionIdMap::Allocated { ids } => Some(ids.deep_view()),
        }
    }

    /// A listener that uses shared numbers.
    pub fn allocated() -> (result: Self)
        ensures
            result.known() == Some(Map::<u64, u64>::empty()),
    {
        ConnectionIdMap::Allocated { ids: OrderedMap::new() }
    }

    /// The number of a connection, handed out the first time it is asked for.
    pub fn broker_id(&mut self, allocator: &mut ConnectionIdAllocator, local_id: u64) -> (result:
        u64)
        requires
            old(allocator).last() < u64::MAX,
        ensures
            match old(self).known() {
                None => {
                    result == local_id
                        && final(self).known() is None
                        && final(allocator).last() == old(allocator).last()
                },
                Some(ids) => if ids.dom().contains(local_id) {
                    result == ids[local_id]
                        && final(self).known() == Some(ids)
                        && final(allocator).last() == old(allocator).last()
                } else {
                    result == old(allocator).last() + 1 && final(self).known() == Some(
                        ids.insert(local_id, result),
                    ) && final(allocator).last() == result
                },
            },
    {
        match self {
            ConnectionIdMap::Identity => local_id,
            ConnectionIdMap::Allocated { ids } => {
                if let Some(id) = ids.get(&local_id) {
                    return *id;
                }
                let id: u64 = allocator.allocate();
                ids.insert(local_id, id);
                id
            },
        }
    }

    /// Forgets a connection and returns its number.
    pub fn remove(&mut self, local_id: u64) -> (result: Option<u64>)
        ensures
            match old(self).known() {
                None => result == Some(local_id) && final(self).known() is None,
                Some(ids) => result == lookup(ids, local_id) && final(self).known() == Some(
                    ids.remove(local_id),
                ),
            },
    {
        match self {
            ConnectionIdMap::Identity => Some(local_id),
            ConnectionIdMap::Allocated { ids } => ids.remove(&local_id),
        }
    }
}

/// Why a connection closed.
#[derive(Clone, Copy, Debug, PartialEq, Eq, Structural)]
pub enum CloseReason {
    HandlerClosed,
    LocalClosed,
    PeerClosed,
    ChannelClosed,
    ServerShutdown,
    IdleTimeout,
    IoError,
    DecodeError,
    EncodeError,
    FrameTooLarge,
    HandlerError,
}

/// This side closed the connection.
pub open spec fn closed_here(reason: CloseReason) -> bool {
    reason == CloseReason::HandlerClosed || reason == CloseReason::LocalClosed || reason
        == CloseReason::ServerShutdown
}

/// Whether the will of a client is published when its connection closes: not where this side closed
/// it.
pub fn should_publish_will(reason: CloseReason) -> (result: bool)
    ensures
        result == !closed_here(reason),
{
    match reason {
        CloseReason::HandlerClosed => false,
        CloseReason::LocalClosed => false,
        CloseReason::ServerShutdown => false,
        _ => true,
    }
}

/// Whether a connection closed because of bytes that are no packet.
pub fn is_packet_parse_error(reason: CloseReason) -> (result: bool)
    ensures
        result == (reason == CloseReason::DecodeError || reason == CloseReason::FrameTooLarge),
{
    match reason {
        CloseReason::DecodeError => true,
        CloseReason::FrameTooLarge => true,
        _ => false,
    }
}

/// What a reason to close is called.
pub open spec fn close_reason_name(reason: CloseReason) -> Seq<char> {
    match reason {
        CloseReason::HandlerClosed => "handler_closed"@,
        CloseReason::LocalClosed => "local_closed"@,
        CloseReason::PeerClosed => "peer_closed"@,
        CloseReason::ChannelClosed => "channel_closed"@,
        CloseReason::ServerShutdown => "server_shutdown"@,
        CloseReason::IdleTimeout => "idle_timeout"@,
        CloseReason::IoError => "io_error"@,
        CloseReason::DecodeError => "decode_error"@,
        CloseReason::EncodeError => "encode_error"@,
        CloseReason::FrameTooLarge => "frame_too_large"@,
        CloseReason::HandlerError => "handler_error"@,
    }
}

/// What a reason to close is called.
pub fn close_reason_label(reason: CloseReason) -> (result: &'static str)
    ensures
        result@ == close_reason_name(reason),
{
    match reason {
        CloseReason::HandlerClosed => "handler_closed",
        CloseReason::LocalClosed => "local_closed",
        CloseReason::PeerClosed => "peer_closed",
        CloseReason::ChannelClosed => "channel_closed",
        CloseReason::ServerShutdown => "server_shutdown",
        CloseReason::IdleTimeout => "idle_timeout",
        CloseReason::IoError => "io_error",
        CloseReason::DecodeError => "decode_error",
        CloseReason::EncodeError => "encode_error",
        CloseReason::FrameTooLarge => "frame_too_large",
        CloseReason::HandlerError => "handler_error",
    }
}

/// Some of the protocols that a WebSocket client offers is the named one, whatever its case.
pub open spec fn offers(offered: Seq<char>, name: Seq<char>) -> bool {
    exists|i: int|
        0 <= i < pieces(offered, ',').len() && equal_ignoring_case(
            trimmed(#[trigger] pieces(offered, ',')[i]),
            name,
        )
}

/// The protocol to speak with a WebSocket client: MQTT by its modern name, or else by its old one.
pub open spec fn selected_protocol(offered: Option<Seq<char>>) -> Option<Seq<char>> {
    match offered {
        None => None,
        Some(offered) => if offers(offered, "mqtt"@) {
            Some("mqtt"@)
        } else if offers(offered, "mqttv3.1"@) {
            Some("mqttv3.1"@)
        } else {
            None
        },
    }
}

/// The protocol to speak with a WebSocket client.
pub fn select_mqtt_subprotocol(value: Option<&str>) -> (result: Option<&'static str>)
    ensures
        match selected_protocol(
            match value {
                Some(offered) => Some(offered@),
                None => None,
            },
        ) {
            Some(name) => result matches Some(selected) && selected@ == name,
            None => result is None,
        },
{
    let offered: &str = match value {
        Some(offered) => offered,
        None => return None,
    };
    let names: Vec<String> = split_text(offered, ',');
    let ghost list = pieces(offered@, ',');
    let mut legacy: bool = false;
    let mut index: usize = 0;
    while index < names.len()
        invariant
            index <= names@.len(),
            names.deep_view() == list,
            list == pieces(offered@, ','),
            value == Some(offered),
            forall|i: int|
                0 <= i < index ==> !equal_ignoring_case(trimmed(#[trigger] list[i]), "mqtt"@),
            legacy <==> exists|i: int|
                0 <= i < index && equal_ignoring_case(trimmed(#[trigger] list[i]), "mqttv3.1"@),
        decreases names@.len() - index,
    {
        assert(list[index as int] == names@[index as int]@);
        let name: String = trim_text(names[index].as_str());
        if eq_ignore_ascii_case(name.as_str(), "mqtt") {
            return Some("mqtt");
        }
        if eq_ignore_ascii_case(name.as_str(), "mqttv3.1") {
            legacy = true;
        }
        index += 1;
    }
    if legacy {
        Some("mqttv3.1")
    } else {
        None
    }
}

/// How long a client may be silent, in milliseconds: one and a half times what it announced.
pub fn keep_alive_interval_ms(keep_alive_seconds: u16) -> (result: u64)
    ensures
        result == keep_alive_seconds * 1_500,
{
    keep_alive_seconds as u64 * 1_500
}

} // verus!
