//! What the frames of a WebSocket connection lead to.
use vstd::prelude::*;

use crate::connection::select_mqtt_subprotocol;
use crate::connection::selected_protocol;
use crate::netty::CodecError;
use crate::netty::CodecErrorView;
use crate::netty::decode_view;
use crate::netty::mqtt_decoding;
use crate::packet::MqttPacket;
use crate::packet::PacketView;
use crate::value::Value;
use crate::write::PulseMqttCodec;

verus! {

/// The close code for a frame that must not come yet.
pub const WEBSOCKET_PROTOCOL_ERROR: u16 = 1002;

/// The close code for a frame of the wrong kind.
pub const WEBSOCKET_UNSUPPORTED_DATA: u16 = 1003;

/// What comes in on a WebSocket connection.
pub enum WebSocketInput {
    /// An ordinary HTTP request.
    Http,
    /// A request to speak WebSocket, with its path and the protocols that it offers.
    Handshake { path: String, protocols: Option<String> },
    /// A frame of bytes.
    Binary(Vec<u8>),
    /// A frame of text.
    Text,
    /// A frame that asks for an answer with the same bytes.
    Ping(Vec<u8>),
    /// An answer to such a frame.
    Pong,
    /// A frame that ends the connection.
    Close,
}

/// What an input leads to.
pub enum WebSocketAction {
    /// Answer with an HTTP status and a text, and close.
    RejectHttp { status: u16, body: &'static str },
    /// Accept to speak a protocol.
    Accept { protocol: &'static str },
    /// Send a close frame with a code and a reason, and close.
    CloseWith { code: u16, reason: &'static str },
    /// Handle a packet.
    Handle(MqttPacket),
    /// Fail.
    Fail(CodecError),
    /// Answer with the same bytes.
    SendPong(Vec<u8>),
    /// Send the close frame back, and close.
    EchoClose,
    /// Do nothing.
    Ignore,
}

/// What a `WebSocketAction` stands for.
pub enum ActionView {
    RejectHttp { status: u16, body: Seq<char> },
    Accept { protocol: Seq<char> },
    CloseWith { code: u16, reason: Seq<char> },
    Handle(PacketView),
    Fail(CodecErrorView),
    SendPong(Seq<u8>),
    EchoClose,
    Ignore,
}

impl DeepView for WebSocketAction {
    type V = ActionView;

    open spec fn deep_view(&self) -> ActionView {
        match *self {
            WebSocketAction::RejectHttp { status, body } => ActionView::RejectHttp {
                status,
                body: body@,
            },
            WebSocketAction::Accept { protocol } => ActionView::Accept { protocol: protocol@ },
            WebSocketAction::CloseWith { code, reason } => ActionView::CloseWith {
                code,
                reason: reason@,
            },
            WebSocketAction::Handle(packet) => ActionView::Handle(packet.deep_view()),
            WebSocketAction::Fail(error) => ActionView::Fail(error.deep_view()),
            WebSocketAction::SendPong(bytes) => ActionView::SendPong(bytes@),
            WebSocketAction::EchoClose => ActionView::EchoClose,
            WebSocketAction::Ignore => ActionView::Ignore,
        }
    }
}

/// What the codec's answer to the bytes of a frame means: they must be one packet and nothing more.
pub open spec fn frame_packet(
    decoded: Result<Option<(PacketView, nat)>, CodecErrorView>,
) -> Result<PacketView, CodecErrorView> {
    match decoded {
        Err(error) => Err(error),
        Ok(None) => Err(
            CodecErrorView::Malformed(
                "websocket binary frame did not contain a complete MQTT packet"@,
            ),
        ),
        Ok(Some(found)) => if found.1 == 0 {
            Ok(found.0)
        } else {
            Err(
                CodecErrorView::Malformed(
                    "websocket binary frame must contain exactly one MQTT packet"@,
                ),
            )
        },
    }
}

/// What the codec's answer to the bytes of a frame means.
pub fn check_frame(decoded: Result<Option<(MqttPacket, usize)>, CodecError>) -> (result: Result<
    MqttPacket,
    CodecError,
>)
    ensures
        match frame_packet(decode_view(decoded)) {
            Ok(packet) => result matches Ok(found) && found.deep_view() == packet,
            Err(error) => result matches Err(found) && found.deep_view() == error,
        },
{
    match decoded {
        Err(error) => Err(error),
        Ok(None) => Err(
            CodecError::Malformed(
                "websocket binary frame did not contain a complete MQTT packet".to_owned(),
            ),
        ),
        Ok(Some((packet, left))) => if left == 0 {
            Ok(packet)
        } else {
            Err(
                CodecError::Malformed(
                    "websocket binary frame must contain exactly one MQTT packet".to_owned(),
                ),
            )
        },
    }
}

/// The state of a WebSocket connection: the path to ask for, the limit on packets, and whether the
/// protocol was agreed on.
pub struct WebSocketMqttHandler {
    path: String,
    accepted: bool,
    decoder: PulseMqttCodec,
}

/// What an input leads to, and whether the protocol is agreed on afterwards.
pub open spec fn websocket_handled(
    path: Seq<char>,
    accepted: bool,
    limit: usize,
    input: WebSocketInput,
) -> (bool, ActionView) {
    match input {
        WebSocketInput::Http => (
            accepted,
            ActionView::RejectHttp { status: 404, body: "not found"@ },
        ),
        WebSocketInput::Handshake { path: asked, protocols } => if asked@ != path {
            (accepted, ActionView::RejectHttp { status: 404, body: "websocket path not found"@ })
        } else {
            match selected_protocol(protocols.deep_view()) {
                Some(protocol) => (true, ActionView::Accept { protocol }),
                None => (
                    accepted,
                    ActionView::RejectHttp {
                        status: 400,
                        body: "missing MQTT websocket subprotocol"@,
                    },
                ),
            }
        },
        _ => (
            accepted,
            if !accepted {
                ActionView::CloseWith {
                    code: WEBSOCKET_PROTOCOL_ERROR,
                    reason: "websocket not accepted"@,
                }
            } else {
                match input {
                    WebSocketInput::Binary(bytes) => match frame_packet(
                        mqtt_decoding(bytes@, limit as nat),
                    ) {
                        Ok(packet) => ActionView::Handle(packet),
                        Err(error) => ActionView::Fail(error),
                    },
                    WebSocketInput::Text => ActionView::CloseWith {
                        code: WEBSOCKET_UNSUPPORTED_DATA,
                        reason: "MQTT websocket payload must be binary"@,
                    },
                    WebSocketInput::Ping(bytes) => ActionView::SendPong(bytes@),
                    WebSocketInput::Pong => ActionView::Ignore,
                    _ => ActionView::EchoClose,
                }
            },
        ),
    }
}

impl WebSocketMqttHandler {
    /// The path to ask for.
    pub closed spec fn served_path(&self) -> Seq<char> {
        self.path@
    }

    /// The protocol was agreed on.
    pub closed spec fn agreed(&self) -> bool {
        self.accepted
    }

    /// The limit on packets.
    pub closed spec fn limit(&self) -> usize {
        self.decoder.limit()
    }

    /// A connection on which nothing was agreed on yet.
    pub fn new(path: String, max_packet_size: usize) -> (result: Self)
        ensures
            result.served_path() == path@,
            !result.agreed(),
            result.limit() == max_packet_size,
    {
        WebSocketMqttHandler {
            path,
            accepted: false,
            decoder: PulseMqttCodec::with_max_packet_size(max_packet_size),
        }
    }

    /// The packet that the bytes of a frame are.
    pub fn decode_mqtt_packet(&self, bytes: &Vec<u8>) -> (result: Result<MqttPacket, CodecError>)
        ensures
            match frame_packet(mqtt_decoding(bytes@, self.limit() as nat)) {
                Ok(packet) => result matches Ok(found) && found.deep_view() == packet,
                Err(error) => result matches Err(found) && found.deep_view() == error,
            },
    {
        check_frame(self.decoder.decode(bytes.as_slice()))
    }

    /// What a request to speak WebSocket leads to.
    fn accept_handshake(&mut self, path: &String, protocols: &Option<String>) -> (result:
        WebSocketAction)
        ensures
            final(self).served_path() == old(self).served_path(),
            final(self).limit() == old(self).limit(),
            final(self).agreed() == (old(self).agreed() || result is Accept),
            result.deep_view() == (if path@ != old(self).served_path() {
                ActionView::RejectHttp { status: 404, body: "websocket path not found"@ }
            } else {
                match selected_protocol(protocols.deep_view()) {
                    Some(protocol) => ActionView::Accept { protocol },
                    None => ActionView::RejectHttp {
                        status: 400,
                        body: "missing MQTT websocket subprotocol"@,
                    },
                }
            }),
    {
        if !path.same(&self.path) {
            return WebSocketAction::RejectHttp { status: 404, body: "websocket path not found" };
        }
        let offered: Option<&str> = match protocols {
            Some(protocols) => Some(protocols.as_str()),
            None => None,
        };
        match select_mqtt_subprotocol(offered) {
            Some(protocol) => {
                self.accepted = true;
                WebSocketAction::Accept { protocol }
            },
            None => WebSocketAction::RejectHttp {
                status: 400,
                body: "missing MQTT websocket subprotocol",
            },
        }
    }

    /// What an input leads to.
    pub fn read(&mut self, input: WebSocketInput) -> (result: WebSocketAction)
        ensures
            final(self).served_path() == old(self).served_path(),
            final(self).limit() == old(self).limit(),
            (final(self).agreed(), result.deep_view()) == websocket_handled(
                old(self).served_path(),
                old(self).agreed(),
                old(self).limit(),
                input,
            ),
    {
        match input {
            WebSocketInput::Http => WebSocketAction::RejectHttp { status: 404, body: "not found" },
            WebSocketInput::Handshake { path, protocols } => self.accept_handshake(
                &path,
                &protocols,
            ),
            input => {
                if !self.accepted {
                    return WebSocketAction::CloseWith {
                        code: WEBSOCKET_PROTOCOL_ERROR,
                        reason: "websocket not accepted",
                    };
                }
                match input {
                    WebSocketInput::Binary(bytes) => match self.decode_mqtt_packet(&bytes) {
                        Ok(packet) => WebSocketAction::Handle(packet),
                        Err(error) => WebSocketAction::Fail(error),
                    },
                    WebSocketInput::Text => WebSocketAction::CloseWith {
                        code: WEBSOCKET_UNSUPPORTED_DATA,
                        reason: "MQTT websocket payload must be binary",
                    },
                    WebSocketInput::Ping(bytes) => WebSocketAction::SendPong(bytes),
                    WebSocketInput::Pong => WebSocketAction::Ignore,
                    _ => WebSocketAction::EchoClose,
                }
            },
        }
    }
}

} // verus!
