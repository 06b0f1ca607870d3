use pulse::connection::select_mqtt_subprotocol;
use pulse::netty::CodecError;
use pulse::packet::MqttPacket;
use pulse::websocket::{
    WEBSOCKET_PROTOCOL_ERROR, WEBSOCKET_UNSUPPORTED_DATA, WebSocketAction, WebSocketInput,
    WebSocketMqttHandler,
};

#[test]
fn selects_mqtt_subprotocol_prefering_modern_name() {
    assert_eq!(select_mqtt_subprotocol(Some("mqtt")), Some("mqtt"));
    assert_eq!(select_mqtt_subprotocol(Some("mqttv3.1")), Some("mqttv3.1"));
    assert_eq!(
        select_mqtt_subprotocol(Some("mqttv3.1, mqtt")),
        Some("mqtt")
    );
    assert_eq!(select_mqtt_subprotocol(Some("chat")), None);
    assert_eq!(select_mqtt_subprotocol(None), None);
}

fn handshake(path: &str, protocols: Option<&str>) -> WebSocketInput {
    WebSocketInput::Handshake {
        path: path.to_string(),
        protocols: protocols.map(str::to_string),
    }
}

#[test]
fn handshake_needs_the_path_and_a_protocol() {
    let mut handler = WebSocketMqttHandler::new("/mqtt".to_string(), 1024);
    assert!(matches!(
        handler.read(handshake("/other", Some("mqtt"))),
        WebSocketAction::RejectHttp { status: 404, body: "websocket path not found" }
    ));
    assert!(matches!(
        handler.read(handshake("/mqtt", Some("chat"))),
        WebSocketAction::RejectHttp { status: 400, body: "missing MQTT websocket subprotocol" }
    ));
    assert!(matches!(
        handler.read(WebSocketInput::Http),
        WebSocketAction::RejectHttp { status: 404, body: "not found" }
    ));
    assert!(matches!(
        handler.read(WebSocketInput::Text),
        WebSocketAction::CloseWith {
            code: WEBSOCKET_PROTOCOL_ERROR,
            reason: "websocket not accepted",
        }
    ));
    assert!(matches!(
        handler.read(handshake("/mqtt", Some("MQTTv3.1"))),
        WebSocketAction::Accept { protocol: "mqttv3.1" }
    ));
    assert!(matches!(
        handler.read(WebSocketInput::Text),
        WebSocketAction::CloseWith { code: WEBSOCKET_UNSUPPORTED_DATA, .. }
    ));
}

#[test]
fn frames_hold_exactly_one_packet() {
    let mut handler = WebSocketMqttHandler::new("/mqtt".to_string(), 1024);
    handler.read(handshake("/mqtt", Some("mqtt")));
    assert!(matches!(
        handler.read(WebSocketInput::Binary(vec![0xc0, 0x00])),
        WebSocketAction::Handle(MqttPacket::PingReq)
    ));
    assert!(matches!(
        handler.read(WebSocketInput::Binary(vec![0xc0])),
        WebSocketAction::Fail(CodecError::Malformed(message))
            if message == "websocket binary frame did not contain a complete MQTT packet"
    ));
    assert!(matches!(
        handler.read(WebSocketInput::Binary(vec![0xc0, 0x00, 0xc0, 0x00])),
        WebSocketAction::Fail(CodecError::Malformed(message))
            if message == "websocket binary frame must contain exactly one MQTT packet"
    ));
    assert!(matches!(
        handler.read(WebSocketInput::Ping(vec![1, 2])),
        WebSocketAction::SendPong(bytes) if bytes == vec![1, 2]
    ));
    assert!(matches!(handler.read(WebSocketInput::Pong), WebSocketAction::Ignore));
    assert!(matches!(handler.read(WebSocketInput::Close), WebSocketAction::EchoClose));
}
