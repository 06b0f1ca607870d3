//! What happens at the edges: WebSocket frames, what is counted, and what is kept ready.
use vstd::prelude::*;
use vstd::utf8::encode_utf8;

use crate::connection::auth_failure_name;
use crate::connection::offers;
use crate::connection::selected_protocol;
use crate::flush::qos_label;
use crate::gauges::session_counts;
use crate::handler::EffectView;
use crate::handler::failure_counted;
use crate::inflight::flushed;
use crate::inflight::resent_to;
use crate::inflight::without_stale;
use crate::mqtt_codec::plain_size_is_length;
use crate::netty::mqtt_decoding;
use crate::packet::PropertyView;
use crate::packet::QoS;
use crate::publication_laws::sent_to;
use crate::publication_laws::within_reach;
use crate::retained_message::retained_view;
use crate::routing::redelivered;
use crate::session::SessionView;
use crate::session::StateView;
use crate::text::equal_ignoring_case;
use crate::text::pieces;
use crate::text::trimmed;
use crate::websocket::ActionView;
use crate::websocket::WebSocketInput;
use crate::websocket::websocket_handled;

verus! {

/// A protocol is among those that are offered, if one of the names between the commas is its name,
/// whatever white space stands around it and however it is capitalised.
pub open spec fn is_offered(offered: Seq<char>, name: Seq<char>) -> bool {
    exists|i: int|
        0 <= i < pieces(offered, ',').len() && equal_ignoring_case(
            trimmed(#[trigger] pieces(offered, ',')[i]),
            name,
        )
}

/// Of the protocols that are offered the current one is taken before the old one, and no other is.
pub proof fn current_protocol_is_preferred(offered: Seq<char>)
    ensures
        selected_protocol(None) is None,
        is_offered(offered, "mqtt"@) ==> selected_protocol(Some(offered)) == Some("mqtt"@),
        !is_offered(offered, "mqtt"@) && is_offered(offered, "mqttv3.1"@) ==> selected_protocol(
            Some(offered),
        ) == Some("mqttv3.1"@),
        !is_offered(offered, "mqtt"@) && !is_offered(offered, "mqttv3.1"@) ==> selected_protocol(
            Some(offered),
        ) is None,
{
    assert(offers(offered, "mqtt"@) == is_offered(offered, "mqtt"@));
    assert(offers(offered, "mqttv3.1"@) == is_offered(offered, "mqttv3.1"@));
}

/// A request is accepted on the path that is served if it offers a protocol that is known, and then
/// frames are; anything else by HTTP is rejected, and frames before that close the connection.
pub proof fn websocket_is_agreed_on(
    path: Seq<char>,
    accepted: bool,
    limit: usize,
    input: WebSocketInput,
)
    ensures
        ({
            let (after, action) = websocket_handled(path, accepted, limit, input);
            &&& input is Http ==> after == accepted && (
            action matches ActionView::RejectHttp { status, .. } && status == 404)
            &&& input matches WebSocketInput::Handshake { path: asked, protocols } ==> {
                &&& asked@ != path ==> after == accepted && (
                action matches ActionView::RejectHttp { status, .. } && status == 404)
                &&& asked@ == path ==> match selected_protocol(protocols.deep_view()) {
                    Some(protocol) => after && action == (ActionView::Accept { protocol }),
                    None => after == accepted && (
                    action matches ActionView::RejectHttp { status, .. } && status == 400),
                }
            }
            &&& !(input is Http) && !(input is Handshake) ==> after == accepted
            &&& !(input is Http) && !(input is Handshake) && !accepted ==> (
            action matches ActionView::CloseWith { code, .. } && code == 1002)
        }),
{
}

/// Where frames are accepted, one with bytes holds just one packet, which is handled; one with text
/// closes the connection; a ping is answered with its bytes; an answer is passed over; and a
/// farewell is returned.
pub proof fn frames_are_handled(path: Seq<char>, limit: usize, input: WebSocketInput)
    ensures
        ({
            let action = websocket_handled(path, true, limit, input).1;
            &&& input matches WebSocketInput::Binary(bytes) ==> match mqtt_decoding(
                bytes@,
                limit as nat,
            ) {
                Ok(Some((packet, rest))) => if rest == 0 {
                    action == ActionView::Handle(packet)
                } else {
                    action is Fail
                },
                Ok(None) => action is Fail,
                Err(error) => action == ActionView::Fail(error),
            }
            &&& input is Text ==> (action matches ActionView::CloseWith { code, .. } && code
                == 1003)
            &&& input matches WebSocketInput::Ping(bytes) ==> action == ActionView::SendPong(
                bytes@,
            )
            &&& input is Pong ==> action is Ignore
            &&& input is Close ==> action is EchoClose
        }),
{
}

/// Only those whose name and password do not fit, and those who want to exchange further
/// credentials, are counted as having failed to come in, under different names.
pub proof fn failures_are_counted(code: u8)
    ensures
        failure_counted(code).len() == if code == 0x86 || code == 0x8c {
            1int
        } else {
            0
        },
        failure_counted(code).len() == 1 ==> failure_counted(code)[0] == EffectView::AuthFailed(
            auth_failure_name(code),
        ),
        auth_failure_name(0x86) == "bad_username_or_password"@,
        auth_failure_name(0x8c) == "bad_authentication_method"@,
{
}

/// The publications that sessions hold are counted by what they wait for: to be sent, to be
/// acknowledged, and to be received or completed.
pub proof fn publications_are_counted(
    entries: Seq<(Seq<char>, SessionView)>,
    client_id: Seq<char>,
    session: SessionView,
)
    ensures
        session_counts(Seq::empty()) == (0nat, 0nat, 0nat),
        ({
            let before = session_counts(entries);
            let after = session_counts(entries.push((client_id, session)));
            &&& after.0 == before.0 + session.offline_queue.len()
            &&& after.1 == before.1 + session.outbound_qos1.dom().len()
            &&& after.2 == before.2 + session.outbound_qos2_publish.dom().len()
                + session.outbound_qos2_pubrel.len()
        }),
{
    assert(entries.push((client_id, session)).drop_last() =~= entries);
}

/// A retained message is kept ready to be sent if it needs no acknowledgement, has no properties
/// and can be written at all: as the bytes of its packet, marked as retained.
pub proof fn plain_messages_are_kept_ready(
    qos: QoS,
    topic_name: Seq<char>,
    properties: Seq<PropertyView>,
    payload: Seq<u8>,
    expires_at_ms: Option<u64>,
)
    ensures
        ({
            let message = retained_view(qos, topic_name, properties, payload, expires_at_ms);
            let name = encode_utf8(topic_name);
            let length = 3 + name.len() + payload.len();
            let plain = qos == QoS::AtMostOnce && properties.len() == 0 && name.len() <= 65_535
                && length <= 268_435_455;
            &&& message.qos == qos
            &&& message.topic_name == topic_name
            &&& message.properties == properties
            &&& message.payload == payload
            &&& message.expires_at_ms == expires_at_ms
            &&& message.preencoded_qos0 is Some <==> plain
            &&& message.preencoded_qos0 matches Some(bytes) ==> {
                let start = bytes.len() - length;
                &&& 2 <= start <= 5
                &&& bytes[0] == 0x31
                &&& bytes[start] * 256 + bytes[start + 1] == name.len()
                &&& bytes.subrange(start + 2, start + 2 + name.len()) == name
                &&& bytes[start + 2 + name.len()] == 0
                &&& bytes.subrange(start + 3 + name.len(), bytes.len() as int) == payload
            }
        }),
{
    let message = retained_view(qos, topic_name, properties, payload, expires_at_ms);
    let name = encode_utf8(topic_name);
    if let Some(bytes) = message.preencoded_qos0 {
        plain_size_is_length(0x31, topic_name, payload);
        let start = bytes.len() - (3 + name.len() + payload.len());
        assert(bytes.subrange(start + 2, start + 2 + name.len()) =~= name);
        assert(bytes.subrange(start + 3 + name.len(), bytes.len() as int) =~= payload);
    }
}

/// A client that comes back is sent again what it had in flight, and then what waited for it, all
/// to its connection; what has expired is dropped, and nobody else's session changes.
pub proof fn returning_client_is_caught_up(
    state: StateView,
    client_id: Seq<char>,
    now_ms: u64,
)
    requires
        within_reach(state, client_id),
    ensures
        ({
            let (after, sent) = redelivered(state, client_id, now_ms);
            let connection_id = state.connections[client_id];
            let client = state.clients[connection_id];
            let kept = without_stale(state.sessions[client_id], now_ms);
            let again = resent_to(kept, client.receive_maximum, client.maximum_packet_size);
            let drawn = flushed(
                kept,
                client.receive_maximum,
                client.maximum_packet_size,
                now_ms,
                Seq::empty(),
            );
            &&& sent.len() == again.len() + drawn.1.len()
            &&& forall|i: int|
                0 <= i < again.len() ==> #[trigger] sent[i] == sent_to(connection_id, again[i])
            &&& forall|i: int|
                again.len() <= i < sent.len() ==> #[trigger] sent[i] == sent_to(
                    connection_id,
                    drawn.1[i - again.len()],
                )
            &&& after == (StateView {
                sessions: state.sessions.insert(client_id, drawn.0),
                client_changes: after.client_changes,
                ..state
            })
        }),
{
}

/// A quality of service is labelled with its number.
pub proof fn qualities_are_labelled(qos: QoS)
    ensures
        qos_label(qos).len() == 1,
        qos_label(qos)[0] == match qos {
            QoS::AtMostOnce => '0',
            QoS::AtLeastOnce => '1',
            QoS::ExactlyOnce => '2',
        },
{
    reveal_strlit("0");
    reveal_strlit("1");
    reveal_strlit("2");
}

} // verus!
