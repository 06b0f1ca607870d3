//! The sessions of the shards.
use vstd::prelude::*;

use crate::ordered_map::OrderedMap;
use crate::ordered_map::ascending;
use crate::ordered_map::has_key;
use crate::ordered_map::key_has_entry;
use crate::ordered_map::key_index;
use crate::ordered_map::map_of;
use crate::ordered_map::map_of_entry;
use crate::storage::delta::lookup;
use crate::value::Value;
use crate::vnext::durable_state::RecoveredDurableState;
use crate::vnext::durable_state::RecoveredSession;

verus! {

/// A session.
#[derive(Debug, PartialEq)]
pub struct SessionActor {
    pub client_id: String,
    pub shard_id: usize,
    pub connected: bool,
    pub session_expiry_interval: u32,
    pub expires_at_ms: Option<u64>,
    pub next_packet_id: u16,
    pub outbound_queue_len: usize,
    pub inflight_len: usize,
}

/// What a `SessionActor` stands for.
pub struct ActorView {
    pub client_id: Seq<char>,
    pub shard_id: usize,
    pub connected: bool,
    pub session_expiry_interval: u32,
    pub expires_at_ms: Option<u64>,
    pub next_packet_id: u16,
    pub outbound_queue_len: usize,
    pub inflight_len: usize,
}

impl DeepView for SessionActor {
    type V = ActorView;

    open spec fn deep_view(&self) -> ActorView {
        ActorView {
            client_id: self.client_id.deep_view(),
            shard_id: self.shard_id.deep_view(),
            connected: self.connected.deep_view(),
            session_expiry_interval: self.session_expiry_interval.deep_view(),
            expires_at_ms: self.expires_at_ms.deep_view(),
            next_packet_id: self.next_packet_id.deep_view(),
            outbound_queue_len: self.outbound_queue_len.deep_view(),
            inflight_len: self.inflight_len.deep_view(),
        }
    }
}

impl Value for SessionActor {
    fn dup(&self) -> (copy: Self) {
        SessionActor {
            client_id: self.client_id.dup(),
            shard_id: self.shard_id.dup(),
            connected: self.connected.dup(),
            session_expiry_interval: self.session_expiry_interval.dup(),
            expires_at_ms: self.expires_at_ms.dup(),
            next_packet_id: self.next_packet_id.dup(),
            outbound_queue_len: self.outbound_queue_len.dup(),
            inflight_len: self.inflight_len.dup(),
        }
    }

    fn same(&self, other: &Self) -> (result: bool) {
        self.client_id.same(&other.client_id)
            && self.shard_id.same(&other.shard_id)
            && self.connected.same(&other.connected)
            && self.session_expiry_interval.same(&other.session_expiry_interval)
            && self.expires_at_ms.same(&other.expires_at_ms)
            && self.next_packet_id.same(&other.next_packet_id)
            && self.outbound_queue_len.same(&other.outbound_queue_len)
            && self.inflight_len.same(&other.inflight_len)
    }
}

/// The session of a client that is not connected.
pub open spec fn recovered_actor(client_id: Seq<char>, session: RecoveredSession) -> ActorView {
    ActorView {
        client_id,
        shard_id: 0,
        connected: false,
        session_expiry_interval: session.session_expiry_interval,
        expires_at_ms: session.expires_at_ms,
        next_packet_id: session.next_packet_id,
        outbound_queue_len: 0,
        inflight_len: 0,
    }
}

/// The session of a client that connects: the one that it had, or a new one.
pub open spec fn connected_actor(
    session: Option<ActorView>,
    client_id: Seq<char>,
    shard_id: usize,
    session_expiry_interval: u32,
) -> ActorView {
    match session {
        Some(session) => ActorView {
            connected: true,
            shard_id,
            session_expiry_interval,
            expires_at_ms: None,
            ..session
        },
        None => ActorView {
            client_id,
            shard_id,
            connected: true,
            session_expiry_interval,
            expires_at_ms: None,
            next_packet_id: 1,
            outbound_queue_len: 0,
            inflight_len: 0,
        },
    }
}

/// Sessions by client.
pub struct SessionTable {
    sessions: OrderedMap<String, SessionActor>,
}

impl DeepView for SessionTable {
    type V = Map<Seq<char>, ActorView>;

    closed spec fn deep_view(&self) -> Map<Seq<char>, ActorView> {
        self.sessions.deep_view()
    }
}

impl SessionTable {
    /// No sessions.
    pub fn new() -> (result: Self)
        ensures
            result.deep_view() == Map::<Seq<char>, ActorView>::empty(),
    {
        SessionTable { sessions: OrderedMap::new() }
    }

    /// The sessions that a log gives.
    pub fn from_recovered(recovered: &RecoveredDurableState) -> (result: Self)
        ensures
            result.deep_view() == Map::new(
                |client_id: Seq<char>| recovered.deep_view().sessions.dom().contains(client_id),
                |client_id: Seq<char>|
                    recovered_actor(client_id, recovered.deep_view().sessions[client_id]),
            ),
    {
        let ghost known = recovered.deep_view().sessions;
        let count: usize = recovered.sessions.len();
        let ghost entries = recovered.sessions.entries();
        let mut sessions: OrderedMap<String, SessionActor> = OrderedMap::new();
        let mut index: usize = 0;
        while index < count
            invariant
                index <= count == entries.len(),
                entries == recovered.sessions.entries(),
                ascending::<String, RecoveredSession>(entries),
                map_of(entries) == known,
                known == recovered.deep_view().sessions,
                forall|id: Seq<char>| #[trigger]
                    sessions.deep_view().dom().contains(id) <==> has_key(
                        entries.take(index as int),
                        id,
                    ),
                forall|id: Seq<char>| #[trigger]
                    sessions.deep_view().dom().contains(id) ==> sessions.deep_view()[id]
                        == recovered_actor(id, known[id]),
            decreases count - index,
        {
            let client_id: &String = recovered.sessions.key_at(index);
            let session: &RecoveredSession = recovered.sessions.value_at(index);
            proof {
                map_of_entry::<String, RecoveredSession>(entries, index as int);
                let front = entries.take(index as int);
                let more = entries.take(index + 1);
                assert(more[index as int].0 == client_id@);
                assert forall|id: Seq<char>| #[trigger] has_key(more, id) <==> has_key(front, id)
                    || id == client_id@ by {
                    if has_key(front, id) {
                        let i = key_index(front, id);
                        assert(more[i].0 == id);
                    }
                    if has_key(more, id) && id != client_id@ {
                        let i = key_index(more, id);
                        assert(front[i].0 == id);
                    }
                }
            }
            sessions.insert(
                client_id.dup(),
                SessionActor {
                    client_id: client_id.dup(),
                    shard_id: 0,
                    connected: false,
                    session_expiry_interval: session.session_expiry_interval,
                    expires_at_ms: session.expires_at_ms,
                    next_packet_id: session.next_packet_id,
                    outbound_queue_len: 0,
                    inflight_len: 0,
                },
            );
            index += 1;
        }
        proof {
            assert(entries.take(index as int) =~= entries);
            let goal = Map::new(
                |client_id: Seq<char>| known.dom().contains(client_id),
                |client_id: Seq<char>| recovered_actor(client_id, known[client_id]),
            );
            assert forall|id: Seq<char>| #[trigger] sessions.deep_view().dom().contains(id)
                <==> goal.dom().contains(id) by {
                if known.dom().contains(id) {
                    key_has_entry(entries, id);
                }
            }
            assert(sessions.deep_view() =~= goal);
        }
        SessionTable { sessions }
    }

    /// Takes note that a client connected to a shard. Returns its session.
    pub fn upsert_connected(
        &mut self,
        client_id: &str,
        shard_id: usize,
        session_expiry_interval: u32,
    ) -> (result: SessionActor)
        ensures
            result.deep_view() == connected_actor(
                lookup(old(self).deep_view(), client_id@),
                client_id@,
                shard_id,
                session_expiry_interval,
            ),
            final(self).deep_view() == old(self).deep_view().insert(
                client_id@,
                result.deep_view(),
            ),
    {
        let ghost before = self.sessions.deep_view();
        let key: String = client_id.to_owned();
        let session: SessionActor = match self.sessions.remove(&key) {
            Some(mut session) => {
                session.connected = true;
                session.shard_id = shard_id;
                session.session_expiry_interval = session_expiry_interval;
                session.expires_at_ms = None;
                session
            },
            None => SessionActor {
                client_id: key.dup(),
                shard_id,
                connected: true,
                session_expiry_interval,
                expires_at_ms: None,
                next_packet_id: 1,
                outbound_queue_len: 0,
                inflight_len: 0,
            },
        };
        let copy: SessionActor = session.dup();
        let ghost view = session.deep_view();
        self.sessions.insert(key, session);
        assert(before.remove(client_id@).insert(client_id@, view) =~= before.insert(
            client_id@,
            view,
        ));
        copy
    }

    /// Sets the packet identifier that a client's session goes on with. Returns whether there is
    /// such a session.
    pub fn set_next_packet_id(&mut self, client_id: &str, next_packet_id: u16) -> (result: bool)
        ensures
            result == old(self).deep_view().dom().contains(client_id@),
            final(self).deep_view() == (match lookup(old(self).deep_view(), client_id@) {
                Some(session) => old(self).deep_view().insert(
                    client_id@,
                    ActorView { next_packet_id, ..session },
                ),
                None => old(self).deep_view(),
            }),
    {
        let ghost before = self.sessions.deep_view();
        let key: String = client_id.to_owned();
        match self.sessions.remove(&key) {
            Some(mut session) => {
                session.next_packet_id = next_packet_id;
                let ghost view = session.deep_view();
                self.sessions.insert(key, session);
                assert(before.remove(client_id@).insert(client_id@, view) =~= before.insert(
                    client_id@,
                    view,
                ));
                true
            },
            None => {
                assert(before.remove(client_id@) =~= before);
                false
            },
        }
    }

    /// Takes note that a client is gone.
    pub fn disconnect(&mut self, client_id: &str, expires_at_ms: Option<u64>)
        ensures
            final(self).deep_view() == (match lookup(old(self).deep_view(), client_id@) {
                Some(session) => old(self).deep_view().insert(
                    client_id@,
                    ActorView { connected: false, expires_at_ms, ..session },
                ),
                None => old(self).deep_view(),
            }),
    {
        let ghost before = self.sessions.deep_view();
        let key: String = client_id.to_owned();
        match self.sessions.remove(&key) {
            Some(mut session) => {
                session.connected = false;
                session.expires_at_ms = expires_at_ms;
                let ghost view = session.deep_view();
                self.sessions.insert(key, session);
                assert(before.remove(client_id@).insert(client_id@, view) =~= before.insert(
                    client_id@,
                    view,
                ));
            },
            None => {
                assert(before.remove(client_id@) =~= before);
            },
        }
    }

    /// The session of a client.
    pub fn get(&self, client_id: &str) -> (result: Option<&SessionActor>)
        ensures
            match result {
                Some(session) => lookup(self.deep_view(), client_id@) == Some(session.deep_view()),
                None => lookup(self.deep_view(), client_id@) is None,
            },
    {
        let key: String = client_id.to_owned();
        self.sessions.get(&key)
    }

    /// The number of sessions.
    pub fn len(&self) -> (result: usize)
        ensures
            self.deep_view().dom().finite(),
            result == self.deep_view().len(),
    {
        self.sessions.len()
    }
}

/// A client that comes back finds its session as it left it, but for the shard, for how long the
/// session lasts, and for being connected again.
pub proof fn session_survives_reconnect(
    session: ActorView,
    expires_at_ms: Option<u64>,
    shard_id: usize,
    session_expiry_interval: u32,
)
    ensures
        connected_actor(
            Some(ActorView { connected: false, expires_at_ms, ..session }),
            session.client_id,
            shard_id,
            session_expiry_interval,
        ) == (ActorView {
            shard_id,
            session_expiry_interval,
            connected: true,
            expires_at_ms: None,
            ..session
        }),
{
}

} // verus!
