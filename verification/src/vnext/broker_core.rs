//! The broker core: shards, the subscriptions' index, sessions and their log.
use vstd::prelude::*;
use vstd::string::StringExecFns;
use vstd::string::StringSliceAdditionalSpecFns;
use vstd::utf8::encode_utf8;

use crate::ordered_map::OrderedKey;
use crate::ordered_map::ascending;
use crate::ordered_map::entries_of;
use crate::ordered_map::key_has_entry;
use crate::ordered_map::key_index;
use crate::ordered_map::map_of;
use crate::ordered_map::map_of_entry;
use crate::ordered_map::map_prefix;
use crate::protocol::filter_matches;
use crate::protocol::match_filter_of;
use crate::protocol::valid_topic_filter;
use crate::storage::delta::lookup;
use crate::storage::log::BALANCED_COMMIT_RECORDS;
use crate::storage::log::CommitPolicy;
use crate::storage::log::flush_due;
use crate::vnext::durable_state::log_replays;
use crate::value::Value;
use crate::vnext::durable_log::DurableLogEvent;
use crate::vnext::durable_log::EventView;
use crate::vnext::durable_log::MAGIC;
use crate::vnext::durable_log::event_bytes;
use crate::vnext::durable_state::DurableLog;
use crate::vnext::durable_state::LogWrite;
use crate::vnext::durable_state::RecoveredDurableState;
use crate::vnext::durable_state::all_happened;
use crate::vnext::durable_state::cut_record;
use crate::vnext::durable_state::keys_agree;
use crate::vnext::durable_state::log_replayed;
use crate::vnext::durable_state::nothing_happened;
use crate::vnext::durable_state::record_bytes;
use crate::vnext::durable_state::recordable;
use crate::vnext::durable_state::records_of;
use crate::vnext::durable_state::replay_keeps_keys;
use crate::vnext::routing::Live;
use crate::vnext::routing::RouteSubscription;
use crate::vnext::routing::RouteView;
use crate::vnext::routing::RouterIndex;
use crate::vnext::routing::is_route;
use crate::vnext::routing::keys_differ;
use crate::vnext::routing::route_position;
use crate::vnext::routing::route_position_inside;
use crate::vnext::routing::route_put;
use crate::vnext::routing::route_removed;
use crate::vnext::session_table::ActorView;
use crate::vnext::session_table::SessionTable;
use crate::vnext::session_table::recovered_actor;
use crate::vnext::shard::CommandView;
use crate::vnext::shard::ShardRuntime;

verus! {

/// What the hash of nothing is.
pub const HASH_BASIS: u64 = 0xcbf2_9ce4_8422_2325;

/// What the hash is multiplied by for each byte.
pub const HASH_PRIME: u64 = 0x0000_0100_0000_01b3;

/// The hash of some bytes, by the FNV-1a rule.
pub open spec fn hash_of(bytes: Seq<u8>) -> u64
    decreases bytes.len(),
{
    if bytes.len() == 0 {
        HASH_BASIS
    } else {
        vstd::wrapping::u64_specs::wrapping_mul(
            hash_of(bytes.drop_last()) ^ (bytes.last() as u64),
            HASH_PRIME,
        )
    }
}

/// The hash of a text.
fn stable_hash(value: &str) -> (result: u64)
    ensures
        result == hash_of(encode_utf8(value@)),
{
    let bytes: &[u8] = value.as_bytes();
    let mut hash: u64 = HASH_BASIS;
    let mut index: usize = 0;
    while index < bytes.len()
        invariant
            index <= bytes@.len(),
            hash == hash_of(bytes@.take(index as int)),
        decreases bytes@.len() - index,
    {
        proof {
            assert(bytes@.take(index + 1).drop_last() =~= bytes@.take(index as int));
            assert(bytes@.take(index + 1).last() == bytes@[index as int]);
        }
        hash = hash ^ (bytes[index] as u64);
        hash = hash.wrapping_mul(HASH_PRIME);
        index += 1;
    }
    assert(bytes@.take(index as int) =~= bytes@);
    hash
}

/// The broker core.
pub struct BrokerCore {
    shards: Vec<ShardRuntime>,
    router: RouterIndex,
    sessions: SessionTable,
    durable_log: Option<DurableLog>,
}

/// The shards, at least one, numbered from zero.
fn build_shards(worker_threads: usize) -> (result: Vec<ShardRuntime>)
    ensures
        result@.len() == (if worker_threads == 0 {
            1
        } else {
            worker_threads as int
        }),
        forall|i: int|
            0 <= i < result@.len() ==> (#[trigger] result@[i]).number() == i && result@[i].queue()
                == Seq::<CommandView>::empty(),
{
    let count: usize = if worker_threads == 0 {
        1
    } else {
        worker_threads
    };
    let mut shards: Vec<ShardRuntime> = Vec::new();
    let mut index: usize = 0;
    while index < count
        invariant
            index <= count,
            shards@.len() == index,
            forall|i: int|
                0 <= i < index ==> (#[trigger] shards@[i]).number() == i && shards@[i].queue()
                    == Seq::<CommandView>::empty(),
        decreases count - index,
    {
        shards.push(ShardRuntime::new(index));
        index += 1;
    }
    shards
}

/// The event of a subscription that is put.
pub open spec fn upsert_event(route: RouteView) -> EventView {
    EventView::SubscriptionUpsert {
        client_id: route.client_id,
        filter: route.filter,
        match_filter: route.match_filter,
        shared_group: route.shared_group,
        subscription_identifier: route.subscription_identifier,
    }
}

/// The subscriptions of a log that match by a filter, put one after the other.
pub open spec fn routes_put(
    entries: Seq<((Seq<char>, Seq<char>), RouteView)>,
    filter: Seq<char>,
) -> Seq<RouteView>
    decreases entries.len(),
{
    if entries.len() == 0 {
        Seq::empty()
    } else {
        let front = routes_put(entries.drop_last(), filter);
        let route = entries.last().1;
        if valid_topic_filter(route.filter) && filter == route.match_filter {
            route_put(front, route)
        } else {
            front
        }
    }
}

/// The subscriptions of a log that may be subscribed to are sent to.
pub open spec fn routes_known(
    router: RouterIndex,
    subscriptions: Map<(Seq<char>, Seq<char>), RouteView>,
) -> bool {
    forall|key: (Seq<char>, Seq<char>)| #[trigger]
        subscriptions.dom().contains(key) && valid_topic_filter(subscriptions[key].filter)
            ==> router.under(subscriptions[key].match_filter).contains(subscriptions[key])
}

/// Each subscription matches by the filter that its own filter tells.
pub open spec fn routes_proper(subscriptions: Live) -> bool {
    forall|key: (Seq<char>, Seq<char>)| #[trigger]
        subscriptions.dom().contains(key) ==> {
            let route = subscriptions[key];
            &&& route.match_filter == match_filter_of(route.filter)
            &&& valid_topic_filter(route.filter) ==> valid_topic_filter(route.match_filter)
        }
}

/// The subscriptions whose filter may be subscribed to.
pub open spec fn routable(subscriptions: Live) -> Live {
    Map::new(
        |key: (Seq<char>, Seq<char>)|
            subscriptions.dom().contains(key) && valid_topic_filter(subscriptions[key].filter),
        |key: (Seq<char>, Seq<char>)| subscriptions[key],
    )
}

impl BrokerCore {
    /// The core is in order: it has a shard, and its index agrees with itself.
    pub closed spec fn wf(&self) -> bool {
        &&& self.shards@.len() > 0
        &&& self.router.wf()
        &&& self.durable_log matches Some(log) ==> log.pending_balanced_records
            < BALANCED_COMMIT_RECORDS
    }

    /// The number of shards.
    pub closed spec fn shard_total(&self) -> nat {
        self.shards@.len()
    }

    /// The subscriptions' index.
    pub closed spec fn routes(&self) -> RouterIndex {
        self.router
    }

    /// The sessions.
    pub closed spec fn known_sessions(&self) -> Map<Seq<char>, ActorView> {
        self.sessions.deep_view()
    }

    /// The log.
    pub closed spec fn log(&self) -> Option<DurableLog> {
        self.durable_log
    }

    /// The index of a core in order is in order.
    pub proof fn index_is_in_order(&self)
        requires
            self.wf(),
        ensures
            self.routes().wf(),
            self.shard_total() > 0,
    {
    }

    /// A core without a log.
    pub fn in_memory(worker_threads: usize) -> (result: Self)
        ensures
            result.wf(),
            result.routes().wf(),
            result.shard_total() == (if worker_threads == 0 {
                1
            } else {
                worker_threads as int
            }),
            result.log() is None,
            result.known_sessions() == Map::<Seq<char>, ActorView>::empty(),
            forall|filter: Seq<char>|
                (#[trigger] result.routes().under(filter)) == Seq::<RouteView>::empty(),
    {
        BrokerCore {
            shards: build_shards(worker_threads),
            router: RouterIndex::new(),
            sessions: SessionTable::new(),
            durable_log: None,
        }
    }

    /// A core with a log that has been read; a log that was not there is read as no bytes.
    pub fn with_wal(worker_threads: usize, log: &[u8], commit_policy: CommitPolicy) -> (result:
        Result<Self, String>)
        ensures
            match log_replayed(log@) {
                Err(message) => result matches Err(found) && found@ == message,
                Ok(recovered) => result matches Ok(core) && {
                    &&& core.wf()
                    &&& core.routes().wf()
                    &&& routes_proper(recovered.subscriptions) ==> core.routes().tracks(
                        routable(recovered.subscriptions),
                    )
                    &&& core.shard_total() == (if worker_threads == 0 {
                        1
                    } else {
                        worker_threads as int
                    })
                    &&& core.log() == Some(
                        DurableLog { commit_policy, pending_balanced_records: 0 },
                    )
                    &&& core.known_sessions() == Map::new(
                        |client_id: Seq<char>| recovered.sessions.dom().contains(client_id),
                        |client_id: Seq<char>|
                            recovered_actor(client_id, recovered.sessions[client_id]),
                    )
                    &&& forall|filter: Seq<char>|
                        (#[trigger] core.routes().under(filter)) == routes_put(
                            entries_of::<(String, String), RouteView>(recovered.subscriptions),
                            filter,
                        )
                    &&& routes_known(core.routes(), recovered.subscriptions)
                    &&& forall|filter: Seq<char>, route: RouteView| #[trigger]
                        core.routes().under(filter).contains(route) ==> exists|
                            key: (Seq<char>, Seq<char>),
                        | #[trigger]
                            recovered.subscriptions.dom().contains(key)
                                && recovered.subscriptions[key] == route
                },
            },
    {
        let recovered: RecoveredDurableState = DurableLog::replay(log)?;
        let ghost known = recovered.deep_view().subscriptions;
        proof {
            if log@.len() >= 7 && log@.take(7) == MAGIC@ {
                replay_keeps_keys(nothing_happened(), log@.skip(7));
            }
            assert(keys_agree(recovered.deep_view()));
        }
        let mut router: RouterIndex = RouterIndex::new();
        let count: usize = recovered.subscriptions.len();
        let ghost entries = recovered.subscriptions.entries();
        let mut index: usize = 0;
        proof {
            router.new_index_is_empty();
            assert(map_of(entries.take(0)) =~= Map::<(Seq<char>, Seq<char>), RouteView>::empty());
            assert(routable(map_of(entries.take(0)))
                =~= Map::<(Seq<char>, Seq<char>), RouteView>::empty());
        }
        while index < count
            invariant
                index <= count == entries.len(),
                entries == recovered.subscriptions.entries(),
                ascending::<(String, String), RouteView>(entries),
                map_of(entries) == known,
                known == recovered.deep_view().subscriptions,
                keys_agree(recovered.deep_view()),
                router.wf(),
                routes_proper(known) ==> router.tracks(
                    routable(map_of(entries.take(index as int))),
                ),
                forall|filter: Seq<char>|
                    (#[trigger] router.under(filter)) == routes_put(
                        entries.take(index as int),
                        filter,
                    ),
                forall|i: int|
                    0 <= i < index && valid_topic_filter((#[trigger] entries[i]).1.filter)
                        ==> router.under(entries[i].1.match_filter).contains(entries[i].1),
                forall|filter: Seq<char>, route: RouteView| #[trigger]
                    router.under(filter).contains(route) ==> exists|i: int|
                        0 <= i < index && (#[trigger] entries[i]).1 == route,
            decreases count - index,
        {
            let ghost before = router;
            let route: RouteSubscription = recovered.subscriptions.value_at(index).dup();
            let ghost view = route.deep_view();
            router.insert(route);
            proof {
                map_of_entry::<(String, String), RouteView>(entries, index as int);
                assert(entries[index as int].1 == view);
                assert(entries.take(index + 1).drop_last() =~= entries.take(index as int));
                assert(entries.take(index + 1).last() == entries[index as int]);
                assert(known.dom().contains(entries[index as int].0));
                map_prefix::<(String, String), RouteView>(entries, index as int);
                if routes_proper(known) {
                    let so_far = map_of(entries.take(index as int));
                    let key = entries[index as int].0;
                    before.inserted_is_held(&router, view, routable(so_far));
                    assert(routable(so_far.insert(key, view)) =~= (if valid_topic_filter(
                        view.filter,
                    ) {
                        routable(so_far).insert(key, view)
                    } else {
                        routable(so_far)
                    })) by {
                        assert(!so_far.dom().contains(key)) by {
                            if so_far.dom().contains(key) {
                                let head = entries.take(index as int);
                                key_has_entry(head, key);
                                let k = key_index(head, key);
                                assert(head[k] == entries[k]);
                                <(String, String) as OrderedKey>::before_irreflexive(key);
                                assert(<(String, String) as OrderedKey>::before(
                                    entries[k].0,
                                    entries[index as int].0,
                                ));
                            }
                        }
                    }
                }
                assert forall|i: int|
                    0 <= i < index + 1 && valid_topic_filter(
                        (#[trigger] entries[i]).1.filter,
                    ) implies router.under(entries[i].1.match_filter).contains(
                    entries[i].1,
                ) by {
                    let list = before.under(entries[i].1.match_filter);
                    if i < index {
                        map_of_entry::<(String, String), RouteView>(entries, i);
                        assert(known.dom().contains(entries[i].0));
                        <(String, String) as OrderedKey>::before_irreflexive(entries[i].0);
                        assert(<(String, String) as OrderedKey>::before(
                            entries[i].0,
                            entries[index as int].0,
                        ));
                        assert(!is_route(entries[i].1, view.client_id, view.filter));
                        if valid_topic_filter(view.filter) && entries[i].1.match_filter
                            == view.match_filter {
                            put_keeps_others(list, view, entries[i].1);
                        }
                    } else {
                        put_holds(list, view);
                    }
                }
                assert forall|filter: Seq<char>, found: RouteView| #[trigger]
                    router.under(filter).contains(found) implies exists|i: int|
                    0 <= i < index + 1 && (#[trigger] entries[i]).1 == found by {
                    if before.under(filter).contains(found) {
                        let i = choose|i: int|
                            0 <= i < index && (#[trigger] entries[i]).1 == found;
                        assert(0 <= i < index + 1 && entries[i].1 == found);
                    } else {
                        put_adds_only(before.under(filter), view, found);
                        assert(entries[index as int].1 == found);
                    }
                }
            }
            index += 1;
        }
        proof {
            assert(entries.take(index as int) =~= entries);
            assert forall|key: (Seq<char>, Seq<char>)| #[trigger]
                known.dom().contains(key) && valid_topic_filter(
                    known[key].filter,
                ) implies router.under(known[key].match_filter).contains(known[key]) by {
                key_has_entry(entries, key);
            }
            assert forall|filter: Seq<char>, route: RouteView| #[trigger]
                router.under(filter).contains(route) implies exists|
                key: (Seq<char>, Seq<char>),
            | #[trigger] known.dom().contains(key) && known[key] == route by {
                let i = choose|i: int| 0 <= i < index && (#[trigger] entries[i]).1 == route;
                map_of_entry::<(String, String), RouteView>(entries, i);
                assert(known.dom().contains(entries[i].0));
            }
        }
        Ok(
            BrokerCore {
                shards: build_shards(worker_threads),
                router,
                sessions: SessionTable::from_recovered(&recovered),
                durable_log: Some(DurableLog::open(commit_policy)),
            },
        )
    }

    /// The number of shards.
    pub fn shard_count(&self) -> (result: usize)
        ensures
            result == self.shard_total(),
    {
        self.shards.len()
    }

    /// The shard of a client.
    pub fn shard_for_client(&self, client_id: &str) -> (result: usize)
        requires
            self.wf(),
        ensures
            result == (hash_of(encode_utf8(client_id@)) as usize) as nat % self.shard_total(),
            result < self.shard_total(),
    {
        stable_hash(client_id) as usize % self.shards.len()
    }

    /// What is written before a subscription is put: nothing where there is no log.
    pub fn log_upsert(&mut self, route: &RouteSubscription) -> (result: Result<
        Option<LogWrite>,
        &'static str,
    >)
        requires
            old(self).wf(),
        ensures
            final(self).wf(),
            final(self).routes().wf(),
            final(self).routes() == old(self).routes(),
            final(self).known_sessions() == old(self).known_sessions(),
            final(self).shard_total() == old(self).shard_total(),
            logs(old(self).log(), final(self).log(), upsert_event(route.deep_view()), result),
    {
        let event: DurableLogEvent = DurableLogEvent::SubscriptionUpsert {
            client_id: route.client_id.dup(),
            filter: route.filter.dup(),
            match_filter: route.match_filter.dup(),
            shared_group: route.shared_group.dup(),
            subscription_identifier: route.subscription_identifier,
        };
        self.log_event(&event)
    }

    /// What is written before a subscription is removed: nothing where there is no log.
    pub fn log_delete(&mut self, client_id: &str, filter: &str) -> (result: Result<
        Option<LogWrite>,
        &'static str,
    >)
        requires
            old(self).wf(),
        ensures
            final(self).wf(),
            final(self).routes().wf(),
            final(self).routes() == old(self).routes(),
            final(self).known_sessions() == old(self).known_sessions(),
            final(self).shard_total() == old(self).shard_total(),
            logs(
                old(self).log(),
                final(self).log(),
                EventView::SubscriptionDelete { client_id: client_id@, filter: filter@ },
                result,
            ),
    {
        let event: DurableLogEvent = DurableLogEvent::SubscriptionDelete {
            client_id: client_id.to_owned(),
            filter: filter.to_owned(),
        };
        self.log_event(&event)
    }

    fn log_event(&mut self, event: &DurableLogEvent) -> (result: Result<
        Option<LogWrite>,
        &'static str,
    >)
        requires
            old(self).wf(),
        ensures
            final(self).wf(),
            final(self).routes() == old(self).routes(),
            final(self).known_sessions() == old(self).known_sessions(),
            final(self).shard_total() == old(self).shard_total(),
            logs(old(self).log(), final(self).log(), event.deep_view(), result),
    {
        let mut log: DurableLog = match self.durable_log {
            Some(log) => log,
            None => return Ok(None),
        };
        match log.append(event) {
            Some(write) => {
                self.durable_log = Some(log);
                Ok(Some(write))
            },
            None => Err("WAL event has no binary form"),
        }
    }

    /// Puts a subscription.
    pub fn upsert_subscription(&mut self, route: RouteSubscription)
        requires
            old(self).wf(),
        ensures
            final(self).wf(),
            final(self).routes().wf(),
            final(self).log() == old(self).log(),
            final(self).known_sessions() == old(self).known_sessions(),
            final(self).shard_total() == old(self).shard_total(),
            forall|filter: Seq<char>|
                (#[trigger] final(self).routes().under(filter)) == (if valid_topic_filter(
                    route.deep_view().filter,
                ) && filter == route.deep_view().match_filter {
                    route_put(old(self).routes().under(filter), route.deep_view())
                } else {
                    old(self).routes().under(filter)
                }),
    {
        self.router.insert(route);
    }

    /// Removes a subscription.
    pub fn delete_subscription(&mut self, client_id: &str, filter: &str)
        requires
            old(self).wf(),
        ensures
            final(self).wf(),
            final(self).routes().wf(),
            final(self).log() == old(self).log(),
            final(self).known_sessions() == old(self).known_sessions(),
            final(self).shard_total() == old(self).shard_total(),
            forall|matched: Seq<char>|
                (#[trigger] final(self).routes().under(matched)) == (if matched
                    == match_filter_of(filter@) {
                    route_removed(old(self).routes().under(matched), client_id@, filter@)
                } else {
                    old(self).routes().under(matched)
                }),
    {
        self.router.remove(client_id, filter);
    }

    /// The subscriptions that a topic is sent under.
    pub fn match_publish(&self, topic_name: &str) -> (result: Vec<RouteSubscription>)
        requires
            self.wf(),
        ensures
            result.deep_view() == self.routes().matching(topic_name@),
    {
        self.router.matches(topic_name)
    }

    /// Takes note that the log is flushed. Returns whether it must be on disk.
    pub fn flush_storage(&mut self) -> (sync: bool)
        requires
            old(self).wf(),
        ensures
            final(self).wf(),
            final(self).routes().wf(),
            final(self).routes() == old(self).routes(),
            final(self).known_sessions() == old(self).known_sessions(),
            final(self).shard_total() == old(self).shard_total(),
            sync == (old(self).log() matches Some(log) && log.commit_policy != CommitPolicy::Fast),
            final(self).log() == (match old(self).log() {
                Some(log) => Some(DurableLog { pending_balanced_records: 0, ..log }),
                None => None,
            }),
    {
        let mut log: DurableLog = match self.durable_log {
            Some(log) => log,
            None => return false,
        };
        let sync: bool = log.flush();
        self.durable_log = Some(log);
        sync
    }

    /// The sessions.
    pub fn sessions(&self) -> (result: &SessionTable)
        ensures
            result.deep_view() == self.known_sessions(),
    {
        &self.sessions
    }
}

/// An event was logged, or could not be.
pub open spec fn logs(
    before: Option<DurableLog>,
    after: Option<DurableLog>,
    event: EventView,
    result: Result<Option<LogWrite>, &'static str>,
) -> bool {
    match before {
        None => after is None && result == Ok::<Option<LogWrite>, &'static str>(None),
        Some(log) => if recordable(event) {
            &&& result matches Ok(Some(write)) && write.bytes@ == record_bytes(
                event_bytes(event),
            ) && write.sync == flush_due(
                log.commit_policy,
                (log.pending_balanced_records + 1) as nat,
            )
            &&& after matches Some(next) && next.commit_policy == log.commit_policy
                && next.pending_balanced_records == (if log.commit_policy
                == CommitPolicy::Balanced {
                if log.pending_balanced_records + 1 >= BALANCED_COMMIT_RECORDS {
                    0
                } else {
                    log.pending_balanced_records + 1
                }
            } else {
                log.pending_balanced_records as int
            })
        } else {
            result is Err && after == before
        },
    }
}

/// A subscription that is put is there.
proof fn put_holds(routes: Seq<RouteView>, route: RouteView)
    ensures
        route_put(routes, route).contains(route),
{
    route_position_inside(routes, route.client_id, route.filter);
    match route_position(routes, route.client_id, route.filter) {
        Some(index) => {
            assert(routes.update(index, route)[index] == route);
        },
        None => {
            assert(routes.push(route)[routes.len() as int] == route);
        },
    }
}

/// A subscription of another client or under another filter stays.
proof fn put_keeps_others(routes: Seq<RouteView>, route: RouteView, other: RouteView)
    requires
        routes.contains(other),
        !is_route(other, route.client_id, route.filter),
    ensures
        route_put(routes, route).contains(other),
{
    route_position_inside(routes, route.client_id, route.filter);
    let i = choose|i: int| 0 <= i < routes.len() && routes[i] == other;
    assert(route_put(routes, route)[i] == other);
}

/// Nothing else is there than before and what is put.
proof fn put_adds_only(routes: Seq<RouteView>, route: RouteView, found: RouteView)
    requires
        !routes.contains(found),
    ensures
        route_put(routes, route).contains(found) ==> found == route,
{
    route_position_inside(routes, route.client_id, route.filter);
    let after = route_put(routes, route);
    if after.contains(found) && found != route {
        let i = choose|i: int| 0 <= i < after.len() && after[i] == found;
        assert(routes[i] == found);
    }
}

/// Events put subscriptions that match by the filter that their own filter tells.
pub open spec fn events_proper(events: Seq<EventView>) -> bool {
    forall|i: int|
        0 <= i < events.len() ==> ((#[trigger] events[i]) matches EventView::SubscriptionUpsert {
            filter,
            match_filter,
            ..
        } ==> match_filter == match_filter_of(filter) && (valid_topic_filter(filter)
            ==> valid_topic_filter(match_filter)))
}

/// What is known after such events are such subscriptions.
proof fn events_give_proper_routes(events: Seq<EventView>)
    requires
        events_proper(events),
    ensures
        routes_proper(all_happened(nothing_happened(), events).subscriptions),
    decreases events.len(),
{
    if events.len() > 0 {
        let front = events.drop_last();
        assert(events_proper(front)) by {
            assert forall|i: int| 0 <= i < front.len() implies ((
            #[trigger] front[i]) matches EventView::SubscriptionUpsert { filter, match_filter, .. }
                ==> match_filter == match_filter_of(filter) && (valid_topic_filter(filter)
                ==> valid_topic_filter(match_filter))) by {
                assert(front[i] == events[i]);
            }
        }
        events_give_proper_routes(front);
        assert(events[events.len() - 1] == events.last());
        let before = all_happened(nothing_happened(), front).subscriptions;
        let after = all_happened(nothing_happened(), events).subscriptions;
        assert forall|key: (Seq<char>, Seq<char>)| #[trigger]
            after.dom().contains(key) implies ({
            let route = after[key];
            &&& route.match_filter == match_filter_of(route.filter)
            &&& valid_topic_filter(route.filter) ==> valid_topic_filter(route.match_filter)
        }) by {
            if before.dom().contains(key) && after[key] == before[key] {
                assert(routes_proper(before));
            }
        }
    }
}

/// A core that is opened again with the log that was written, whole or cut off inside its last
/// record, sends a topic under just those subscriptions that were put last and not removed since
/// whose filter matches the topic, each once.
pub proof fn logged_subscriptions_are_routed(
    core: &BrokerCore,
    events: Seq<EventView>,
    tail: Seq<u8>,
    topic: Seq<char>,
)
    requires
        forall|i: int| 0 <= i < events.len() ==> recordable(#[trigger] events[i]),
        events_proper(events),
        cut_record(tail),
        core.wf(),
        log_replayed(MAGIC@ + records_of(events) + tail) matches Ok(recovered) && (routes_proper(
            recovered.subscriptions,
        ) ==> core.routes().tracks(routable(recovered.subscriptions))),
    ensures
        ({
            let known = routable(all_happened(nothing_happened(), events).subscriptions);
            let sent = core.routes().matching(topic);
            &&& keys_differ(sent)
            &&& forall|route: RouteView| #[trigger]
                sent.contains(route) <==> lookup(known, (route.client_id, route.filter)) == Some(
                    route,
                ) && filter_matches(route.match_filter, topic)
        }),
{
    log_replays(events, tail);
    events_give_proper_routes(events);
    let known = routable(all_happened(nothing_happened(), events).subscriptions);
    core.routes().matches_are_those_held(known, topic);
}

} // verus!
