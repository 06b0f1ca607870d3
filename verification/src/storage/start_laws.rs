//! What a broker starts from.
use vstd::prelude::*;

use crate::packet::SubscriptionView;
use crate::protocol::valid_topic_name;
use crate::storage::bytes::le;
use crate::storage::bytes::opt_bytes;
use crate::storage::bytes::opt_u64_back;
use crate::storage::bytes::opt_u64_nat;
use crate::storage::bytes::text_back;
use crate::storage::bytes::text_bytes;
use crate::storage::bytes::text_fits;
use crate::storage::bytes::u16_back;
use crate::storage::bytes::u32_back;
use crate::storage::bytes::u8_back;
use crate::storage::delta::ProjectionView;
use crate::storage::frames::ReplayMode;
use crate::storage::frames::V2_MAGIC;
use crate::storage::frames::after_end;
use crate::storage::frames::checkpoint_bytes;
use crate::storage::frames::checkpoint_patches_of;
use crate::storage::frames::frames_defect;
use crate::storage::frames::replayed_log;
use crate::storage::legacy::V1RecordView;
use crate::storage::legacy::parse_v1_session;
use crate::storage::legacy::v1_record_of;
use crate::storage::log::CommitPolicy;
use crate::storage::log::nothing_stored;
use crate::storage::log::policy_named;
use crate::storage::log::recovered_v2;
use crate::storage::manifest::highest_epoch;
use crate::storage::manifest::manifest_text;
use crate::storage::manifest::v2_manifest;
use crate::storage::offline_state::OfflineView;
use crate::storage::offline_state::offline_projected;
use crate::storage::projection::canonical;
use crate::storage::projection::client_snapshot;
use crate::storage::recovery::StartView;
use crate::storage::recovery::fresh_start;
use crate::storage::recovery::v2_start;
use crate::storage::snapshot::RetainedPatchView;
use crate::storage::snapshot::SessionSnapshot;
use crate::storage::snapshot::retained_patch_defect;
use crate::subscribing_laws::entered_as_asked;
use crate::subscribing_laws::has_subscription;
use crate::subscribing_laws::with_entry;
use crate::subscription::EntryView;
use crate::subscription::entry_for;
use crate::subscription::is_held;
use crate::subscription::subscription_position;
use crate::subscription::subscription_position_is_first;
use crate::subscription::upserted;

verus! {

/// The policies are called by their names, and nothing else names one.
pub proof fn policies_have_names(text: Seq<char>)
    ensures
        policy_named(text) == Some(CommitPolicy::Strict) <==> text == "strict"@,
        policy_named(text) == Some(CommitPolicy::Balanced) <==> text == "balanced"@,
        policy_named(text) == Some(CommitPolicy::Fast) <==> text == "fast"@,
{
    reveal_strlit("strict");
    reveal_strlit("balanced");
    reveal_strlit("fast");
    assert("strict"@.len() == 6 && "balanced"@.len() == 8 && "fast"@.len() == 4);
}

/// What is known of clients that are not connected is stored if their sessions outlast connections.
pub proof fn lasting_sessions_are_stored(state: OfflineView, client_id: Seq<char>)
    ensures
        ({
            let stored = offline_projected(state);
            &&& stored.clients.dom().contains(client_id) <==> state.sessions.dom().contains(
                client_id,
            ) && state.sessions[client_id].session_expiry_interval > 0
            &&& stored.clients.dom().contains(client_id) ==> stored.clients[client_id]
                == client_snapshot(state.subscriptions, client_id, state.sessions[client_id])
            &&& stored.retained == state.retained
        }),
{
}

/// A generation is begun with what is stored, under a number above that of every file that is
/// there; its files hold what is stored, an empty log and a manifest that names them.
pub proof fn generation_is_begun(
    projection: ProjectionView,
    truncate: Option<u64>,
    names: Seq<Seq<char>>,
)
    ensures
        match fresh_start(projection, truncate, names) {
            Ok(start) => {
                &&& start.projection == projection
                &&& start.truncate == truncate
                &&& start.active_epoch == highest_epoch(names) + 1
                &&& start.generation matches Some(generation) && {
                    &&& generation.epoch == start.active_epoch
                    &&& generation.checkpoint == checkpoint_bytes(projection)
                    &&& generation.wal == V2_MAGIC@
                    &&& generation.manifest == manifest_text(v2_manifest(start.active_epoch))
                }
                &&& frames_defect(checkpoint_patches_of(projection)) is None
            },
            Err(_) => highest_epoch(names) == u64::MAX || frames_defect(
                checkpoint_patches_of(projection),
            ) is Some,
        },
{
}

/// What is read is the checkpoint, which has to be whole, and behind it the log, whose end may be
/// cut off; it is put in order, and where the log was cut off that is told.
pub proof fn checkpoint_and_log_are_read(checkpoint: Seq<u8>, wal: Seq<u8>, now_ms: u64)
    ensures
        ({
            let base = replayed_log(nothing_stored(), checkpoint, ReplayMode::Strict);
            let full = replayed_log(base.projection, wal, ReplayMode::AllowPhysicalTail);
            &&& nothing_stored().clients.dom() == Set::<Seq<char>>::empty()
            &&& nothing_stored().retained.dom() == Set::<Seq<char>>::empty()
            &&& recovered_v2(checkpoint, wal, now_ms) is Ok <==> base.outcome is Ok
                && full.outcome is Ok
            &&& recovered_v2(checkpoint, wal, now_ms) matches Ok(found) ==> {
                let (length, cut) = full.outcome->Ok_0;
                &&& found.projection == canonical(full.projection, now_ms)
                &&& found.valid_len == (if cut {
                    Some(length as u64)
                } else {
                    None
                })
                &&& found.changed <==> found.projection != full.projection
            }
        }),
{
}

/// A broker goes on with the generation that it finds if what it reads is in order as it stands,
/// and begins a new one with what it put in order otherwise.
pub proof fn generation_is_gone_on_with(
    epoch: u64,
    checkpoint: Seq<u8>,
    wal: Seq<u8>,
    names: Seq<Seq<char>>,
    now_ms: u64,
)
    ensures
        ({
            let start = v2_start(epoch, checkpoint, wal, names, now_ms);
            match recovered_v2(checkpoint, wal, now_ms) {
                Err(message) => start == Err::<StartView, Seq<char>>(message),
                Ok(found) => {
                    &&& start matches Ok(begun) ==> begun.projection == found.projection
                        && begun.truncate == found.valid_len && (begun.generation is Some
                        <==> found.changed)
                    &&& !found.changed ==> (start matches Ok(begun) && begun.active_epoch
                        == epoch)
                    &&& found.changed ==> start == fresh_start(
                        found.projection,
                        found.valid_len,
                        names,
                    )
                },
            }
        }),
{
}

/// A session of the old log as it was written: how long it lasts, until when, and where it counts
/// on.
pub open spec fn old_session_bytes(client_id: Seq<char>, session: SessionSnapshot) -> Seq<u8> {
    seq![1u8] + (text_bytes(client_id) + (le(session.session_expiry_interval as nat, 4) + (
    opt_bytes(opt_u64_nat(session.expires_at_ms), 8) + le(session.next_packet_id as nat, 2))))
}

/// A session of the old log reads back.
pub proof fn old_session_reads_back(client_id: Seq<char>, session: SessionSnapshot)
    requires
        text_fits(client_id),
        session.next_offline_sequence == 0,
    ensures
        v1_record_of(old_session_bytes(client_id, session)) == Ok::<V1RecordView, Seq<char>>(
            V1RecordView::SessionUpsert { client_id, session },
        ),
{
    let d = le(session.next_packet_id as nat, 2);
    let c = opt_bytes(opt_u64_nat(session.expires_at_ms), 8) + d;
    let b = le(session.session_expiry_interval as nat, 4) + c;
    u8_back(1, text_bytes(client_id) + b);
    text_back(client_id, b);
    u32_back(session.session_expiry_interval, c);
    opt_u64_back(session.expires_at_ms, d);
    u16_back(session.next_packet_id, Seq::empty());
    assert(d + Seq::<u8>::empty() =~= d);
    reveal(parse_v1_session);
    assert(parse_v1_session(b) == Ok::<(SessionSnapshot, Seq<u8>), Seq<char>>(
        (session, Seq::empty()),
    ));
}

/// What the old log says is gone reads back: a session, a subscription or a retained message.
pub proof fn old_ends_read_back(name: Seq<char>, filter: Seq<char>)
    requires
        text_fits(name),
        text_fits(filter),
    ensures
        v1_record_of(seq![2u8] + text_bytes(name)) == Ok::<V1RecordView, Seq<char>>(
            V1RecordView::SessionDelete { client_id: name },
        ),
        v1_record_of(seq![4u8] + (text_bytes(name) + text_bytes(filter))) == Ok::<
            V1RecordView,
            Seq<char>,
        >(V1RecordView::SubscriptionDelete { client_id: name, filter }),
        v1_record_of(seq![6u8] + text_bytes(name)) == Ok::<V1RecordView, Seq<char>>(
            V1RecordView::RetainedDelete { topic_name: name },
        ),
{
    let none = Seq::<u8>::empty();
    u8_back(2, text_bytes(name));
    u8_back(4, text_bytes(name) + text_bytes(filter));
    u8_back(6, text_bytes(name));
    assert(text_bytes(name) + none =~= text_bytes(name));
    assert(text_bytes(filter) + none =~= text_bytes(filter));
    text_back(name, none);
    text_back(name, text_bytes(filter));
    text_back(filter, none);
}

/// A retained message is refused as stored if its topic is none or is not the one it is stored
/// under.
pub proof fn retained_patches_name_their_topic(patch: RetainedPatchView)
    ensures
        retained_patch_defect(patch) is None <==> valid_topic_name(patch.topic_name) && (
        patch.message matches Some(message) ==> message.topic_name == patch.topic_name),
{
}

/// Nothing may follow the end of a checkpoint.
pub proof fn nothing_follows_the_end(rest: Seq<u8>, valid_len: nat)
    ensures
        after_end(rest, valid_len) is Ok <==> rest.len() == 0,
        rest.len() == 0 ==> after_end(rest, valid_len) == Ok::<(nat, bool), Seq<char>>(
            (valid_len, false),
        ),
{
}

/// What a subscription is put into a list as: in place of the one under its filter or at the end.
pub proof fn subscription_is_put(
    entries: Seq<EntryView>,
    client_id: Seq<char>,
    asked: SubscriptionView,
    identifier: Option<u32>,
)
    ensures
        exists|entry: EntryView| #[trigger]
            with_entry(entries, upserted(entries, client_id, asked, identifier), entry)
                && entered_as_asked(entry, client_id, asked, identifier),
{
    let entry = entry_for(client_id, asked, identifier);
    subscription_position_is_first(entries, client_id, asked.topic_filter);
    if let Some(index) = subscription_position(entries, client_id, asked.topic_filter) {
        assert(entries[index].client_id == client_id);
    } else if has_subscription(entries, client_id, asked.topic_filter) {
        let i = choose|i: int|
            0 <= i < entries.len() && (#[trigger] entries[i]).client_id == client_id
                && entries[i].filter == asked.topic_filter;
        assert(is_held(entries[i], client_id, asked.topic_filter));
    }
    assert(with_entry(entries, upserted(entries, client_id, asked, identifier), entry));
}

} // verus!
