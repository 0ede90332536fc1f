//! What holds across operations of the store: who can still get into a room
//! after its invite changes, what a closed room refuses, and how turns and
//! runs end.
use vstd::prelude::*;

use crate::limits::{non_empty_rule, MAX_PROMPT_CHARS, MAX_RETAINED_RUNS};
use crate::model::{is_active_status, MessageRole, RoomSessionView, RoomStatus};
use crate::secrets::sha256_of;
use crate::store::find::{
    find_room, first_index, lemma_first_index, lemma_first_index_at, room_has_id, run_has_id,
    run_has_key,
};
use crate::store::invites::{
    exchange_outcome, invite_has_digest, issue_outcome, resolve_outcome, revoke_outcome,
    room_has_session, session_has_digest,
};
use crate::store::order::{insert_pos, lemma_key_lt_total, lemma_key_lt_transitive};
use crate::store::records::{
    has_active_run, message_keys, room_wf, run_keys, store_wf, MessageState, RoomState,
};
use crate::store::rooms::{by_recency, close_room_outcome, more_recent, recency_pos, room_id_rule};
use crate::store::snapshot::recent_messages;
use crate::store::turns::{
    append_delta_outcome, append_turn_outcome, can_submit, finish_outcome, finished_run,
    keep_last, key_rule, matching_user_message, recovered_rooms, recovered_run, started_run,
    stop_outcome, turn_started, user_message,
};
use crate::store::{RunTerminalView, StoreFailure};
use crate::text::trim;

verus! {

/// Identifiers of rooms are pairwise distinct.
pub open spec fn distinct_room_ids(rooms: Seq<RoomState>) -> bool {
    forall|a: int, b: int|
        0 <= a < rooms.len() && 0 <= b < rooms.len() && a != b ==> (#[trigger] rooms[a]).id
            != (#[trigger] rooms[b]).id
}

/// Every session of the room is revoked.
pub open spec fn sessions_all_revoked(room: RoomState) -> bool {
    forall|j: int| 0 <= j < room.sessions.len() ==> (#[trigger] room.sessions[j]).revoked_at is Some
}

/// No secret resolves to a session of room `i` once all its sessions are
/// revoked.
proof fn lemma_no_session_resolves(rooms: Seq<RoomState>, i: int, secret: Seq<char>, later: i64)
    requires
        0 <= i < rooms.len(),
        distinct_room_ids(rooms),
        sessions_all_revoked(rooms[i]),
    ensures
        resolve_outcome(rooms, secret, later) matches Some(v) ==> v.room_id != rooms[i].id,
{
    let r = trim(secret);
    let d = sha256_of(r);
    lemma_first_index(rooms, room_has_session(d));
    if let Some(k) = first_index(rooms, room_has_session(d)) {
        if k == i {
            let room = rooms[i];
            lemma_first_index(room.sessions, session_has_digest(d));
            assert((room_has_session(d))(room));
            let w = choose|w: int| 0 <= w < room.sessions.len() && (#[trigger] room.sessions[w]).digest == d;
            assert((session_has_digest(d))(room.sessions[w]));
        }
    }
}

/// No exchange joins room `i` while its invite is revoked or it is closed.
proof fn lemma_no_exchange_joins(
    rooms: Seq<RoomState>,
    i: int,
    invite: Seq<char>,
    name: Seq<char>,
    later: i64,
    secret: Seq<char>,
    participant_id: Seq<char>,
)
    requires
        0 <= i < rooms.len(),
        distinct_room_ids(rooms),
        rooms[i].invite.revoked_at is Some || rooms[i].status == RoomStatus::Closed,
    ensures
        exchange_outcome(rooms, invite, name, later, secret, participant_id).1 matches Ok(v)
            ==> v.room_id != rooms[i].id,
{
    lemma_first_index(rooms, invite_has_digest(sha256_of(trim(invite))));
}

/// An exchange that joins room `i` presented a secret with the digest of the
/// room's current invite.
proof fn lemma_exchange_needs_current_invite(
    rooms: Seq<RoomState>,
    i: int,
    invite: Seq<char>,
    name: Seq<char>,
    later: i64,
    secret: Seq<char>,
    participant_id: Seq<char>,
)
    requires
        0 <= i < rooms.len(),
        distinct_room_ids(rooms),
    ensures
        exchange_outcome(rooms, invite, name, later, secret, participant_id).1 matches Ok(v)
            ==> (v.room_id == rooms[i].id ==> sha256_of(trim(invite)) == rooms[i].invite.digest),
{
    lemma_first_index(rooms, invite_has_digest(sha256_of(trim(invite))));
}

proof fn lemma_found_room(rooms: Seq<RoomState>, id: Seq<char>)
    requires
        find_room(rooms, id) is Some,
    ensures
        ({
            let i = find_room(rooms, id)->Some_0;
            0 <= i < rooms.len() && rooms[i].id == id
        }),
{
    lemma_first_index(rooms, crate::store::find::room_has_id(id));
}

/// Revoking a room's invite shuts the room: afterwards no secret resolves to
/// a session of it and no invite exchange joins it.
pub proof fn law_revoked_invite_admits_nobody(
    rooms: Seq<RoomState>,
    room_raw: Seq<char>,
    now: i64,
    secret: Seq<char>,
    invite: Seq<char>,
    name: Seq<char>,
    later: i64,
    new_secret: Seq<char>,
    participant_id: Seq<char>,
)
    requires
        store_wf(rooms),
        revoke_outcome(rooms, room_raw, now).1 is Ok,
    ensures
        ({
            let after = revoke_outcome(rooms, room_raw, now).0;
            let id = room_id_rule(room_raw)->Ok_0;
            &&& resolve_outcome(after, secret, later) matches Some(v) ==> v.room_id != id
            &&& exchange_outcome(after, invite, name, later, new_secret, participant_id).1 matches Ok(v)
                ==> v.room_id != id
        }),
{
    let id = room_id_rule(room_raw)->Ok_0;
    lemma_found_room(rooms, id);
    let i = find_room(rooms, id)->Some_0;
    let after = revoke_outcome(rooms, room_raw, now).0;
    assert(after[i].sessions.len() == rooms[i].sessions.len());
    assert(sessions_all_revoked(after[i])) by {
        assert forall|j: int| 0 <= j < after[i].sessions.len() implies (
        #[trigger] after[i].sessions[j]).revoked_at is Some by {
            assert(after[i].sessions[j] == crate::store::rooms::revoked_session(rooms[i].sessions[j], now));
        }
    }
    assert(distinct_room_ids(after)) by {
        assert forall|a: int, b: int|
            0 <= a < after.len() && 0 <= b < after.len() && a != b implies (#[trigger] after[a]).id
                != (#[trigger] after[b]).id by {
            assert(after[a].id == rooms[a].id);
            assert(after[b].id == rooms[b].id);
        }
    }
    lemma_no_session_resolves(after, i, secret, later);
    lemma_no_exchange_joins(after, i, invite, name, later, new_secret, participant_id);
}

/// Rotating a room's invite ends its earlier sessions, and afterwards an
/// exchange joins the room only with a secret that hashes like the new
/// invite.
pub proof fn law_rotated_invite_replaces_the_old(
    rooms: Seq<RoomState>,
    room_raw: Seq<char>,
    now: i64,
    new_invite: Seq<char>,
    secret: Seq<char>,
    invite: Seq<char>,
    name: Seq<char>,
    later: i64,
    new_secret: Seq<char>,
    participant_id: Seq<char>,
)
    requires
        store_wf(rooms),
        issue_outcome(rooms, room_raw, now, new_invite).1 is Ok,
    ensures
        ({
            let after = issue_outcome(rooms, room_raw, now, new_invite).0;
            let id = room_id_rule(room_raw)->Ok_0;
            &&& resolve_outcome(after, secret, later) matches Some(v) ==> v.room_id != id
            &&& exchange_outcome(after, invite, name, later, new_secret, participant_id).1 matches Ok(v)
                ==> (v.room_id == id ==> sha256_of(trim(invite)) == sha256_of(new_invite))
        }),
{
    let id = room_id_rule(room_raw)->Ok_0;
    lemma_found_room(rooms, id);
    let i = find_room(rooms, id)->Some_0;
    let after = issue_outcome(rooms, room_raw, now, new_invite).0;
    assert(after[i].sessions.len() == rooms[i].sessions.len());
    assert(sessions_all_revoked(after[i])) by {
        assert forall|j: int| 0 <= j < after[i].sessions.len() implies (
        #[trigger] after[i].sessions[j]).revoked_at is Some by {
            assert(after[i].sessions[j] == crate::store::rooms::revoked_session(rooms[i].sessions[j], now));
        }
    }
    assert(distinct_room_ids(after)) by {
        assert forall|a: int, b: int|
            0 <= a < after.len() && 0 <= b < after.len() && a != b implies (#[trigger] after[a]).id
                != (#[trigger] after[b]).id by {
            assert(after[a].id == rooms[a].id);
            assert(after[b].id == rooms[b].id);
        }
    }
    lemma_no_session_resolves(after, i, secret, later);
    lemma_exchange_needs_current_invite(after, i, invite, name, later, new_secret, participant_id);
}

/// Closing a room shuts it for good: afterwards no secret resolves to a
/// session of it, no exchange joins it, and closing it again finds no open
/// room.
pub proof fn law_closed_room_admits_nobody(
    rooms: Seq<RoomState>,
    room_raw: Seq<char>,
    now: i64,
    secret: Seq<char>,
    invite: Seq<char>,
    name: Seq<char>,
    later: i64,
    new_secret: Seq<char>,
    participant_id: Seq<char>,
)
    requires
        store_wf(rooms),
        close_room_outcome(rooms, room_raw, now).1 is Ok,
    ensures
        ({
            let after = close_room_outcome(rooms, room_raw, now).0;
            let id = room_id_rule(room_raw)->Ok_0;
            &&& resolve_outcome(after, secret, later) matches Some(v) ==> v.room_id != id
            &&& exchange_outcome(after, invite, name, later, new_secret, participant_id).1 matches Ok(v)
                ==> v.room_id != id
            &&& close_room_outcome(after, room_raw, later) == (
                after,
                Err::<(), crate::store::StoreFailure>(crate::store::StoreFailure::NotFound),
            )
        }),
{
    let id = room_id_rule(room_raw)->Ok_0;
    lemma_found_room(rooms, id);
    let i = find_room(rooms, id)->Some_0;
    let after = close_room_outcome(rooms, room_raw, now).0;
    assert(after[i].sessions.len() == rooms[i].sessions.len());
    assert(sessions_all_revoked(after[i])) by {
        assert forall|j: int| 0 <= j < after[i].sessions.len() implies (
        #[trigger] after[i].sessions[j]).revoked_at is Some by {
            assert(after[i].sessions[j] == crate::store::rooms::revoked_session(rooms[i].sessions[j], now));
        }
    }
    assert(distinct_room_ids(after)) by {
        assert forall|a: int, b: int|
            0 <= a < after.len() && 0 <= b < after.len() && a != b implies (#[trigger] after[a]).id
                != (#[trigger] after[b]).id by {
            assert(after[a].id == rooms[a].id);
            assert(after[b].id == rooms[b].id);
        }
    }
    lemma_no_session_resolves(after, i, secret, later);
    lemma_no_exchange_joins(after, i, invite, name, later, new_secret, participant_id);
    lemma_first_index(after, crate::store::find::room_has_id(id));
    assert(find_room(after, id) == Some(i)) by {
        lemma_first_index(rooms, crate::store::find::room_has_id(id));
        crate::store::find::lemma_first_index_at(after, crate::store::find::room_has_id(id), i);
    }
}

/// Two stores that agree on every room identifier find the same room.
proof fn lemma_same_ids_find_same(a: Seq<RoomState>, b: Seq<RoomState>, id: Seq<char>)
    requires
        a.len() == b.len(),
        forall|j: int| 0 <= j < a.len() ==> (#[trigger] a[j]).id == b[j].id,
    ensures
        find_room(a, id) == find_room(b, id),
{
    lemma_first_index(a, room_has_id(id));
    lemma_first_index(b, room_has_id(id));
    if let Some(k) = find_room(a, id) {
        assert((room_has_id(id))(b[k]));
        assert forall|j: int| 0 <= j < k implies !(room_has_id(id))(#[trigger] b[j]) by {
            assert(!(room_has_id(id))(a[j]));
        }
        lemma_first_index_at(b, room_has_id(id), k);
    } else if let Some(k) = find_room(b, id) {
        assert((room_has_id(id))(a[k]));
    }
}

/// A closed room stays closed: it refuses turns and new invites without
/// changing the store, and stopping, finishing, streaming into or recovering
/// runs leaves it closed.
pub proof fn law_closed_room_stays_closed(
    rooms: Seq<RoomState>,
    i: int,
    session: RoomSessionView,
    text: Seq<char>,
    key: Option<Seq<char>>,
    room_raw: Seq<char>,
    run_id: Seq<char>,
    delta: Seq<char>,
    t: RunTerminalView,
    now: i64,
    message_id: Seq<char>,
    new_run_id: Seq<char>,
    request_id: Seq<char>,
    invite: Seq<char>,
)
    requires
        store_wf(rooms),
        0 <= i < rooms.len(),
        rooms[i].status == RoomStatus::Closed,
    ensures
        session.room_id == rooms[i].id ==> ({
            let (after, r) = append_turn_outcome(
                rooms,
                session,
                text,
                key,
                now,
                message_id,
                new_run_id,
                request_id,
            );
            after == rooms && r is Err
        }),
        room_id_rule(room_raw) == Ok::<Seq<char>, Seq<char>>(rooms[i].id) ==> issue_outcome(
            rooms,
            room_raw,
            now,
            invite,
        ) == (rooms, Err::<crate::store::IssuedInviteView, StoreFailure>(StoreFailure::Closed)),
        stop_outcome(rooms, room_raw, run_id, now).0[i].status == RoomStatus::Closed,
        finish_outcome(rooms, room_raw, run_id, t, now, message_id).0[i].status
            == RoomStatus::Closed,
        append_delta_outcome(rooms, room_raw, run_id, delta, now).0[i].status
            == RoomStatus::Closed,
        recovered_rooms(rooms, now)[i].status == RoomStatus::Closed,
{
    lemma_first_index(rooms, room_has_id(rooms[i].id));
    lemma_first_index_at(rooms, room_has_id(rooms[i].id), i);
    lemma_first_index(rooms, room_has_id(room_id_rule(room_raw)->Ok_0));
    lemma_first_index(rooms, room_has_id(room_raw));
}

/// Once a run has ended with a terminal status, the room has no queued or
/// running run, so ending the run again changes nothing: its output is kept
/// at most once.
pub proof fn law_finished_run_stays_finished(
    rooms: Seq<RoomState>,
    room_raw: Seq<char>,
    run_id: Seq<char>,
    t: RunTerminalView,
    now: i64,
    message_id: Seq<char>,
    t2: RunTerminalView,
    later: i64,
    message_id2: Seq<char>,
)
    requires
        store_wf(rooms),
        !is_active_status(t.status),
        finish_outcome(rooms, room_raw, run_id, t, now, message_id).1 is Ok,
    ensures
        ({
            let after = finish_outcome(rooms, room_raw, run_id, t, now, message_id).0;
            finish_outcome(after, room_raw, run_id, t2, later, message_id2).0 == after
        }),
{
    let id = room_id_rule(room_raw)->Ok_0;
    lemma_found_room(rooms, id);
    let i = find_room(rooms, id)->Some_0;
    let room = rooms[i];
    assert(room_wf(room));
    lemma_first_index(room.runs, run_has_id(run_id));
    let k = first_index(room.runs, run_has_id(run_id))->Some_0;
    let after = finish_outcome(rooms, room_raw, run_id, t, now, message_id).0;
    if is_active_status(room.runs[k].status) {
        lemma_same_ids_find_same(after, rooms, id);
        let updated = room.runs.update(k, finished_run(room.runs[k], t, now));
        let kept = keep_last(updated, MAX_RETAINED_RUNS as nat);
        assert(after[i].runs == kept);
        assert forall|j: int| 0 <= j < kept.len() implies !is_active_status(
            (#[trigger] kept[j]).status,
        ) by {
            let off = updated.len() - kept.len();
            assert(kept[j] == updated[j + off]);
            if j + off != k {
                assert(updated[j + off] == room.runs[j + off]);
            }
        }
        lemma_first_index(kept, run_has_id(run_id));
    }
}

/// After a restart no run is queued or running and no room is running.
pub proof fn law_recovery_leaves_nothing_running(rooms: Seq<RoomState>, now: i64)
    ensures
        forall|i: int|
            0 <= i < rooms.len() ==> !has_active_run((#[trigger] recovered_rooms(rooms, now)[i]).runs)
                && recovered_rooms(rooms, now)[i].status != RoomStatus::Running,
{
    assert forall|i: int| 0 <= i < rooms.len() implies !has_active_run(
        (#[trigger] recovered_rooms(rooms, now)[i]).runs,
    ) by {
        let runs = recovered_rooms(rooms, now)[i].runs;
        assert forall|j: int| 0 <= j < runs.len() implies !is_active_status(
            (#[trigger] runs[j]).status,
        ) by {
            assert(runs[j] == recovered_run(rooms[i].runs[j], now));
        }
    }
}

/// While a room has a queued or running run, a turn without an idempotency
/// key is refused as busy and changes nothing.
pub proof fn law_active_run_makes_room_busy(
    rooms: Seq<RoomState>,
    session: RoomSessionView,
    text: Seq<char>,
    now: i64,
    message_id: Seq<char>,
    run_id: Seq<char>,
    request_id: Seq<char>,
)
    requires
        store_wf(rooms),
        can_submit(session.role),
        non_empty_rule(text, MAX_PROMPT_CHARS as nat, "text"@) is Ok,
        find_room(rooms, session.room_id) matches Some(i) && rooms[i].status != RoomStatus::Closed
            && has_active_run(rooms[i].runs),
    ensures
        append_turn_outcome(rooms, session, text, None, now, message_id, run_id, request_id) == (
            rooms,
            Err::<crate::store::AcceptedRunView, StoreFailure>(StoreFailure::RoomBusy),
        ),
{
}

proof fn lemma_insert_pos_range(s: Seq<(i64, Seq<char>)>, k: (i64, Seq<char>))
    ensures
        0 <= insert_pos(s, k) <= s.len(),
    decreases s.len(),
{
    if s.len() > 0 {
        lemma_insert_pos_range(s.drop_last(), k);
    }
}

/// A user message with the text and a given identifier is in particular a
/// user message with the text.
proof fn lemma_matching_any_id(ms: Seq<MessageState>, text: Seq<char>, id: Seq<char>)
    requires
        matching_user_message(ms, text, Some(id)) is Some,
    ensures
        matching_user_message(ms, text, None) is Some,
    decreases ms.len(),
{
    if ms.len() > 0 {
        let m = ms.last();
        if !(m.role == MessageRole::User && m.text == text) {
            lemma_matching_any_id(ms.drop_last(), text, id);
        }
    }
}

/// A turn retried with the same text and idempotency key changes nothing and
/// is accepted again, reporting the run that its key names: the run that the
/// first call started, or, where the first call was itself a retry, the very
/// answer it gave.
pub proof fn law_retried_turn_changes_nothing(
    rooms: Seq<RoomState>,
    session: RoomSessionView,
    text: Seq<char>,
    key: Seq<char>,
    now: i64,
    message_id: Seq<char>,
    run_id: Seq<char>,
    request_id: Seq<char>,
    now2: i64,
    message_id2: Seq<char>,
    run_id2: Seq<char>,
    request_id2: Seq<char>,
)
    requires
        store_wf(rooms),
        append_turn_outcome(rooms, session, text, Some(key), now, message_id, run_id, request_id).1 is Ok,
    ensures
        ({
            let (after, first) = append_turn_outcome(
                rooms,
                session,
                text,
                Some(key),
                now,
                message_id,
                run_id,
                request_id,
            );
            let (again, second) = append_turn_outcome(
                after,
                session,
                text,
                Some(key),
                now2,
                message_id2,
                run_id2,
                request_id2,
            );
            &&& again == after
            &&& second is Ok
            &&& after != rooms ==> second->Ok_0.run.run_id == run_id
            &&& after == rooms ==> second == first
        }),
{
    let tv = non_empty_rule(text, MAX_PROMPT_CHARS as nat, "text"@)->Ok_0;
    let kv = key_rule(Some(key))->Ok_0;
    let k0 = kv->Some_0;
    lemma_found_room(rooms, session.room_id);
    let i = find_room(rooms, session.room_id)->Some_0;
    let room = rooms[i];
    lemma_first_index(room.runs, run_has_key(k0));
    if first_index(room.runs, run_has_key(k0)) is None {
        let m = user_message(message_id, tv, session.participant_id, now);
        let run = started_run(run_id, request_id, kv, tv, now);
        let next = turn_started(room, m, run, now);
        let after = rooms.update(i, next);
        let p = insert_pos(run_keys(room.runs), (run.created_at, run.id));
        lemma_insert_pos_range(run_keys(room.runs), (run.created_at, run.id));
        lemma_insert_pos_range(message_keys(room.messages), (m.created_at, m.id));
        assert(next.runs[p] == run);
        assert forall|j: int| 0 <= j < p implies !(run_has_key(k0))(#[trigger] next.runs[j]) by {
            assert(next.runs[j] == room.runs[j]);
        }
        lemma_first_index_at(next.runs, run_has_key(k0), p);
        assert forall|j: int| 0 <= j < p implies !(run_has_id(run_id))(#[trigger] next.runs[j]) by {
            assert(next.runs[j] == room.runs[j]);
            assert(rooms[i].runs[j].id != run_id);
        }
        lemma_first_index_at(next.runs, run_has_id(run_id), p);
        lemma_matching_any_id(recent_messages(next.messages), tv, message_id);
        assert(after[i].id == rooms[i].id);
        lemma_same_ids_find_same(after, rooms, session.room_id);
        assert(after[i].messages.len() == rooms[i].messages.len() + 1);
        assert(after != rooms);
    }
}

/// A turn that starts a run holds the room: until that run ends, a turn
/// without an idempotency key is refused as busy.
pub proof fn law_started_turn_holds_the_room(
    rooms: Seq<RoomState>,
    session: RoomSessionView,
    text: Seq<char>,
    key: Option<Seq<char>>,
    now: i64,
    message_id: Seq<char>,
    run_id: Seq<char>,
    request_id: Seq<char>,
    text2: Seq<char>,
    now2: i64,
    message_id2: Seq<char>,
    run_id2: Seq<char>,
    request_id2: Seq<char>,
)
    requires
        store_wf(rooms),
        append_turn_outcome(rooms, session, text, key, now, message_id, run_id, request_id).0 != rooms,
        non_empty_rule(text2, MAX_PROMPT_CHARS as nat, "text"@) is Ok,
    ensures
        ({
            let after = append_turn_outcome(
                rooms,
                session,
                text,
                key,
                now,
                message_id,
                run_id,
                request_id,
            ).0;
            append_turn_outcome(after, session, text2, None, now2, message_id2, run_id2, request_id2)
                == (after, Err::<crate::store::AcceptedRunView, StoreFailure>(StoreFailure::RoomBusy))
        }),
{
    let tv = non_empty_rule(text, MAX_PROMPT_CHARS as nat, "text"@)->Ok_0;
    let kv = key_rule(key)->Ok_0;
    lemma_found_room(rooms, session.room_id);
    let i = find_room(rooms, session.room_id)->Some_0;
    let room = rooms[i];
    let m = user_message(message_id, tv, session.participant_id, now);
    let run = started_run(run_id, request_id, kv, tv, now);
    let next = turn_started(room, m, run, now);
    let after = rooms.update(i, next);
    let p = insert_pos(run_keys(room.runs), (run.created_at, run.id));
    lemma_insert_pos_range(run_keys(room.runs), (run.created_at, run.id));
    assert(next.runs[p] == run);
    assert(is_active_status(next.runs[p].status));
    assert(has_active_run(next.runs));
    lemma_same_ids_find_same(after, rooms, session.room_id);
}

/// Every room of a well-formed store has a host, so the host's session of
/// an existing room is always found.
pub proof fn law_existing_room_has_a_host(rooms: Seq<RoomState>, room_raw: Seq<char>)
    requires
        store_wf(rooms),
        room_id_rule(room_raw) matches Ok(id) && find_room(rooms, id) is Some,
    ensures
        crate::store::rooms::host_session_outcome(rooms, room_raw) is Ok,
{
    let id = room_id_rule(room_raw)->Ok_0;
    lemma_found_room(rooms, id);
    let i = find_room(rooms, id)->Some_0;
    assert(room_wf(rooms[i]));
    let ps = rooms[i].participants;
    let w = choose|w: int| 0 <= w < ps.len() && (#[trigger] ps[w]).role == crate::model::ParticipantRole::Host;
    assert((crate::store::rooms::is_host_participant())(ps[w]));
    lemma_first_index(ps, crate::store::rooms::is_host_participant());
}

/// A snapshot shows at most the newest forty messages of the transcript, in
/// order.
pub proof fn law_snapshot_shows_recent_transcript(room: RoomState)
    ensures
        crate::store::snapshot::snapshot_view(room).messages.len() <= crate::limits::MAX_HISTORY_MESSAGES,
        room.messages.len() <= crate::limits::MAX_HISTORY_MESSAGES ==> crate::store::snapshot::snapshot_view(
            room,
        ).messages.len() == room.messages.len(),
{
}

/// A run that ends other than completed adds nothing to any transcript:
/// every message afterwards was there before.
pub proof fn law_unsuccessful_run_adds_no_message(
    rooms: Seq<RoomState>,
    room_raw: Seq<char>,
    run_id: Seq<char>,
    t: RunTerminalView,
    now: i64,
    message_id: Seq<char>,
    j: int,
    m: MessageState,
)
    requires
        t.status != crate::model::RunStatus::Completed,
        0 <= j < rooms.len(),
        finish_outcome(rooms, room_raw, run_id, t, now, message_id).0[j].messages.contains(m),
    ensures
        rooms[j].messages.contains(m),
{
    let after = finish_outcome(rooms, room_raw, run_id, t, now, message_id).0;
    let ms = rooms[j].messages;
    if let Ok(id) = room_id_rule(room_raw) {
        if let Some(i) = find_room(rooms, id) {
            lemma_found_room(rooms, id);
            if i == j {
                if let Some(k) = first_index(rooms[i].runs, run_has_id(run_id)) {
                    let kept = keep_last(ms, crate::limits::MAX_HISTORY_MESSAGES as nat);
                    if after[j].messages == kept && ms.len() > crate::limits::MAX_HISTORY_MESSAGES {
                        let w = choose|w: int| 0 <= w < kept.len() && kept[w] == m;
                        let off = ms.len() - kept.len();
                        assert(kept[w] == ms[w + off]);
                    }
                }
            }
        }
    }
}

/// A snapshot carries no invite or session material: it is the same
/// whatever the room's invite and sessions are.
pub proof fn law_snapshot_hides_secrets(
    room: RoomState,
    invite: crate::store::records::InviteState,
    sessions: Seq<crate::store::records::SessionState>,
)
    ensures
        crate::store::snapshot::snapshot_view(RoomState { invite, sessions, ..room })
            == crate::store::snapshot::snapshot_view(room),
{
}

/// A created room reads back as the snapshot that creating it reported.
pub proof fn law_created_room_reads_back(
    rooms: Seq<RoomState>,
    model_raw: Seq<char>,
    share_raw: Seq<char>,
    now: i64,
    room_id: Seq<char>,
    host_id: Seq<char>,
    invite: Seq<char>,
)
    requires
        room_id_rule(room_id) == Ok::<Seq<char>, Seq<char>>(room_id),
        crate::store::rooms::create_room_outcome(rooms, model_raw, share_raw, now, room_id, host_id, invite).1 is Ok,
    ensures
        ({
            let (after, created) = crate::store::rooms::create_room_outcome(
                rooms,
                model_raw,
                share_raw,
                now,
                room_id,
                host_id,
                invite,
            );
            crate::store::rooms::snapshot_outcome(after, room_id) == Ok::<
                Option<crate::model::RoomSnapshotView>,
                StoreFailure,
            >(Some(created->Ok_0.room))
        }),
{
    let after = crate::store::rooms::create_room_outcome(rooms, model_raw, share_raw, now, room_id, host_id, invite).0;
    let n = rooms.len() as int;
    assert forall|j: int| 0 <= j < n implies !(room_has_id(room_id))(#[trigger] after[j]) by {
        assert(after[j] == rooms[j]);
    }
    lemma_first_index_at(after, room_has_id(room_id), n);
}

/// A session that an invite exchange opened resolves, from its secret, to
/// that very session until it expires (the secret taken as sent, without
/// surrounding whitespace).
pub proof fn law_exchanged_session_resolves(
    rooms: Seq<RoomState>,
    invite: Seq<char>,
    name: Seq<char>,
    now: i64,
    secret: Seq<char>,
    participant_id: Seq<char>,
    later: i64,
)
    requires
        store_wf(rooms),
        exchange_outcome(rooms, invite, name, now, secret, participant_id).1 is Ok,
        trim(secret) == secret,
        secret.len() > 0,
        crate::text::utf8_len(secret) <= 128,
        later < crate::store::invites::session_expiry(now),
    ensures
        ({
            let (after, opened) = exchange_outcome(rooms, invite, name, now, secret, participant_id);
            resolve_outcome(after, secret, later) == Some(opened->Ok_0)
        }),
{
    let after = exchange_outcome(rooms, invite, name, now, secret, participant_id).0;
    let d = sha256_of(secret);
    lemma_first_index(rooms, invite_has_digest(sha256_of(trim(invite))));
    let i = first_index(rooms, invite_has_digest(sha256_of(trim(invite))))->Some_0;
    let room = rooms[i];
    let joined = after[i];
    assert(joined.sessions.len() == room.sessions.len() + 1);
    let last = room.sessions.len() as int;
    assert forall|j: int| 0 <= j < rooms.len() && j != i implies !(room_has_session(d))(#[trigger] after[j]) by {
        assert(after[j] == rooms[j]);
        if (room_has_session(d))(after[j]) {
            let w = choose|w: int| 0 <= w < rooms[j].sessions.len() && (#[trigger] rooms[j].sessions[w]).digest == d;
            assert(crate::store::find::session_digest_used(rooms, d));
        }
    }
    assert(joined.sessions[last].digest == d);
    assert((room_has_session(d))(joined));
    lemma_first_index_at(after, room_has_session(d), i);
    assert forall|w: int| 0 <= w < last implies !(session_has_digest(d))(#[trigger] joined.sessions[w]) by {
        assert(joined.sessions[w] == room.sessions[w]);
        if joined.sessions[w].digest == d {
            assert(crate::store::find::session_digest_used(rooms, d));
        }
    }
    lemma_first_index_at(joined.sessions, session_has_digest(d), last);
    let pos = insert_pos(crate::store::records::participant_keys(room.participants), (now, participant_id));
    lemma_insert_pos_range(crate::store::records::participant_keys(room.participants), (now, participant_id));
    assert(joined.participants[pos].id == participant_id);
    assert forall|w: int| 0 <= w < pos implies !(crate::store::invites::participant_has_id(participant_id))(
        #[trigger] joined.participants[w],
    ) by {
        assert(joined.participants[w] == room.participants[w]);
        if joined.participants[w].id == participant_id {
            assert(crate::store::find::participant_id_used(rooms, participant_id));
        }
    }
    lemma_first_index_at(joined.participants, crate::store::invites::participant_has_id(participant_id), pos);
}

/// A turn whose idempotency key names a run of the room changes nothing:
/// with the same text it is answered with that very run, whatever its
/// status, and never refused as busy; with other text it is a conflict.
pub proof fn law_keyed_turn_replays(
    rooms: Seq<RoomState>,
    session: RoomSessionView,
    text: Seq<char>,
    key: Seq<char>,
    e: int,
    now: i64,
    message_id: Seq<char>,
    run_id: Seq<char>,
    request_id: Seq<char>,
)
    requires
        store_wf(rooms),
        can_submit(session.role),
        non_empty_rule(text, MAX_PROMPT_CHARS as nat, "text"@) is Ok,
        key_rule(Some(key)) is Ok,
        find_room(rooms, session.room_id) matches Some(i) && rooms[i].status != RoomStatus::Closed
            && 0 <= e < rooms[i].runs.len() && rooms[i].runs[e].idempotency_key == key_rule(
            Some(key),
        )->Ok_0,
    ensures
        ({
            let i = find_room(rooms, session.room_id)->Some_0;
            let room = rooms[i];
            let t = non_empty_rule(text, MAX_PROMPT_CHARS as nat, "text"@)->Ok_0;
            let (after, r) = append_turn_outcome(
                rooms,
                session,
                text,
                Some(key),
                now,
                message_id,
                run_id,
                request_id,
            );
            &&& after == rooms
            &&& room.runs[e].input_text != t ==> r == Err::<crate::store::AcceptedRunView, StoreFailure>(
                StoreFailure::Conflict,
            )
            &&& room.runs[e].input_text == t ==> (matching_user_message(
                recent_messages(room.messages),
                t,
                None,
            ) matches Some(m) ==> r == Ok::<crate::store::AcceptedRunView, StoreFailure>(
                crate::store::AcceptedRunView {
                    run: crate::store::snapshot::run_view(room.runs[e]),
                    user_message: crate::store::snapshot::message_view(m),
                    snapshot: crate::store::snapshot::snapshot_view(room),
                },
            ))
        }),
{
    lemma_found_room(rooms, session.room_id);
    let i = find_room(rooms, session.room_id)->Some_0;
    let room = rooms[i];
    assert(room_wf(room));
    let k2 = key_rule(Some(key))->Ok_0->Some_0;
    assert forall|j: int| 0 <= j < e implies !(run_has_key(k2))(#[trigger] room.runs[j]) by {
        assert(room.runs[e].idempotency_key is Some);
        assert(room.runs[e].idempotency_key != room.runs[j].idempotency_key);
    }
    lemma_first_index_at(room.runs, run_has_key(k2), e);
    let rk = run_keys(room.runs);
    assert forall|j: int| 0 <= j < e implies !(run_has_id(room.runs[e].id))(#[trigger] room.runs[j]) by {
        assert(rk[j].1 == room.runs[j].id && rk[e].1 == room.runs[e].id);
    }
    lemma_first_index_at(room.runs, run_has_id(room.runs[e].id), e);
}

/// `b` finds every participant of `a` by identifier, with the same name.
pub open spec fn names_kept(
    a: Seq<crate::store::records::ParticipantState>,
    b: Seq<crate::store::records::ParticipantState>,
) -> bool {
    forall|q: Seq<char>|
        #![trigger first_index(a, crate::store::invites::participant_has_id(q))]
        first_index(a, crate::store::invites::participant_has_id(q)) is Some ==> (first_index(
            b,
            crate::store::invites::participant_has_id(q),
        ) matches Some(k2) && 0 <= k2 < b.len() && b[k2].display_name == a[first_index(
            a,
            crate::store::invites::participant_has_id(q),
        )->Some_0].display_name)
}

proof fn lemma_names_kept_same(a: Seq<crate::store::records::ParticipantState>)
    ensures
        names_kept(a, a),
{
    assert forall|q: Seq<char>|
        #![trigger first_index(a, crate::store::invites::participant_has_id(q))]
        first_index(a, crate::store::invites::participant_has_id(q)) is Some implies (first_index(
            a,
            crate::store::invites::participant_has_id(q),
        ) matches Some(k2) && 0 <= k2 < a.len() && a[k2].display_name == a[first_index(
            a,
            crate::store::invites::participant_has_id(q),
        )->Some_0].display_name) by {
        lemma_first_index(a, crate::store::invites::participant_has_id(q));
    }
}

/// Inserting a participant with a fresh identifier keeps every other one
/// findable under its name.
proof fn lemma_names_kept_insert(
    a: Seq<crate::store::records::ParticipantState>,
    pos: int,
    p: crate::store::records::ParticipantState,
)
    requires
        0 <= pos <= a.len(),
        forall|w: int| 0 <= w < a.len() ==> (#[trigger] a[w]).id != p.id,
    ensures
        names_kept(a, a.insert(pos, p)),
{
    let b = a.insert(pos, p);
    assert forall|q: Seq<char>|
        #![trigger first_index(a, crate::store::invites::participant_has_id(q))]
        first_index(a, crate::store::invites::participant_has_id(q)) is Some implies (first_index(
            b,
            crate::store::invites::participant_has_id(q),
        ) matches Some(k2) && 0 <= k2 < b.len() && b[k2].display_name == a[first_index(
            a,
            crate::store::invites::participant_has_id(q),
        )->Some_0].display_name) by {
        let f = crate::store::invites::participant_has_id(q);
        lemma_first_index(a, f);
        let k = first_index(a, f)->Some_0;
        let k2 = if k < pos { k } else { k + 1 };
        assert(b[k2] == a[k]);
        assert forall|w: int| 0 <= w < k2 implies !f(#[trigger] b[w]) by {
            if w < pos {
                assert(b[w] == a[w]);
            } else if w == pos {
                assert(b[w] == p);
                assert(a[k].id == q);
            } else {
                assert(b[w] == a[w - 1]);
            }
        }
        lemma_first_index_at(b, f, k2);
    }
}

/// What a session resolution reads is kept from `a` to `b`: room
/// identifiers, the earlier sessions (later ones carry other digests) and the
/// participants' names; any new room holds no session with that digest.
proof fn lemma_resolution_kept(a: Seq<RoomState>, b: Seq<RoomState>, secret: Seq<char>, later: i64)
    requires
        resolve_outcome(a, secret, later) is Some,
        a.len() <= b.len(),
        forall|x: int| 0 <= x < a.len() ==> (#[trigger] b[x]).id == a[x].id,
        forall|x: int|
            0 <= x < a.len() ==> (#[trigger] b[x]).sessions.len() >= a[x].sessions.len() && (forall|w: int|
                0 <= w < a[x].sessions.len() ==> #[trigger] b[x].sessions[w] == a[x].sessions[w]),
        forall|x: int, w: int|
            0 <= x < a.len() && a[x].sessions.len() <= w < b[x].sessions.len() ==> (
            #[trigger] b[x].sessions[w]).digest != sha256_of(trim(secret)),
        forall|x: int, w: int|
            a.len() <= x < b.len() && 0 <= w < b[x].sessions.len() ==> (
            #[trigger] b[x].sessions[w]).digest != sha256_of(trim(secret)),
        forall|x: int| 0 <= x < a.len() ==> names_kept(a[x].participants, #[trigger] b[x].participants),
    ensures
        resolve_outcome(b, secret, later) == resolve_outcome(a, secret, later),
{
    let d = sha256_of(trim(secret));
    lemma_first_index(a, room_has_session(d));
    let i = first_index(a, room_has_session(d))->Some_0;
    assert forall|x: int| 0 <= x < i implies !(room_has_session(d))(#[trigger] b[x]) by {
        assert(!(room_has_session(d))(a[x]));
        if (room_has_session(d))(b[x]) {
            let w = choose|w: int| 0 <= w < b[x].sessions.len() && (#[trigger] b[x].sessions[w]).digest == d;
            if w < a[x].sessions.len() {
                assert(b[x].sessions[w] == a[x].sessions[w]);
            }
        }
    }
    let ra = a[i];
    let rb = b[i];
    let wa = choose|w: int| 0 <= w < ra.sessions.len() && (#[trigger] ra.sessions[w]).digest == d;
    assert(rb.sessions[wa] == ra.sessions[wa]);
    assert((room_has_session(d))(rb));
    lemma_first_index_at(b, room_has_session(d), i);
    lemma_first_index(ra.sessions, session_has_digest(d));
    let j = first_index(ra.sessions, session_has_digest(d))->Some_0;
    assert forall|w: int| 0 <= w < j implies !(session_has_digest(d))(#[trigger] rb.sessions[w]) by {
        assert(rb.sessions[w] == ra.sessions[w]);
    }
    assert(rb.sessions[j] == ra.sessions[j]);
    lemma_first_index_at(rb.sessions, session_has_digest(d), j);
    assert(names_kept(ra.participants, rb.participants));
    let q = ra.sessions[j].participant_id;
    lemma_first_index(ra.participants, crate::store::invites::participant_has_id(q));
}

proof fn lemma_survives_turn(
    rooms: Seq<RoomState>, secret: Seq<char>, later: i64, session: RoomSessionView, text: Seq<char>,
    key: Option<Seq<char>>, now: i64, message_id: Seq<char>, new_run_id: Seq<char>, request_id: Seq<char>,
)
    requires
        store_wf(rooms),
        resolve_outcome(rooms, secret, later) is Some,
    ensures
        resolve_outcome(
            append_turn_outcome(rooms, session, text, key, now, message_id, new_run_id, request_id).0,
            secret,
            later,
        ) == resolve_outcome(rooms, secret, later),
{
    let a1 = append_turn_outcome(rooms, session, text, key, now, message_id, new_run_id, request_id).0;
    if a1 != rooms {
        lemma_found_room(rooms, session.room_id);
        let i = find_room(rooms, session.room_id)->Some_0;
        let tv = non_empty_rule(text, MAX_PROMPT_CHARS as nat, "text"@)->Ok_0;
        let kv = key_rule(key)->Ok_0;
        let next = turn_started(
            rooms[i],
            user_message(message_id, tv, session.participant_id, now),
            started_run(new_run_id, request_id, kv, tv, now),
            now,
        );
        assert(a1 == rooms.update(i, next));
        assert(next.participants == rooms[i].participants && next.sessions == rooms[i].sessions);
    }
    assert forall|x: int| 0 <= x < rooms.len() implies names_kept(
        rooms[x].participants,
        #[trigger] a1[x].participants,
    ) by {
        lemma_names_kept_same(rooms[x].participants);
    }
    lemma_resolution_kept(rooms, a1, secret, later);
}

proof fn lemma_survives_delta(
    rooms: Seq<RoomState>, secret: Seq<char>, later: i64, room_raw: Seq<char>, run_id: Seq<char>,
    delta: Seq<char>, now: i64,
)
    requires
        store_wf(rooms),
        resolve_outcome(rooms, secret, later) is Some,
    ensures
        resolve_outcome(append_delta_outcome(rooms, room_raw, run_id, delta, now).0, secret, later)
            == resolve_outcome(rooms, secret, later),
{
    let a2 = append_delta_outcome(rooms, room_raw, run_id, delta, now).0;
    if a2 != rooms {
        let dv = crate::limits::delta_rule(delta)->Ok_0;
        lemma_found_room(rooms, room_raw);
        let i = find_room(rooms, room_raw)->Some_0;
        let k = first_index(rooms[i].runs, crate::store::find::run_is_running_with_id(run_id))->Some_0;
        let run = rooms[i].runs[k];
        let next = RoomState {
            runs: rooms[i].runs.update(k, crate::store::records::RunState { partial_text: run.partial_text + dv, ..run }),
            updated_at: now,
            ..rooms[i]
        };
        assert(a2 == rooms.update(i, next));
    }
    assert forall|x: int| 0 <= x < rooms.len() implies names_kept(
        rooms[x].participants,
        #[trigger] a2[x].participants,
    ) by {
        lemma_names_kept_same(rooms[x].participants);
    }
    lemma_resolution_kept(rooms, a2, secret, later);
}

proof fn lemma_survives_finish(
    rooms: Seq<RoomState>, secret: Seq<char>, later: i64, room_raw: Seq<char>, run_id: Seq<char>,
    t: RunTerminalView, now: i64, message_id: Seq<char>,
)
    requires
        store_wf(rooms),
        resolve_outcome(rooms, secret, later) is Some,
    ensures
        resolve_outcome(finish_outcome(rooms, room_raw, run_id, t, now, message_id).0, secret, later)
            == resolve_outcome(rooms, secret, later),
{
    let a3 = finish_outcome(rooms, room_raw, run_id, t, now, message_id).0;
    if a3 != rooms {
        let id = room_id_rule(room_raw)->Ok_0;
        lemma_found_room(rooms, id);
        let i = find_room(rooms, id)->Some_0;
        let k = first_index(rooms[i].runs, run_has_id(run_id))->Some_0;
        let next = crate::store::turns::finished_room(rooms[i], k, t, now, message_id);
        assert(a3 == rooms.update(i, next));
    }
    assert forall|x: int| 0 <= x < rooms.len() implies names_kept(
        rooms[x].participants,
        #[trigger] a3[x].participants,
    ) by {
        lemma_names_kept_same(rooms[x].participants);
    }
    lemma_resolution_kept(rooms, a3, secret, later);
}

proof fn lemma_survives_stop(
    rooms: Seq<RoomState>, secret: Seq<char>, later: i64, room_raw: Seq<char>, run_id: Seq<char>, now: i64,
)
    requires
        store_wf(rooms),
        resolve_outcome(rooms, secret, later) is Some,
    ensures
        resolve_outcome(stop_outcome(rooms, room_raw, run_id, now).0, secret, later)
            == resolve_outcome(rooms, secret, later),
{
    let a4 = stop_outcome(rooms, room_raw, run_id, now).0;
    if a4 != rooms {
        let id = room_id_rule(room_raw)->Ok_0;
        lemma_found_room(rooms, id);
        let i = find_room(rooms, id)->Some_0;
        let k = first_index(rooms[i].runs, crate::store::find::run_is_active_with_id(run_id))->Some_0;
        let next = RoomState {
            runs: rooms[i].runs.update(k, crate::store::turns::canceled_run(rooms[i].runs[k], now)),
            status: crate::store::turns::settled_status(rooms[i].status, RoomStatus::Idle),
            updated_at: now,
            ..rooms[i]
        };
        assert(a4 == rooms.update(i, next));
    }
    assert forall|x: int| 0 <= x < rooms.len() implies names_kept(
        rooms[x].participants,
        #[trigger] a4[x].participants,
    ) by {
        lemma_names_kept_same(rooms[x].participants);
    }
    lemma_resolution_kept(rooms, a4, secret, later);
}

proof fn lemma_survives_recovery(rooms: Seq<RoomState>, secret: Seq<char>, later: i64, now: i64)
    requires
        store_wf(rooms),
        resolve_outcome(rooms, secret, later) is Some,
    ensures
        resolve_outcome(recovered_rooms(rooms, now), secret, later) == resolve_outcome(rooms, secret, later),
{
    let a5 = recovered_rooms(rooms, now);
    assert forall|x: int| 0 <= x < rooms.len() implies names_kept(
        rooms[x].participants,
        #[trigger] a5[x].participants,
    ) by {
        lemma_names_kept_same(rooms[x].participants);
    }
    lemma_resolution_kept(rooms, a5, secret, later);
}

proof fn lemma_survives_creation(
    rooms: Seq<RoomState>, secret: Seq<char>, later: i64, model_raw: Seq<char>, share_raw: Seq<char>,
    now: i64, new_room_id: Seq<char>, host_id: Seq<char>, invite: Seq<char>,
)
    requires
        store_wf(rooms),
        resolve_outcome(rooms, secret, later) is Some,
    ensures
        resolve_outcome(
            crate::store::rooms::create_room_outcome(rooms, model_raw, share_raw, now, new_room_id, host_id, invite).0,
            secret,
            later,
        ) == resolve_outcome(rooms, secret, later),
{
    let a6 = crate::store::rooms::create_room_outcome(
        rooms,
        model_raw,
        share_raw,
        now,
        new_room_id,
        host_id,
        invite,
    ).0;
    assert forall|x: int| 0 <= x < rooms.len() implies names_kept(
        rooms[x].participants,
        #[trigger] a6[x].participants,
    ) by {
        lemma_names_kept_same(rooms[x].participants);
    }
    lemma_resolution_kept(rooms, a6, secret, later);
}

proof fn lemma_survives_exchange(
    rooms: Seq<RoomState>, secret: Seq<char>, later: i64, invite: Seq<char>, name: Seq<char>, now: i64,
    new_secret: Seq<char>, participant_id: Seq<char>,
)
    requires
        store_wf(rooms),
        resolve_outcome(rooms, secret, later) is Some,
    ensures
        resolve_outcome(exchange_outcome(rooms, invite, name, now, new_secret, participant_id).0, secret, later)
            == resolve_outcome(rooms, secret, later),
{
    let a7 = exchange_outcome(rooms, invite, name, now, new_secret, participant_id).0;
    if a7 != rooms {
        lemma_first_index(rooms, invite_has_digest(sha256_of(trim(invite))));
        let i = first_index(rooms, invite_has_digest(sha256_of(trim(invite))))->Some_0;
        let room = rooms[i];
        let pos = insert_pos(crate::store::records::participant_keys(room.participants), (now, participant_id));
        lemma_insert_pos_range(crate::store::records::participant_keys(room.participants), (now, participant_id));
        let p = crate::store::records::ParticipantState {
            id: participant_id,
            display_name: non_empty_rule(name, crate::limits::MAX_DISPLAY_NAME_CHARS as nat, "displayName"@)->Ok_0,
            role: crate::model::ParticipantRole::Guest,
            online: true,
            created_at: now,
            last_seen_at: now,
        };
        assert(a7[i].participants == room.participants.insert(pos, p));
        assert forall|w: int| 0 <= w < room.participants.len() implies (#[trigger] room.participants[w]).id
            != p.id by {
            if room.participants[w].id == p.id {
                assert(crate::store::find::participant_id_used(rooms, participant_id));
            }
        }
        lemma_names_kept_insert(room.participants, pos, p);
        let d = sha256_of(trim(secret));
        lemma_first_index(rooms, room_has_session(d));
        let ri = first_index(rooms, room_has_session(d))->Some_0;
        let w0 = choose|w: int| 0 <= w < rooms[ri].sessions.len() && (#[trigger] rooms[ri].sessions[w]).digest == d;
        assert(crate::store::find::session_digest_used(rooms, d));
        assert forall|x: int| 0 <= x < rooms.len() implies names_kept(
            rooms[x].participants,
            #[trigger] a7[x].participants,
        ) by {
            if x != i {
                lemma_names_kept_same(rooms[x].participants);
            }
        }
        assert forall|x: int, w: int|
            0 <= x < rooms.len() && rooms[x].sessions.len() <= w < a7[x].sessions.len() implies (
            #[trigger] a7[x].sessions[w]).digest != d by {
            assert(x == i);
            assert(a7[x].sessions[w].digest == sha256_of(new_secret));
        }
        lemma_resolution_kept(rooms, a7, secret, later);
    }

}

/// A session stays resolvable, to the same answer, across the operations
/// that are not a revoke, a rotation or a close: turns, streamed output,
/// ending or stopping runs, recovery, new rooms and new guests. Expiry is
/// part of resolution, so this holds until the session expires.
pub proof fn law_session_survives_other_operations(
    rooms: Seq<RoomState>,
    secret: Seq<char>,
    later: i64,
    session: RoomSessionView,
    text: Seq<char>,
    key: Option<Seq<char>>,
    room_raw: Seq<char>,
    run_id: Seq<char>,
    delta: Seq<char>,
    t: RunTerminalView,
    now: i64,
    message_id: Seq<char>,
    new_run_id: Seq<char>,
    request_id: Seq<char>,
    model_raw: Seq<char>,
    share_raw: Seq<char>,
    new_room_id: Seq<char>,
    host_id: Seq<char>,
    invite: Seq<char>,
    name: Seq<char>,
    new_secret: Seq<char>,
    participant_id: Seq<char>,
)
    requires
        store_wf(rooms),
        resolve_outcome(rooms, secret, later) is Some,
    ensures
        ({
            let v = resolve_outcome(rooms, secret, later);
            &&& resolve_outcome(
                append_turn_outcome(rooms, session, text, key, now, message_id, new_run_id, request_id).0,
                secret,
                later,
            ) == v
            &&& resolve_outcome(append_delta_outcome(rooms, room_raw, run_id, delta, now).0, secret, later) == v
            &&& resolve_outcome(finish_outcome(rooms, room_raw, run_id, t, now, message_id).0, secret, later)
                == v
            &&& resolve_outcome(stop_outcome(rooms, room_raw, run_id, now).0, secret, later) == v
            &&& resolve_outcome(recovered_rooms(rooms, now), secret, later) == v
            &&& resolve_outcome(
                crate::store::rooms::create_room_outcome(
                    rooms,
                    model_raw,
                    share_raw,
                    now,
                    new_room_id,
                    host_id,
                    invite,
                ).0,
                secret,
                later,
            ) == v
            &&& resolve_outcome(
                exchange_outcome(rooms, invite, name, now, new_secret, participant_id).0,
                secret,
                later,
            ) == v
        }),
{
    lemma_survives_turn(rooms, secret, later, session, text, key, now, message_id, new_run_id, request_id);
    lemma_survives_delta(rooms, secret, later, room_raw, run_id, delta, now);
    lemma_survives_finish(rooms, secret, later, room_raw, run_id, t, now, message_id);
    lemma_survives_stop(rooms, secret, later, room_raw, run_id, now);
    lemma_survives_recovery(rooms, secret, later, now);
    lemma_survives_creation(rooms, secret, later, model_raw, share_raw, now, new_room_id, host_id, invite);
    lemma_survives_exchange(rooms, secret, later, invite, name, now, new_secret, participant_id);
}
/// Each room is more recent than every later one.
pub open spec fn recency_sorted(s: Seq<RoomState>) -> bool {
    forall|i: int, j: int| 0 <= i < j < s.len() ==> more_recent(#[trigger] s[i], #[trigger] s[j])
}

proof fn lemma_recency_pos(s: Seq<RoomState>, x: RoomState)
    requires
        recency_sorted(s),
        forall|i: int| 0 <= i < s.len() ==> (#[trigger] s[i]).id != x.id,
    ensures
        0 <= recency_pos(s, x) <= s.len(),
        forall|i: int| 0 <= i < recency_pos(s, x) ==> more_recent(#[trigger] s[i], x),
        forall|i: int| recency_pos(s, x) <= i < s.len() ==> more_recent(x, #[trigger] s[i]),
        recency_sorted(s.insert(recency_pos(s, x), x)),
    decreases s.len(),
{
    let p = recency_pos(s, x);
    if s.len() > 0 {
        let l = s.last();
        if more_recent(x, l) {
            let t = s.drop_last();
            assert(recency_sorted(t));
            lemma_recency_pos(t, x);
            assert forall|i: int| 0 <= i < p implies more_recent(#[trigger] s[i], x) by {
                assert(t[i] == s[i]);
            }
            assert forall|i: int| p <= i < s.len() implies more_recent(x, #[trigger] s[i]) by {
                if i < s.len() - 1 {
                    assert(t[i] == s[i]);
                }
            }
        } else {
            lemma_key_lt_total((l.updated_at, l.id), (x.updated_at, x.id));
            assert forall|i: int| 0 <= i < p implies more_recent(#[trigger] s[i], x) by {
                if i < s.len() - 1 {
                    lemma_key_lt_transitive((x.updated_at, x.id), (l.updated_at, l.id), (s[i].updated_at, s[i].id));
                }
            }
        }
    }
    let r = s.insert(p, x);
    assert forall|i: int, j: int| 0 <= i < j < r.len() implies more_recent(#[trigger] r[i], #[trigger] r[j]) by {
        if j < p {
            assert(r[i] == s[i] && r[j] == s[j]);
        } else if j == p {
            assert(r[i] == s[i]);
        } else if i < p {
            assert(r[i] == s[i] && r[j] == s[j - 1]);
            lemma_key_lt_transitive((s[j - 1].updated_at, s[j - 1].id), (x.updated_at, x.id), (s[i].updated_at, s[i].id));
        } else if i == p {
            assert(r[j] == s[j - 1]);
        } else {
            assert(r[i] == s[i - 1] && r[j] == s[j - 1]);
        }
    }
}

/// The room listing is ordered from the most recently updated room to the
/// least (ties by identifier, higher first) and holds each room exactly once.
pub proof fn law_listing_orders_by_recency(rooms: Seq<RoomState>)
    requires
        distinct_room_ids(rooms),
    ensures
        by_recency(rooms).len() == rooms.len(),
        recency_sorted(by_recency(rooms)),
        forall|r: RoomState| by_recency(rooms).contains(r) <==> rooms.contains(r),
    decreases rooms.len(),
{
    if rooms.len() > 0 {
        let t = rooms.drop_last();
        let x = rooms.last();
        assert(distinct_room_ids(t)) by {
            assert forall|a: int, b: int| 0 <= a < t.len() && 0 <= b < t.len() && a != b implies (#[trigger] t[a]).id
                != (#[trigger] t[b]).id by {
                assert(t[a] == rooms[a] && t[b] == rooms[b]);
            }
        }
        law_listing_orders_by_recency(t);
        let sorted = by_recency(t);
        assert forall|i: int| 0 <= i < sorted.len() implies (#[trigger] sorted[i]).id != x.id by {
            assert(sorted.contains(sorted[i]));
            assert(t.contains(sorted[i]));
            let k = choose|k: int| 0 <= k < t.len() && t[k] == sorted[i];
            assert(rooms[k] == t[k]);
            assert(rooms[rooms.len() - 1] == x);
        }
        lemma_recency_pos(sorted, x);
        let p = recency_pos(sorted, x);
        let res = sorted.insert(p, x);
        assert(res == by_recency(rooms));
        assert forall|r: RoomState| res.contains(r) <==> rooms.contains(r) by {
            if res.contains(r) {
                let k = choose|k: int| 0 <= k < res.len() && res[k] == r;
                if k == p {
                    assert(rooms[rooms.len() - 1] == r);
                    assert(rooms.contains(r));
                } else {
                    let k2 = if k < p { k } else { k - 1 };
                    assert(res[k] == sorted[k2]);
                    assert(sorted.contains(sorted[k2]));
                    assert(by_recency(t).contains(r));
                    assert(t.contains(r));
                    let m = choose|m: int| 0 <= m < t.len() && t[m] == r;
                    assert(rooms[m] == r);
                    assert(rooms.contains(r));
                }
            }
            if rooms.contains(r) {
                let k = choose|k: int| 0 <= k < rooms.len() && rooms[k] == r;
                if k == rooms.len() - 1 {
                    assert(res[p] == r);
                    assert(res.contains(r));
                } else {
                    assert(t[k] == r);
                    assert(t.contains(r));
                    assert(by_recency(t).contains(r));
                    let m = choose|m: int| 0 <= m < sorted.len() && sorted[m] == r;
                    let m2 = if m < p { m } else { m + 1 };
                    assert(res[m2] == r);
                    assert(res.contains(r));
                }
            }
        }
    }
}

/// An accepted room identifier is accepted again, unchanged.
pub proof fn law_room_id_validates_again(value: Seq<char>)
    requires
        room_id_rule(value) is Ok,
    ensures
        room_id_rule(room_id_rule(value)->Ok_0) == room_id_rule(value),
{
    crate::limits::lemma_trim_idempotent(value);
}

/// The snapshot's current run is the last run that a snapshot reports.
proof fn lemma_current_run_is_last_reported(runs: Seq<crate::store::records::RunState>)
    ensures
        match crate::store::snapshot::current_run(runs) {
            None => forall|j: int|
                0 <= j < runs.len() ==> !crate::store::snapshot::is_reported_status(#[trigger] runs[j].status),
            Some(r) => exists|k: int|
                0 <= k < runs.len() && runs[k] == r && crate::store::snapshot::is_reported_status(r.status)
                    && forall|j: int|
                    k < j < runs.len() ==> !crate::store::snapshot::is_reported_status(#[trigger] runs[j].status),
        },
    decreases runs.len(),
{
    if runs.len() > 0 {
        let l = runs.len() - 1;
        if !crate::store::snapshot::is_reported_status(runs[l].status) {
            let t = runs.drop_last();
            lemma_current_run_is_last_reported(t);
            match crate::store::snapshot::current_run(t) {
                None => {
                    assert forall|j: int| 0 <= j < runs.len() implies !crate::store::snapshot::is_reported_status(
                        #[trigger] runs[j].status,
                    ) by {
                        if j < l {
                            assert(runs[j] == t[j]);
                        }
                    }
                },
                Some(r) => {
                    let k = choose|k: int|
                        0 <= k < t.len() && t[k] == r && crate::store::snapshot::is_reported_status(r.status)
                            && forall|j: int|
                            k < j < t.len() ==> !crate::store::snapshot::is_reported_status(#[trigger] t[j].status);
                    assert(runs[k] == r);
                    assert forall|j: int| k < j < runs.len() implies !crate::store::snapshot::is_reported_status(
                        #[trigger] runs[j].status,
                    ) by {
                        if j < l {
                            assert(runs[j] == t[j]);
                        }
                    }
                },
            }
        }
    }
}

/// Among runs sorted by creation key, the current run is a queued, running
/// or failed run, and every other such run sorts before it.
proof fn lemma_current_run_is_newest(runs: Seq<crate::store::records::RunState>)
    requires
        crate::store::order::strictly_sorted(run_keys(runs)),
    ensures
        match crate::store::snapshot::opt_run_state_view(crate::store::snapshot::current_run(runs)) {
            None => forall|j: int|
                0 <= j < runs.len() ==> !((#[trigger] runs[j]).status == crate::model::RunStatus::Queued
                    || runs[j].status == crate::model::RunStatus::Running || runs[j].status
                    == crate::model::RunStatus::Failed),
            Some(v) => exists|k: int|
                0 <= k < runs.len() && v == crate::store::snapshot::run_view(runs[k]) && v.run_id
                    == runs[k].id && v.status == runs[k].status && (v.status
                    == crate::model::RunStatus::Queued || v.status == crate::model::RunStatus::Running
                    || v.status == crate::model::RunStatus::Failed) && forall|j: int|
                    0 <= j < runs.len() && j != k && ((#[trigger] runs[j]).status
                        == crate::model::RunStatus::Queued || runs[j].status
                        == crate::model::RunStatus::Running || runs[j].status
                        == crate::model::RunStatus::Failed) ==> crate::store::order::key_lt(
                        (runs[j].created_at, runs[j].id),
                        (runs[k].created_at, runs[k].id),
                    ),
        },
{
    lemma_current_run_is_last_reported(runs);
    if let Some(r) = crate::store::snapshot::current_run(runs) {
        let k = choose|k: int|
            0 <= k < runs.len() && runs[k] == r && crate::store::snapshot::is_reported_status(r.status)
                && forall|j: int|
                k < j < runs.len() ==> !crate::store::snapshot::is_reported_status(#[trigger] runs[j].status);
        let keys = run_keys(runs);
        assert forall|j: int|
            0 <= j < runs.len() && j != k && ((#[trigger] runs[j]).status == crate::model::RunStatus::Queued
                || runs[j].status == crate::model::RunStatus::Running || runs[j].status
                == crate::model::RunStatus::Failed) implies crate::store::order::key_lt(
            (runs[j].created_at, runs[j].id),
            (runs[k].created_at, runs[k].id),
        ) by {
            assert(crate::store::snapshot::is_reported_status(runs[j].status));
            assert(j < k);
            assert(keys[j] == (runs[j].created_at, runs[j].id));
            assert(keys[k] == (runs[k].created_at, runs[k].id));
        }
        assert(runs[k] == r);
    }
}

/// The run that a room's snapshot reports as current is a queued, running
/// or failed run of the room, and every other queued, running or failed run
/// was created before it (by creation time, then identifier); a room with no
/// such run reports none.
pub proof fn law_snapshot_reports_newest_run(room: RoomState)
    requires
        crate::store::order::strictly_sorted(run_keys(room.runs)),
    ensures
        match crate::store::snapshot::snapshot_view(room).current_run {
            None => forall|j: int|
                0 <= j < room.runs.len() ==> !((#[trigger] room.runs[j]).status == crate::model::RunStatus::Queued
                    || room.runs[j].status == crate::model::RunStatus::Running || room.runs[j].status
                    == crate::model::RunStatus::Failed),
            Some(v) => exists|k: int|
                0 <= k < room.runs.len() && v == crate::store::snapshot::run_view(room.runs[k]) && v.run_id
                    == room.runs[k].id && v.status == room.runs[k].status && (v.status
                    == crate::model::RunStatus::Queued || v.status == crate::model::RunStatus::Running
                    || v.status == crate::model::RunStatus::Failed) && forall|j: int|
                    0 <= j < room.runs.len() && j != k && ((#[trigger] room.runs[j]).status
                        == crate::model::RunStatus::Queued || room.runs[j].status
                        == crate::model::RunStatus::Running || room.runs[j].status
                        == crate::model::RunStatus::Failed) ==> crate::store::order::key_lt(
                        (room.runs[j].created_at, room.runs[j].id),
                        (room.runs[k].created_at, room.runs[k].id),
                    ),
        },
{
    lemma_current_run_is_newest(room.runs);
    assert(crate::store::snapshot::snapshot_view(room).current_run
        == crate::store::snapshot::opt_run_state_view(crate::store::snapshot::current_run(room.runs)));
}

/// A key later than every key of `s` goes at its end.
proof fn lemma_insert_pos_last(s: Seq<(i64, Seq<char>)>, k: (i64, Seq<char>))
    requires
        forall|j: int| 0 <= j < s.len() ==> (#[trigger] s[j]).0 < k.0,
    ensures
        insert_pos(s, k) == s.len(),
{
}

/// A turn that starts a run, in a room whose rows all predate it, is
/// accepted and reports the run it started, running, and the user message
/// it added, with the validated text; the room's snapshot then has that run
/// as its current run.
pub proof fn law_started_turn_reports_its_run(
    rooms: Seq<RoomState>,
    session: RoomSessionView,
    text: Seq<char>,
    key: Option<Seq<char>>,
    now: i64,
    message_id: Seq<char>,
    run_id: Seq<char>,
    request_id: Seq<char>,
)
    requires
        store_wf(rooms),
        crate::store::turns::turn_starts_run(rooms, session, text, key),
        !crate::store::find::message_id_used(rooms, message_id),
        !crate::store::find::run_id_used(rooms, run_id),
        find_room(rooms, session.room_id) matches Some(i) && (forall|j: int|
            0 <= j < rooms[i].runs.len() ==> (#[trigger] rooms[i].runs[j]).created_at < now) && (forall|j: int|
            0 <= j < rooms[i].messages.len() ==> (#[trigger] rooms[i].messages[j]).created_at < now),
    ensures
        ({
            let (after, r) = append_turn_outcome(rooms, session, text, key, now, message_id, run_id, request_id);
            &&& r is Ok
            &&& r->Ok_0.run.run_id == run_id
            &&& r->Ok_0.run.status == crate::model::RunStatus::Running
            &&& r->Ok_0.user_message.id == message_id
            &&& r->Ok_0.user_message.text == non_empty_rule(text, MAX_PROMPT_CHARS as nat, "text"@)->Ok_0
            &&& r->Ok_0.snapshot.current_run == Some(r->Ok_0.run)
        }),
{
    let i = find_room(rooms, session.room_id)->Some_0;
    lemma_found_room(rooms, session.room_id);
    let room = rooms[i];
    let tv = non_empty_rule(text, MAX_PROMPT_CHARS as nat, "text"@)->Ok_0;
    let kv = key_rule(key)->Ok_0;
    let m = user_message(message_id, tv, session.participant_id, now);
    let run = started_run(run_id, request_id, kv, tv, now);
    let next = turn_started(room, m, run, now);
    let mk = message_keys(room.messages);
    let rk = run_keys(room.runs);
    assert forall|j: int| 0 <= j < mk.len() implies (#[trigger] mk[j]).0 < now by {
        assert(mk[j].0 == room.messages[j].created_at);
    }
    assert forall|j: int| 0 <= j < rk.len() implies (#[trigger] rk[j]).0 < now by {
        assert(rk[j].0 == room.runs[j].created_at);
    }
    lemma_insert_pos_last(mk, (now, message_id));
    lemma_insert_pos_last(rk, (now, run_id));
    assert(next.runs =~= room.runs.push(run));
    assert(next.messages =~= room.messages.push(m));
    assert(next.runs.drop_last() =~= room.runs);
    assert(crate::store::snapshot::current_run(next.runs) == Some(run));
    let recent = recent_messages(next.messages);
    assert(recent.len() > 0 && recent.last() == m);
    assert(matching_user_message(recent, tv, Some(message_id)) == Some(m));
}

/// A guest who exchanges an invite joins the room online: the room that the
/// session names then holds a participant with the session's identifier,
/// who is a guest, carries the validated display name and is online, and the
/// room's snapshot shows that participant.
pub proof fn law_joined_guest_is_online(
    rooms: Seq<RoomState>,
    invite: Seq<char>,
    name: Seq<char>,
    now: i64,
    secret: Seq<char>,
    participant_id: Seq<char>,
)
    requires
        store_wf(rooms),
        exchange_outcome(rooms, invite, name, now, secret, participant_id).1 is Ok,
    ensures
        ({
            let (after, r) = exchange_outcome(rooms, invite, name, now, secret, participant_id);
            let v = r->Ok_0;
            &&& v.participant_id == participant_id
            &&& v.role == crate::model::ParticipantRole::Guest
            &&& v.display_name == non_empty_rule(name, crate::limits::MAX_DISPLAY_NAME_CHARS as nat, "displayName"@)->Ok_0
            &&& find_room(after, v.room_id) matches Some(i) && exists|w: int|
                0 <= w < after[i].participants.len() && (#[trigger] after[i].participants[w]).id == v.participant_id
                    && after[i].participants[w].role == crate::model::ParticipantRole::Guest
                    && after[i].participants[w].display_name == v.display_name && after[i].participants[w].online
                    && crate::store::snapshot::snapshot_view(after[i]).participants[w].online
                    && crate::store::snapshot::snapshot_view(after[i]).participants[w].id == v.participant_id
        }),
{
    let after = exchange_outcome(rooms, invite, name, now, secret, participant_id).0;
    lemma_first_index(rooms, invite_has_digest(sha256_of(trim(invite))));
    let i = first_index(rooms, invite_has_digest(sha256_of(trim(invite))))->Some_0;
    let room = rooms[i];
    assert forall|j: int| 0 <= j < i implies !(room_has_id(room.id))(#[trigger] after[j]) by {
        assert(after[j] == rooms[j]);
    }
    lemma_first_index_at(after, room_has_id(room.id), i);
    let pos = insert_pos(crate::store::records::participant_keys(room.participants), (now, participant_id));
    lemma_insert_pos_range(crate::store::records::participant_keys(room.participants), (now, participant_id));
    let ps = after[i].participants;
    assert(ps[pos].id == participant_id);
    assert(crate::store::snapshot::snapshot_view(after[i]).participants[pos] == crate::store::snapshot::participant_view(
        ps[pos],
    ));
}

} // verus!
