//! Turns and runs: accepting a user turn, streaming output into its run,
//! finishing or stopping the run, and failing runs interrupted by a restart.
use vstd::prelude::*;

use crate::clock::{current_time, is_timestamp};
use crate::limits::{
    delta_rule, non_empty_rule, validate_delta, validate_non_empty, validate_prompt,
    MAX_HISTORY_MESSAGES, MAX_IDEMPOTENCY_KEY_CHARS, MAX_MESSAGE_CHARS, MAX_PROMPT_CHARS,
    MAX_RETAINED_RUNS,
};
use crate::model::{
    is_active_status, MessageRole, ParticipantRole, RoomSession, RoomSessionView, RoomSnapshot,
    RoomSnapshotView, RoomStatus, RunStatus,
};
use crate::secrets::{is_hex_token, lemma_zero_token, opaque_id};
use crate::store::find::{
    find_room, first_index, first_run_index, lemma_first_index, lemma_first_index_at,
    lemma_first_index_none, message_id_used, run_has_id, run_has_key, run_id_used,
    run_is_active_with_id, run_is_running_with_id,
};
use crate::store::order::{
    ident_fresh, idents_distinct, insert_ordered, insert_pos, keys_of, lemma_idents_insert,
    lemma_idents_subrange, lemma_insert_pos, strictly_sorted, Ordered,
};
use crate::store::records::{
    has_active_run, keys_distinct, message_keys, room_wf, run_keys, single_active_run, store_wf, MessageRecord,
    MessageState, RoomRecord, RoomState, RunRecord, RunState,
};
use crate::store::rooms::{room_id_rule, unit_outcome, validate_room_id};
use crate::store::snapshot::{
    current_run, message_out, message_view, recent_messages, run_out, run_view, snapshot_of,
    snapshot_view,
};
use crate::store::{
    AcceptedRun, AcceptedRunView, RoomStore, RunTerminal, RunTerminalView, StoreError,
    StoreFailure, SubmitTurnInput,
};
use crate::text::{chars_of, concat};

verus! {

/// `rows` without all but its newest `n` rows.
pub open spec fn keep_last<A>(rows: Seq<A>, n: nat) -> Seq<A> {
    if rows.len() > n {
        rows.subrange(rows.len() - n, rows.len() as int)
    } else {
        rows
    }
}

/// Streaming `delta_raw` into the running run `run_id` of room `room_raw`
/// at `now`.
pub open spec fn append_delta_outcome(
    rooms: Seq<RoomState>,
    room_raw: Seq<char>,
    run_id: Seq<char>,
    delta_raw: Seq<char>,
    now: i64,
) -> (Seq<RoomState>, Result<(), StoreFailure>) {
    match delta_rule(delta_raw) {
        Err(e) => (rooms, Err(StoreFailure::Invalid(e))),
        Ok(delta) => match find_room(rooms, room_raw) {
            None => (rooms, Err(StoreFailure::NotFound)),
            Some(i) => match first_index(rooms[i].runs, run_is_running_with_id(run_id)) {
                None => (rooms, Err(StoreFailure::NotFound)),
                Some(k) => {
                    let run = rooms[i].runs[k];
                    let combined = run.partial_text + delta;
                    if combined.len() > MAX_MESSAGE_CHARS {
                        (rooms, Err(StoreFailure::Invalid("assistant output is too long"@)))
                    } else {
                        (
                            rooms.update(
                                i,
                                RoomState {
                                    runs: rooms[i].runs.update(
                                        k,
                                        RunState { partial_text: combined, ..run },
                                    ),
                                    updated_at: now,
                                    ..rooms[i]
                                },
                            ),
                            Ok(()),
                        )
                    }
                },
            },
        },
    }
}

/// The run canceled by a stop request.
pub open spec fn canceled_run(run: RunState, now: i64) -> RunState {
    RunState {
        status: RunStatus::Canceled,
        error_code: Some("canceled"@),
        error_message: Some("generation stopped"@),
        finished_at: Some(now),
        ..run
    }
}

/// The room status once its run has ended: closed rooms stay closed.
pub open spec fn settled_status(current: RoomStatus, next: RoomStatus) -> RoomStatus {
    if current == RoomStatus::Closed {
        RoomStatus::Closed
    } else {
        next
    }
}

/// Stopping the queued or running run `run_id` of room `room_raw` at `now`.
pub open spec fn stop_outcome(rooms: Seq<RoomState>, room_raw: Seq<char>, run_id: Seq<char>, now: i64) -> (
    Seq<RoomState>,
    Result<(), StoreFailure>,
) {
    match room_id_rule(room_raw) {
        Err(e) => (rooms, Err(StoreFailure::Invalid(e))),
        Ok(id) => match find_room(rooms, id) {
            None => (rooms, Err(StoreFailure::NotFound)),
            Some(i) => match first_index(rooms[i].runs, run_is_active_with_id(run_id)) {
                None => (rooms, Err(StoreFailure::NotFound)),
                Some(k) => (
                    rooms.update(
                        i,
                        RoomState {
                            runs: rooms[i].runs.update(k, canceled_run(rooms[i].runs[k], now)),
                            status: settled_status(rooms[i].status, RoomStatus::Idle),
                            updated_at: now,
                            ..rooms[i]
                        },
                    ),
                    Ok(()),
                ),
            },
        },
    }
}

/// Updating one run without changing its key, its activity or its length
/// bound keeps a room's run invariants.
pub proof fn lemma_run_update_keeps_wf(room: RoomState, k: int, run: RunState, s: RoomState)
    requires
        room_wf(room),
        0 <= k < room.runs.len(),
        run.id == room.runs[k].id,
        run.created_at == room.runs[k].created_at,
        run.idempotency_key == room.runs[k].idempotency_key,
        run.partial_text.len() <= MAX_MESSAGE_CHARS,
        is_active_status(run.status) ==> is_active_status(room.runs[k].status),
        crate::store::records::opt_timestamp(run.started_at),
        crate::store::records::opt_timestamp(run.finished_at),
        s.runs == room.runs.update(k, run),
        s.messages == room.messages,
        s.participants == room.participants,
        s.sessions == room.sessions,
        is_timestamp(s.updated_at),
        s.status == room.status || (s.status != RoomStatus::Running),
        s.status == RoomStatus::Running ==> is_active_status(run.status) || (exists|j: int|
            0 <= j < room.runs.len() && j != k && is_active_status(#[trigger] room.runs[j].status)),
    ensures
        room_wf(s),
{
    assert(run_keys(s.runs) =~= run_keys(room.runs));
    assert(keys_distinct(s.runs)) by {
        assert forall|i: int, j: int|
            0 <= i < s.runs.len() && 0 <= j < s.runs.len() && i != j && (#[trigger] s.runs[i]).idempotency_key is Some
                implies s.runs[i].idempotency_key != (#[trigger] s.runs[j]).idempotency_key by {
            assert(s.runs[i].idempotency_key == room.runs[i].idempotency_key);
            assert(s.runs[j].idempotency_key == room.runs[j].idempotency_key);
        }
    }
    if s.status == RoomStatus::Running {
        if is_active_status(run.status) {
            assert(is_active_status(s.runs[k].status));
        } else {
            let j = choose|j: int|
                0 <= j < room.runs.len() && j != k && is_active_status(#[trigger] room.runs[j].status);
            assert(s.runs[j] == room.runs[j]);
        }
    }
}


/// Roles that may submit turns.
pub open spec fn can_submit(role: ParticipantRole) -> bool {
    role == ParticipantRole::Host || role == ParticipantRole::Guest
}

/// An optional idempotency key: absent, or a validated key.
pub open spec fn key_rule(key: Option<Seq<char>>) -> Result<Option<Seq<char>>, Seq<char>> {
    match key {
        None => Ok(None),
        Some(k) => match non_empty_rule(k, MAX_IDEMPOTENCY_KEY_CHARS as nat, "idempotencyKey"@) {
            Ok(v) => Ok(Some(v)),
            Err(e) => Err(e),
        },
    }
}

/// The newest user message with `text` (and identifier `id`, where given).
pub open spec fn matching_user_message(ms: Seq<MessageState>, text: Seq<char>, id: Option<Seq<char>>) -> Option<
    MessageState,
>
    decreases ms.len(),
{
    if ms.len() == 0 {
        None
    } else {
        let m = ms.last();
        if m.role == MessageRole::User && m.text == text && (id is None || m.id == id.unwrap()) {
            Some(m)
        } else {
            matching_user_message(ms.drop_last(), text, id)
        }
    }
}

pub open spec fn user_message(id: Seq<char>, text: Seq<char>, participant_id: Seq<char>, now: i64) -> MessageState {
    MessageState {
        id,
        role: MessageRole::User,
        text,
        participant_id: Some(participant_id),
        created_at: now,
    }
}

pub open spec fn started_run(
    id: Seq<char>,
    request_id: Seq<char>,
    key: Option<Seq<char>>,
    text: Seq<char>,
    now: i64,
) -> RunState {
    RunState {
        id,
        request_id,
        idempotency_key: key,
        input_text: text,
        status: RunStatus::Running,
        partial_text: Seq::empty(),
        error_code: None,
        error_message: None,
        started_at: Some(now),
        finished_at: None,
        created_at: now,
    }
}

/// The room after a turn was accepted: the user message and a running run
/// inserted in order, and the room running.
pub open spec fn turn_started(room: RoomState, m: MessageState, run: RunState, now: i64) -> RoomState {
    RoomState {
        messages: room.messages.insert(insert_pos(message_keys(room.messages), (m.created_at, m.id)), m),
        runs: room.runs.insert(insert_pos(run_keys(room.runs), (run.created_at, run.id)), run),
        status: RoomStatus::Running,
        updated_at: now,
        ..room
    }
}

/// What a retried turn reports: the earlier run, and the newest user
/// message with the same text in the recent transcript.
pub open spec fn retry_result(room: RoomState, run_id: Seq<char>, text: Seq<char>) -> Result<
    AcceptedRunView,
    StoreFailure,
> {
    match first_index(room.runs, run_has_id(run_id)) {
        None => Err(StoreFailure::NotFound),
        Some(k) => match matching_user_message(recent_messages(room.messages), text, None) {
            None => Err(StoreFailure::NotFound),
            Some(m) => Ok(
                AcceptedRunView {
                    run: run_view(room.runs[k]),
                    user_message: message_view(m),
                    snapshot: snapshot_view(room),
                },
            ),
        },
    }
}

/// What a new turn reports: the room's current run and the new user
/// message, read back from the room's snapshot.
pub open spec fn fresh_result(room: RoomState, text: Seq<char>, message_id: Seq<char>) -> Result<
    AcceptedRunView,
    StoreFailure,
> {
    match current_run(room.runs) {
        None => Err(StoreFailure::NotFound),
        Some(run) => match matching_user_message(
            recent_messages(room.messages),
            text,
            Some(message_id),
        ) {
            None => Err(StoreFailure::NotFound),
            Some(m) => Ok(
                AcceptedRunView {
                    run: run_view(run),
                    user_message: message_view(m),
                    snapshot: snapshot_view(room),
                },
            ),
        },
    }
}

/// Accepting a turn from `session` at `now`, with the generated message,
/// run and request identifiers. A key that names an earlier run with the same
/// text replays it; a room with a queued or running run is busy.
pub open spec fn append_turn_outcome(
    rooms: Seq<RoomState>,
    session: RoomSessionView,
    text_raw: Seq<char>,
    key_raw: Option<Seq<char>>,
    now: i64,
    message_id: Seq<char>,
    run_id: Seq<char>,
    request_id: Seq<char>,
) -> (Seq<RoomState>, Result<AcceptedRunView, StoreFailure>) {
    if !can_submit(session.role) {
        (rooms, Err(StoreFailure::Forbidden))
    } else {
        match non_empty_rule(text_raw, MAX_PROMPT_CHARS as nat, "text"@) {
            Err(e) => (rooms, Err(StoreFailure::Invalid(e))),
            Ok(text) => match key_rule(key_raw) {
                Err(e) => (rooms, Err(StoreFailure::Invalid(e))),
                Ok(key) => match find_room(rooms, session.room_id) {
                    None => (rooms, Err(StoreFailure::NotFound)),
                    Some(i) => {
                        let room = rooms[i];
                        let existing = match key {
                            Some(k) => first_index(room.runs, run_has_key(k)),
                            None => None,
                        };
                        if room.status == RoomStatus::Closed {
                            (rooms, Err(StoreFailure::Closed))
                        } else {
                            match existing {
                                Some(e) => if room.runs[e].input_text != text {
                                    (rooms, Err(StoreFailure::Conflict))
                                } else {
                                    (rooms, retry_result(room, room.runs[e].id, text))
                                },
                                None => if has_active_run(room.runs) {
                                    (rooms, Err(StoreFailure::RoomBusy))
                                } else if message_id_used(rooms, message_id) || run_id_used(
                                    rooms,
                                    run_id,
                                ) {
                                    (rooms, Err(StoreFailure::Database))
                                } else {
                                    let next = turn_started(
                                        room,
                                        user_message(message_id, text, session.participant_id, now),
                                        started_run(run_id, request_id, key, text, now),
                                        now,
                                    );
                                    (rooms.update(i, next), fresh_result(next, text, message_id))
                                },
                            }
                        }
                    },
                },
            },
        }
    }
}

/// Whether a turn would start a new run, the one case that needs the time:
/// the session may submit, the text and key are valid, the room exists and
/// is open, no run carries the key, and no run is queued or running.
pub open spec fn turn_starts_run(
    rooms: Seq<RoomState>,
    session: RoomSessionView,
    text_raw: Seq<char>,
    key_raw: Option<Seq<char>>,
) -> bool {
    &&& can_submit(session.role)
    &&& non_empty_rule(text_raw, MAX_PROMPT_CHARS as nat, "text"@) is Ok
    &&& key_rule(key_raw) is Ok
    &&& match find_room(rooms, session.room_id) {
        None => false,
        Some(i) => rooms[i].status != RoomStatus::Closed && match key_rule(key_raw)->Ok_0 {
            Some(k) => first_index(rooms[i].runs, run_has_key(k)) is None,
            None => true,
        } && !has_active_run(rooms[i].runs),
    }
}

pub open spec fn accepted_outcome(r: Result<AcceptedRun, StoreError>) -> Result<AcceptedRunView, StoreFailure> {
    match r {
        Ok(a) => Ok(a@),
        Err(e) => Err(e@),
    }
}

pub open spec fn opt_text_view(o: Option<String>) -> Option<Seq<char>> {
    crate::limits::opt_text(o)
}

/// Accepting a turn in a room without an active run, with fresh message and
/// run identifiers, keeps the room well formed.
pub proof fn lemma_turn_started_wf(room: RoomState, m: MessageState, run: RunState, now: i64)
    requires
        room_wf(room),
        is_timestamp(now),
        !has_active_run(room.runs),
        m.created_at == now,
        run.created_at == now,
        run.status == RunStatus::Running,
        run.partial_text.len() == 0,
        run.started_at == Some(now),
        run.finished_at is None,
        forall|j: int| 0 <= j < room.messages.len() ==> (#[trigger] room.messages[j]).id != m.id,
        forall|j: int| 0 <= j < room.runs.len() ==> (#[trigger] room.runs[j]).id != run.id,
        run.idempotency_key is Some ==> forall|j: int|
            0 <= j < room.runs.len() ==> (#[trigger] room.runs[j]).idempotency_key != run.idempotency_key,
    ensures
        room_wf(turn_started(room, m, run, now)),
        0 <= insert_pos(message_keys(room.messages), (m.created_at, m.id)) <= room.messages.len(),
        0 <= insert_pos(run_keys(room.runs), (run.created_at, run.id)) <= room.runs.len(),
{
    let mk = message_keys(room.messages);
    let rk = run_keys(room.runs);
    assert(ident_fresh(mk, m.id)) by {
        assert forall|j: int| 0 <= j < mk.len() implies (#[trigger] mk[j]).1 != m.id by {
            assert(mk[j].1 == room.messages[j].id);
        }
    }
    assert(ident_fresh(rk, run.id)) by {
        assert forall|j: int| 0 <= j < rk.len() implies (#[trigger] rk[j]).1 != run.id by {
            assert(rk[j].1 == room.runs[j].id);
        }
    }
    lemma_insert_pos(mk, (m.created_at, m.id));
    lemma_insert_pos(rk, (run.created_at, run.id));
    let pm = insert_pos(mk, (m.created_at, m.id));
    let pr = insert_pos(rk, (run.created_at, run.id));
    let g = turn_started(room, m, run, now);
    assert(message_keys(g.messages) =~= mk.insert(pm, (m.created_at, m.id)));
    assert(run_keys(g.runs) =~= rk.insert(pr, (run.created_at, run.id)));
    lemma_idents_insert(mk, pm, (m.created_at, m.id));
    lemma_idents_insert(rk, pr, (run.created_at, run.id));
    assert(g.runs[pr] == run);
    assert(keys_distinct(g.runs)) by {
        assert forall|a: int, b: int|
            0 <= a < g.runs.len() && 0 <= b < g.runs.len() && a != b && (#[trigger] g.runs[a]).idempotency_key is Some
                implies g.runs[a].idempotency_key != (#[trigger] g.runs[b]).idempotency_key by {
            let oa = if a < pr { a } else { a - 1 };
            let ob = if b < pr { b } else { b - 1 };
            if a != pr {
                assert(g.runs[a] == room.runs[oa]);
            }
            if b != pr {
                assert(g.runs[b] == room.runs[ob]);
            }
        }
    }
    assert forall|a: int, b: int|
        0 <= a < g.runs.len() && 0 <= b < g.runs.len() && is_active_status(#[trigger] g.runs[a].status)
            && is_active_status(#[trigger] g.runs[b].status) implies a == b by {
        if a != pr {
            let oa = if a < pr { a } else { a - 1 };
            assert(g.runs[a] == room.runs[oa]);
        }
        if b != pr {
            let ob = if b < pr { b } else { b - 1 };
            assert(g.runs[b] == room.runs[ob]);
        }
    }
    assert forall|j: int| 0 <= j < g.runs.len() implies (#[trigger] g.runs[j]).partial_text.len()
        <= MAX_MESSAGE_CHARS && crate::store::records::opt_timestamp(g.runs[j].started_at)
        && crate::store::records::opt_timestamp(g.runs[j].finished_at) by {
        if j != pr {
            let o = if j < pr { j } else { j - 1 };
            assert(g.runs[j] == room.runs[o]);
        }
    }
    assert forall|j: int| 0 <= j < g.messages.len() implies is_timestamp(
        #[trigger] g.messages[j].created_at,
    ) by {
        if j != pm {
            let o = if j < pm { j } else { j - 1 };
            assert(g.messages[j] == room.messages[o]);
        }
    }
}

/// Whether some run is queued or running.
pub fn active_run_exists(runs: &Vec<RunRecord>) -> (r: bool)
    ensures
        r == has_active_run(runs@.map_values(|x: RunRecord| x@)),
{
    let ghost all = runs@.map_values(|x: RunRecord| x@);
    let mut j: usize = 0;
    while j < runs.len()
        invariant
            j <= runs@.len(),
            all == runs@.map_values(|x: RunRecord| x@),
            forall|k: int| 0 <= k < j ==> !is_active_status(#[trigger] all[k].status),
        decreases runs.len() - j,
    {
        if matches!(runs[j].status, RunStatus::Queued | RunStatus::Running) {
            assert(is_active_status(all[j as int].status));
            return true;
        }
        j = j + 1;
    }
    false
}

/// The first run whose idempotency key is `key`.
pub fn keyed_run_index(runs: &Vec<RunRecord>, key: &str) -> (r: Option<usize>)
    ensures
        match r {
            Some(k) => k < runs@.len() && first_index(
                runs@.map_values(|x: RunRecord| x@),
                run_has_key(key@),
            ) == Some(k as int),
            None => first_index(runs@.map_values(|x: RunRecord| x@), run_has_key(key@)) is None,
        },
{
    let ghost all = runs@.map_values(|x: RunRecord| x@);
    let ghost p = run_has_key(key@);
    let mut j: usize = 0;
    while j < runs.len()
        invariant
            j <= runs@.len(),
            all == runs@.map_values(|x: RunRecord| x@),
            p == run_has_key(key@),
            forall|k: int| 0 <= k < j ==> !p(#[trigger] all[k]),
        decreases runs.len() - j,
    {
        let hit = match &runs[j].idempotency_key {
            Some(k) => crate::text::str_eq(k.as_str(), key),
            None => false,
        };
        if hit {
            proof {
                lemma_first_index_at(all, p, j as int);
            }
            return Some(j);
        }
        j = j + 1;
    }
    proof {
        lemma_first_index_none(all, p);
    }
    None
}

/// The index, in the room's whole transcript, of the newest user message
/// with `text` (and identifier `id`, where given) among the recent ones.
pub fn user_message_index(messages: &Vec<MessageRecord>, text: &str, id: Option<&str>) -> (r: Option<usize>)
    ensures
        ({
            let all = messages@.map_values(|x: MessageRecord| x@);
            let idv = match id {
                Some(x) => Some(x@),
                None => None,
            };
            match r {
                Some(k) => k < messages@.len() && matching_user_message(recent_messages(all), text@, idv)
                    == Some(all[k as int]),
                None => matching_user_message(recent_messages(all), text@, idv) is None,
            }
        }),
{
    let ghost all = messages@.map_values(|x: MessageRecord| x@);
    let ghost idv = match id {
        Some(x) => Some(x@),
        None => None,
    };
    let n = messages.len();
    let start = if n > MAX_HISTORY_MESSAGES {
        n - MAX_HISTORY_MESSAGES
    } else {
        0
    };
    let ghost recent = recent_messages(all);
    assert(recent =~= all.subrange(start as int, n as int));
    let mut k: usize = n;
    assert(recent.subrange(0, (k - start) as int) =~= recent);
    while k > start
        invariant
            n == messages@.len(),
            all == messages@.map_values(|x: MessageRecord| x@),
            start <= k <= n,
            recent == all.subrange(start as int, n as int),
            recent == recent_messages(all),
            idv == (match id {
                Some(x) => Some(x@),
                None => None::<Seq<char>>,
            }),
            matching_user_message(recent.subrange(0, (k - start) as int), text@, idv)
                == matching_user_message(recent, text@, idv),
        decreases k,
    {
        let ghost pre = recent.subrange(0, (k - start) as int);
        assert(pre.last() == all[k - 1]);
        let m = &messages[k - 1];
        let id_ok = match id {
            Some(x) => crate::text::str_eq(m.id.as_str(), x),
            None => true,
        };
        if matches!(m.role, MessageRole::User) && crate::text::str_eq(m.text.as_str(), text) && id_ok {
            assert(id_ok == (idv is None || all[k - 1].id == idv.unwrap()));
            assert(matching_user_message(pre, text@, idv) == Some(pre.last()));
            assert(matching_user_message(recent_messages(all), text@, idv) == Some(all[k - 1]));
            return Some(k - 1);
        }
        assert(pre.drop_last() =~= recent.subrange(0, (k - 1 - start) as int));
        k = k - 1;
    }
    None
}

/// Reports a retried turn from the room's rows.
fn retry_turn(rr: &RoomRecord, e: usize, text: &String) -> (r: Result<AcceptedRun, StoreError>)
    requires
        room_wf(rr@),
        e < rr.runs@.len(),
    ensures
        accepted_outcome(r) == retry_result(rr@, rr@.runs[e as int].id, text@),
{
    let ghost room = rr@;
    assert(room.runs[e as int] == rr.runs@[e as int]@);
    let k = match first_run_index(&rr.runs, rr.runs[e].id.as_str(), false, false) {
        Some(k) => k,
        None => {
            return Err(StoreError::NotFound);
        },
    };
    let m = match user_message_index(&rr.messages, text.as_str(), None) {
        Some(m) => m,
        None => {
            return Err(StoreError::NotFound);
        },
    };
    assert(room.runs[k as int] == rr.runs@[k as int]@);
    assert(room.messages[m as int] == rr.messages@[m as int]@);
    assert(is_timestamp(room.messages[m as int].created_at));
    Ok(
        AcceptedRun {
            run: run_out(&rr.runs[k]),
            user_message: message_out(&rr.messages[m]),
            snapshot: snapshot_of(rr),
        },
    )
}

/// Reports a new turn from the room's rows.
fn fresh_turn(rr: &RoomRecord, text: &String, message_id: &String) -> (r: Result<AcceptedRun, StoreError>)
    requires
        room_wf(rr@),
    ensures
        accepted_outcome(r) == fresh_result(rr@, text@, message_id@),
{
    let ghost room = rr@;
    let k = match crate::store::snapshot::current_run_index(&rr.runs) {
        Some(k) => k,
        None => {
            return Err(StoreError::NotFound);
        },
    };
    let m = match user_message_index(&rr.messages, text.as_str(), Some(message_id.as_str())) {
        Some(m) => m,
        None => {
            return Err(StoreError::NotFound);
        },
    };
    assert(room.runs[k as int] == rr.runs@[k as int]@);
    assert(room.messages[m as int] == rr.messages@[m as int]@);
    assert(is_timestamp(room.messages[m as int].created_at));
    Ok(
        AcceptedRun {
            run: run_out(&rr.runs[k]),
            user_message: message_out(&rr.messages[m]),
            snapshot: snapshot_of(rr),
        },
    )
}

pub open spec fn assistant_message(id: Seq<char>, text: Seq<char>, now: i64) -> MessageState {
    MessageState { id, role: MessageRole::Assistant, text, participant_id: None, created_at: now }
}

pub open spec fn finished_run(run: RunState, t: RunTerminalView, now: i64) -> RunState {
    RunState {
        status: t.status,
        error_code: t.error_code,
        error_message: t.error_message,
        finished_at: Some(now),
        ..run
    }
}

/// A completed run with output leaves it in the transcript.
pub open spec fn persists_output(run: RunState, t: RunTerminalView) -> bool {
    t.status == RunStatus::Completed && run.partial_text.len() > 0
}

/// The room once run `k` has ended with `t` at `now`: the output kept as an
/// assistant message where the run completed with some, the run finished,
/// the room idle (or failed, or still closed), and the transcript and run
/// history cut to their newest rows.
pub open spec fn finished_room(room: RoomState, k: int, t: RunTerminalView, now: i64, message_id: Seq<char>) -> RoomState {
    let run = room.runs[k];
    let msgs = if persists_output(run, t) {
        room.messages.insert(
            insert_pos(message_keys(room.messages), (now, message_id)),
            assistant_message(message_id, run.partial_text, now),
        )
    } else {
        room.messages
    };
    RoomState {
        messages: keep_last(msgs, MAX_HISTORY_MESSAGES as nat),
        runs: keep_last(room.runs.update(k, finished_run(run, t, now)), MAX_RETAINED_RUNS as nat),
        status: settled_status(
            room.status,
            if t.status == RunStatus::Failed {
                RoomStatus::Failed
            } else {
                RoomStatus::Idle
            },
        ),
        updated_at: now,
        ..room
    }
}

/// Ending run `run_id` of room `room_raw` with `t` at `now`, with the
/// generated identifier for the assistant message. A run that already ended
/// is left as it is.
pub open spec fn finish_outcome(
    rooms: Seq<RoomState>,
    room_raw: Seq<char>,
    run_id: Seq<char>,
    t: RunTerminalView,
    now: i64,
    message_id: Seq<char>,
) -> (Seq<RoomState>, Result<RoomSnapshotView, StoreFailure>) {
    match room_id_rule(room_raw) {
        Err(e) => (rooms, Err(StoreFailure::Invalid(e))),
        Ok(id) => match find_room(rooms, id) {
            None => (rooms, Err(StoreFailure::NotFound)),
            Some(i) => match first_index(rooms[i].runs, run_has_id(run_id)) {
                None => (rooms, Err(StoreFailure::NotFound)),
                Some(k) => {
                    let room = rooms[i];
                    if !is_active_status(room.runs[k].status) {
                        (rooms, Ok(snapshot_view(room)))
                    } else if persists_output(room.runs[k], t) && message_id_used(rooms, message_id) {
                        (rooms, Err(StoreFailure::Database))
                    } else {
                        let next = finished_room(room, k, t, now, message_id);
                        (rooms.update(i, next), Ok(snapshot_view(next)))
                    }
                },
            },
        },
    }
}

/// Whether ending run `run_id` of room `room_raw` changes the room, the one
/// case that needs the time: the run exists and is queued or running.
pub open spec fn finish_changes(rooms: Seq<RoomState>, room_raw: Seq<char>, run_id: Seq<char>) -> bool {
    match room_id_rule(room_raw) {
        Err(_) => false,
        Ok(id) => match find_room(rooms, id) {
            None => false,
            Some(i) => match first_index(rooms[i].runs, run_has_id(run_id)) {
                None => false,
                Some(k) => is_active_status(rooms[i].runs[k].status),
            },
        },
    }
}

/// Whether streaming `delta_raw` into run `run_id` of room `room_raw` is
/// accepted, the one case that needs the time: the delta is valid, the run
/// is running and the output stays within bounds.
pub open spec fn delta_changes(
    rooms: Seq<RoomState>,
    room_raw: Seq<char>,
    run_id: Seq<char>,
    delta_raw: Seq<char>,
) -> bool {
    match delta_rule(delta_raw) {
        Err(_) => false,
        Ok(d) => match find_room(rooms, room_raw) {
            None => false,
            Some(i) => match first_index(rooms[i].runs, run_is_running_with_id(run_id)) {
                None => false,
                Some(k) => (rooms[i].runs[k].partial_text + d).len() <= MAX_MESSAGE_CHARS,
            },
        },
    }
}

pub open spec fn snapshot_result(r: Result<RoomSnapshot, StoreError>) -> Result<RoomSnapshotView, StoreFailure> {
    match r {
        Ok(s) => Ok(s@),
        Err(e) => Err(e@),
    }
}

/// A queued or running run failed by a restart.
pub open spec fn recovered_run(r: RunState, now: i64) -> RunState {
    if is_active_status(r.status) {
        RunState {
            status: RunStatus::Failed,
            error_code: Some("nodeRestarted"@),
            error_message: Some("generation interrupted by node restart"@),
            finished_at: Some(now),
            ..r
        }
    } else {
        r
    }
}

/// A room after a restart: its interrupted run failed, and a running room
/// failed.
pub open spec fn recovered_room(room: RoomState, now: i64) -> RoomState {
    RoomState {
        runs: room.runs.map_values(|r: RunState| recovered_run(r, now)),
        status: if room.status == RoomStatus::Running {
            RoomStatus::Failed
        } else {
            room.status
        },
        updated_at: if room.status == RoomStatus::Running {
            now
        } else {
            room.updated_at
        },
        ..room
    }
}

/// Every room after a restart.
pub open spec fn recovered_rooms(rooms: Seq<RoomState>, now: i64) -> Seq<RoomState> {
    rooms.map_values(|room: RoomState| recovered_room(room, now))
}

/// The number of queued or running runs.
pub open spec fn active_count(runs: Seq<RunState>) -> nat
    decreases runs.len(),
{
    if runs.len() == 0 {
        0
    } else {
        active_count(runs.drop_last()) + if is_active_status(runs.last().status) {
            1nat
        } else {
            0nat
        }
    }
}

/// The number of queued or running runs over all rooms.
pub open spec fn active_total(rooms: Seq<RoomState>) -> nat
    decreases rooms.len(),
{
    if rooms.len() == 0 {
        0
    } else {
        active_total(rooms.drop_last()) + active_count(rooms.last().runs)
    }
}

pub proof fn lemma_active_count_bound(runs: Seq<RunState>)
    requires
        single_active_run(runs),
    ensures
        active_count(runs) <= 1,
        active_count(runs) == 0 <==> !has_active_run(runs),
    decreases runs.len(),
{
    if runs.len() > 0 {
        let init = runs.drop_last();
        assert(single_active_run(init)) by {
            assert forall|a: int, b: int|
                0 <= a < init.len() && 0 <= b < init.len() && is_active_status(#[trigger] init[a].status)
                    && is_active_status(#[trigger] init[b].status) implies a == b by {
                assert(init[a] == runs[a] && init[b] == runs[b]);
            }
        }
        lemma_active_count_bound(init);
        if is_active_status(runs.last().status) {
            if has_active_run(init) {
                let a = choose|a: int| 0 <= a < init.len() && is_active_status(#[trigger] init[a].status);
                assert(init[a] == runs[a]);
            }
        }
        if has_active_run(runs) {
            let a = choose|a: int| 0 <= a < runs.len() && is_active_status(#[trigger] runs[a].status);
            if a < init.len() {
                assert(init[a] == runs[a]);
            }
        }
    }
}

pub proof fn lemma_active_total_prefix(rooms: Seq<RoomState>, j: int)
    requires
        0 <= j <= rooms.len(),
    ensures
        active_total(rooms.take(j)) <= active_total(rooms),
    decreases rooms.len() - j,
{
    if j < rooms.len() {
        lemma_active_total_prefix(rooms, j + 1);
        assert(rooms.take(j + 1).drop_last() =~= rooms.take(j));
    } else {
        assert(rooms.take(j) =~= rooms);
    }
}

pub proof fn lemma_active_total_bound(rooms: Seq<RoomState>)
    requires
        forall|i: int| 0 <= i < rooms.len() ==> single_active_run(#[trigger] rooms[i].runs),
    ensures
        active_total(rooms) <= rooms.len(),
    decreases rooms.len(),
{
    if rooms.len() > 0 {
        let init = rooms.drop_last();
        assert forall|i: int| 0 <= i < init.len() implies single_active_run(#[trigger] init[i].runs) by {
            assert(init[i] == rooms[i]);
        }
        lemma_active_total_bound(init);
        lemma_active_count_bound(rooms.last().runs);
    }
}

pub proof fn lemma_recovered_room_wf(room: RoomState, now: i64)
    requires
        room_wf(room),
        is_timestamp(now),
    ensures
        room_wf(recovered_room(room, now)),
{
    let g = recovered_room(room, now);
    assert(run_keys(g.runs) =~= run_keys(room.runs));
    assert forall|j: int| 0 <= j < g.runs.len() implies !is_active_status(#[trigger] g.runs[j].status) by {}
}

/// Ending an active run keeps a room well formed.
pub proof fn lemma_finished_room_wf(room: RoomState, k: int, t: RunTerminalView, now: i64, message_id: Seq<char>)
    requires
        room_wf(room),
        is_timestamp(now),
        0 <= k < room.runs.len(),
        is_active_status(room.runs[k].status),
        persists_output(room.runs[k], t) ==> forall|j: int|
            0 <= j < room.messages.len() ==> (#[trigger] room.messages[j]).id != message_id,
    ensures
        room_wf(finished_room(room, k, t, now, message_id)),
        persists_output(room.runs[k], t) ==> 0 <= insert_pos(message_keys(room.messages), (now, message_id))
            <= room.messages.len(),
{
    let run = room.runs[k];
    let g = finished_room(room, k, t, now, message_id);
    let msgs = if persists_output(run, t) {
        room.messages.insert(
            insert_pos(message_keys(room.messages), (now, message_id)),
            assistant_message(message_id, run.partial_text, now),
        )
    } else {
        room.messages
    };
    if persists_output(run, t) {
        let mk = message_keys(room.messages);
        assert(ident_fresh(mk, message_id)) by {
            assert forall|j: int| 0 <= j < mk.len() implies (#[trigger] mk[j]).1 != message_id by {
                assert(mk[j].1 == room.messages[j].id);
            }
        }
        lemma_insert_pos(mk, (now, message_id));
        let pm = insert_pos(mk, (now, message_id));
        assert(message_keys(msgs) =~= mk.insert(pm, (now, message_id)));
        lemma_idents_insert(mk, pm, (now, message_id));
        assert forall|j: int| 0 <= j < msgs.len() implies is_timestamp(#[trigger] msgs[j].created_at) by {
            if j != pm {
                let o = if j < pm { j } else { j - 1 };
                assert(msgs[j] == room.messages[o]);
            }
        }
    }
    assert(strictly_sorted(message_keys(msgs)));
    assert(idents_distinct(message_keys(msgs)));
    let ms = keep_last(msgs, MAX_HISTORY_MESSAGES as nat);
    let off = msgs.len() - ms.len();
    assert(message_keys(ms) =~= message_keys(msgs).subrange(off, msgs.len() as int));
    lemma_idents_subrange(message_keys(msgs), off, msgs.len() as int);
    assert forall|j: int| 0 <= j < ms.len() implies ms[j] == msgs[j + off] by {}
    assert(strictly_sorted(message_keys(ms))) by {
        assert forall|a: int, b: int| 0 <= a < b < message_keys(ms).len() implies crate::store::order::key_lt(
            #[trigger] message_keys(ms)[a],
            #[trigger] message_keys(ms)[b],
        ) by {
            assert(message_keys(ms)[a] == message_keys(msgs)[a + off]);
            assert(message_keys(ms)[b] == message_keys(msgs)[b + off]);
        }
    }
    let ru = room.runs.update(k, finished_run(run, t, now));
    assert(run_keys(ru) =~= run_keys(room.runs));
    let rs = keep_last(ru, MAX_RETAINED_RUNS as nat);
    let roff = ru.len() - rs.len();
    assert forall|j: int| 0 <= j < rs.len() implies rs[j] == ru[j + roff] by {}
    assert(run_keys(rs) =~= run_keys(ru).subrange(roff, ru.len() as int));
    lemma_idents_subrange(run_keys(ru), roff, ru.len() as int);
    assert(keys_distinct(rs)) by {
        assert forall|a: int, b: int|
            0 <= a < rs.len() && 0 <= b < rs.len() && a != b && (#[trigger] rs[a]).idempotency_key is Some
                implies rs[a].idempotency_key != (#[trigger] rs[b]).idempotency_key by {
            assert(rs[a].idempotency_key == room.runs[a + roff].idempotency_key);
            assert(rs[b].idempotency_key == room.runs[b + roff].idempotency_key);
        }
    }
    assert(strictly_sorted(run_keys(rs))) by {
        assert forall|a: int, b: int| 0 <= a < b < run_keys(rs).len() implies crate::store::order::key_lt(
            #[trigger] run_keys(rs)[a],
            #[trigger] run_keys(rs)[b],
        ) by {
            assert(run_keys(rs)[a] == run_keys(ru)[a + roff]);
            assert(run_keys(rs)[b] == run_keys(ru)[b + roff]);
        }
    }
    assert forall|a: int, b: int|
        0 <= a < rs.len() && 0 <= b < rs.len() && is_active_status(#[trigger] rs[a].status)
            && is_active_status(#[trigger] rs[b].status) implies a == b by {
        let oa = a + roff;
        let ob = b + roff;
        if oa != k {
            assert(ru[oa] == room.runs[oa]);
        }
        if ob != k {
            assert(ru[ob] == room.runs[ob]);
        }
    }
    assert forall|j: int| 0 <= j < rs.len() implies (#[trigger] rs[j]).partial_text.len()
        <= MAX_MESSAGE_CHARS && crate::store::records::opt_timestamp(rs[j].started_at)
        && crate::store::records::opt_timestamp(rs[j].finished_at) by {
        assert(rs[j] == ru[j + roff]);
        if j + roff != k {
            assert(ru[j + roff] == room.runs[j + roff]);
        }
    }
    assert forall|j: int| 0 <= j < ms.len() implies is_timestamp(#[trigger] ms[j].created_at) by {
        assert(ms[j] == msgs[j + off]);
        if !persists_output(run, t) {
            assert(msgs[j + off] == room.messages[j + off]);
        }
    }
    assert(g.messages == ms);
    assert(g.runs == rs);
}

/// Keeps the newest `n` rows of `v`.
fn keep_newest<T>(v: &mut Vec<T>, n: usize)
    ensures
        final(v)@ == keep_last(old(v)@, n as nat),
{
    if v.len() > n {
        let start = v.len() - n;
        let kept = v.split_off(start);
        *v = kept;
    }
}

/// Fails the interrupted run of one room, and the room where it was running.
fn recover_room(room: &mut RoomRecord, now: i64) -> (count: usize)
    requires
        room_wf(old(room)@),
        is_timestamp(now),
    ensures
        final(room)@ == recovered_room(old(room)@, now),
        count == active_count(old(room)@.runs),
{
    let ghost before = old(room)@;
    let ghost runs0 = before.runs;
    proof {
        lemma_active_count_bound(runs0);
    }
    let mut count: usize = 0;
    let n = room.runs.len();
    let mut j: usize = 0;
    assert(runs0.take(0) =~= Seq::<RunState>::empty());
    while j < n
        invariant
            n == room.runs@.len(),
            runs0.len() == n,
            j <= n,
            active_count(runs0) <= 1,
            count == active_count(runs0.take(j as int)),
            forall|k: int| 0 <= k < j ==> (#[trigger] room.runs@[k])@ == recovered_run(runs0[k], now),
            forall|k: int| j <= k < n ==> (#[trigger] room.runs@[k])@ == runs0[k],
            room.status == before.status,
            room.updated_at == before.updated_at,
            room.id@ == before.id,
            room.model_id@ == before.model_id,
            room.share_origin@ == before.share_origin,
            room.created_at == before.created_at,
            room.messages@.map_values(|x: MessageRecord| x@) == before.messages,
            room.invite@ == before.invite,
            room.participants@.map_values(|x: crate::store::records::ParticipantRecord| x@) == before.participants,
            room.sessions@.map_values(|x: crate::store::records::SessionRecord| x@) == before.sessions,
        decreases n - j,
    {
        assert(runs0.take(j + 1).drop_last() =~= runs0.take(j as int));
        assert(runs0.take(j + 1).last() == runs0[j as int]);
        proof {
            lemma_active_count_prefix(runs0, j as int + 1);
        }
        if matches!(room.runs[j].status, RunStatus::Queued | RunStatus::Running) {
            let r = &mut room.runs[j];
            r.status = RunStatus::Failed;
            r.error_code = Some("nodeRestarted".to_owned());
            r.error_message = Some("generation interrupted by node restart".to_owned());
            r.finished_at = Some(now);
            count = count + 1;
        }
        j = j + 1;
    }
    assert(runs0.take(n as int) =~= runs0);
    if matches!(room.status, RoomStatus::Running) {
        room.status = RoomStatus::Failed;
        room.updated_at = now;
    }
    assert(room.runs@.map_values(|x: RunRecord| x@) =~= runs0.map_values(|r: RunState| recovered_run(r, now)));
    count
}

pub proof fn lemma_active_count_prefix(runs: Seq<RunState>, j: int)
    requires
        0 <= j <= runs.len(),
    ensures
        active_count(runs.take(j)) <= active_count(runs),
    decreases runs.len() - j,
{
    if j < runs.len() {
        lemma_active_count_prefix(runs, j + 1);
        assert(runs.take(j + 1).drop_last() =~= runs.take(j));
    } else {
        assert(runs.take(j) =~= runs);
    }
}

impl RoomStore {
    /// Accepts a turn from `session` at `now`, with the given generated
    /// message, run and request identifiers.
    #[verifier::rlimit(40)]
    pub fn append_user_turn_at(
        &mut self,
        session: &RoomSession,
        input: SubmitTurnInput,
        now: i64,
        message_id: String,
        run_id: String,
        request_id: String,
    ) -> (r: Result<AcceptedRun, StoreError>)
        requires
            old(self).wf(),
            is_timestamp(now),
        ensures
            final(self).wf(),
            (final(self)@, accepted_outcome(r)) == append_turn_outcome(
                old(self)@,
                session@,
                input.text@,
                opt_text_view(input.idempotency_key),
                now,
                message_id@,
                run_id@,
                request_id@,
            ),
    {
        if !matches!(session.role, ParticipantRole::Host | ParticipantRole::Guest) {
            return Err(StoreError::Forbidden);
        }
        let text = match validate_prompt(input.text.as_str()) {
            Ok(t) => t,
            Err(e) => {
                return Err(StoreError::Invalid(e));
            },
        };
        let key: Option<String> = match &input.idempotency_key {
            None => None,
            Some(k) => match validate_non_empty(k.as_str(), MAX_IDEMPOTENCY_KEY_CHARS, "idempotencyKey") {
                Ok(v) => Some(v),
                Err(e) => {
                    return Err(StoreError::Invalid(e));
                },
            },
        };
        assert(key_rule(opt_text_view(input.idempotency_key)) == Ok::<Option<Seq<char>>, Seq<char>>(opt_text_view(key)));
        let i = match self.room_index(session.room_id.as_str()) {
            Some(i) => i,
            None => {
                return Err(StoreError::NotFound);
            },
        };
        let ghost old_rooms = self@;
        let ghost room = old_rooms[i as int];
        assert(room == self.rooms@[i as int]@);
        if matches!(self.rooms[i].status, RoomStatus::Closed) {
            return Err(StoreError::Closed);
        }
        let existing = match &key {
            Some(k) => keyed_run_index(&self.rooms[i].runs, k.as_str()),
            None => None,
        };
        if let Some(e) = existing {
            if !crate::text::str_eq(self.rooms[i].runs[e].input_text.as_str(), text.as_str()) {
                return Err(StoreError::Conflict);
            }
            return retry_turn(&self.rooms[i], e, &text);
        }
        if active_run_exists(&self.rooms[i].runs) {
            return Err(StoreError::RoomBusy);
        }
        if self.message_id_in_use(message_id.as_str()) || self.run_id_in_use(run_id.as_str()) {
            return Err(StoreError::Database);
        }
        let message = MessageRecord {
            id: message_id.clone(),
            role: MessageRole::User,
            text: text.clone(),
            participant_id: Some(session.participant_id.clone()),
            created_at: now,
        };
        let run = RunRecord {
            id: run_id,
            request_id,
            idempotency_key: key,
            input_text: text.clone(),
            status: RunStatus::Running,
            partial_text: String::new(),
            error_code: None,
            error_message: None,
            started_at: Some(now),
            finished_at: None,
            created_at: now,
        };
        let ghost mv = message@;
        let ghost rv = run@;
        let ghost g = turn_started(room, mv, rv, now);
        proof {
            assert forall|j: int| 0 <= j < room.messages.len() implies (
            #[trigger] room.messages[j]).id != mv.id by {
                if room.messages[j].id == mv.id {
                    assert(old_rooms[i as int].messages[j].id == message_id@);
                }
            }
            assert forall|j: int| 0 <= j < room.runs.len() implies (#[trigger] room.runs[j]).id
                != rv.id by {
                if room.runs[j].id == rv.id {
                    assert(old_rooms[i as int].runs[j].id == rv.id);
                }
            }
            if rv.idempotency_key is Some {
                let kk = rv.idempotency_key->Some_0;
                lemma_first_index(room.runs, run_has_key(kk));
                assert forall|j: int| 0 <= j < room.runs.len() implies (#[trigger] room.runs[j]).idempotency_key
                    != rv.idempotency_key by {
                    assert(!(run_has_key(kk))(room.runs[j]));
                }
            }
            lemma_turn_started_wf(room, mv, rv, now);
        }
        let ghost old_ms = self.rooms@[i as int].messages@;
        let ghost old_rs = self.rooms@[i as int].runs@;
        let ghost pm = insert_pos(keys_of(old_ms), message.order_key());
        let ghost pr = insert_pos(keys_of(old_rs), run.order_key());
        let rm = &mut self.rooms[i];
        insert_ordered(&mut rm.messages, message);
        insert_ordered(&mut rm.runs, run);
        rm.status = RoomStatus::Running;
        rm.updated_at = now;
        proof {
            assert(keys_of(old_ms) =~= message_keys(room.messages));
            assert(keys_of(old_rs) =~= run_keys(room.runs));
            assert(self.rooms@[i as int].messages@.map_values(|x: MessageRecord| x@) =~= g.messages);
            assert(self.rooms@[i as int].runs@.map_values(|x: RunRecord| x@) =~= g.runs);
            assert(self@ =~= old_rooms.update(i as int, g));
            self.lemma_update_keeps_wf(old_rooms, i as int, g);
        }
        assert(self.rooms@[i as int]@ == g);
        fresh_turn(&self.rooms[i], &text, &message_id)
    }

    /// Accepts a turn from `session` now, with fresh identifiers.
    pub fn append_user_turn(&mut self, session: &RoomSession, input: SubmitTurnInput) -> (r: Result<
        AcceptedRun,
        StoreError,
    >)
        requires
            old(self).wf(),
        ensures
            final(self).wf(),
            (r matches Err(StoreError::Database) && final(self)@ == old(self)@ && turn_starts_run(
                old(self)@,
                session@,
                input.text@,
                opt_text_view(input.idempotency_key),
            )) || exists|now: i64, t1: Seq<char>, t2: Seq<char>, t3: Seq<char>|
                is_timestamp(now) && is_hex_token(t1) && is_hex_token(t2) && is_hex_token(t3) && (
                final(self)@,
                accepted_outcome(r),
            ) == #[trigger] append_turn_outcome(
                    old(self)@,
                    session@,
                    input.text@,
                    opt_text_view(input.idempotency_key),
                    now,
                    "msg_"@ + t1,
                    "run_"@ + t2,
                    "req_"@ + t3,
                ),
    {
        // Only a turn that starts a run stamps the store with the time; every
        // other answer is the same at any instant, so no reading is taken.
        let now = if self.starts_run(session, &input) {
            match current_time() {
                Some(t) => t,
                None => {
                    return Err(StoreError::Database);
                },
            }
        } else {
            0
        };
        let message_id = opaque_id("msg_");
        let run_id = opaque_id("run_");
        let request_id = opaque_id("req_");
        let ghost t1 = choose|t: Seq<char>| is_hex_token(t) && message_id@ == "msg_"@ + t;
        let ghost t2 = choose|t: Seq<char>| is_hex_token(t) && run_id@ == "run_"@ + t;
        let ghost t3 = choose|t: Seq<char>| is_hex_token(t) && request_id@ == "req_"@ + t;
        let ghost text_raw = input.text@;
        let ghost key_raw = opt_text_view(input.idempotency_key);
        let r = self.append_user_turn_at(session, input, now, message_id, run_id, request_id);
        assert((self@, accepted_outcome(r)) == append_turn_outcome(
            old(self)@,
            session@,
            text_raw,
            key_raw,
            now,
            "msg_"@ + t1,
            "run_"@ + t2,
            "req_"@ + t3,
        ));
        r
    }

    /// Ends run `run_id` with `terminal` at `now`; `message_id` names the
    /// assistant message if the output is kept.
    #[verifier::rlimit(40)]
    pub fn finish_run_at(
        &mut self,
        room_id: &str,
        run_id: &str,
        terminal: RunTerminal,
        now: i64,
        message_id: String,
    ) -> (r: Result<RoomSnapshot, StoreError>)
        requires
            old(self).wf(),
            is_timestamp(now),
        ensures
            final(self).wf(),
            (final(self)@, snapshot_result(r)) == finish_outcome(
                old(self)@,
                room_id@,
                run_id@,
                terminal@,
                now,
                message_id@,
            ),
    {
        let id = validate_room_id(room_id)?;
        let i = match self.room_index(id.as_str()) {
            Some(i) => i,
            None => {
                return Err(StoreError::NotFound);
            },
        };
        let ghost old_rooms = self@;
        let ghost room = old_rooms[i as int];
        assert(room == self.rooms@[i as int]@);
        let k = match first_run_index(&self.rooms[i].runs, run_id, false, false) {
            Some(k) => k,
            None => {
                return Err(StoreError::NotFound);
            },
        };
        assert(room.runs[k as int] == self.rooms@[i as int].runs@[k as int]@);
        if !matches!(self.rooms[i].runs[k].status, RunStatus::Queued | RunStatus::Running) {
            return Ok(snapshot_of(&self.rooms[i]));
        }
        let persist = matches!(terminal.status, RunStatus::Completed)
            && !self.rooms[i].runs[k].partial_text.as_str().is_empty();
        if persist && self.message_id_in_use(message_id.as_str()) {
            return Err(StoreError::Database);
        }
        let ghost t = terminal@;
        let ghost g = finished_room(room, k as int, t, now, message_id@);
        proof {
            if persist {
                assert forall|j: int| 0 <= j < room.messages.len() implies (
                #[trigger] room.messages[j]).id != message_id@ by {
                    if room.messages[j].id == message_id@ {
                        assert(old_rooms[i as int].messages[j].id == message_id@);
                    }
                }
            }
            lemma_finished_room_wf(room, k as int, t, now, message_id@);
        }
        let output = self.rooms[i].runs[k].partial_text.clone();
        let ghost old_ms = self.rooms@[i as int].messages@;
        let rm = &mut self.rooms[i];
        if persist {
            let message = MessageRecord {
                id: message_id,
                role: MessageRole::Assistant,
                text: output,
                participant_id: None,
                created_at: now,
            };
            assert(keys_of(old_ms) =~= message_keys(room.messages));
            insert_ordered(&mut rm.messages, message);
        }
        let run_rec = &mut rm.runs[k];
        run_rec.status = terminal.status;
        run_rec.error_code = terminal.error_code;
        run_rec.error_message = terminal.error_message;
        run_rec.finished_at = Some(now);
        if !matches!(rm.status, RoomStatus::Closed) {
            rm.status = if matches!(terminal.status, RunStatus::Failed) {
                RoomStatus::Failed
            } else {
                RoomStatus::Idle
            };
        }
        rm.updated_at = now;
        keep_newest(&mut rm.runs, MAX_RETAINED_RUNS);
        keep_newest(&mut rm.messages, MAX_HISTORY_MESSAGES);
        proof {
            assert(self.rooms@[i as int].messages@.map_values(|x: MessageRecord| x@) =~= g.messages);
            assert(self.rooms@[i as int].runs@.map_values(|x: RunRecord| x@) =~= g.runs);
            assert(self@ =~= old_rooms.update(i as int, g));
            self.lemma_update_keeps_wf(old_rooms, i as int, g);
        }
        Ok(snapshot_of(&self.rooms[i]))
    }

    /// Ends run `run_id` with `terminal` now.
    pub fn finish_run(&mut self, room_id: &str, run_id: &str, terminal: RunTerminal) -> (r: Result<
        RoomSnapshot,
        StoreError,
    >)
        requires
            old(self).wf(),
        ensures
            final(self).wf(),
            (r matches Err(StoreError::Database) && final(self)@ == old(self)@ && finish_changes(
                old(self)@,
                room_id@,
                run_id@,
            )) || exists|now: i64, t: Seq<char>|
                is_timestamp(now) && is_hex_token(t) && (final(self)@, snapshot_result(r))
                    == #[trigger] finish_outcome(
                    old(self)@,
                    room_id@,
                    run_id@,
                    terminal@,
                    now,
                    "msg_"@ + t,
                ),
    {
        // Only a run that is still queued or running is ended, and stamped
        // with the time; every other answer is the same at any instant.
        let now = if self.finish_changes_room(room_id, run_id) {
            match current_time() {
                Some(t) => t,
                None => {
                    return Err(StoreError::Database);
                },
            }
        } else {
            0
        };
        let message_id = opaque_id("msg_");
        let ghost t = choose|t: Seq<char>| is_hex_token(t) && message_id@ == "msg_"@ + t;
        let ghost tv = terminal@;
        let r = self.finish_run_at(room_id, run_id, terminal, now, message_id);
        assert((self@, snapshot_result(r)) == finish_outcome(
            old(self)@,
            room_id@,
            run_id@,
            tv,
            now,
            "msg_"@ + t,
        ));
        r
    }

    /// Fails every queued or running run at `now`, as after a restart, and
    /// returns how many there were.
    pub fn recover_running_at(&mut self, now: i64) -> (r: Result<usize, StoreError>)
        requires
            old(self).wf(),
            is_timestamp(now),
        ensures
            final(self).wf(),
            final(self)@ == recovered_rooms(old(self)@, now),
            r matches Ok(n) && n == active_total(old(self)@),
    {
        let ghost old_rooms = self@;
        proof {
            assert forall|a: int| 0 <= a < old_rooms.len() implies single_active_run(
                #[trigger] old_rooms[a].runs,
            ) by {
                assert(room_wf(old_rooms[a]));
            }
            lemma_active_total_bound(old_rooms);
        }
        let n = self.rooms.len();
        let mut total: usize = 0;
        let mut i: usize = 0;
        assert(old_rooms.take(0) =~= Seq::<RoomState>::empty());
        while i < n
            invariant
                n == self.rooms@.len(),
                old_rooms.len() == n,
                store_wf(old_rooms),
                is_timestamp(now),
                i <= n,
                active_total(old_rooms) <= n,
                total == active_total(old_rooms.take(i as int)),
                forall|a: int| 0 <= a < i ==> (#[trigger] self.rooms@[a])@ == recovered_room(old_rooms[a], now),
                forall|a: int| i <= a < n ==> (#[trigger] self.rooms@[a])@ == old_rooms[a],
            decreases n - i,
        {
            assert(self.rooms@[i as int]@ == old_rooms[i as int]);
            assert(room_wf(old_rooms[i as int]));
            proof {
                assert(old_rooms.take(i + 1).drop_last() =~= old_rooms.take(i as int));
                assert(old_rooms.take(i + 1).last() == old_rooms[i as int]);
                lemma_active_total_prefix(old_rooms, i as int + 1);
            }
            let c = recover_room(&mut self.rooms[i], now);
            total = total + c;
            i = i + 1;
        }
        assert(old_rooms.take(n as int) =~= old_rooms);
        proof {
            assert(self@ =~= recovered_rooms(old_rooms, now));
            assert forall|a: int| 0 <= a < self@.len() implies room_wf(#[trigger] self@[a]) by {
                lemma_recovered_room_wf(old_rooms[a], now);
            }
            assert forall|a: int, b: int|
                0 <= a < self@.len() && 0 <= b < self@.len() && a != b implies (#[trigger] self@[a]).id
                != (#[trigger] self@[b]).id by {
                assert(self@[a].id == old_rooms[a].id);
                assert(self@[b].id == old_rooms[b].id);
            }
            assert forall|a: int| 0 <= a < self@.len() implies room_id_rule((#[trigger] self@[a]).id)
                == Ok::<Seq<char>, Seq<char>>(self@[a].id) by {
                assert(self@[a].id == old_rooms[a].id);
            }
        }
        Ok(total)
    }

    /// Fails every queued or running run now, as after a restart.
    pub fn recover_running(&mut self) -> (r: Result<usize, StoreError>)
        requires
            old(self).wf(),
        ensures
            final(self).wf(),
            (r matches Err(StoreError::Database) && final(self)@ == old(self)@) || (r matches Ok(n)
                && n == active_total(old(self)@) && exists|now: i64|
                is_timestamp(now) && final(self)@ == #[trigger] recovered_rooms(old(self)@, now)),
    {
        let now = match current_time() {
            Some(t) => t,
            None => {
                return Err(StoreError::Database);
            },
        };
        self.recover_running_at(now)
    }

    /// Streams `delta` into a running run at `now`.
    pub fn append_delta_at(&mut self, room_id: &str, run_id: &str, delta: &str, now: i64) -> (r: Result<
        (),
        StoreError,
    >)
        requires
            old(self).wf(),
            is_timestamp(now),
        ensures
            final(self).wf(),
            (final(self)@, unit_outcome(r)) == append_delta_outcome(
                old(self)@,
                room_id@,
                run_id@,
                delta@,
                now,
            ),
    {
        let delta = match validate_delta(delta) {
            Ok(d) => d,
            Err(e) => {
                return Err(StoreError::Invalid(e));
            },
        };
        let i = match self.room_index(room_id) {
            Some(i) => i,
            None => {
                return Err(StoreError::NotFound);
            },
        };
        let ghost old_rooms = self@;
        let ghost room = old_rooms[i as int];
        assert(room == self.rooms@[i as int]@);
        let k = match first_run_index(&self.rooms[i].runs, run_id, true, false) {
            Some(k) => k,
            None => {
                return Err(StoreError::NotFound);
            },
        };
        let combined = concat(self.rooms[i].runs[k].partial_text.as_str(), delta.as_str());
        let count = chars_of(combined.as_str()).len();
        if count > MAX_MESSAGE_CHARS {
            return Err(StoreError::Invalid("assistant output is too long".to_owned()));
        }
        let ghost run = room.runs[k as int];
        let ghost new_run = RunState { partial_text: combined@, ..run };
        let ghost g = RoomState {
            runs: room.runs.update(k as int, new_run),
            updated_at: now,
            ..room
        };
        let rm = &mut self.rooms[i];
        rm.updated_at = now;
        let run_rec = &mut rm.runs[k];
        run_rec.partial_text = combined;
        proof {
            assert(self.rooms@[i as int].runs@.map_values(|x: RunRecord| x@) =~= g.runs);
            assert(self@ =~= old_rooms.update(i as int, g));
            lemma_run_update_keeps_wf(room, k as int, new_run, g);
            self.lemma_update_keeps_wf(old_rooms, i as int, g);
        }
        Ok(())
    }

    /// Streams `delta` into a running run now.
    pub fn append_delta(&mut self, room_id: &str, run_id: &str, delta: &str) -> (r: Result<
        (),
        StoreError,
    >)
        requires
            old(self).wf(),
        ensures
            final(self).wf(),
            (r matches Err(StoreError::Database) && final(self)@ == old(self)@ && delta_changes(
                old(self)@,
                room_id@,
                run_id@,
                delta@,
            )) || exists|now: i64|
                is_timestamp(now) && (final(self)@, unit_outcome(r)) == #[trigger] append_delta_outcome(
                    old(self)@,
                    room_id@,
                    run_id@,
                    delta@,
                    now,
                ),
    {
        // Only an accepted delta stamps the room with the time; every other
        // answer is the same at any instant.
        let now = if self.delta_changes_room(room_id, run_id, delta) {
            match current_time() {
                Some(t) => t,
                None => {
                    return Err(StoreError::Database);
                },
            }
        } else {
            0
        };
        self.append_delta_at(room_id, run_id, delta, now)
    }

    /// Stops a queued or running run at `now`.
    pub fn stop_run_at(&mut self, room_id: &str, run_id: &str, now: i64) -> (r: Result<(), StoreError>)
        requires
            old(self).wf(),
            is_timestamp(now),
        ensures
            final(self).wf(),
            (final(self)@, unit_outcome(r)) == stop_outcome(old(self)@, room_id@, run_id@, now),
    {
        let id = validate_room_id(room_id)?;
        let i = match self.room_index(id.as_str()) {
            Some(i) => i,
            None => {
                return Err(StoreError::NotFound);
            },
        };
        let ghost old_rooms = self@;
        let ghost room = old_rooms[i as int];
        assert(room == self.rooms@[i as int]@);
        let k = match first_run_index(&self.rooms[i].runs, run_id, false, true) {
            Some(k) => k,
            None => {
                return Err(StoreError::NotFound);
            },
        };
        let ghost new_run = canceled_run(room.runs[k as int], now);
        let ghost g = RoomState {
            runs: room.runs.update(k as int, new_run),
            status: settled_status(room.status, RoomStatus::Idle),
            updated_at: now,
            ..room
        };
        let rm = &mut self.rooms[i];
        if !matches!(rm.status, RoomStatus::Closed) {
            rm.status = RoomStatus::Idle;
        }
        rm.updated_at = now;
        let run_rec = &mut rm.runs[k];
        run_rec.status = RunStatus::Canceled;
        run_rec.error_code = Some("canceled".to_owned());
        run_rec.error_message = Some("generation stopped".to_owned());
        run_rec.finished_at = Some(now);
        proof {
            assert(self.rooms@[i as int].runs@.map_values(|x: RunRecord| x@) =~= g.runs);
            assert(self@ =~= old_rooms.update(i as int, g));
            lemma_run_update_keeps_wf(room, k as int, new_run, g);
            self.lemma_update_keeps_wf(old_rooms, i as int, g);
        }
        Ok(())
    }

    /// Stops a queued or running run now.
    pub fn stop_run(&mut self, room_id: &str, run_id: &str) -> (r: Result<(), StoreError>)
        requires
            old(self).wf(),
        ensures
            final(self).wf(),
            (r matches Err(StoreError::Database) && final(self)@ == old(self)@ && room_id_rule(room_id@) is Ok) || exists|now: i64|
                is_timestamp(now) && (final(self)@, unit_outcome(r)) == #[trigger] stop_outcome(
                    old(self)@,
                    room_id@,
                    run_id@,
                    now,
                ),
    {
        if let Err(e) = validate_room_id(room_id) {
            let r = Err(e);
            proof {
                lemma_zero_token();
                assert((self@, unit_outcome(r)) == stop_outcome(old(self)@, room_id@, run_id@, 0));
            }
            return r;
        }
        let now = match current_time() {
            Some(t) => t,
            None => {
                return Err(StoreError::Database);
            },
        };
        self.stop_run_at(room_id, run_id, now)
    }
}


impl RoomStore {
    /// Whether a turn would start a new run; see [`turn_starts_run`].
    pub fn starts_run(&self, session: &RoomSession, input: &SubmitTurnInput) -> (b: bool)
        requires
            self.wf(),
        ensures
            b == turn_starts_run(self@, session@, input.text@, opt_text_view(input.idempotency_key)),
    {
        if !matches!(session.role, ParticipantRole::Host | ParticipantRole::Guest) {
            return false;
        }
        if validate_prompt(input.text.as_str()).is_err() {
            return false;
        }
        let key: Option<String> = match &input.idempotency_key {
            None => None,
            Some(k) => match validate_non_empty(k.as_str(), MAX_IDEMPOTENCY_KEY_CHARS, "idempotencyKey") {
                Ok(v) => Some(v),
                Err(_) => {
                    return false;
                },
            },
        };
        assert(key_rule(opt_text_view(input.idempotency_key)) == Ok::<Option<Seq<char>>, Seq<char>>(opt_text_view(key)));
        let i = match self.room_index(session.room_id.as_str()) {
            Some(i) => i,
            None => {
                return false;
            },
        };
        assert(self@[i as int] == self.rooms@[i as int]@);
        if matches!(self.rooms[i].status, RoomStatus::Closed) {
            return false;
        }
        let keyed = match &key {
            Some(k) => keyed_run_index(&self.rooms[i].runs, k.as_str()),
            None => None,
        };
        keyed.is_none() && !active_run_exists(&self.rooms[i].runs)
    }

    /// Whether ending a run changes its room; see [`finish_changes`].
    pub fn finish_changes_room(&self, room_id: &str, run_id: &str) -> (b: bool)
        requires
            self.wf(),
        ensures
            b == finish_changes(self@, room_id@, run_id@),
    {
        let id = match validate_room_id(room_id) {
            Ok(id) => id,
            Err(_) => {
                return false;
            },
        };
        let i = match self.room_index(id.as_str()) {
            Some(i) => i,
            None => {
                return false;
            },
        };
        assert(self@[i as int] == self.rooms@[i as int]@);
        match first_run_index(&self.rooms[i].runs, run_id, false, false) {
            Some(k) => {
                assert(self@[i as int].runs[k as int] == self.rooms@[i as int].runs@[k as int]@);
                matches!(self.rooms[i].runs[k].status, RunStatus::Queued | RunStatus::Running)
            },
            None => false,
        }
    }

    /// Whether a delta would be accepted; see [`delta_changes`].
    pub fn delta_changes_room(&self, room_id: &str, run_id: &str, delta: &str) -> (b: bool)
        requires
            self.wf(),
        ensures
            b == delta_changes(self@, room_id@, run_id@, delta@),
    {
        let d = match validate_delta(delta) {
            Ok(d) => d,
            Err(_) => {
                return false;
            },
        };
        let i = match self.room_index(room_id) {
            Some(i) => i,
            None => {
                return false;
            },
        };
        assert(self@[i as int] == self.rooms@[i as int]@);
        match first_run_index(&self.rooms[i].runs, run_id, true, false) {
            Some(k) => {
                assert(self@[i as int].runs[k as int] == self.rooms@[i as int].runs@[k as int]@);
                let combined = concat(self.rooms[i].runs[k].partial_text.as_str(), d.as_str());
                chars_of(combined.as_str()).len() <= MAX_MESSAGE_CHARS
            },
            None => false,
        }
    }
}

} // verus!
