//! What a room looks like from outside: the snapshot built from its rows.
use vstd::prelude::*;

use crate::clock::{is_timestamp, rfc3339, rfc3339_of};
use crate::limits::{opt_text, MAX_HISTORY_MESSAGES};
use crate::model::{
    RoomMessage, RoomMessageView, RoomParticipantSummary, RoomParticipantSummaryView, RoomRun,
    RoomRunView, RoomSnapshot, RoomSnapshotView, RunStatus,
};
use crate::store::records::{
    opt_timestamp, room_wf, MessageRecord, MessageState, ParticipantRecord, ParticipantState,
    RoomRecord, RoomState, RunRecord, RunState,
};

verus! {

pub const CONTRACT: &'static str = "rooms/1";

pub const ENGINE: &'static str = "mesh-llm";

/// The newest `MAX_HISTORY_MESSAGES` messages, oldest first.
pub open spec fn recent_messages(ms: Seq<MessageState>) -> Seq<MessageState> {
    if ms.len() > MAX_HISTORY_MESSAGES {
        ms.subrange(ms.len() - MAX_HISTORY_MESSAGES, ms.len() as int)
    } else {
        ms
    }
}

/// Runs that a snapshot reports: queued, running or failed ones.
pub open spec fn is_reported_status(s: RunStatus) -> bool {
    s == RunStatus::Queued || s == RunStatus::Running || s == RunStatus::Failed
}

/// The newest reported run.
pub open spec fn current_run(runs: Seq<RunState>) -> Option<RunState>
    decreases runs.len(),
{
    if runs.len() == 0 {
        None
    } else if is_reported_status(runs.last().status) {
        Some(runs.last())
    } else {
        current_run(runs.drop_last())
    }
}

pub open spec fn opt_time_text(t: Option<i64>) -> Option<Seq<char>> {
    match t {
        Some(x) => Some(rfc3339_of(x)),
        None => None,
    }
}

pub open spec fn message_view(m: MessageState) -> RoomMessageView {
    RoomMessageView {
        id: m.id,
        role: m.role,
        text: m.text,
        participant_id: m.participant_id,
        created_at: rfc3339_of(m.created_at),
    }
}

pub open spec fn run_view(r: RunState) -> RoomRunView {
    RoomRunView {
        run_id: r.id,
        request_id: r.request_id,
        idempotency_key: r.idempotency_key,
        status: r.status,
        partial_text: r.partial_text,
        error_code: r.error_code,
        error_message: r.error_message,
        started_at: opt_time_text(r.started_at),
        finished_at: opt_time_text(r.finished_at),
    }
}

pub open spec fn participant_view(p: ParticipantState) -> RoomParticipantSummaryView {
    RoomParticipantSummaryView {
        id: p.id,
        display_name: p.display_name,
        role: p.role,
        online: p.online,
    }
}

pub open spec fn opt_run_state_view(r: Option<RunState>) -> Option<RoomRunView> {
    match r {
        Some(run) => Some(run_view(run)),
        None => None,
    }
}

/// The snapshot of a room: its recent transcript, its current run and its
/// participants; no invite or session material.
pub open spec fn snapshot_view(r: RoomState) -> RoomSnapshotView {
    RoomSnapshotView {
        contract: CONTRACT@,
        schema_version: 1,
        id: r.id,
        status: r.status,
        model_id: r.model_id,
        engine: ENGINE@,
        messages: recent_messages(r.messages).map_values(|m: MessageState| message_view(m)),
        current_run: opt_run_state_view(current_run(r.runs)),
        participants: r.participants.map_values(|p: ParticipantState| participant_view(p)),
        updated_at: rfc3339_of(r.updated_at),
    }
}

pub fn clone_opt_text(o: &Option<String>) -> (r: Option<String>)
    ensures
        opt_text(r) == opt_text(*o),
{
    match o {
        Some(s) => Some(s.clone()),
        None => None,
    }
}

fn opt_time_out(t: Option<i64>) -> (r: Option<String>)
    requires
        opt_timestamp(t),
    ensures
        opt_text(r) == opt_time_text(t),
{
    match t {
        Some(x) => Some(rfc3339(x)),
        None => None,
    }
}

pub fn message_out(m: &MessageRecord) -> (out: RoomMessage)
    requires
        is_timestamp(m.created_at),
    ensures
        out@ == message_view(m@),
{
    RoomMessage {
        id: m.id.clone(),
        role: m.role,
        text: m.text.clone(),
        participant_id: clone_opt_text(&m.participant_id),
        created_at: rfc3339(m.created_at),
    }
}

pub fn run_out(r: &RunRecord) -> (out: RoomRun)
    requires
        opt_timestamp(r.started_at),
        opt_timestamp(r.finished_at),
    ensures
        out@ == run_view(r@),
{
    RoomRun {
        run_id: r.id.clone(),
        request_id: r.request_id.clone(),
        idempotency_key: clone_opt_text(&r.idempotency_key),
        status: r.status,
        partial_text: r.partial_text.clone(),
        error_code: clone_opt_text(&r.error_code),
        error_message: clone_opt_text(&r.error_message),
        started_at: opt_time_out(r.started_at),
        finished_at: opt_time_out(r.finished_at),
    }
}

fn participant_out(p: &ParticipantRecord) -> (out: RoomParticipantSummary)
    ensures
        out@ == participant_view(p@),
{
    RoomParticipantSummary {
        id: p.id.clone(),
        display_name: p.display_name.clone(),
        role: p.role,
        online: p.online,
    }
}

pub fn is_reported(s: RunStatus) -> (r: bool)
    ensures
        r == is_reported_status(s),
{
    match s {
        RunStatus::Queued | RunStatus::Running | RunStatus::Failed => true,
        _ => false,
    }
}

/// The newest reported run of `runs`, as an index.
pub fn current_run_index(runs: &Vec<RunRecord>) -> (r: Option<usize>)
    ensures
        match r {
            Some(i) => i < runs@.len() && current_run(runs@.map_values(|x: RunRecord| x@)) == Some(
                runs@[i as int]@,
            ),
            None => current_run(runs@.map_values(|x: RunRecord| x@)) is None,
        },
{
    let ghost all = runs@.map_values(|x: RunRecord| x@);
    let mut k: usize = runs.len();
    assert(all.subrange(0, k as int) =~= all);
    while k > 0
        invariant
            k <= runs@.len(),
            all == runs@.map_values(|x: RunRecord| x@),
            current_run(all.subrange(0, k as int)) == current_run(all),
        decreases k,
    {
        let ghost pre = all.subrange(0, k as int);
        assert(pre.last() == runs@[k - 1]@);
        if is_reported(runs[k - 1].status) {
            return Some(k - 1);
        }
        assert(pre.drop_last() =~= all.subrange(0, k - 1));
        k = k - 1;
    }
    None
}

/// The snapshot of a room.
pub fn snapshot_of(room: &RoomRecord) -> (s: RoomSnapshot)
    requires
        room_wf(room@),
    ensures
        s@ == snapshot_view(room@),
{
    let ghost st = room@;
    let n = room.messages.len();
    let start = if n > MAX_HISTORY_MESSAGES {
        n - MAX_HISTORY_MESSAGES
    } else {
        0
    };
    let ghost recent = recent_messages(st.messages);
    assert(recent =~= st.messages.subrange(start as int, n as int));
    let mut messages: Vec<RoomMessage> = Vec::new();
    let mut i: usize = start;
    while i < n
        invariant
            st == room@,
            room_wf(st),
            n == room.messages@.len(),
            start <= i <= n,
            recent == st.messages.subrange(start as int, n as int),
            messages@.len() == i - start,
            forall|k: int| 0 <= k < i - start ==> (#[trigger] messages@[k])@ == message_view(recent[k]),
        decreases n - i,
    {
        assert(st.messages[i as int] == room.messages@[i as int]@);
        assert(is_timestamp(st.messages[i as int].created_at));
        let m = message_out(&room.messages[i]);
        messages.push(m);
        assert(recent[i - start] == st.messages[i as int]);
        i = i + 1;
    }
    assert(messages@.map_values(|m: RoomMessage| m@) =~= recent.map_values(
        |m: MessageState| message_view(m),
    ));
    let current = match current_run_index(&room.runs) {
        Some(k) => {
            assert(st.runs[k as int] == room.runs@[k as int]@);
            Some(run_out(&room.runs[k]))
        },
        None => None,
    };
    let mut participants: Vec<RoomParticipantSummary> = Vec::new();
    let mut j: usize = 0;
    while j < room.participants.len()
        invariant
            st == room@,
            j <= room.participants@.len(),
            participants@.len() == j,
            forall|k: int| 0 <= k < j ==> (#[trigger] participants@[k])@ == participant_view(st.participants[k]),
        decreases room.participants.len() - j,
    {
        let p = participant_out(&room.participants[j]);
        participants.push(p);
        assert(st.participants[j as int] == room.participants@[j as int]@);
        j = j + 1;
    }
    assert(participants@.map_values(|p: RoomParticipantSummary| p@) =~= st.participants.map_values(
        |p: ParticipantState| participant_view(p),
    ));
    RoomSnapshot {
        contract: CONTRACT.to_owned(),
        schema_version: 1,
        id: room.id.clone(),
        status: room.status,
        model_id: room.model_id.clone(),
        engine: ENGINE.to_owned(),
        messages,
        current_run: current,
        participants,
        updated_at: rfc3339(room.updated_at),
    }
}

} // verus!
