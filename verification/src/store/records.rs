//! The rows the store keeps for each room, their abstract states, and the
//! invariants that every operation keeps.
use vstd::prelude::*;

use crate::clock::is_timestamp;
use crate::limits::{opt_text, MAX_MESSAGE_CHARS, MAX_PARTICIPANTS};
use crate::model::{is_active_status, MessageRole, ParticipantRole, RoomStatus, RunStatus};
use crate::store::order::{idents_distinct, strictly_sorted, Ordered};
use crate::store::rooms::room_id_rule;

verus! {

/// One transcript message.
pub struct MessageRecord {
    pub id: String,
    pub role: MessageRole,
    pub text: String,
    pub participant_id: Option<String>,
    pub created_at: i64,
}

/// One generation run: the turn it answers and its progress.
pub struct RunRecord {
    pub id: String,
    pub request_id: String,
    pub idempotency_key: Option<String>,
    pub input_text: String,
    pub status: RunStatus,
    pub partial_text: String,
    pub error_code: Option<String>,
    pub error_message: Option<String>,
    pub started_at: Option<i64>,
    pub finished_at: Option<i64>,
    pub created_at: i64,
}

/// The room's invite: only the digest of the secret is kept.
pub struct InviteRecord {
    pub digest: Vec<u8>,
    pub expires_at: i64,
    pub revoked_at: Option<i64>,
}

/// A member of the room.
pub struct ParticipantRecord {
    pub id: String,
    pub display_name: String,
    pub role: ParticipantRole,
    pub online: bool,
    pub created_at: i64,
    pub last_seen_at: i64,
}

/// A guest session: only the digest of its secret is kept.
pub struct SessionRecord {
    pub digest: Vec<u8>,
    pub participant_id: String,
    pub role: ParticipantRole,
    pub expires_at: i64,
    pub revoked_at: Option<i64>,
}

/// A room and everything that belongs to it.
pub struct RoomRecord {
    pub id: String,
    pub status: RoomStatus,
    pub model_id: String,
    pub share_origin: String,
    pub created_at: i64,
    pub updated_at: i64,
    pub messages: Vec<MessageRecord>,
    pub runs: Vec<RunRecord>,
    pub invite: InviteRecord,
    pub participants: Vec<ParticipantRecord>,
    pub sessions: Vec<SessionRecord>,
}

pub struct MessageState {
    pub id: Seq<char>,
    pub role: MessageRole,
    pub text: Seq<char>,
    pub participant_id: Option<Seq<char>>,
    pub created_at: i64,
}

pub struct RunState {
    pub id: Seq<char>,
    pub request_id: Seq<char>,
    pub idempotency_key: Option<Seq<char>>,
    pub input_text: Seq<char>,
    pub status: RunStatus,
    pub partial_text: Seq<char>,
    pub error_code: Option<Seq<char>>,
    pub error_message: Option<Seq<char>>,
    pub started_at: Option<i64>,
    pub finished_at: Option<i64>,
    pub created_at: i64,
}

pub struct InviteState {
    pub digest: Seq<u8>,
    pub expires_at: i64,
    pub revoked_at: Option<i64>,
}

pub struct ParticipantState {
    pub id: Seq<char>,
    pub display_name: Seq<char>,
    pub role: ParticipantRole,
    pub online: bool,
    pub created_at: i64,
    pub last_seen_at: i64,
}

pub struct SessionState {
    pub digest: Seq<u8>,
    pub participant_id: Seq<char>,
    pub role: ParticipantRole,
    pub expires_at: i64,
    pub revoked_at: Option<i64>,
}

pub struct RoomState {
    pub id: Seq<char>,
    pub status: RoomStatus,
    pub model_id: Seq<char>,
    pub share_origin: Seq<char>,
    pub created_at: i64,
    pub updated_at: i64,
    pub messages: Seq<MessageState>,
    pub runs: Seq<RunState>,
    pub invite: InviteState,
    pub participants: Seq<ParticipantState>,
    pub sessions: Seq<SessionState>,
}

impl View for MessageRecord {
    type V = MessageState;

    open spec fn view(&self) -> MessageState {
        MessageState {
            id: self.id@,
            role: self.role,
            text: self.text@,
            participant_id: opt_text(self.participant_id),
            created_at: self.created_at,
        }
    }
}

impl View for RunRecord {
    type V = RunState;

    open spec fn view(&self) -> RunState {
        RunState {
            id: self.id@,
            request_id: self.request_id@,
            idempotency_key: opt_text(self.idempotency_key),
            input_text: self.input_text@,
            status: self.status,
            partial_text: self.partial_text@,
            error_code: opt_text(self.error_code),
            error_message: opt_text(self.error_message),
            started_at: self.started_at,
            finished_at: self.finished_at,
            created_at: self.created_at,
        }
    }
}

impl View for InviteRecord {
    type V = InviteState;

    open spec fn view(&self) -> InviteState {
        InviteState { digest: self.digest@, expires_at: self.expires_at, revoked_at: self.revoked_at }
    }
}

impl View for ParticipantRecord {
    type V = ParticipantState;

    open spec fn view(&self) -> ParticipantState {
        ParticipantState {
            id: self.id@,
            display_name: self.display_name@,
            role: self.role,
            online: self.online,
            created_at: self.created_at,
            last_seen_at: self.last_seen_at,
        }
    }
}

impl View for SessionRecord {
    type V = SessionState;

    open spec fn view(&self) -> SessionState {
        SessionState {
            digest: self.digest@,
            participant_id: self.participant_id@,
            role: self.role,
            expires_at: self.expires_at,
            revoked_at: self.revoked_at,
        }
    }
}

impl View for RoomRecord {
    type V = RoomState;

    open spec fn view(&self) -> RoomState {
        RoomState {
            id: self.id@,
            status: self.status,
            model_id: self.model_id@,
            share_origin: self.share_origin@,
            created_at: self.created_at,
            updated_at: self.updated_at,
            messages: self.messages@.map_values(|m: MessageRecord| m@),
            runs: self.runs@.map_values(|r: RunRecord| r@),
            invite: self.invite@,
            participants: self.participants@.map_values(|p: ParticipantRecord| p@),
            sessions: self.sessions@.map_values(|s: SessionRecord| s@),
        }
    }
}

impl Ordered for MessageRecord {
    open spec fn order_key(&self) -> (i64, Seq<char>) {
        (self.created_at, self.id@)
    }

    fn created(&self) -> (t: i64) {
        self.created_at
    }

    fn ident(&self) -> (s: &str) {
        self.id.as_str()
    }
}

impl Ordered for RunRecord {
    open spec fn order_key(&self) -> (i64, Seq<char>) {
        (self.created_at, self.id@)
    }

    fn created(&self) -> (t: i64) {
        self.created_at
    }

    fn ident(&self) -> (s: &str) {
        self.id.as_str()
    }
}

impl Ordered for ParticipantRecord {
    open spec fn order_key(&self) -> (i64, Seq<char>) {
        (self.created_at, self.id@)
    }

    fn created(&self) -> (t: i64) {
        self.created_at
    }

    fn ident(&self) -> (s: &str) {
        self.id.as_str()
    }
}

pub open spec fn message_keys(s: Seq<MessageState>) -> Seq<(i64, Seq<char>)> {
    s.map_values(|m: MessageState| (m.created_at, m.id))
}

pub open spec fn run_keys(s: Seq<RunState>) -> Seq<(i64, Seq<char>)> {
    s.map_values(|r: RunState| (r.created_at, r.id))
}

pub open spec fn participant_keys(s: Seq<ParticipantState>) -> Seq<(i64, Seq<char>)> {
    s.map_values(|p: ParticipantState| (p.created_at, p.id))
}

/// At most one run of the room is queued or running.
pub open spec fn single_active_run(runs: Seq<RunState>) -> bool {
    forall|i: int, j: int|
        0 <= i < runs.len() && 0 <= j < runs.len() && is_active_status(#[trigger] runs[i].status)
            && is_active_status(#[trigger] runs[j].status) ==> i == j
}

/// Some run of the room is queued or running.
pub open spec fn has_active_run(runs: Seq<RunState>) -> bool {
    exists|i: int| 0 <= i < runs.len() && is_active_status(#[trigger] runs[i].status)
}

pub open spec fn has_host(ps: Seq<ParticipantState>) -> bool {
    exists|i: int| 0 <= i < ps.len() && (#[trigger] ps[i]).role == ParticipantRole::Host
}

pub open spec fn has_participant(ps: Seq<ParticipantState>, id: Seq<char>) -> bool {
    exists|i: int| 0 <= i < ps.len() && (#[trigger] ps[i]).id == id
}

pub open spec fn opt_timestamp(t: Option<i64>) -> bool {
    match t {
        Some(x) => is_timestamp(x),
        None => true,
    }
}

/// The timestamps that snapshots render are clock readings.
pub open spec fn rendered_times_valid(r: RoomState) -> bool {
    &&& is_timestamp(r.updated_at)
    &&& forall|i: int| 0 <= i < r.messages.len() ==> is_timestamp(#[trigger] r.messages[i].created_at)
    &&& forall|i: int|
        0 <= i < r.runs.len() ==> opt_timestamp((#[trigger] r.runs[i]).started_at) && opt_timestamp(
            r.runs[i].finished_at,
        )
}

/// No two runs carry the same idempotency key.
pub open spec fn keys_distinct(runs: Seq<RunState>) -> bool {
    forall|i: int, j: int|
        0 <= i < runs.len() && 0 <= j < runs.len() && i != j && (#[trigger] runs[i]).idempotency_key is Some
            ==> runs[i].idempotency_key != (#[trigger] runs[j]).idempotency_key
}

/// The invariant of one room.
pub open spec fn room_wf(r: RoomState) -> bool {
    &&& strictly_sorted(message_keys(r.messages))
    &&& strictly_sorted(run_keys(r.runs))
    &&& strictly_sorted(participant_keys(r.participants))
    &&& idents_distinct(message_keys(r.messages))
    &&& idents_distinct(run_keys(r.runs))
    &&& idents_distinct(participant_keys(r.participants))
    &&& keys_distinct(r.runs)
    &&& single_active_run(r.runs)
    &&& (r.status == RoomStatus::Running ==> has_active_run(r.runs))
    &&& forall|i: int|
        0 <= i < r.runs.len() ==> (#[trigger] r.runs[i]).partial_text.len() <= MAX_MESSAGE_CHARS
    &&& r.participants.len() <= MAX_PARTICIPANTS
    &&& has_host(r.participants)
    &&& forall|i: int|
        0 <= i < r.sessions.len() ==> has_participant(
            r.participants,
            (#[trigger] r.sessions[i]).participant_id,
        )
    &&& rendered_times_valid(r)
}

/// The invariant of the whole store: every room is well formed, its
/// identifier is one that callers can name, and no two rooms share an
/// identifier.
pub open spec fn store_wf(rooms: Seq<RoomState>) -> bool {
    &&& forall|i: int| 0 <= i < rooms.len() ==> room_wf(#[trigger] rooms[i])
    &&& forall|i: int| 0 <= i < rooms.len() ==> room_id_rule((#[trigger] rooms[i]).id) == Ok::<Seq<char>, Seq<char>>(rooms[i].id)
    &&& forall|i: int, j: int|
        0 <= i < rooms.len() && 0 <= j < rooms.len() && i != j ==> (#[trigger] rooms[i]).id
            != (#[trigger] rooms[j]).id
}

} // verus!
