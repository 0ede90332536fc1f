//! The public shapes of a room as callers see it.
use vstd::prelude::*;

use crate::limits::opt_text;

verus! {

#[derive(Debug, Clone, Copy, PartialEq, Eq, Structural)]
pub enum RoomStatus {
    Idle,
    Running,
    Failed,
    Closed,
}

#[derive(Debug, Clone, Copy, PartialEq, Eq, Structural)]
pub enum RunStatus {
    Queued,
    Running,
    Completed,
    Failed,
    Canceled,
}

#[derive(Debug, Clone, Copy, PartialEq, Eq, Structural)]
pub enum MessageRole {
    User,
    Assistant,
}

#[derive(Debug, Clone, Copy, PartialEq, Eq, Structural)]
pub enum ParticipantRole {
    Host,
    Guest,
    Viewer,
}

/// A run that still holds the room: queued or running.
pub open spec fn is_active_status(s: RunStatus) -> bool {
    s == RunStatus::Queued || s == RunStatus::Running
}

#[derive(Debug, Clone, PartialEq, Eq)]
pub struct RoomMessage {
    pub id: String,
    pub role: MessageRole,
    pub text: String,
    pub participant_id: Option<String>,
    pub created_at: String,
}

pub struct RoomMessageView {
    pub id: Seq<char>,
    pub role: MessageRole,
    pub text: Seq<char>,
    pub participant_id: Option<Seq<char>>,
    pub created_at: Seq<char>,
}

impl View for RoomMessage {
    type V = RoomMessageView;

    open spec fn view(&self) -> RoomMessageView {
        RoomMessageView {
            id: self.id@,
            role: self.role,
            text: self.text@,
            participant_id: opt_text(self.participant_id),
            created_at: self.created_at@,
        }
    }
}

#[derive(Debug, Clone, PartialEq, Eq)]
pub struct RoomRun {
    pub run_id: String,
    pub request_id: String,
    pub idempotency_key: Option<String>,
    pub status: RunStatus,
    pub partial_text: String,
    pub error_code: Option<String>,
    pub error_message: Option<String>,
    pub started_at: Option<String>,
    pub finished_at: Option<String>,
}

pub struct RoomRunView {
    pub run_id: Seq<char>,
    pub request_id: Seq<char>,
    pub idempotency_key: Option<Seq<char>>,
    pub status: RunStatus,
    pub partial_text: Seq<char>,
    pub error_code: Option<Seq<char>>,
    pub error_message: Option<Seq<char>>,
    pub started_at: Option<Seq<char>>,
    pub finished_at: Option<Seq<char>>,
}

impl View for RoomRun {
    type V = RoomRunView;

    open spec fn view(&self) -> RoomRunView {
        RoomRunView {
            run_id: self.run_id@,
            request_id: self.request_id@,
            idempotency_key: opt_text(self.idempotency_key),
            status: self.status,
            partial_text: self.partial_text@,
            error_code: opt_text(self.error_code),
            error_message: opt_text(self.error_message),
            started_at: opt_text(self.started_at),
            finished_at: opt_text(self.finished_at),
        }
    }
}

#[derive(Debug, Clone, PartialEq, Eq)]
pub struct RoomParticipantSummary {
    pub id: String,
    pub display_name: String,
    pub role: ParticipantRole,
    pub online: bool,
}

pub struct RoomParticipantSummaryView {
    pub id: Seq<char>,
    pub display_name: Seq<char>,
    pub role: ParticipantRole,
    pub online: bool,
}

impl View for RoomParticipantSummary {
    type V = RoomParticipantSummaryView;

    open spec fn view(&self) -> RoomParticipantSummaryView {
        RoomParticipantSummaryView {
            id: self.id@,
            display_name: self.display_name@,
            role: self.role,
            online: self.online,
        }
    }
}

#[derive(Debug, Clone, PartialEq, Eq)]
pub struct RoomSnapshot {
    pub contract: String,
    pub schema_version: u8,
    pub id: String,
    pub status: RoomStatus,
    pub model_id: String,
    pub engine: String,
    pub messages: Vec<RoomMessage>,
    pub current_run: Option<RoomRun>,
    pub participants: Vec<RoomParticipantSummary>,
    pub updated_at: String,
}

pub struct RoomSnapshotView {
    pub contract: Seq<char>,
    pub schema_version: u8,
    pub id: Seq<char>,
    pub status: RoomStatus,
    pub model_id: Seq<char>,
    pub engine: Seq<char>,
    pub messages: Seq<RoomMessageView>,
    pub current_run: Option<RoomRunView>,
    pub participants: Seq<RoomParticipantSummaryView>,
    pub updated_at: Seq<char>,
}

pub open spec fn opt_run_view(r: Option<RoomRun>) -> Option<RoomRunView> {
    match r {
        Some(run) => Some(run@),
        None => None,
    }
}

impl View for RoomSnapshot {
    type V = RoomSnapshotView;

    open spec fn view(&self) -> RoomSnapshotView {
        RoomSnapshotView {
            contract: self.contract@,
            schema_version: self.schema_version,
            id: self.id@,
            status: self.status,
            model_id: self.model_id@,
            engine: self.engine@,
            messages: self.messages@.map_values(|m: RoomMessage| m@),
            current_run: opt_run_view(self.current_run),
            participants: self.participants@.map_values(|p: RoomParticipantSummary| p@),
            updated_at: self.updated_at@,
        }
    }
}

/// A participant's authority in one room, and the raw secret of its session
/// (empty for the host, whose routes are authorized elsewhere).
#[derive(Debug, Clone, PartialEq, Eq)]
pub struct RoomSession {
    pub room_id: String,
    pub participant_id: String,
    pub role: ParticipantRole,
    pub display_name: String,
    pub secret: String,
}

pub struct RoomSessionView {
    pub room_id: Seq<char>,
    pub participant_id: Seq<char>,
    pub role: ParticipantRole,
    pub display_name: Seq<char>,
    pub secret: Seq<char>,
}

impl View for RoomSession {
    type V = RoomSessionView;

    open spec fn view(&self) -> RoomSessionView {
        RoomSessionView {
            room_id: self.room_id@,
            participant_id: self.participant_id@,
            role: self.role,
            display_name: self.display_name@,
            secret: self.secret@,
        }
    }
}

} // verus!
