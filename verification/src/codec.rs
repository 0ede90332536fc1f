//! The stored text of statuses and roles, and reading it back.
use vstd::prelude::*;

use crate::model::{MessageRole, ParticipantRole, RoomStatus, RunStatus};
use crate::text::str_eq;

verus! {

pub open spec fn room_status_text(s: RoomStatus) -> Seq<char> {
    match s {
        RoomStatus::Idle => "idle"@,
        RoomStatus::Running => "running"@,
        RoomStatus::Failed => "failed"@,
        RoomStatus::Closed => "closed"@,
    }
}

pub open spec fn room_status_from(v: Seq<char>) -> Option<RoomStatus> {
    if v == "idle"@ {
        Some(RoomStatus::Idle)
    } else if v == "running"@ {
        Some(RoomStatus::Running)
    } else if v == "failed"@ {
        Some(RoomStatus::Failed)
    } else if v == "closed"@ {
        Some(RoomStatus::Closed)
    } else {
        None
    }
}

pub open spec fn run_status_name(s: RunStatus) -> Seq<char> {
    match s {
        RunStatus::Queued => "queued"@,
        RunStatus::Running => "running"@,
        RunStatus::Completed => "completed"@,
        RunStatus::Failed => "failed"@,
        RunStatus::Canceled => "canceled"@,
    }
}

pub open spec fn run_status_from(v: Seq<char>) -> Option<RunStatus> {
    if v == "queued"@ {
        Some(RunStatus::Queued)
    } else if v == "running"@ {
        Some(RunStatus::Running)
    } else if v == "completed"@ {
        Some(RunStatus::Completed)
    } else if v == "failed"@ {
        Some(RunStatus::Failed)
    } else if v == "canceled"@ {
        Some(RunStatus::Canceled)
    } else {
        None
    }
}

pub open spec fn message_role_text(r: MessageRole) -> Seq<char> {
    match r {
        MessageRole::User => "user"@,
        MessageRole::Assistant => "assistant"@,
    }
}

pub open spec fn message_role_from(v: Seq<char>) -> Option<MessageRole> {
    if v == "user"@ {
        Some(MessageRole::User)
    } else if v == "assistant"@ {
        Some(MessageRole::Assistant)
    } else {
        None
    }
}

pub open spec fn participant_role_text(r: ParticipantRole) -> Seq<char> {
    match r {
        ParticipantRole::Host => "host"@,
        ParticipantRole::Guest => "guest"@,
        ParticipantRole::Viewer => "viewer"@,
    }
}

pub open spec fn participant_role_from(v: Seq<char>) -> Option<ParticipantRole> {
    if v == "host"@ {
        Some(ParticipantRole::Host)
    } else if v == "guest"@ {
        Some(ParticipantRole::Guest)
    } else if v == "viewer"@ {
        Some(ParticipantRole::Viewer)
    } else {
        None
    }
}

pub fn room_status_str(s: RoomStatus) -> (t: &'static str)
    ensures
        t@ == room_status_text(s),
{
    match s {
        RoomStatus::Idle => "idle",
        RoomStatus::Running => "running",
        RoomStatus::Failed => "failed",
        RoomStatus::Closed => "closed",
    }
}

pub fn parse_room_status(value: &str) -> (r: Option<RoomStatus>)
    ensures
        r == room_status_from(value@),
{
    if str_eq(value, "idle") {
        Some(RoomStatus::Idle)
    } else if str_eq(value, "running") {
        Some(RoomStatus::Running)
    } else if str_eq(value, "failed") {
        Some(RoomStatus::Failed)
    } else if str_eq(value, "closed") {
        Some(RoomStatus::Closed)
    } else {
        None
    }
}

pub fn run_status_text(value: RunStatus) -> (t: &'static str)
    ensures
        t@ == run_status_name(value),
{
    match value {
        RunStatus::Queued => "queued",
        RunStatus::Running => "running",
        RunStatus::Completed => "completed",
        RunStatus::Failed => "failed",
        RunStatus::Canceled => "canceled",
    }
}

pub fn parse_run_status(value: &str) -> (r: Option<RunStatus>)
    ensures
        r == run_status_from(value@),
{
    if str_eq(value, "queued") {
        Some(RunStatus::Queued)
    } else if str_eq(value, "running") {
        Some(RunStatus::Running)
    } else if str_eq(value, "completed") {
        Some(RunStatus::Completed)
    } else if str_eq(value, "failed") {
        Some(RunStatus::Failed)
    } else if str_eq(value, "canceled") {
        Some(RunStatus::Canceled)
    } else {
        None
    }
}

pub fn message_role_str(r: MessageRole) -> (t: &'static str)
    ensures
        t@ == message_role_text(r),
{
    match r {
        MessageRole::User => "user",
        MessageRole::Assistant => "assistant",
    }
}

pub fn parse_message_role(value: &str) -> (r: Option<MessageRole>)
    ensures
        r == message_role_from(value@),
{
    if str_eq(value, "user") {
        Some(MessageRole::User)
    } else if str_eq(value, "assistant") {
        Some(MessageRole::Assistant)
    } else {
        None
    }
}

pub fn participant_role_str(r: ParticipantRole) -> (t: &'static str)
    ensures
        t@ == participant_role_text(r),
{
    match r {
        ParticipantRole::Host => "host",
        ParticipantRole::Guest => "guest",
        ParticipantRole::Viewer => "viewer",
    }
}

pub fn parse_participant_role(value: &str) -> (r: Option<ParticipantRole>)
    ensures
        r == participant_role_from(value@),
{
    if str_eq(value, "host") {
        Some(ParticipantRole::Host)
    } else if str_eq(value, "guest") {
        Some(ParticipantRole::Guest)
    } else if str_eq(value, "viewer") {
        Some(ParticipantRole::Viewer)
    } else {
        None
    }
}

/// Every status and role reads back as itself from its stored text, so no
/// two of a kind share a text.
pub proof fn law_stored_texts_read_back(a: RoomStatus, b: RunStatus, c: MessageRole, d: ParticipantRole)
    ensures
        room_status_from(room_status_text(a)) == Some(a),
        run_status_from(run_status_name(b)) == Some(b),
        message_role_from(message_role_text(c)) == Some(c),
        participant_role_from(participant_role_text(d)) == Some(d),
{
    reveal_strlit("idle");
    reveal_strlit("running");
    reveal_strlit("failed");
    reveal_strlit("closed");
    reveal_strlit("queued");
    reveal_strlit("completed");
    reveal_strlit("canceled");
    reveal_strlit("user");
    reveal_strlit("assistant");
    reveal_strlit("host");
    reveal_strlit("guest");
    reveal_strlit("viewer");
    assert("failed"@[0] != "closed"@[0]);
    assert("queued"@[0] != "failed"@[0]);
    assert("running"@.len() != "idle"@.len());
    assert("failed"@.len() != "idle"@.len() && "failed"@.len() != "running"@.len());
    assert("closed"@.len() != "idle"@.len() && "closed"@.len() != "running"@.len());
    assert("running"@.len() != "queued"@.len());
    assert("completed"@.len() != "queued"@.len() && "completed"@.len() != "running"@.len());
    assert("failed"@.len() != "running"@.len() && "failed"@.len() != "completed"@.len());
    assert("canceled"@.len() != "queued"@.len() && "canceled"@.len() != "running"@.len()
        && "canceled"@.len() != "completed"@.len() && "canceled"@.len() != "failed"@.len());
    assert("assistant"@.len() != "user"@.len());
    assert("guest"@.len() != "host"@.len());
    assert("viewer"@.len() != "host"@.len() && "viewer"@.len() != "guest"@.len());
}

} // verus!
