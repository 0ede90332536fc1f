//! The named changes that a room announces to its listeners.
use vstd::prelude::*;

use crate::model::{
    RoomMessage, RoomMessageView, RoomRun, RoomRunView, RoomSnapshot, RoomSnapshotView,
};

verus! {

/// A change of a room, as listeners receive it.
pub enum RoomChange {
    /// The room as it is now, sent first to a new listener.
    Snapshot { snapshot: RoomSnapshot },
    TurnAccepted { run: RoomRun, message: RoomMessage, snapshot: RoomSnapshot },
    TurnDelta { run_id: String, request_id: String, delta: String, partial_text: String },
    TurnCompleted { run_id: String, request_id: String, snapshot: RoomSnapshot },
    TurnFailed { run_id: String, request_id: String, error_code: String, snapshot: RoomSnapshot },
    TurnCanceled { run_id: String, snapshot: RoomSnapshot },
    RoomClosed { snapshot: RoomSnapshot },
}

pub enum RoomChangeView {
    Snapshot { snapshot: RoomSnapshotView },
    TurnAccepted { run: RoomRunView, message: RoomMessageView, snapshot: RoomSnapshotView },
    TurnDelta { run_id: Seq<char>, request_id: Seq<char>, delta: Seq<char>, partial_text: Seq<char> },
    TurnCompleted { run_id: Seq<char>, request_id: Seq<char>, snapshot: RoomSnapshotView },
    TurnFailed {
        run_id: Seq<char>,
        request_id: Seq<char>,
        error_code: Seq<char>,
        snapshot: RoomSnapshotView,
    },
    TurnCanceled { run_id: Seq<char>, snapshot: RoomSnapshotView },
    RoomClosed { snapshot: RoomSnapshotView },
}

impl View for RoomChange {
    type V = RoomChangeView;

    open spec fn view(&self) -> RoomChangeView {
        match self {
            RoomChange::Snapshot { snapshot } => RoomChangeView::Snapshot { snapshot: snapshot@ },
            RoomChange::TurnAccepted { run, message, snapshot } => RoomChangeView::TurnAccepted {
                run: run@,
                message: message@,
                snapshot: snapshot@,
            },
            RoomChange::TurnDelta { run_id, request_id, delta, partial_text } => RoomChangeView::TurnDelta {
                run_id: run_id@,
                request_id: request_id@,
                delta: delta@,
                partial_text: partial_text@,
            },
            RoomChange::TurnCompleted { run_id, request_id, snapshot } => RoomChangeView::TurnCompleted {
                run_id: run_id@,
                request_id: request_id@,
                snapshot: snapshot@,
            },
            RoomChange::TurnFailed { run_id, request_id, error_code, snapshot } => RoomChangeView::TurnFailed {
                run_id: run_id@,
                request_id: request_id@,
                error_code: error_code@,
                snapshot: snapshot@,
            },
            RoomChange::TurnCanceled { run_id, snapshot } => RoomChangeView::TurnCanceled {
                run_id: run_id@,
                snapshot: snapshot@,
            },
            RoomChange::RoomClosed { snapshot } => RoomChangeView::RoomClosed { snapshot: snapshot@ },
        }
    }
}

/// The event name under which a change is announced.
pub open spec fn change_name(c: RoomChangeView) -> Seq<char> {
    match c {
        RoomChangeView::Snapshot { .. } => "snapshot"@,
        RoomChangeView::TurnAccepted { .. } => "turn.accepted"@,
        RoomChangeView::TurnDelta { .. } => "turn.delta"@,
        RoomChangeView::TurnCompleted { .. } => "turn.completed"@,
        RoomChangeView::TurnFailed { .. } => "turn.failed"@,
        RoomChangeView::TurnCanceled { .. } => "turn.canceled"@,
        RoomChangeView::RoomClosed { .. } => "room.closed"@,
    }
}

impl RoomChange {
    pub fn name(&self) -> (n: &'static str)
        ensures
            n@ == change_name(self@),
    {
        match self {
            RoomChange::Snapshot { .. } => "snapshot",
            RoomChange::TurnAccepted { .. } => "turn.accepted",
            RoomChange::TurnDelta { .. } => "turn.delta",
            RoomChange::TurnCompleted { .. } => "turn.completed",
            RoomChange::TurnFailed { .. } => "turn.failed",
            RoomChange::TurnCanceled { .. } => "turn.canceled",
            RoomChange::RoomClosed { .. } => "room.closed",
        }
    }
}

} // verus!
