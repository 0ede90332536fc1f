//! The room store: rooms, their transcripts, runs, invites, participants and
//! sessions, with every operation that reads or changes them.
pub mod find;
pub mod invites;
pub mod laws;

pub mod order;
pub mod records;
pub mod restore;
pub mod rooms;

pub mod snapshot;
pub mod turns;


use vstd::prelude::*;

use crate::limits::opt_text;
use crate::model::{
    RoomMessage, RoomMessageView, RoomRun, RoomRunView, RoomSnapshot, RoomSnapshotView, RunStatus,
};
use crate::store::records::{store_wf, RoomRecord, RoomState};

verus! {

/// Why a store operation failed.
#[derive(Debug)]
pub enum StoreError {
    Database,
    Invalid(String),
    NotFound,
    RoomBusy,
    Closed,
    Forbidden,
    InviteUnavailable,
    Conflict,
    Lock,
}

pub enum StoreFailure {
    Database,
    Invalid(Seq<char>),
    NotFound,
    RoomBusy,
    Closed,
    Forbidden,
    InviteUnavailable,
    Conflict,
    Lock,
}

impl View for StoreError {
    type V = StoreFailure;

    open spec fn view(&self) -> StoreFailure {
        match self {
            StoreError::Database => StoreFailure::Database,
            StoreError::Invalid(m) => StoreFailure::Invalid(m@),
            StoreError::NotFound => StoreFailure::NotFound,
            StoreError::RoomBusy => StoreFailure::RoomBusy,
            StoreError::Closed => StoreFailure::Closed,
            StoreError::Forbidden => StoreFailure::Forbidden,
            StoreError::InviteUnavailable => StoreFailure::InviteUnavailable,
            StoreError::Conflict => StoreFailure::Conflict,
            StoreError::Lock => StoreFailure::Lock,
        }
    }
}

/// The stable code that callers see for an error.
pub open spec fn error_code(e: StoreFailure) -> Seq<char> {
    match e {
        StoreFailure::Database | StoreFailure::Lock => "storeUnavailable"@,
        StoreFailure::Invalid(_) => "invalidArgs"@,
        StoreFailure::NotFound => "roomNotFound"@,
        StoreFailure::RoomBusy => "roomBusy"@,
        StoreFailure::Closed => "roomClosed"@,
        StoreFailure::Forbidden => "forbidden"@,
        StoreFailure::InviteUnavailable => "inviteUnavailable"@,
        StoreFailure::Conflict => "conflict"@,
    }
}

impl StoreError {
    pub fn code(&self) -> (c: &'static str)
        ensures
            c@ == error_code(self@),
    {
        match self {
            StoreError::Database | StoreError::Lock => "storeUnavailable",
            StoreError::Invalid(_) => "invalidArgs",
            StoreError::NotFound => "roomNotFound",
            StoreError::RoomBusy => "roomBusy",
            StoreError::Closed => "roomClosed",
            StoreError::Forbidden => "forbidden",
            StoreError::InviteUnavailable => "inviteUnavailable",
            StoreError::Conflict => "conflict",
        }
    }
}

#[derive(Debug, Clone)]
pub struct CreateRoomInput {
    pub model_id: String,
    pub share_origin: String,
}

#[derive(Debug, Clone)]
pub struct CreatedRoom {
    pub room: RoomSnapshot,
    pub invite: String,
    pub share_origin: String,
}

pub struct CreatedRoomView {
    pub room: RoomSnapshotView,
    pub invite: Seq<char>,
    pub share_origin: Seq<char>,
}

impl View for CreatedRoom {
    type V = CreatedRoomView;

    open spec fn view(&self) -> CreatedRoomView {
        CreatedRoomView { room: self.room@, invite: self.invite@, share_origin: self.share_origin@ }
    }
}

#[derive(Debug, Clone)]
pub struct IssuedInvite {
    pub invite: String,
    pub share_origin: String,
}

pub struct IssuedInviteView {
    pub invite: Seq<char>,
    pub share_origin: Seq<char>,
}

impl View for IssuedInvite {
    type V = IssuedInviteView;

    open spec fn view(&self) -> IssuedInviteView {
        IssuedInviteView { invite: self.invite@, share_origin: self.share_origin@ }
    }
}

#[derive(Debug, Clone)]
pub struct SubmitTurnInput {
    pub text: String,
    pub idempotency_key: Option<String>,
}

#[derive(Debug, Clone)]
pub struct AcceptedRun {
    pub run: RoomRun,
    pub user_message: RoomMessage,
    pub snapshot: RoomSnapshot,
}

pub struct AcceptedRunView {
    pub run: RoomRunView,
    pub user_message: RoomMessageView,
    pub snapshot: RoomSnapshotView,
}

impl View for AcceptedRun {
    type V = AcceptedRunView;

    open spec fn view(&self) -> AcceptedRunView {
        AcceptedRunView {
            run: self.run@,
            user_message: self.user_message@,
            snapshot: self.snapshot@,
        }
    }
}

#[derive(Debug, Clone)]
pub struct RunTerminal {
    pub status: RunStatus,
    pub error_code: Option<String>,
    pub error_message: Option<String>,
}

pub struct RunTerminalView {
    pub status: RunStatus,
    pub error_code: Option<Seq<char>>,
    pub error_message: Option<Seq<char>>,
}

impl View for RunTerminal {
    type V = RunTerminalView;

    open spec fn view(&self) -> RunTerminalView {
        RunTerminalView {
            status: self.status,
            error_code: opt_text(self.error_code),
            error_message: opt_text(self.error_message),
        }
    }
}

/// A result as its abstract value.
pub open spec fn outcome<T: View>(r: Result<T, StoreError>) -> Result<T::V, StoreFailure> {
    match r {
        Ok(v) => Ok(v@),
        Err(e) => Err(e@),
    }
}

/// All rooms, in creation order.
pub struct RoomStore {
    rooms: Vec<RoomRecord>,
}

impl View for RoomStore {
    type V = Seq<RoomState>;

    closed spec fn view(&self) -> Seq<RoomState> {
        self.rooms@.map_values(|r: RoomRecord| r@)
    }
}

impl RoomStore {
    pub open spec fn wf(&self) -> bool {
        store_wf(self@)
    }

    /// An empty store.
    pub fn open_in_memory() -> (r: Result<RoomStore, StoreError>)
        ensures
            r matches Ok(s) && s.wf() && s@ == Seq::<RoomState>::empty(),
    {
        let s = RoomStore { rooms: Vec::new() };
        assert(s@ =~= Seq::<RoomState>::empty());
        Ok(s)
    }

    /// The rows of every room, in creation order.
    pub fn records(&self) -> (r: &Vec<RoomRecord>)
        ensures
            r@.map_values(|x: RoomRecord| x@) == self@,
    {
        &self.rooms
    }
}

} // verus!
