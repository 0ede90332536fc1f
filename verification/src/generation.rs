//! One generation: the request sent to the model for an accepted turn, and
//! what each event of the model's stream does to the run and the room.
//!
//! The caller owns the stream, the cancellation signal and the announcements;
//! it hands each stream event to [`Generation::step`], performs the returned
//! action, and stops once the action ends the generation.
use vstd::prelude::*;

use crate::clock::{current_time, is_timestamp};
use crate::events::{RoomChange, RoomChangeView};
use crate::model::{MessageRole, RoomSnapshot, RoomSnapshotView, RunStatus};
use crate::secrets::{is_hex_token, opaque_id};
use crate::store::records::RoomState;
use crate::store::turns::{append_delta_outcome, delta_changes, finish_changes, finish_outcome};
use crate::store::{AcceptedRun, RoomStore, RunTerminal, RunTerminalView};
use crate::text::{concat, str_eq};

verus! {

/// The output budget asked of the model for one turn.
pub const MODEL_MAX_TOKENS: u32 = 2048;

/// The provider that serves room turns.
pub const MODEL_PROVIDER: &'static str = "local";

/// What a failed run tells the room.
pub const FAILURE_MESSAGE: &'static str = "the local model could not complete this turn";

/// Why the model could not be reached or refused the request.
#[derive(Debug, Clone, Copy, PartialEq, Eq, Structural)]
pub enum ModelErrorKind {
    NotHosted,
    Invalid,
    Transport,
    Rejected,
    Protocol,
}

/// The error code a run records for a model error.
pub open spec fn model_error_text(kind: ModelErrorKind) -> Seq<char> {
    match kind {
        ModelErrorKind::NotHosted => "modelHostUnavailable"@,
        ModelErrorKind::Invalid => "modelRequestRejected"@,
        ModelErrorKind::Transport => "modelTransport"@,
        ModelErrorKind::Rejected => "modelRejected"@,
        ModelErrorKind::Protocol => "modelProtocol"@,
    }
}

pub fn model_error_code(kind: ModelErrorKind) -> (c: &'static str)
    ensures
        c@ == model_error_text(kind),
{
    match kind {
        ModelErrorKind::NotHosted => "modelHostUnavailable",
        ModelErrorKind::Invalid => "modelRequestRejected",
        ModelErrorKind::Transport => "modelTransport",
        ModelErrorKind::Rejected => "modelRejected",
        ModelErrorKind::Protocol => "modelProtocol",
    }
}

/// The chat role of a transcript message as the model names it.
pub open spec fn role_text(role: MessageRole) -> Seq<char> {
    match role {
        MessageRole::User => "user"@,
        MessageRole::Assistant => "assistant"@,
    }
}

pub fn role_name(role: MessageRole) -> (r: &'static str)
    ensures
        r@ == role_text(role),
{
    match role {
        MessageRole::User => "user",
        MessageRole::Assistant => "assistant",
    }
}

/// One message of the conversation sent to the model.
pub struct ModelMessage {
    pub role: String,
    pub content: String,
}

/// The streaming request for one turn. The sampling temperature is left to
/// the caller.
pub struct ModelRequest {
    pub messages: Vec<ModelMessage>,
    pub model: String,
    pub provider: Option<String>,
    pub request_id: String,
    pub max_tokens: Option<u32>,
}

/// `q` asks the model to continue the transcript of `snapshot` under
/// `request_id`.
pub open spec fn requests_turn(q: ModelRequest, snapshot: RoomSnapshotView, request_id: Seq<char>) -> bool {
    &&& q.messages@.len() == snapshot.messages.len()
    &&& forall|i: int|
        0 <= i < q.messages@.len() ==> (#[trigger] q.messages@[i]).role@ == role_text(
            snapshot.messages[i].role,
        ) && q.messages@[i].content@ == snapshot.messages[i].text
    &&& q.model@ == snapshot.model_id
    &&& q.provider matches Some(p) && p@ == MODEL_PROVIDER@
    &&& q.request_id@ == request_id
    &&& q.max_tokens == Some(MODEL_MAX_TOKENS)
}

/// The model request for the transcript of `snapshot`.
pub fn model_request(snapshot: &RoomSnapshot, request_id: &str) -> (q: ModelRequest)
    ensures
        requests_turn(q, snapshot@, request_id@),
{
    let mut messages: Vec<ModelMessage> = Vec::new();
    let n = snapshot.messages.len();
    let mut i: usize = 0;
    while i < n
        invariant
            n == snapshot.messages@.len(),
            n == snapshot@.messages.len(),
            i <= n,
            messages@.len() == i,
            forall|j: int|
                0 <= j < i ==> (#[trigger] messages@[j]).role@ == role_text(
                    snapshot@.messages[j].role,
                ) && messages@[j].content@ == snapshot@.messages[j].text,
        decreases n - i,
    {
        let m = &snapshot.messages[i];
        proof {
            assert(snapshot@.messages[i as int] == m@);
        }
        messages.push(ModelMessage { role: role_name(m.role).to_owned(), content: m.text.clone() });
        i = i + 1;
    }
    ModelRequest {
        messages,
        model: snapshot.model_id.clone(),
        provider: Some(MODEL_PROVIDER.to_owned()),
        request_id: request_id.to_owned(),
        max_tokens: Some(MODEL_MAX_TOKENS),
    }
}

/// One item read from the model's stream.
pub enum StreamEvent {
    TextDelta { request_id: String, delta: String },
    Completed { request_id: String },
    Failed { request_id: String },
    /// The stream broke with an error.
    Error(ModelErrorKind),
    /// The stream ended without a terminal event.
    Ended,
}

pub enum StreamEventView {
    TextDelta { request_id: Seq<char>, delta: Seq<char> },
    Completed { request_id: Seq<char> },
    Failed { request_id: Seq<char> },
    Error(ModelErrorKind),
    Ended,
}

impl View for StreamEvent {
    type V = StreamEventView;

    open spec fn view(&self) -> StreamEventView {
        match self {
            StreamEvent::TextDelta { request_id, delta } => StreamEventView::TextDelta {
                request_id: request_id@,
                delta: delta@,
            },
            StreamEvent::Completed { request_id } => StreamEventView::Completed {
                request_id: request_id@,
            },
            StreamEvent::Failed { request_id } => StreamEventView::Failed { request_id: request_id@ },
            StreamEvent::Error(k) => StreamEventView::Error(*k),
            StreamEvent::Ended => StreamEventView::Ended,
        }
    }
}

/// What the caller does after a step.
pub enum GenerationAction {
    /// Read the next event.
    Continue,
    /// Announce new output, then read the next event.
    Delta { delta: String, partial_text: String },
    /// Announce the completed turn and end.
    Completed { snapshot: RoomSnapshot },
    /// Announce the failed turn and end.
    Failed { code: String, snapshot: RoomSnapshot },
    /// End without announcing anything.
    Stop,
}

pub enum GenerationStep {
    Continue,
    Delta { delta: Seq<char>, partial_text: Seq<char> },
    Completed { snapshot: RoomSnapshotView },
    Failed { code: Seq<char>, snapshot: RoomSnapshotView },
    Stop,
}

impl View for GenerationAction {
    type V = GenerationStep;

    open spec fn view(&self) -> GenerationStep {
        match self {
            GenerationAction::Continue => GenerationStep::Continue,
            GenerationAction::Delta { delta, partial_text } => GenerationStep::Delta {
                delta: delta@,
                partial_text: partial_text@,
            },
            GenerationAction::Completed { snapshot } => GenerationStep::Completed {
                snapshot: snapshot@,
            },
            GenerationAction::Failed { code, snapshot } => GenerationStep::Failed {
                code: code@,
                snapshot: snapshot@,
            },
            GenerationAction::Stop => GenerationStep::Stop,
        }
    }
}

/// Whether an action ends the generation.
pub open spec fn step_ends(a: GenerationStep) -> bool {
    a is Completed || a is Failed || a is Stop
}

impl GenerationAction {
    pub fn ends(&self) -> (r: bool)
        ensures
            r == step_ends(self@),
    {
        match self {
            GenerationAction::Continue | GenerationAction::Delta { .. } => false,
            _ => true,
        }
    }
}

/// The generation of one accepted turn: its room, run and request, and the
/// output streamed so far.
pub struct Generation {
    pub room_id: String,
    pub run_id: String,
    pub request_id: String,
    pub partial: String,
}

pub struct GenerationView {
    pub room_id: Seq<char>,
    pub run_id: Seq<char>,
    pub request_id: Seq<char>,
    pub partial: Seq<char>,
}

impl View for Generation {
    type V = GenerationView;

    open spec fn view(&self) -> GenerationView {
        GenerationView {
            room_id: self.room_id@,
            run_id: self.run_id@,
            request_id: self.request_id@,
            partial: self.partial@,
        }
    }
}

/// The terminal of a run that failed with `code`.
pub open spec fn failed_terminal(code: Seq<char>) -> RunTerminalView {
    RunTerminalView {
        status: RunStatus::Failed,
        error_code: Some(code),
        error_message: Some(FAILURE_MESSAGE@),
    }
}

/// The terminal of a run that completed.
pub open spec fn completed_terminal() -> RunTerminalView {
    RunTerminalView { status: RunStatus::Completed, error_code: None, error_message: None }
}

/// Failing the run with `code`: the run ends failed and the failure is
/// announced with the room as it then is; where the store refuses, nothing
/// is announced.
pub open spec fn fail_outcome(
    rooms: Seq<RoomState>,
    g: GenerationView,
    code: Seq<char>,
    now: i64,
    message_id: Seq<char>,
) -> (Seq<RoomState>, GenerationStep) {
    let (after, r) = finish_outcome(rooms, g.room_id, g.run_id, failed_terminal(code), now, message_id);
    match r {
        Ok(s) => (after, GenerationStep::Failed { code, snapshot: s }),
        Err(_) => (after, GenerationStep::Stop),
    }
}

/// Fails the run with `code` and keeps the generation as it is.
pub open spec fn failing(
    rooms: Seq<RoomState>,
    g: GenerationView,
    code: Seq<char>,
    now: i64,
    message_id: Seq<char>,
) -> (GenerationView, Seq<RoomState>, GenerationStep) {
    let (after, a) = fail_outcome(rooms, g, code, now, message_id);
    (g, after, a)
}

/// One event of the stream at `now`, with `canceled` the state of the
/// cancellation signal and `message_id` the identifier for the assistant
/// message should the run complete with output.
///
/// An event for another request is a protocol failure. An empty delta is
/// skipped; any other delta is streamed into the run and announced, and a
/// delta the store refuses fails the run unless the turn was canceled. A
/// completion ends the run with its output, unless the turn was canceled;
/// a model failure, a broken stream or a stream that ends early fails the
/// run, and after a cancellation the generation just stops.
pub open spec fn step_outcome(
    g: GenerationView,
    rooms: Seq<RoomState>,
    e: StreamEventView,
    canceled: bool,
    now: i64,
    message_id: Seq<char>,
) -> (GenerationView, Seq<RoomState>, GenerationStep) {
    match e {
        StreamEventView::Ended => failing(rooms, g, "modelStreamEnded"@, now, message_id),
        StreamEventView::Error(kind) => if canceled {
            (g, rooms, GenerationStep::Stop)
        } else {
            failing(rooms, g, model_error_text(kind), now, message_id)
        },
        StreamEventView::TextDelta { request_id, delta } => if request_id != g.request_id {
            failing(rooms, g, "modelProtocol"@, now, message_id)
        } else if delta.len() == 0 {
            (g, rooms, GenerationStep::Continue)
        } else {
            let g2 = GenerationView { partial: g.partial + delta, ..g };
            let (after, r) = append_delta_outcome(rooms, g.room_id, g.run_id, delta, now);
            match r {
                Ok(()) => (g2, after, GenerationStep::Delta { delta, partial_text: g2.partial }),
                Err(_) => if canceled {
                    (g2, after, GenerationStep::Stop)
                } else {
                    let (after2, a) = fail_outcome(after, g, "outputRejected"@, now, message_id);
                    (g2, after2, a)
                },
            }
        },
        StreamEventView::Completed { request_id } => if request_id != g.request_id {
            failing(rooms, g, "modelProtocol"@, now, message_id)
        } else if canceled {
            (g, rooms, GenerationStep::Stop)
        } else {
            let (after, r) = finish_outcome(
                rooms,
                g.room_id,
                g.run_id,
                completed_terminal(),
                now,
                message_id,
            );
            match r {
                Ok(s) => (g, after, GenerationStep::Completed { snapshot: s }),
                Err(_) => failing(after, g, "storeUnavailable"@, now, message_id),
            }
        },
        StreamEventView::Failed { request_id } => if request_id != g.request_id {
            failing(rooms, g, "modelProtocol"@, now, message_id)
        } else if !canceled {
            failing(rooms, g, "modelFailed"@, now, message_id)
        } else {
            (g, rooms, GenerationStep::Stop)
        },
    }
}

/// What listeners hear of a step: new output, the completed or failed
/// turn, or nothing.
pub open spec fn announcement_of(g: GenerationView, a: GenerationStep) -> Option<RoomChangeView> {
    match a {
        GenerationStep::Delta { delta, partial_text } => Some(
            RoomChangeView::TurnDelta {
                run_id: g.run_id,
                request_id: g.request_id,
                delta,
                partial_text,
            },
        ),
        GenerationStep::Completed { snapshot } => Some(
            RoomChangeView::TurnCompleted { run_id: g.run_id, request_id: g.request_id, snapshot },
        ),
        GenerationStep::Failed { code, snapshot } => Some(
            RoomChangeView::TurnFailed {
                run_id: g.run_id,
                request_id: g.request_id,
                error_code: code,
                snapshot,
            },
        ),
        _ => None,
    }
}

pub open spec fn opt_change_view(c: Option<RoomChange>) -> Option<RoomChangeView> {
    match c {
        Some(x) => Some(x@),
        None => None,
    }
}

/// Once the turn is canceled, no event completes it: the generation stops,
/// or fails the run where the stream misbehaves.
pub proof fn law_canceled_turn_never_completes(
    g: GenerationView,
    rooms: Seq<RoomState>,
    e: StreamEventView,
    now: i64,
    message_id: Seq<char>,
)
    ensures
        !(step_outcome(g, rooms, e, true, now, message_id).2 is Completed),
{
}

/// Streamed output accumulates: a step that announces a delta reports, and
/// keeps, everything streamed so far followed by that delta.
pub proof fn law_deltas_accumulate(
    g: GenerationView,
    rooms: Seq<RoomState>,
    e: StreamEventView,
    canceled: bool,
    now: i64,
    message_id: Seq<char>,
)
    ensures
        ({
            let (g2, _, a) = step_outcome(g, rooms, e, canceled, now, message_id);
            a matches GenerationStep::Delta { delta, partial_text } ==> partial_text == g.partial
                + delta && g2.partial == partial_text && delta.len() > 0
        }),
{
}

/// Whether a step of the stream changes the store, the one case that needs
/// the time: it streams an accepted delta into the run, or it ends the run
/// while the run is still queued or running.
pub open spec fn step_needs_clock(
    g: GenerationView,
    rooms: Seq<RoomState>,
    e: StreamEventView,
    canceled: bool,
) -> bool {
    let ends = finish_changes(rooms, g.room_id, g.run_id);
    match e {
        StreamEventView::Ended => ends,
        StreamEventView::Error(_) => !canceled && ends,
        StreamEventView::TextDelta { request_id, delta } => if request_id != g.request_id {
            ends
        } else if delta.len() == 0 {
            false
        } else {
            delta_changes(rooms, g.room_id, g.run_id, delta) || (!canceled && ends)
        },
        StreamEventView::Completed { request_id } => if request_id != g.request_id {
            ends
        } else {
            !canceled && ends
        },
        StreamEventView::Failed { request_id } => if request_id != g.request_id {
            ends
        } else {
            !canceled && ends
        },
    }
}

impl Generation {
    /// The change to announce for an action.
    pub fn announce(&self, a: GenerationAction) -> (c: Option<RoomChange>)
        ensures
            opt_change_view(c) == announcement_of(self@, a@),
    {
        match a {
            GenerationAction::Delta { delta, partial_text } => Some(
                RoomChange::TurnDelta {
                    run_id: self.run_id.clone(),
                    request_id: self.request_id.clone(),
                    delta,
                    partial_text,
                },
            ),
            GenerationAction::Completed { snapshot } => Some(
                RoomChange::TurnCompleted {
                    run_id: self.run_id.clone(),
                    request_id: self.request_id.clone(),
                    snapshot,
                },
            ),
            GenerationAction::Failed { code, snapshot } => Some(
                RoomChange::TurnFailed {
                    run_id: self.run_id.clone(),
                    request_id: self.request_id.clone(),
                    error_code: code,
                    snapshot,
                },
            ),
            _ => None,
        }
    }

    /// The generation of an accepted turn, and the request that starts it.
    pub fn start(accepted: &AcceptedRun) -> (r: (Generation, ModelRequest))
        ensures
            r.0@ == (GenerationView {
                room_id: accepted.snapshot@.id,
                run_id: accepted.run@.run_id,
                request_id: accepted.run@.request_id,
                partial: Seq::empty(),
            }),
            requests_turn(r.1, accepted.snapshot@, accepted.run@.request_id),
    {
        let g = Generation {
            room_id: accepted.snapshot.id.clone(),
            run_id: accepted.run.run_id.clone(),
            request_id: accepted.run.request_id.clone(),
            partial: String::new(),
        };
        let q = model_request(&accepted.snapshot, accepted.run.request_id.as_str());
        (g, q)
    }

    /// A change of the cancellation signal: the generation stops once the
    /// signal reads canceled, and otherwise goes on.
    pub fn on_cancel_signal(&self, changed: bool, canceled: bool) -> (a: GenerationAction)
        ensures
            a@ == (if changed && canceled {
                GenerationStep::Stop
            } else {
                GenerationStep::Continue
            }),
    {
        if changed && canceled {
            GenerationAction::Stop
        } else {
            GenerationAction::Continue
        }
    }

    fn fail_at(&self, store: &mut RoomStore, code: &str, now: i64, message_id: String) -> (a:
        GenerationAction)
        requires
            old(store).wf(),
            is_timestamp(now),
        ensures
            final(store).wf(),
            (final(store)@, a@) == fail_outcome(old(store)@, self@, code@, now, message_id@),
    {
        let terminal = RunTerminal {
            status: RunStatus::Failed,
            error_code: Some(code.to_owned()),
            error_message: Some(FAILURE_MESSAGE.to_owned()),
        };
        assert(terminal@ == failed_terminal(code@));
        match store.finish_run_at(self.room_id.as_str(), self.run_id.as_str(), terminal, now, message_id) {
            Ok(snapshot) => GenerationAction::Failed { code: code.to_owned(), snapshot },
            Err(_) => GenerationAction::Stop,
        }
    }

    /// The run failed before the stream opened.
    pub fn open_failed_at(&self, store: &mut RoomStore, kind: ModelErrorKind, now: i64, message_id: String) -> (a:
        GenerationAction)
        requires
            old(store).wf(),
            is_timestamp(now),
        ensures
            final(store).wf(),
            (final(store)@, a@) == fail_outcome(
                old(store)@,
                self@,
                model_error_text(kind),
                now,
                message_id@,
            ),
    {
        self.fail_at(store, model_error_code(kind), now, message_id)
    }

    /// The run failed before the stream opened, now.
    pub fn open_failed(&self, store: &mut RoomStore, kind: ModelErrorKind) -> (a: GenerationAction)
        requires
            old(store).wf(),
        ensures
            final(store).wf(),
            (a is Stop && final(store)@ == old(store)@ && finish_changes(old(store)@, self@.room_id, self@.run_id))
                || exists|now: i64, t: Seq<char>|
                is_timestamp(now) && is_hex_token(t) && (final(store)@, a@) == #[trigger] fail_outcome(
                    old(store)@,
                    self@,
                    model_error_text(kind),
                    now,
                    "msg_"@ + t,
                ),
    {
        // Only a run that is still queued or running is failed, and stamped
        // with the time; otherwise the answer is the same at any instant.
        let now = if store.finish_changes_room(self.room_id.as_str(), self.run_id.as_str()) {
            match current_time() {
                Some(t) => t,
                None => {
                    return GenerationAction::Stop;
                },
            }
        } else {
            0
        };
        let message_id = opaque_id("msg_");
        let ghost t = choose|t: Seq<char>| is_hex_token(t) && message_id@ == "msg_"@ + t;
        self.open_failed_at(store, kind, now, message_id)
    }

    /// Whether a step changes the store; see [`step_needs_clock`].
    pub fn needs_clock(&self, store: &RoomStore, event: &StreamEvent, canceled: bool) -> (b: bool)
        requires
            store.wf(),
        ensures
            b == step_needs_clock(self@, store@, event@, canceled),
    {
        let ends = store.finish_changes_room(self.room_id.as_str(), self.run_id.as_str());
        match event {
            StreamEvent::Ended => ends,
            StreamEvent::Error(_) => !canceled && ends,
            StreamEvent::TextDelta { request_id, delta } => {
                if !str_eq(request_id.as_str(), self.request_id.as_str()) {
                    ends
                } else if delta.as_str().is_empty() {
                    false
                } else {
                    store.delta_changes_room(self.room_id.as_str(), self.run_id.as_str(), delta.as_str())
                        || (!canceled && ends)
                }
            },
            StreamEvent::Completed { request_id } | StreamEvent::Failed { request_id } => {
                if !str_eq(request_id.as_str(), self.request_id.as_str()) {
                    ends
                } else {
                    !canceled && ends
                }
            },
        }
    }

    /// Handles one stream event at `now`; see [`step_outcome`].
    #[verifier::rlimit(30)]
    pub fn step_at(
        &mut self,
        store: &mut RoomStore,
        event: StreamEvent,
        canceled: bool,
        now: i64,
        message_id: String,
    ) -> (a: GenerationAction)
        requires
            old(store).wf(),
            is_timestamp(now),
        ensures
            final(store).wf(),
            (final(self)@, final(store)@, a@) == step_outcome(
                old(self)@,
                old(store)@,
                event@,
                canceled,
                now,
                message_id@,
            ),
    {
        match event {
            StreamEvent::Ended => self.fail_at(store, "modelStreamEnded", now, message_id),
            StreamEvent::Error(kind) => {
                if canceled {
                    GenerationAction::Stop
                } else {
                    self.fail_at(store, model_error_code(kind), now, message_id)
                }
            },
            StreamEvent::TextDelta { request_id, delta } => {
                if !str_eq(request_id.as_str(), self.request_id.as_str()) {
                    return self.fail_at(store, "modelProtocol", now, message_id);
                }
                if delta.as_str().is_empty() {
                    return GenerationAction::Continue;
                }
                let ghost g = self@;
                self.partial = concat(self.partial.as_str(), delta.as_str());
                match store.append_delta_at(self.room_id.as_str(), self.run_id.as_str(), delta.as_str(), now) {
                    Ok(()) => GenerationAction::Delta { delta, partial_text: self.partial.clone() },
                    Err(_) => {
                        if canceled {
                            GenerationAction::Stop
                        } else {
                            let terminal = RunTerminal {
                                status: RunStatus::Failed,
                                error_code: Some("outputRejected".to_owned()),
                                error_message: Some(FAILURE_MESSAGE.to_owned()),
                            };
                            assert(terminal@ == failed_terminal("outputRejected"@));
                            match store.finish_run_at(
                                self.room_id.as_str(),
                                self.run_id.as_str(),
                                terminal,
                                now,
                                message_id,
                            ) {
                                Ok(snapshot) => GenerationAction::Failed {
                                    code: "outputRejected".to_owned(),
                                    snapshot,
                                },
                                Err(_) => GenerationAction::Stop,
                            }
                        }
                    },
                }
            },
            StreamEvent::Completed { request_id } => {
                if !str_eq(request_id.as_str(), self.request_id.as_str()) {
                    return self.fail_at(store, "modelProtocol", now, message_id);
                }
                if canceled {
                    return GenerationAction::Stop;
                }
                let terminal = RunTerminal {
                    status: RunStatus::Completed,
                    error_code: None,
                    error_message: None,
                };
                assert(terminal@ == completed_terminal());
                match store.finish_run_at(
                    self.room_id.as_str(),
                    self.run_id.as_str(),
                    terminal,
                    now,
                    message_id.clone(),
                ) {
                    Ok(snapshot) => GenerationAction::Completed { snapshot },
                    Err(_) => self.fail_at(store, "storeUnavailable", now, message_id),
                }
            },
            StreamEvent::Failed { request_id } => {
                if !str_eq(request_id.as_str(), self.request_id.as_str()) {
                    self.fail_at(store, "modelProtocol", now, message_id)
                } else if !canceled {
                    self.fail_at(store, "modelFailed", now, message_id)
                } else {
                    GenerationAction::Stop
                }
            },
        }
    }

    /// Handles one stream event now; see [`step_outcome`].
    pub fn step(&mut self, store: &mut RoomStore, event: StreamEvent, canceled: bool) -> (a:
        GenerationAction)
        requires
            old(store).wf(),
        ensures
            final(store).wf(),
            (a is Stop && final(self)@ == old(self)@ && final(store)@ == old(store)@ && step_needs_clock(
                old(self)@,
                old(store)@,
                event@,
                canceled,
            )) || exists|now: i64, t: Seq<char>|
                is_timestamp(now) && is_hex_token(t) && (final(self)@, final(store)@, a@)
                    == #[trigger] step_outcome(
                    old(self)@,
                    old(store)@,
                    event@,
                    canceled,
                    now,
                    "msg_"@ + t,
                ),
    {
        // Only a step that changes the store is stamped with the time; every
        // other step comes out the same at any instant.
        let now = if self.needs_clock(store, &event, canceled) {
            match current_time() {
                Some(t) => t,
                None => {
                    return GenerationAction::Stop;
                },
            }
        } else {
            0
        };
        let message_id = opaque_id("msg_");
        let ghost t = choose|t: Seq<char>| is_hex_token(t) && message_id@ == "msg_"@ + t;
        let ghost ev = event@;
        let a = self.step_at(store, event, canceled, now, message_id);
        assert((self@, store@, a@) == step_outcome(old(self)@, old(store)@, ev, canceled, now, "msg_"@ + t));
        a
    }
}

} // verus!
