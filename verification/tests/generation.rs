use ryu_rooms::generation::{
    model_error_code, role_name, Generation, GenerationAction, ModelErrorKind, StreamEvent,
    MODEL_MAX_TOKENS,
};
use ryu_rooms::model::{MessageRole, RoomStatus, RunStatus};
use ryu_rooms::store::{AcceptedRun, CreateRoomInput, RoomStore, SubmitTurnInput};

fn accepted_turn(store: &mut RoomStore, model: &str, text: &str) -> AcceptedRun {
    let created = store
        .create_room(CreateRoomInput {
            model_id: model.to_owned(),
            share_origin: "http://node.example".to_owned(),
        })
        .expect("room");
    let session = store
        .exchange_invite(&created.invite, "Phone")
        .expect("session");
    store
        .append_user_turn(
            &session,
            SubmitTurnInput {
                text: text.to_owned(),
                idempotency_key: Some("turn-1".to_owned()),
            },
        )
        .expect("accepted turn")
}

#[test]
fn the_request_carries_the_transcript_and_budget() {
    let mut store = RoomStore::open_in_memory().expect("store");
    let accepted = accepted_turn(&mut store, "model-a", "say hello");
    let (generation, request) = Generation::start(&accepted);
    assert_eq!(generation.run_id, accepted.run.run_id);
    assert_eq!(generation.request_id, accepted.run.request_id);
    assert_eq!(generation.room_id, accepted.snapshot.id);
    assert_eq!(generation.partial, "");
    assert_eq!(request.messages.len(), 1);
    assert_eq!(request.messages[0].role, "user");
    assert_eq!(request.messages[0].content, "say hello");
    assert_eq!(request.model, "model-a");
    assert_eq!(request.provider.as_deref(), Some("local"));
    assert_eq!(request.request_id, accepted.run.request_id);
    assert_eq!(request.max_tokens, Some(MODEL_MAX_TOKENS));
    assert_eq!(role_name(MessageRole::Assistant), "assistant");
}

#[test]
fn completed_model_stream_publishes_deltas_and_one_assistant_message() {
    let mut store = RoomStore::open_in_memory().expect("store");
    let accepted = accepted_turn(&mut store, "model-a", "say hello");
    let (mut generation, request) = Generation::start(&accepted);

    let mut names = vec!["turn.accepted".to_owned()];
    let delta = generation.step(
        &mut store,
        StreamEvent::TextDelta {
            request_id: request.request_id.clone(),
            delta: "hello world".to_owned(),
        },
        false,
    );
    assert!(!delta.ends());
    match generation.announce(delta).expect("delta announced") {
        change @ ryu_rooms::events::RoomChange::TurnDelta { .. } => {
            names.push(change.name().to_owned());
            if let ryu_rooms::events::RoomChange::TurnDelta { partial_text, .. } = change {
                assert_eq!(partial_text, "hello world");
            }
        }
        _ => panic!("expected a delta"),
    }
    let done = generation.step(
        &mut store,
        StreamEvent::Completed { request_id: request.request_id.clone() },
        false,
    );
    assert!(done.ends());
    let change = generation.announce(done).expect("completion announced");
    names.push(change.name().to_owned());
    assert_eq!(names, ["turn.accepted", "turn.delta", "turn.completed"]);

    let snapshot = store
        .snapshot(&accepted.snapshot.id)
        .expect("snapshot")
        .expect("room");
    assert_eq!(snapshot.status, RoomStatus::Idle);
    assert_eq!(snapshot.messages.len(), 2);
    assert_eq!(
        snapshot.messages[1].text, "hello world",
        "assistant output is persisted exactly once"
    );
    assert_eq!(snapshot.messages[1].role, MessageRole::Assistant);
}

#[test]
fn a_stream_without_terminal_event_fails_without_completed_assistant_output() {
    let mut store = RoomStore::open_in_memory().expect("store");
    let accepted = accepted_turn(&mut store, "broken", "break");
    let (mut generation, request) = Generation::start(&accepted);
    let delta = generation.step(
        &mut store,
        StreamEvent::TextDelta {
            request_id: request.request_id.clone(),
            delta: "partial".to_owned(),
        },
        false,
    );
    assert!(matches!(delta, GenerationAction::Delta { .. }));
    let end = generation.step(&mut store, StreamEvent::Ended, false);
    match end {
        GenerationAction::Failed { code, snapshot } => {
            assert_eq!(code, "modelStreamEnded");
            assert_eq!(snapshot.status, RoomStatus::Failed);
            let run = snapshot.current_run.expect("current run");
            assert_eq!(run.status, RunStatus::Failed);
            assert_eq!(run.partial_text, "partial");
            assert_eq!(run.error_code.as_deref(), Some("modelStreamEnded"));
            assert_eq!(
                run.error_message.as_deref(),
                Some("the local model could not complete this turn")
            );
            assert!(
                snapshot.messages.iter().all(|m| m.role != MessageRole::Assistant),
                "partial text must not be presented as a completed assistant message"
            );
        }
        _ => panic!("expected a failure"),
    }
}

#[test]
fn events_for_another_request_fail_the_run() {
    let mut store = RoomStore::open_in_memory().expect("store");
    let accepted = accepted_turn(&mut store, "model-a", "hi");
    let (mut generation, _) = Generation::start(&accepted);
    let action = generation.step(
        &mut store,
        StreamEvent::TextDelta { request_id: "other".to_owned(), delta: "x".to_owned() },
        false,
    );
    match action {
        GenerationAction::Failed { code, snapshot } => {
            assert_eq!(code, "modelProtocol");
            assert_eq!(snapshot.current_run.expect("run").partial_text, "");
        }
        _ => panic!("expected a protocol failure"),
    }
}

#[test]
fn empty_deltas_are_skipped_and_cancellation_stops_quietly() {
    let mut store = RoomStore::open_in_memory().expect("store");
    let accepted = accepted_turn(&mut store, "model-a", "hi");
    let (mut generation, request) = Generation::start(&accepted);
    let skipped = generation.step(
        &mut store,
        StreamEvent::TextDelta { request_id: request.request_id.clone(), delta: String::new() },
        false,
    );
    assert!(matches!(skipped, GenerationAction::Continue));
    assert!(generation.announce(skipped).is_none());
    let stopped = generation.step(&mut store, StreamEvent::Error(ModelErrorKind::Transport), true);
    assert!(matches!(stopped, GenerationAction::Stop));
    let late = generation.step(
        &mut store,
        StreamEvent::Completed { request_id: request.request_id.clone() },
        true,
    );
    assert!(matches!(late, GenerationAction::Stop));
    let run = store
        .snapshot(&accepted.snapshot.id)
        .expect("snapshot")
        .expect("room")
        .current_run
        .expect("run");
    assert_eq!(run.status, RunStatus::Running);
    assert!(matches!(generation.on_cancel_signal(true, true), GenerationAction::Stop));
    assert!(matches!(generation.on_cancel_signal(false, true), GenerationAction::Continue));
    assert!(matches!(generation.on_cancel_signal(true, false), GenerationAction::Continue));
}

#[test]
fn model_errors_fail_the_run_with_their_code() {
    let mut store = RoomStore::open_in_memory().expect("store");
    let accepted = accepted_turn(&mut store, "model-a", "hi");
    let (generation, _) = Generation::start(&accepted);
    match generation.open_failed(&mut store, ModelErrorKind::NotHosted) {
        GenerationAction::Failed { code, snapshot } => {
            assert_eq!(code, "modelHostUnavailable");
            assert_eq!(
                snapshot.current_run.expect("run").error_code.as_deref(),
                Some("modelHostUnavailable")
            );
        }
        _ => panic!("expected a failure"),
    }
    assert_eq!(model_error_code(ModelErrorKind::Invalid), "modelRequestRejected");
    assert_eq!(model_error_code(ModelErrorKind::Transport), "modelTransport");
    assert_eq!(model_error_code(ModelErrorKind::Rejected), "modelRejected");
    assert_eq!(model_error_code(ModelErrorKind::Protocol), "modelProtocol");
}

#[test]
fn a_model_failure_fails_the_run_unless_canceled() {
    let mut store = RoomStore::open_in_memory().expect("store");
    let accepted = accepted_turn(&mut store, "model-a", "hi");
    let (mut generation, request) = Generation::start(&accepted);
    let failed = generation.step(
        &mut store,
        StreamEvent::Failed { request_id: request.request_id.clone() },
        false,
    );
    match generation.announce(failed).expect("failure announced") {
        ryu_rooms::events::RoomChange::TurnFailed { error_code, run_id, .. } => {
            assert_eq!(error_code, "modelFailed");
            assert_eq!(run_id, accepted.run.run_id);
        }
        _ => panic!("expected a failure"),
    }
}

#[test]
fn streamed_output_accumulates() {
    let mut store = RoomStore::open_in_memory().expect("store");
    let accepted = accepted_turn(&mut store, "model-a", "count");
    let (mut generation, request) = Generation::start(&accepted);
    for (delta, expected) in [("one", "one"), (" two", "one two"), (" three", "one two three")] {
        match generation.step(
            &mut store,
            StreamEvent::TextDelta { request_id: request.request_id.clone(), delta: delta.to_owned() },
            false,
        ) {
            GenerationAction::Delta { partial_text, .. } => assert_eq!(partial_text, expected),
            _ => panic!("expected a delta"),
        }
    }
    assert_eq!(generation.partial, "one two three");
    let run = store
        .snapshot(&accepted.snapshot.id)
        .expect("snapshot")
        .expect("room")
        .current_run
        .expect("run");
    assert_eq!(run.partial_text, "one two three");
}
