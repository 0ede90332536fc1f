use ryu_rooms::model::{ParticipantRole, RoomStatus, RunStatus};
use ryu_rooms::store::{CreateRoomInput, RoomStore, RunTerminal, StoreError, SubmitTurnInput};

fn input(origin: &str) -> CreateRoomInput {
    CreateRoomInput { model_id: " model-a ".to_owned(), share_origin: origin.to_owned() }
}

#[test]
fn creating_a_room_validates_and_reports_it() {
    let mut store = RoomStore::open_in_memory().expect("store");
    let created = store.create_room(input("https://node.example/")).expect("room");
    assert_eq!(created.share_origin, "https://node.example");
    assert_eq!(created.room.model_id, "model-a");
    assert_eq!(created.room.contract, "rooms/1");
    assert_eq!(created.room.schema_version, 1);
    assert_eq!(created.room.engine, "mesh-llm");
    assert_eq!(created.room.status, RoomStatus::Idle);
    assert_eq!(created.room.participants.len(), 1);
    assert_eq!(created.room.participants[0].role, ParticipantRole::Host);
    assert_eq!(created.invite.len(), 32);
    let refused = store.create_room(input("http://127.0.0.1:9")).expect_err("loopback");
    assert!(matches!(refused, StoreError::Invalid(ref m) if m == "shareOrigin must be reachable by another device"));
    let blank = store
        .create_room(CreateRoomInput { model_id: " ".to_owned(), share_origin: "https://a.example".to_owned() })
        .expect_err("model required");
    assert_eq!(blank.code(), "invalidArgs");
    assert_eq!(store.list_rooms().expect("list").len(), 1);
}

#[test]
fn rooms_are_listed_most_recent_first() {
    let mut store = RoomStore::open_in_memory().expect("store");
    let first = store.create_room(input("https://a.example")).expect("first");
    let second = store.create_room(input("https://b.example")).expect("second");
    let started = std::time::Instant::now();
    while started.elapsed().as_micros() < 5 {}
    let session = store.host_session(&first.room.id).expect("host");
    store
        .append_user_turn(&session, SubmitTurnInput { text: "bump".to_owned(), idempotency_key: None })
        .expect("turn");
    let listed = store.list_rooms().expect("list");
    assert_eq!(listed.len(), 2);
    assert_eq!(listed[0].id, first.room.id);
    assert_eq!(listed[1].id, second.room.id);
}

#[test]
fn invites_fail_generically() {
    let mut store = RoomStore::open_in_memory().expect("store");
    let created = store.create_room(input("https://node.example")).expect("room");
    for bad in ["not-the-invite", "", "   ", "a\u{1}b"] {
        let error = store.exchange_invite(bad, "Phone").expect_err("refused");
        assert_eq!(error.code(), "inviteUnavailable");
    }
    let error = store.exchange_invite(&created.invite, " ").expect_err("name required");
    assert!(matches!(error, StoreError::Invalid(ref m) if m == "displayName is required"));
    let session = store
        .exchange_invite(&format!("  {}  ", created.invite), " Phone ")
        .expect("trimmed invite");
    assert_eq!(session.display_name, "Phone");
    assert_eq!(session.room_id, created.room.id);
    assert_eq!(session.secret.len(), 32);
    let resolved = store
        .resolve_session(&session.secret)
        .expect("lookup")
        .expect("session");
    assert_eq!(resolved.participant_id, session.participant_id);
    assert_eq!(resolved.role, ParticipantRole::Guest);
    assert!(store.resolve_session("unknown").expect("lookup").is_none());
}

#[test]
fn a_room_takes_at_most_eight_participants() {
    let mut store = RoomStore::open_in_memory().expect("store");
    let created = store.create_room(input("https://node.example")).expect("room");
    for n in 0..7 {
        store
            .exchange_invite(&created.invite, &format!("Guest {n}"))
            .expect("joined");
    }
    let full = store.exchange_invite(&created.invite, "One more").expect_err("full");
    assert_eq!(full.code(), "conflict");
}

#[test]
fn retries_with_other_text_conflict_and_viewers_cannot_submit() {
    let mut store = RoomStore::open_in_memory().expect("store");
    let created = store.create_room(input("https://node.example")).expect("room");
    let mut session = store.host_session(&created.room.id).expect("host");
    store
        .append_user_turn(
            &session,
            SubmitTurnInput { text: "one".to_owned(), idempotency_key: Some("k".to_owned()) },
        )
        .expect("turn");
    let conflict = store
        .append_user_turn(
            &session,
            SubmitTurnInput { text: "two".to_owned(), idempotency_key: Some("k".to_owned()) },
        )
        .expect_err("conflict");
    assert_eq!(conflict.code(), "conflict");
    session.role = ParticipantRole::Viewer;
    let forbidden = store
        .append_user_turn(&session, SubmitTurnInput { text: "x".to_owned(), idempotency_key: None })
        .expect_err("viewer");
    assert_eq!(forbidden.code(), "forbidden");
}

#[test]
fn deltas_stream_only_into_running_runs_and_finishing_twice_keeps_one_message() {
    let mut store = RoomStore::open_in_memory().expect("store");
    let created = store.create_room(input("https://node.example")).expect("room");
    let session = store.host_session(&created.room.id).expect("host");
    let accepted = store
        .append_user_turn(&session, SubmitTurnInput { text: "q".to_owned(), idempotency_key: None })
        .expect("turn");
    let room_id = created.room.id.clone();
    let run_id = accepted.run.run_id.clone();
    assert!(matches!(
        store.append_delta(&room_id, "run_missing", "x"),
        Err(StoreError::NotFound)
    ));
    assert!(matches!(store.append_delta(&room_id, &run_id, ""), Err(StoreError::Invalid(_))));
    store.append_delta(&room_id, &run_id, "answer").expect("delta");
    let done = RunTerminal { status: RunStatus::Completed, error_code: None, error_message: None };
    let first = store.finish_run(&room_id, &run_id, done).expect("finish");
    assert_eq!(first.messages.len(), 2);
    let again = RunTerminal { status: RunStatus::Completed, error_code: None, error_message: None };
    let second = store.finish_run(&room_id, &run_id, again).expect("finish again");
    assert_eq!(second.messages.len(), 2);
    assert!(matches!(store.append_delta(&room_id, &run_id, "late"), Err(StoreError::NotFound)));
    assert_eq!(store.recover_running().expect("recovery"), 0);
}

#[test]
fn revoking_twice_and_closing_twice_find_nothing() {
    let mut store = RoomStore::open_in_memory().expect("store");
    let created = store.create_room(input("https://node.example")).expect("room");
    store.revoke_invite(&created.room.id).expect("revoke");
    assert!(matches!(store.revoke_invite(&created.room.id), Err(StoreError::NotFound)));
    store.close_room(&created.room.id).expect("close");
    assert!(matches!(store.close_room(&created.room.id), Err(StoreError::NotFound)));
    assert!(matches!(store.issue_invite(&created.room.id), Err(StoreError::Closed)));
    let snapshot = store.snapshot(&created.room.id).expect("snapshot").expect("room");
    assert_eq!(snapshot.status, RoomStatus::Closed);
    assert!(snapshot.participants.iter().all(|p| !p.online));
    assert!(matches!(store.close_room("bad id"), Err(StoreError::Invalid(_))));
}

#[test]
fn times_are_rendered_in_rfc3339_utc() {
    let mut store = RoomStore::open_in_memory().expect("store");
    let created = store.create_room(input("https://node.example")).expect("room");
    let stamp = &created.room.updated_at;
    assert!(stamp.ends_with("+00:00"), "{stamp}");
    assert_eq!(&stamp[4..5], "-");
    assert_eq!(&stamp[10..11], "T");
    let year: i32 = stamp[..4].parse().expect("year");
    assert!(year >= 2024);
    let session = store.host_session(&created.room.id).expect("host");
    let accepted = store
        .append_user_turn(&session, SubmitTurnInput { text: "t".to_owned(), idempotency_key: None })
        .expect("turn");
    assert!(accepted.run.started_at.expect("started").ends_with("+00:00"));
    assert!(accepted.user_message.created_at >= created.room.updated_at);
}

#[test]
fn a_created_room_reads_back_and_hides_its_invite() {
    let mut store = RoomStore::open_in_memory().expect("store");
    let created = store.create_room(input("https://node.example")).expect("room");
    let read = store.snapshot(&created.room.id).expect("snapshot").expect("room");
    assert_eq!(read, created.room);
    assert!(!format!("{read:?}").contains(&created.invite));
    let session = store.exchange_invite(&created.invite, "Guest").expect("join");
    let after = store.snapshot(&created.room.id).expect("snapshot").expect("room");
    assert!(!format!("{after:?}").contains(&session.secret));
    assert!(!format!("{after:?}").contains(&created.invite));
}

#[test]
fn a_closed_room_admits_nobody() {
    let mut store = RoomStore::open_in_memory().expect("store");
    let created = store.create_room(input("https://node.example")).expect("room");
    let session = store.exchange_invite(&created.invite, "Guest").expect("join");
    store.close_room(&created.room.id).expect("close");
    assert!(store.resolve_session(&session.secret).expect("lookup").is_none());
    assert_eq!(
        store.exchange_invite(&created.invite, "Late").expect_err("closed").code(),
        "inviteUnavailable"
    );
}

#[test]
fn snapshots_show_the_newest_forty_messages() {
    let mut store = RoomStore::open_in_memory().expect("store");
    let created = store.create_room(input("https://node.example")).expect("room");
    let session = store.host_session(&created.room.id).expect("host");
    for n in 0..21 {
        let accepted = store
            .append_user_turn(
                &session,
                SubmitTurnInput { text: format!("question {n}"), idempotency_key: None },
            )
            .expect("turn");
        store
            .append_delta(&created.room.id, &accepted.run.run_id, &format!("answer {n}"))
            .expect("delta");
        store
            .finish_run(
                &created.room.id,
                &accepted.run.run_id,
                RunTerminal { status: RunStatus::Completed, error_code: None, error_message: None },
            )
            .expect("finish");
    }
    let snapshot = store.snapshot(&created.room.id).expect("snapshot").expect("room");
    assert_eq!(snapshot.messages.len(), 40);
    assert_eq!(snapshot.messages[0].text, "question 1");
    assert_eq!(snapshot.messages[39].text, "answer 20");
}

#[test]
fn a_keyed_retry_replays_its_run_after_it_ended() {
    let mut store = RoomStore::open_in_memory().expect("store");
    let created = store.create_room(input("https://node.example")).expect("room");
    let session = store.host_session(&created.room.id).expect("host");
    let turn = || SubmitTurnInput { text: "q".to_owned(), idempotency_key: Some("k1".to_owned()) };
    let first = store.append_user_turn(&session, turn()).expect("turn");
    store
        .finish_run(
            &created.room.id,
            &first.run.run_id,
            RunTerminal { status: RunStatus::Failed, error_code: Some("x".to_owned()), error_message: None },
        )
        .expect("finish");
    let again = store.append_user_turn(&session, turn()).expect("replay");
    assert_eq!(again.run.run_id, first.run.run_id);
    assert_eq!(again.run.status, RunStatus::Failed);
    let listed = store.list_rooms().expect("list");
    assert_eq!(listed[0].current_run.as_ref().expect("run").run_id, first.run.run_id);
}
