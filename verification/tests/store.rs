use ryu_rooms::model::{MessageRole, ParticipantRole, RoomStatus, RunStatus};
use ryu_rooms::store::{CreateRoomInput, RoomStore, RunTerminal, SubmitTurnInput};

fn new_room(store: &mut RoomStore, origin: &str) -> ryu_rooms::store::CreatedRoom {
    store
        .create_room(CreateRoomInput {
            model_id: "model-a".to_owned(),
            share_origin: origin.to_owned(),
        })
        .expect("room creation")
}

#[test]
fn creates_a_room_and_keeps_invite_secret_out_of_the_snapshot() {
    let mut store = RoomStore::open_in_memory().expect("in-memory store");
    let created = new_room(&mut store, "http://192.168.1.20:7980");

    assert!(created.room.id.starts_with("room_"));
    assert!(!created.invite.starts_with("room_"));
    assert!(store
        .snapshot(&created.room.id)
        .expect("snapshot")
        .is_some());
    assert_eq!(
        store
            .exchange_invite(&created.invite, "Guest")
            .expect("invite exchange")
            .role,
        ParticipantRole::Guest
    );
    assert!(store
        .raw_invite_for_test(&created.room.id)
        .expect("raw invite inspection")
        .is_none());
}

#[test]
fn idempotent_turns_do_not_create_duplicate_runs() {
    let mut store = RoomStore::open_in_memory().expect("in-memory store");
    let created = new_room(&mut store, "http://192.168.1.20:7980");
    let session = store
        .exchange_invite(&created.invite, "Guest")
        .expect("invite exchange");

    let first = store
        .append_user_turn(
            &session,
            SubmitTurnInput {
                text: "hello".to_owned(),
                idempotency_key: Some("same-turn".to_owned()),
            },
        )
        .expect("first turn");
    let second = store
        .append_user_turn(
            &session,
            SubmitTurnInput {
                text: "hello".to_owned(),
                idempotency_key: Some("same-turn".to_owned()),
            },
        )
        .expect("idempotent retry");

    assert_eq!(first.run.run_id, second.run.run_id);
    assert_eq!(
        store
            .snapshot(&created.room.id)
            .expect("snapshot")
            .expect("room")
            .messages
            .len(),
        1
    );
}

#[test]
fn a_second_non_idempotent_turn_is_rejected_while_running() {
    let mut store = RoomStore::open_in_memory().expect("in-memory store");
    let created = new_room(&mut store, "http://192.168.1.20:7980");
    let session = store
        .exchange_invite(&created.invite, "Guest")
        .expect("invite exchange");

    store
        .append_user_turn(
            &session,
            SubmitTurnInput {
                text: "first".to_owned(),
                idempotency_key: None,
            },
        )
        .expect("first turn");
    let error = store
        .append_user_turn(
            &session,
            ryu_rooms::store::SubmitTurnInput {
                text: "second".to_owned(),
                idempotency_key: None,
            },
        )
        .expect_err("room must be busy");

    assert_eq!(error.code(), "roomBusy");
}

#[test]
fn revoking_an_invite_invalidates_existing_guest_sessions() {
    let mut store = RoomStore::open_in_memory().expect("in-memory store");
    let created = new_room(&mut store, "http://192.168.1.20:7980");
    let session = store
        .exchange_invite(&created.invite, "Guest")
        .expect("invite exchange");

    store
        .revoke_invite(&created.room.id)
        .expect("revoke invite");

    assert!(store
        .resolve_session(&session.secret)
        .expect("session lookup")
        .is_none());
    assert!(store.exchange_invite(&created.invite, "Again").is_err());
}

#[test]
fn rotating_an_invite_replaces_the_secret_and_invalidates_old_sessions() {
    let mut store = RoomStore::open_in_memory().expect("in-memory store");
    let created = new_room(&mut store, "https://node.example");
    let old_session = store
        .exchange_invite(&created.invite, "Old guest")
        .expect("old invite exchange");

    let issued = store
        .issue_invite(&created.room.id)
        .expect("invite rotation");
    assert_eq!(issued.share_origin, "https://node.example");
    assert_ne!(issued.invite, created.invite);
    assert!(store
        .resolve_session(&old_session.secret)
        .expect("old session lookup")
        .is_none());
    assert!(store.exchange_invite(&created.invite, "Old invite").is_err());
    assert!(store.exchange_invite(&issued.invite, "New guest").is_ok());
}

#[test]
fn completed_output_is_persisted_once_and_recovery_fails_running_work() {
    let mut store = RoomStore::open_in_memory().expect("in-memory store");
    let created = new_room(&mut store, "https://node.example");
    let session = store
        .exchange_invite(&created.invite, "Guest")
        .expect("invite exchange");
    let accepted = store
        .append_user_turn(
            &session,
            SubmitTurnInput {
                text: "first".to_owned(),
                idempotency_key: Some("first".to_owned()),
            },
        )
        .expect("turn");

    store
        .append_delta(&created.room.id, &accepted.run.run_id, " ")
        .expect("delta");
    store
        .append_delta(&created.room.id, &accepted.run.run_id, "answer")
        .expect("second delta");
    let snapshot = store
        .finish_run(
            &created.room.id,
            &accepted.run.run_id,
            RunTerminal {
                status: RunStatus::Completed,
                error_code: None,
                error_message: None,
            },
        )
        .expect("finish");
    assert_eq!(
        snapshot
            .messages
            .iter()
            .filter(|message| message.role == MessageRole::Assistant)
            .count(),
        1
    );

    let second = store
        .append_user_turn(
            &session,
            SubmitTurnInput {
                text: "second".to_owned(),
                idempotency_key: None,
            },
        )
        .expect("second turn");
    assert_eq!(store.recover_running().expect("recovery"), 1);
    let recovered = store
        .snapshot(&created.room.id)
        .expect("snapshot")
        .expect("room");
    assert_eq!(recovered.status, RoomStatus::Failed);
    assert_eq!(
        recovered.current_run.expect("failed run").run_id,
        second.run.run_id
    );
}
