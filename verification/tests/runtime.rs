use ryu_rooms::model::{RoomStatus, RunStatus};
use ryu_rooms::runtime::{
    halt_run, room_snapshot, run_to_stop, shut_room, starts_generation, ActiveRuns,
};
use ryu_rooms::store::{CreateRoomInput, RoomStore, StoreError, SubmitTurnInput};

#[test]
fn one_generation_holds_a_room_at_a_time() {
    let mut active: ActiveRuns<u8> = ActiveRuns::new();
    assert!(active.claim("room_a", "run_1", 1));
    assert!(!active.claim("room_a", "run_2", 2));
    assert!(active.claim("room_b", "run_3", 3));
    assert_eq!(active.cancel_of("room_a", "run_1"), Some(&1));
    assert_eq!(active.cancel_of("room_a", "run_2"), None);
    active.release("room_a", "run_2");
    assert_eq!(active.cancel_of("room_a", "run_1"), Some(&1));
    active.release("room_a", "run_1");
    assert_eq!(active.cancel_of("room_a", "run_1"), None);
    assert!(active.claim("room_a", "run_4", 4));
    active.release_room("room_b");
    assert_eq!(active.cancel_of("room_b", "run_3"), None);
    assert_eq!(active.cancel_of("room_a", "run_4"), Some(&4));
}

fn running_room(store: &mut RoomStore) -> (String, String) {
    let created = store
        .create_room(CreateRoomInput {
            model_id: "model-a".to_owned(),
            share_origin: "https://node.example".to_owned(),
        })
        .expect("room");
    let session = store.host_session(&created.room.id).expect("host");
    let accepted = store
        .append_user_turn(
            &session,
            SubmitTurnInput { text: "go".to_owned(), idempotency_key: None },
        )
        .expect("turn");
    assert!(starts_generation(&accepted));
    (created.room.id, accepted.run.run_id)
}

#[test]
fn stopping_a_run_cancels_it_and_frees_the_room() {
    let mut store = RoomStore::open_in_memory().expect("store");
    let mut active: ActiveRuns<()> = ActiveRuns::new();
    let (room_id, run_id) = running_room(&mut store);
    assert!(active.claim(&room_id, &run_id, ()));
    let snapshot = halt_run(&mut store, &mut active, &room_id, &run_id).expect("stop");
    assert_eq!(snapshot.status, RoomStatus::Idle);
    assert!(snapshot.current_run.is_none());
    assert!(active.cancel_of(&room_id, &run_id).is_none());
    let again = halt_run(&mut store, &mut active, &room_id, &run_id).expect_err("already stopped");
    assert_eq!(again.code(), "roomNotFound");
}

#[test]
fn closing_a_room_stops_its_run_and_shuts_it() {
    let mut store = RoomStore::open_in_memory().expect("store");
    let mut active: ActiveRuns<()> = ActiveRuns::new();
    let (room_id, run_id) = running_room(&mut store);
    assert!(active.claim(&room_id, &run_id, ()));
    let current = room_snapshot(&store, &room_id).expect("snapshot");
    let to_stop = run_to_stop(&current).expect("a running run");
    assert_eq!(to_stop, run_id);
    halt_run(&mut store, &mut active, &room_id, &to_stop).expect("stop");
    let closed = shut_room(&mut store, &mut active, &room_id).expect("close");
    assert_eq!(closed.status, RoomStatus::Closed);
    assert!(run_to_stop(&closed).is_none());
    assert!(matches!(
        shut_room(&mut store, &mut active, &room_id),
        Err(StoreError::NotFound)
    ));
    let session = store.host_session(&room_id).expect("host");
    let refused = store
        .append_user_turn(&session, SubmitTurnInput { text: "more".to_owned(), idempotency_key: None })
        .expect_err("closed");
    assert_eq!(refused.code(), "roomClosed");
}

#[test]
fn reading_a_missing_room_is_not_found() {
    let store = RoomStore::open_in_memory().expect("store");
    assert!(matches!(
        room_snapshot(&store, "room_0123456789abcdef"),
        Err(StoreError::NotFound)
    ));
    assert!(matches!(room_snapshot(&store, "nope"), Err(StoreError::Invalid(_))));
    let _ = RunStatus::Queued;
}
