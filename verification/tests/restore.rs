use ryu_rooms::model::{MessageRole, ParticipantRole, RoomStatus, RunStatus};
use ryu_rooms::store::records::{
    InviteRecord, MessageRecord, ParticipantRecord, RoomRecord, RunRecord,
};
use ryu_rooms::store::{CreateRoomInput, RoomStore, StoreError};

fn host(id: &str, at: i64) -> ParticipantRecord {
    ParticipantRecord {
        id: id.to_owned(),
        display_name: "Host".to_owned(),
        role: ParticipantRole::Host,
        online: true,
        created_at: at,
        last_seen_at: at,
    }
}

fn room(id: &str, status: RoomStatus, runs: Vec<RunRecord>) -> RoomRecord {
    RoomRecord {
        id: id.to_owned(),
        status,
        model_id: "model-a".to_owned(),
        share_origin: "https://node.example".to_owned(),
        created_at: 1_000,
        updated_at: 2_000,
        messages: vec![MessageRecord {
            id: "msg_a".to_owned(),
            role: MessageRole::User,
            text: "hi".to_owned(),
            participant_id: Some("member_h".to_owned()),
            created_at: 1_500,
        }],
        runs,
        invite: InviteRecord { digest: vec![0u8; 32], expires_at: 9_000, revoked_at: None },
        participants: vec![host("member_h", 1_000)],
        sessions: Vec::new(),
    }
}

fn run(id: &str, status: RunStatus, at: i64) -> RunRecord {
    RunRecord {
        id: id.to_owned(),
        request_id: "req_1".to_owned(),
        idempotency_key: None,
        input_text: "hi".to_owned(),
        status,
        partial_text: String::new(),
        error_code: None,
        error_message: None,
        started_at: Some(at),
        finished_at: None,
        created_at: at,
    }
}

#[test]
fn well_formed_rows_restore_and_answer_reads() {
    let rows = vec![room(
        "room_0123456789abcdef",
        RoomStatus::Running,
        vec![run("run_a", RunStatus::Running, 1_600)],
    )];
    let mut store = RoomStore::restore(rows).expect("restore");
    let snapshot = store
        .snapshot("room_0123456789abcdef")
        .expect("snapshot")
        .expect("room");
    assert_eq!(snapshot.status, RoomStatus::Running);
    assert_eq!(snapshot.messages.len(), 1);
    assert_eq!(snapshot.current_run.expect("run").run_id, "run_a");
    assert_eq!(store.recover_running().expect("recovery"), 1);
    assert_eq!(store.records().len(), 1);
    assert_eq!(store.records()[0].runs[0].status, RunStatus::Failed);
    assert_eq!(store.records()[0].runs[0].error_code.as_deref(), Some("nodeRestarted"));
}

#[test]
fn rows_that_break_the_invariant_are_refused() {
    let running_without_run = vec![room("room_0123456789abcdef", RoomStatus::Running, Vec::new())];
    assert!(matches!(RoomStore::restore(running_without_run), Err(StoreError::Database)));

    let two_active = vec![room(
        "room_0123456789abcdef",
        RoomStatus::Running,
        vec![run("run_a", RunStatus::Running, 1_600), run("run_b", RunStatus::Queued, 1_700)],
    )];
    assert!(matches!(RoomStore::restore(two_active), Err(StoreError::Database)));

    let bad_id = vec![room("lobby", RoomStatus::Idle, Vec::new())];
    assert!(matches!(RoomStore::restore(bad_id), Err(StoreError::Database)));

    let twice = vec![
        room("room_0123456789abcdef", RoomStatus::Idle, Vec::new()),
        room("room_0123456789abcdef", RoomStatus::Idle, Vec::new()),
    ];
    assert!(matches!(RoomStore::restore(twice), Err(StoreError::Database)));

    let mut hostless = room("room_0123456789abcdef", RoomStatus::Idle, Vec::new());
    hostless.participants.clear();
    assert!(matches!(RoomStore::restore(vec![hostless]), Err(StoreError::Database)));
}

#[test]
fn a_created_store_restores_from_its_own_rows() {
    let mut store = RoomStore::open_in_memory().expect("store");
    let created = store
        .create_room(CreateRoomInput {
            model_id: "model-a".to_owned(),
            share_origin: "https://node.example".to_owned(),
        })
        .expect("room");
    let rebuilt: Vec<RoomRecord> = store
        .records()
        .iter()
        .map(|r| RoomRecord {
            id: r.id.clone(),
            status: r.status,
            model_id: r.model_id.clone(),
            share_origin: r.share_origin.clone(),
            created_at: r.created_at,
            updated_at: r.updated_at,
            messages: Vec::new(),
            runs: Vec::new(),
            invite: InviteRecord {
                digest: r.invite.digest.clone(),
                expires_at: r.invite.expires_at,
                revoked_at: r.invite.revoked_at,
            },
            participants: r
                .participants
                .iter()
                .map(|p| ParticipantRecord {
                    id: p.id.clone(),
                    display_name: p.display_name.clone(),
                    role: p.role,
                    online: p.online,
                    created_at: p.created_at,
                    last_seen_at: p.last_seen_at,
                })
                .collect(),
            sessions: Vec::new(),
        })
        .collect();
    let mut restored = RoomStore::restore(rebuilt).expect("restore");
    assert!(restored.snapshot(&created.room.id).expect("snapshot").is_some());
    assert!(restored.exchange_invite(&created.invite, "Guest").is_ok());
}

#[test]
fn rows_with_repeated_identifiers_or_keys_are_refused() {
    let same_run_id = vec![room(
        "room_0123456789abcdef",
        RoomStatus::Idle,
        vec![run("run_a", RunStatus::Completed, 1_600), run("run_a", RunStatus::Failed, 1_700)],
    )];
    assert!(matches!(RoomStore::restore(same_run_id), Err(StoreError::Database)));

    let mut first = run("run_a", RunStatus::Completed, 1_600);
    first.idempotency_key = Some("k".to_owned());
    let mut second = run("run_b", RunStatus::Failed, 1_700);
    second.idempotency_key = Some("k".to_owned());
    let same_key = vec![room("room_0123456789abcdef", RoomStatus::Idle, vec![first, second])];
    assert!(matches!(RoomStore::restore(same_key), Err(StoreError::Database)));

    let mut twice_member = room("room_0123456789abcdef", RoomStatus::Idle, Vec::new());
    twice_member.participants.push(host("member_h", 1_100));
    assert!(matches!(RoomStore::restore(vec![twice_member]), Err(StoreError::Database)));
}

#[test]
fn times_render_with_nanoseconds() {
    let mut r = room("room_0123456789abcdef", RoomStatus::Idle, Vec::new());
    r.updated_at = 1_500_000_000_123_456_789;
    let store = RoomStore::restore(vec![r]).expect("restore");
    let snapshot = store
        .snapshot("room_0123456789abcdef")
        .expect("snapshot")
        .expect("room");
    assert_eq!(snapshot.updated_at, "2017-07-14T02:40:00.123456789+00:00");
    assert_eq!(snapshot.messages[0].created_at, "1970-01-01T00:00:00.000001500+00:00");
}
