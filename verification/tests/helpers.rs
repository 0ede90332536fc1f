use ryu_rooms::api::{
    accepted_request_id, bearer_token, cookie_value, error_status, guest_link, is_https_request,
    join_url, public_error_message, request_id, session_cookie, SESSION_COOKIE,
};
use ryu_rooms::codec::{
    message_role_str, parse_message_role, parse_participant_role, parse_room_status,
    parse_run_status, participant_role_str, room_status_str, run_status_text,
};
use ryu_rooms::limits::{
    check_share_origin,
    validate_delta, validate_display_name, validate_model_id, validate_non_empty, validate_prompt,
    validate_share_origin,
};
use ryu_rooms::model::{MessageRole, ParticipantRole, RoomStatus, RunStatus};
use ryu_rooms::paths::database_path;
use ryu_rooms::store::StoreError;

#[test]
fn required_fields_are_trimmed_and_bounded() {
    assert_eq!(validate_non_empty("  hi  ", 5, "field"), Ok("hi".to_owned()));
    assert_eq!(validate_non_empty("   ", 5, "field"), Err("field is required".to_owned()));
    assert_eq!(validate_non_empty("abcdef", 5, "field"), Err("field is too long".to_owned()));
    assert_eq!(
        validate_non_empty("a\u{7}b", 5, "field"),
        Err("field contains control characters".to_owned())
    );
    assert_eq!(validate_model_id(""), Err("modelId is required".to_owned()));
    assert_eq!(validate_prompt(" ask "), Ok("ask".to_owned()));
    assert_eq!(validate_display_name(&"x".repeat(81)), Err("displayName is too long".to_owned()));
    assert_eq!(validate_display_name(&"x".repeat(80)), Ok("x".repeat(80)));
}

#[test]
fn deltas_keep_whitespace_and_allow_line_breaks() {
    assert_eq!(validate_delta(" a\n\tb\r"), Ok(" a\n\tb\r".to_owned()));
    assert_eq!(validate_delta(""), Err("delta is required".to_owned()));
    assert_eq!(validate_delta(&"y".repeat(4097)), Err("delta is too long".to_owned()));
    assert_eq!(
        validate_delta("bell\u{7}"),
        Err("delta contains unsupported control characters".to_owned())
    );
}

#[test]
fn share_origins_must_be_reachable_bare_origins() {
    assert_eq!(
        validate_share_origin(" https://node.example/ "),
        Ok("https://node.example".to_owned())
    );
    assert_eq!(
        validate_share_origin("http://192.168.1.20:7980"),
        Ok("http://192.168.1.20:7980".to_owned())
    );
    assert_eq!(
        validate_share_origin("http://LocalHost:8080"),
        Err("shareOrigin must be reachable by another device".to_owned())
    );
    assert_eq!(
        validate_share_origin("https://node.example/path"),
        Err("shareOrigin must be an HTTP(S) origin without credentials or a path".to_owned())
    );
    assert_eq!(
        validate_share_origin("ftp://node.example"),
        Err("shareOrigin must be an HTTP(S) origin without credentials or a path".to_owned())
    );
    assert_eq!(
        validate_share_origin("not a url"),
        Err("shareOrigin must be a valid URL".to_owned())
    );
    assert_eq!(validate_share_origin(""), Err("shareOrigin is required".to_owned()));
}

#[test]
fn stored_texts_read_back() {
    for s in [RoomStatus::Idle, RoomStatus::Running, RoomStatus::Failed, RoomStatus::Closed] {
        assert_eq!(parse_room_status(room_status_str(s)), Some(s));
    }
    for s in [
        RunStatus::Queued,
        RunStatus::Running,
        RunStatus::Completed,
        RunStatus::Failed,
        RunStatus::Canceled,
    ] {
        assert_eq!(parse_run_status(run_status_text(s)), Some(s));
    }
    for r in [MessageRole::User, MessageRole::Assistant] {
        assert_eq!(parse_message_role(message_role_str(r)), Some(r));
    }
    for r in [ParticipantRole::Host, ParticipantRole::Guest, ParticipantRole::Viewer] {
        assert_eq!(parse_participant_role(participant_role_str(r)), Some(r));
    }
    assert_eq!(run_status_text(RunStatus::Canceled), "canceled");
    assert_eq!(parse_room_status("Idle"), None);
    assert_eq!(parse_run_status(""), None);
    assert_eq!(parse_message_role("system"), None);
    assert_eq!(parse_participant_role("owner"), None);
}

#[test]
fn database_lives_in_the_data_directory() {
    assert_eq!(database_path("/var/ryu"), "/var/ryu/rooms.db");
    assert_eq!(database_path("/var/ryu/"), "/var/ryu/rooms.db");
    assert_eq!(database_path(""), "rooms.db");
}

#[test]
fn request_ids_are_kept_only_when_clean() {
    assert_eq!(accepted_request_id(Some("abc-123")), Some("abc-123".to_owned()));
    assert_eq!(request_id(Some("abc-123")), "abc-123");
    assert_eq!(accepted_request_id(Some("   ")), None);
    assert_eq!(accepted_request_id(Some(&"r".repeat(129))), None);
    assert_eq!(accepted_request_id(Some(&"r".repeat(128))), Some("r".repeat(128)));
    assert_eq!(accepted_request_id(Some("a\u{1}b")), None);
    let fresh = request_id(None);
    assert!(fresh.starts_with("req_"));
    assert_eq!(fresh.len(), 36);
    assert!(fresh[4..].chars().all(|c| c.is_ascii_hexdigit() && !c.is_ascii_uppercase()));
    assert_ne!(request_id(None), request_id(None));
}

#[test]
fn session_cookie_is_found_among_others() {
    let header = "theme=dark; ryu_rooms_session=abc123 ; other=1";
    assert_eq!(cookie_value(Some(header), SESSION_COOKIE), Some("abc123".to_owned()));
    assert_eq!(cookie_value(Some("ryu_rooms_session="), SESSION_COOKIE), None);
    assert_eq!(
        cookie_value(Some("ryu_rooms_session=; ryu_rooms_session=second"), SESSION_COOKIE),
        Some("second".to_owned())
    );
    assert_eq!(cookie_value(Some("a=b=c"), "a"), Some("b=c".to_owned()));
    assert_eq!(cookie_value(Some("novalue"), "novalue"), None);
    assert_eq!(cookie_value(None, SESSION_COOKIE), None);
}

#[test]
fn session_cookie_is_strict_and_http_only() {
    assert_eq!(
        session_cookie("s3cr3t", false),
        "ryu_rooms_session=s3cr3t; Path=/api/rooms; Max-Age=43200; HttpOnly; SameSite=Strict"
    );
    assert_eq!(
        session_cookie("s3cr3t", true),
        "ryu_rooms_session=s3cr3t; Path=/api/rooms; Max-Age=43200; HttpOnly; SameSite=Strict; Secure"
    );
}

#[test]
fn https_is_read_from_the_proxy_or_the_origin() {
    assert!(is_https_request(Some("HTTPS, http"), None));
    assert!(is_https_request(Some(" https "), None));
    assert!(!is_https_request(Some("http, https"), None));
    assert!(is_https_request(None, Some("  https://node.example")));
    assert!(!is_https_request(None, Some("http://node.example")));
    assert!(!is_https_request(None, None));
}

#[test]
fn errors_map_to_statuses_and_public_messages() {
    let cases = [
        (StoreError::Invalid("text is required".to_owned()), 400, "invalidArgs", "text is required"),
        (StoreError::NotFound, 404, "roomNotFound", "room not found"),
        (StoreError::RoomBusy, 409, "roomBusy", "another turn is already running"),
        (
            StoreError::Conflict,
            409,
            "conflict",
            "the request conflicts with the current room state",
        ),
        (StoreError::Closed, 410, "roomClosed", "this room is closed"),
        (StoreError::Forbidden, 403, "forbidden", "permission denied"),
        (
            StoreError::InviteUnavailable,
            400,
            "inviteUnavailable",
            "the invite is invalid, expired, or revoked",
        ),
        (
            StoreError::Database,
            503,
            "storeUnavailable",
            "room storage is temporarily unavailable",
        ),
        (StoreError::Lock, 503, "storeUnavailable", "room storage is temporarily unavailable"),
    ];
    for (error, status, code, message) in cases {
        assert_eq!(error_status(&error), status);
        assert_eq!(error.code(), code);
        assert_eq!(public_error_message(&error), message);
    }
}

#[test]
fn join_links_carry_the_invite_in_the_fragment() {
    assert_eq!(
        join_url("https://node.example//", "abc"),
        "https://node.example/api/rooms/guest#invite=abc"
    );
    assert_eq!(
        guest_link("https://node.example", "abc"),
        "https://node.example/api/rooms/guest#invite=abc"
    );
}

#[test]
fn bearer_tokens_need_the_scheme() {
    assert_eq!(bearer_token(Some("Bearer secret")), Some("secret".to_owned()));
    assert_eq!(bearer_token(Some("bearer secret")), None);
    assert_eq!(bearer_token(Some("Bearer ")), Some(String::new()));
    assert_eq!(bearer_token(None), None);
}

fn parts(scheme: &str, host: Option<&str>, path: &str) -> ryu_rooms::limits::UrlParts {
    ryu_rooms::limits::UrlParts {
        scheme: scheme.to_owned(),
        host: host.map(str::to_owned),
        username: String::new(),
        password: None,
        query: None,
        fragment: None,
        path: path.to_owned(),
    }
}

#[test]
fn the_share_origin_rule_reads_the_parsed_parts() {
    assert_eq!(
        check_share_origin("https://a.example//", Some(parts("https", Some("a.example"), "/"))),
        Ok("https://a.example".to_owned())
    );
    assert_eq!(
        check_share_origin("http://x", Some(parts("http", Some("0.0.0.0"), ""))),
        Err("shareOrigin must be reachable by another device".to_owned())
    );
    assert_eq!(
        check_share_origin("http://x", Some(parts("http", None, "/"))),
        Err("shareOrigin must be an HTTP(S) origin without credentials or a path".to_owned())
    );
    let mut with_query = parts("https", Some("a.example"), "/");
    with_query.query = Some("q=1".to_owned());
    assert_eq!(
        check_share_origin("https://a.example/?q=1", Some(with_query)),
        Err("shareOrigin must be an HTTP(S) origin without credentials or a path".to_owned())
    );
    assert_eq!(
        check_share_origin("x", None),
        Err("shareOrigin must be a valid URL".to_owned())
    );
}

#[test]
fn accepted_values_validate_again_unchanged() {
    for raw in ["  hello world \t", "x", "\u{2003}spaced\u{2003}"] {
        let once = validate_non_empty(raw, 20, "field").expect("accepted");
        assert_eq!(validate_non_empty(&once, 20, "field"), Ok(once.clone()));
    }
    let delta = validate_delta(" a\n").expect("delta");
    assert_eq!(validate_delta(&delta), Ok(delta.clone()));
}

#[test]
fn the_database_path_uses_the_platform_separator() {
    let sep = std::path::MAIN_SEPARATOR;
    assert_eq!(database_path("data"), format!("data{sep}rooms.db"));
    assert_eq!(database_path("data/"), "data/rooms.db");
}
