//! The control endpoint: who may add a key, what a frame is parsed into, what a
//! scrub drops, and how a frame is read and answered.

use std::cell::{Cell, RefCell};

use tabbify_broker::authorized_keys::validated_key;
use tabbify_broker::contract::{CodeError, CodeErrorCode};
use tabbify_broker::creds::{CapFile, Creds};
use tabbify_broker::http_ctrl::{
    bearer_token, check_add_key, handle_add_key, handle_scrub, key_outcome, parse_request, read_authkeys_cap,
    read_key_body, reason, remove_cred_files, response, route_bytes, route_frame, submitted_key,
    HttpOutcome, KeyBody, ParsedRequest, Route, AUTH_KEYS_PATH, BROKER_CTRL_PORT,
    PRE_SNAPSHOT_SCRUB_PATH,
};
use tabbify_broker::json::Member;
use tabbify_broker::reading::{
    find_body_boundary, room, take_read, NextRead, ReadEvent, MAX_REQUEST_BYTES,
};

fn req(method: &str, path: &str, auth: Option<&str>, body: &str) -> ParsedRequest {
    ParsedRequest {
        method: method.to_owned(),
        path: path.to_owned(),
        authorization: auth.map(str::to_owned),
        body: body.to_owned(),
    }
}

fn names(v: &[&str]) -> Vec<String> {
    v.iter().map(|s| s.to_string()).collect()
}

#[test]
fn valid_token_and_key_appends_once_and_returns_200() {
    let called = Cell::new(0);
    let seen = RefCell::new(String::new());
    let out = handle_add_key(
        Some("THE-CAP"),
        &req(
            "POST",
            AUTH_KEYS_PATH,
            Some("Bearer THE-CAP"),
            r#"{"user":"agent","public_key":"ssh-ed25519 AAAA user@laptop"}"#,
        ),
        |k: &str| {
            called.set(called.get() + 1);
            *seen.borrow_mut() = k.to_owned();
            Ok(())
        },
    );
    assert_eq!(out.status, 200);
    assert_eq!(called.get(), 1);
    assert_eq!(&*seen.borrow(), "ssh-ed25519 AAAA user@laptop");
}

#[test]
fn missing_token_is_401_and_never_appends() {
    let called = Cell::new(0);
    let out = handle_add_key(
        Some("THE-CAP"),
        &req(
            "POST",
            AUTH_KEYS_PATH,
            None,
            r#"{"public_key":"ssh-ed25519 AAAA evil@agent"}"#,
        ),
        |_: &str| {
            called.set(called.get() + 1);
            Ok(())
        },
    );
    assert_eq!(out.status, 401, "no token must be unauthorized");
    assert_eq!(called.get(), 0, "add-key must NOT run without a valid token");
}

#[test]
fn wrong_token_is_401_and_never_appends() {
    let called = Cell::new(0);
    let out = handle_add_key(
        Some("THE-CAP"),
        &req(
            "POST",
            AUTH_KEYS_PATH,
            Some("Bearer NOT-THE-CAP"),
            r#"{"public_key":"ssh-ed25519 AAAA x@y"}"#,
        ),
        |_: &str| {
            called.set(called.get() + 1);
            Ok(())
        },
    );
    assert_eq!(out.status, 401);
    assert_eq!(called.get(), 0);
}

#[test]
fn no_cap_held_fails_closed() {
    let called = Cell::new(0);
    let out = handle_add_key(
        None,
        &req(
            "POST",
            AUTH_KEYS_PATH,
            Some("Bearer anything"),
            r#"{"public_key":"ssh-ed25519 AAAA x@y"}"#,
        ),
        |_: &str| {
            called.set(called.get() + 1);
            Ok(())
        },
    );
    assert_eq!(out.status, 401, "no cap → fail closed");
    assert_eq!(called.get(), 0);
}

#[test]
fn prefix_or_longer_token_is_rejected() {
    for guess in ["THE-CA", "THE-CAPX", "", "the-cap"] {
        let out = handle_add_key(
            Some("THE-CAP"),
            &req(
                "POST",
                AUTH_KEYS_PATH,
                Some(&format!("Bearer {guess}")),
                r#"{"public_key":"ssh-ed25519 AAAA x@y"}"#,
            ),
            |_: &str| Ok(()),
        );
        assert_eq!(out.status, 401, "guess {guess:?} must be 401");
    }
}

fn add_ssh_key_validate_only(key: &str) -> Result<(), CodeError> {
    let ok = ["ssh-ed25519 ", "ssh-rsa ", "ecdsa-sha2-"].iter().any(|p| key.starts_with(p));
    if ok && !key.contains('\n') {
        Ok(())
    } else {
        Err(CodeError::new(CodeErrorCode::Invalid, "unrecognised key type"))
    }
}

#[test]
fn valid_token_but_garbage_key_is_400() {
    let out = handle_add_key(
        Some("THE-CAP"),
        &req(
            "POST",
            AUTH_KEYS_PATH,
            Some("Bearer THE-CAP"),
            r#"{"public_key":"not-a-key blah"}"#,
        ),
        add_ssh_key_validate_only,
    );
    assert_eq!(out.status, 400);
}

#[test]
fn wrong_route_is_404_or_405() {
    let g = handle_add_key(
        Some("THE-CAP"),
        &req("GET", AUTH_KEYS_PATH, Some("Bearer THE-CAP"), ""),
        |_: &str| Ok(()),
    );
    assert_eq!(g.status, 405);
    let p = handle_add_key(
        Some("THE-CAP"),
        &req("POST", "/v1/other", Some("Bearer THE-CAP"), ""),
        |_: &str| Ok(()),
    );
    assert_eq!(p.status, 404);
}

#[test]
fn read_authkeys_cap_reads_trims_and_handles_absence() {
    assert_eq!(read_authkeys_cap(None), None);
    assert_eq!(read_authkeys_cap(Some("  TOKEN-123 \n")).as_deref(), Some("TOKEN-123"));
    assert_eq!(read_authkeys_cap(Some("\n")), None);
}

#[test]
fn bearer_scheme_is_case_insensitive_and_basic_is_ignored() {
    assert_eq!(bearer_token(Some("bearer abc")), Some("abc"));
    assert_eq!(bearer_token(Some("Bearer  abc  ")), Some("abc"));
    assert_eq!(bearer_token(Some("Basic abc")), None);
    assert_eq!(bearer_token(Some("Bearer ")), None);
    assert_eq!(bearer_token(None), None);
}

#[test]
fn parse_request_extracts_fields() {
    let raw = "POST /v1/authorized-keys HTTP/1.1\r\nHost: x\r\nAUTHORIZATION: Bearer TOK\r\ncontent-type: application/json\r\n\r\n{\"public_key\":\"ssh-ed25519 AAAA u\"}";
    let p = parse_request(raw).unwrap();
    assert_eq!(p.method, "POST");
    assert_eq!(p.path, "/v1/authorized-keys");
    assert_eq!(p.authorization.as_deref(), Some("Bearer TOK"));
    assert!(p.body.contains("ssh-ed25519"));
}

#[test]
fn scrub_drops_ram_creds_and_removes_cred_files_returns_200() {
    let files = vec![
        CapFile { name: "app.url".into(), contents: Some("http://h:8788/git/CAP\n".into()) },
        CapFile { name: "authkeys.cap".into(), contents: Some("THE-CAP\n".into()) },
        CapFile { name: "forge-admin.token".into(), contents: Some("ghs_secret\n".into()) },
    ];
    let mut creds = Creds::load(&files, Some("ghs_secret\n"), None);
    assert!(!creds.cap_names().is_empty());

    let listing = names(&["app.url", "authkeys.cap", "forge-admin.token"]);
    let scrub = handle_scrub(&mut creds, &req("POST", PRE_SNAPSHOT_SCRUB_PATH, None, ""), &listing);
    assert_eq!(scrub.outcome.status, 200, "scrub must succeed");
    assert!(
        creds.cap_names().is_empty(),
        "scrub must drop the in-RAM creds so the snapshot freezes nothing"
    );
    assert!(scrub.remove.contains(&"app.url".to_string()), "*.url must be removed");
    assert!(scrub.remove.contains(&"authkeys.cap".to_string()), "authkeys.cap must be removed");
    assert!(
        scrub.remove.contains(&"forge-admin.token".to_string()),
        "forge-admin.token must be removed"
    );
}

#[test]
fn scrub_wrong_method_or_path_is_405_or_404() {
    let mut creds = Creds::default();
    let none = Vec::new();
    let g = handle_scrub(&mut creds, &req("GET", PRE_SNAPSHOT_SCRUB_PATH, None, ""), &none);
    assert_eq!(g.outcome.status, 405);
    let p = handle_scrub(&mut creds, &req("POST", "/v1/other", None, ""), &none);
    assert_eq!(p.outcome.status, 404);
}

#[test]
fn scrub_that_is_refused_keeps_everything() {
    let files =
        vec![CapFile { name: "app.url".into(), contents: Some("http://h/git/CAP".into()) }];
    let mut creds = Creds::load(&files, None, None);
    let listing = names(&["app.url"]);
    let g = handle_scrub(&mut creds, &req("GET", PRE_SNAPSHOT_SCRUB_PATH, None, ""), &listing);
    assert!(g.remove.is_empty() && g.wiped.is_empty());
    assert_eq!(g.outcome, HttpOutcome::new(405, "method not allowed"));
    assert_eq!(creds.git_cap_url("app"), Some("http://h/git/CAP"));
}

#[test]
fn remove_cred_files_is_idempotent_and_tolerates_absence() {
    let fixed = names(&["authkeys.cap", "forge-admin.token"]);
    assert_eq!(remove_cred_files(&Vec::new()), fixed);
    assert_eq!(remove_cred_files(&names(&["notes.txt", "url", "app.url.bak"])), fixed);
}

#[test]
fn cred_files_are_named_in_the_order_of_the_listing() {
    let listing = names(&["b.url", "x", "a.url", ".url"]);
    assert_eq!(
        remove_cred_files(&listing),
        names(&["b.url", "a.url", ".url", "authkeys.cap", "forge-admin.token"])
    );
}

#[test]
fn a_second_scrub_removes_nothing() {
    let listing = names(&["b.url", "readme", "a.url", "authkeys.cap", "forge-admin.token"]);
    let gone = remove_cred_files(&listing);
    let left: Vec<String> = listing.into_iter().filter(|n| !gone.contains(n)).collect();
    assert_eq!(left, names(&["readme"]));
    assert!(remove_cred_files(&left).iter().all(|n| !left.contains(n)));
}

#[test]
fn a_scrub_hands_back_overwritten_buffers() {
    let files = vec![CapFile { name: "a.url".into(), contents: Some("http://h".into()) }];
    let mut creds = Creds::load(&files, Some("tok"), None);
    let post = req("POST", PRE_SNAPSHOT_SCRUB_PATH, None, "");
    assert_eq!(handle_scrub(&mut creds, &post, &Vec::new()).wiped, vec![vec![0; 8], vec![0; 3]]);
    assert!(handle_scrub(&mut creds, &post, &Vec::new()).wiped.is_empty());
}

#[test]
fn what_a_scrub_leaves_behind_loads_nothing() {
    let all = ["b.url", "readme", "a.url", "authkeys.cap", "forge-admin.token"];
    let gone = remove_cred_files(&names(&all));
    let left: Vec<CapFile> = all
        .iter()
        .filter(|n| !gone.contains(&n.to_string()))
        .map(|n| CapFile { name: n.to_string(), contents: Some("http://h/git/C".into()) })
        .collect();
    assert_eq!(left.len(), 1);
    assert!(Creds::load(&left, None, None).cap_names().is_empty());
}

#[test]
fn node_frame_parses_to_authorized_request() {
    let frame = "POST /v1/authorized-keys HTTP/1.1\r\nhost: [fd5a::1]:8732\r\nauthorization: Bearer CAP123\r\ncontent-type: application/json\r\ncontent-length: 60\r\n\r\n{\"user\":\"agent\",\"public_key\":\"ssh-ed25519 AAAA u@l\"}";
    let req: ParsedRequest = parse_request(frame).unwrap();
    assert_eq!(req.method, "POST");
    assert_eq!(req.path, "/v1/authorized-keys");
    let out = handle_add_key(Some("CAP123"), &req, |_k: &str| Ok(()));
    assert_eq!(out.status, 200);
}

fn wire_status(cap: Option<&str>, auth: Option<&str>, body: &str) -> u16 {
    let auth_line = auth.map(|a| format!("authorization: {a}\r\n")).unwrap_or_default();
    let frame = format!(
        "POST /v1/authorized-keys HTTP/1.1\r\nhost: x\r\n{auth_line}content-type: application/json\r\ncontent-length: {}\r\nconnection: close\r\n\r\n{}",
        body.len(),
        body,
    );
    let held = read_authkeys_cap(cap);
    let out = match route_bytes(frame.as_bytes()) {
        Route::AddKey(req) => handle_add_key(held.as_deref(), &req, |_: &str| {
            Err(CodeError::new(CodeErrorCode::Internal, "open: no such directory"))
        }),
        _ => panic!("the frame goes to the handler that adds a key"),
    };
    let text = response(&out);
    text.lines().next().unwrap().split_whitespace().nth(1).unwrap().parse().unwrap()
}

#[test]
fn wire_authz_no_token_401_wrong_token_401_correct_token_passes() {
    let key = r#"{"user":"agent","public_key":"ssh-ed25519 AAAAwirekey laptop"}"#;
    let cap = Some("THE-WIRE-CAP\n");
    assert_eq!(wire_status(cap, None, key), 401, "no token must be 401");
    assert_eq!(wire_status(cap, Some("Bearer WRONG"), key), 401, "wrong token must be 401");
    let s = wire_status(cap, Some("Bearer THE-WIRE-CAP"), key);
    assert_ne!(s, 401, "correct token must pass authorization (got {s})");
    assert_ne!(s, 404);
    assert_eq!(s, 500);
}

#[test]
fn wire_no_cap_file_fails_closed() {
    let key = r#"{"public_key":"ssh-ed25519 AAAA agent@self"}"#;
    assert_eq!(wire_status(None, Some("Bearer guess"), key), 401, "no cap file → fail closed");
}

// ---------------------------------------------------------------------------
// Frames
// ---------------------------------------------------------------------------

#[test]
fn frames_with_bare_line_feeds_are_parsed() {
    let p = parse_request("GET /x\nAuthorization:  Bearer T \n\nbody\n\nmore").unwrap();
    assert_eq!(p.method, "GET");
    assert_eq!(p.path, "/x");
    assert_eq!(p.authorization.as_deref(), Some("Bearer T"));
    assert_eq!(p.body, "body\n\nmore");
}

#[test]
fn a_frame_without_a_body_is_all_head() {
    let p = parse_request("GET /x HTTP/1.1\r\nhost: y\r\n").unwrap();
    assert_eq!(p.path, "/x");
    assert_eq!(p.authorization, None);
    assert_eq!(p.body, "");
}

#[test]
fn the_last_authorization_header_counts() {
    let p = parse_request("GET /x\r\nauthorization: a\r\n Authorization : b\r\nx: c\r\n\r\n");
    assert_eq!(p.unwrap().authorization.as_deref(), Some("b"));
}

#[test]
fn a_frame_without_a_request_line_is_malformed() {
    assert!(parse_request("").is_none());
    assert!(parse_request("POST").is_none());
    assert!(parse_request("\r\n\r\nbody").is_none());
    assert!(parse_request("   \nPOST /x").is_none());
}

#[test]
fn a_default_request_is_empty() {
    let p = ParsedRequest::default();
    assert_eq!(p.method, "");
    assert_eq!(p.path, "");
    assert!(p.authorization.is_none());
    assert_eq!(p.body, "");
}

#[test]
fn frames_are_routed_by_path() {
    match route_frame("POST /v1/pre-snapshot-scrub HTTP/1.1\r\n\r\n") {
        Route::Scrub(req) => assert_eq!(req.method, "POST"),
        other => panic!("{other:?}"),
    }
    match route_frame("GET /anything HTTP/1.1\r\n\r\n") {
        Route::AddKey(req) => assert_eq!(req.path, "/anything"),
        other => panic!("{other:?}"),
    }
    match route_frame("\r\n") {
        Route::Answered(o) => assert_eq!(o, HttpOutcome::new(400, "malformed request")),
        other => panic!("{other:?}"),
    }
}

#[test]
fn bytes_that_are_no_utf8_are_replaced() {
    match route_bytes(b"GET /a\xffb HTTP/1.1\r\n\r\n\xc3\xa9") {
        Route::AddKey(req) => {
            assert_eq!(req.path, "/a\u{fffd}b");
            assert_eq!(req.body, "\u{e9}");
        }
        other => panic!("{other:?}"),
    }
}

#[test]
fn the_end_of_the_head_is_found() {
    assert_eq!(find_body_boundary(b"a\r\n\r\nb"), Some(5));
    assert_eq!(find_body_boundary(b"a\n\nb"), Some(3));
    assert_eq!(find_body_boundary(b"a\n\nb\r\n\r\nc"), Some(8));
    assert_eq!(find_body_boundary(b"a\r\nb"), None);
    assert_eq!(find_body_boundary(b""), None);
}

#[test]
fn a_frame_is_read_until_its_body_had_its_time() {
    let mut buf = Vec::new();
    let mut next = take_read(&mut buf, NextRead::Wait, ReadEvent::Bytes(b"POST / HTTP/1.1\r\n"));
    assert_eq!(next, NextRead::Wait);
    next = take_read(&mut buf, next, ReadEvent::Bytes(b"\r\n{"));
    assert_eq!(next, NextRead::WaitBriefly);
    next = take_read(&mut buf, next, ReadEvent::Bytes(b"}"));
    assert_eq!(next, NextRead::Wait);
    next = take_read(&mut buf, next, ReadEvent::Bytes(b"x"));
    assert_eq!(next, NextRead::WaitBriefly);
    next = take_read(&mut buf, next, ReadEvent::TimedOut);
    assert_eq!(next, NextRead::Done);
    assert_eq!(buf, b"POST / HTTP/1.1\r\n\r\n{}x");
}

#[test]
fn a_frame_ends_with_the_stream_or_at_the_limit() {
    let mut buf = Vec::new();
    assert_eq!(take_read(&mut buf, NextRead::Wait, ReadEvent::Bytes(b"")), NextRead::Done);
    let chunk = [b'a'; 1024];
    let mut next = NextRead::Wait;
    let mut reads = 0;
    while next != NextRead::Done {
        next = take_read(&mut buf, next, ReadEvent::Bytes(&chunk));
        reads += 1;
    }
    assert_eq!(reads, 16);
    assert_eq!(buf.len(), MAX_REQUEST_BYTES);
}

#[test]
fn no_more_than_the_limit_is_buffered() {
    let mut buf = vec![b'a'; 16383];
    assert_eq!(room(&buf), 1);
    let late = [b'b'; 1024];
    assert_eq!(take_read(&mut buf, NextRead::Wait, ReadEvent::Bytes(&late)), NextRead::Done);
    assert_eq!(buf.len(), 16384);
    assert_eq!(buf[16383], b'b');
    assert_eq!(room(&buf), 0);
    assert_eq!(take_read(&mut buf, NextRead::Wait, ReadEvent::Bytes(b"c")), NextRead::Done);
    assert_eq!(buf.len(), 16384);
    assert_eq!(room(&Vec::new()), 1024);
    assert_eq!(room(&vec![0; 16384 - 1024]), 1024);
    assert_eq!(room(&vec![0; 16384 - 1023]), 1023);
}

#[test]
fn an_answer_is_rendered() {
    let text = response(&HttpOutcome::new(401, "unauthorized"));
    assert_eq!(
        text,
        "HTTP/1.1 401 Unauthorized\r\ncontent-type: text/plain\r\ncontent-length: 12\r\nconnection: close\r\n\r\nunauthorized"
    );
    let text = response(&HttpOutcome::new(500, "caf\u{e9}"));
    assert!(text.starts_with("HTTP/1.1 500 Internal Server Error\r\n"));
    assert!(text.contains("content-length: 5\r\n"));
    assert_eq!(text.split_once("\r\n\r\n").unwrap().1, "caf\u{e9}");
}

#[test]
fn statuses_have_their_reason_phrases() {
    assert_eq!(reason(200), "OK");
    assert_eq!(reason(400), "Bad Request");
    assert_eq!(reason(401), "Unauthorized");
    assert_eq!(reason(404), "Not Found");
    assert_eq!(reason(405), "Method Not Allowed");
    assert_eq!(reason(500), "Internal Server Error");
    assert_eq!(reason(418), "Internal Server Error");
}

#[test]
fn the_endpoint_has_its_port() {
    assert_eq!(BROKER_CTRL_PORT, 8732);
}

// ---------------------------------------------------------------------------
// Bodies
// ---------------------------------------------------------------------------

fn add_with_body(body: &str) -> (HttpOutcome, Option<String>) {
    let seen = RefCell::new(None);
    let out = handle_add_key(
        Some("C"),
        &req("POST", AUTH_KEYS_PATH, Some("Bearer C"), body),
        |k: &str| {
            *seen.borrow_mut() = Some(k.to_owned());
            Ok(())
        },
    );
    (out, seen.into_inner())
}

#[test]
fn bodies_that_submit_no_key_are_400() {
    for body in ["", "{", "no json"] {
        let (out, seen) = add_with_body(body);
        assert_eq!(out, HttpOutcome::new(400, "bad json body"), "{body:?}");
        assert_eq!(seen, None);
    }
    for body in [
        "{}",
        "[]",
        "\"ssh-ed25519 A\"",
        r#"{"public_key":""}"#,
        r#"{"public_key":7,"pubkey":"ssh-ed25519 A"}"#,
        r#"{"public_key":null,"pubkey":"ssh-ed25519 A"}"#,
        r#"{"pubkey":["ssh-ed25519 A"]}"#,
    ] {
        let (out, seen) = add_with_body(body);
        assert_eq!(out, HttpOutcome::new(400, "missing public_key"), "{body:?}");
        assert_eq!(seen, None);
    }
}

#[test]
fn the_older_member_name_is_accepted() {
    let (out, seen) = add_with_body("  {\"pubkey\":\"ssh-rsa B\"}\r\n");
    assert_eq!(out, HttpOutcome::new(200, "ok"));
    assert_eq!(seen.as_deref(), Some("ssh-rsa B"));
    let (_, seen) = add_with_body(r#"{"pubkey":"old","public_key":"new"}"#);
    assert_eq!(seen.as_deref(), Some("new"));
}

#[test]
fn the_members_of_a_body_are_read() {
    match read_key_body(r#" {"public_key":"aé","pubkey":false} "#) {
        KeyBody::Members { public_key: Member::Text(k), pubkey: Member::Other } => {
            assert_eq!(k, "a\u{e9}");
        }
        other => panic!("{other:?}"),
    }
    assert!(matches!(
        read_key_body("3"),
        KeyBody::Members { public_key: Member::Absent, pubkey: Member::Absent }
    ));
    assert!(matches!(read_key_body("{]"), KeyBody::Malformed));
}

#[test]
fn the_submitted_key_follows_from_the_members() {
    let text = |s: &str| Member::Text(s.to_owned());
    let key = |public_key, pubkey| KeyBody::Members { public_key, pubkey };
    assert_eq!(submitted_key(&key(text("a"), text("b"))).unwrap(), "a");
    assert_eq!(submitted_key(&key(Member::Absent, text("b"))).unwrap(), "b");
    let missing = HttpOutcome::new(400, "missing public_key");
    assert_eq!(submitted_key(&key(Member::Other, text("b"))).unwrap_err(), missing);
    assert_eq!(submitted_key(&key(text(""), text("b"))).unwrap_err(), missing);
    assert_eq!(submitted_key(&key(Member::Absent, Member::Absent)).unwrap_err(), missing);
    assert_eq!(
        submitted_key(&KeyBody::Malformed).unwrap_err(),
        HttpOutcome::new(400, "bad json body")
    );
}

#[test]
fn failures_to_append_keep_their_messages() {
    let e = CodeError::new(CodeErrorCode::Invalid, "key must be one line");
    assert_eq!(key_outcome(Err(e)), HttpOutcome::new(400, "key must be one line"));
    for code in
        [CodeErrorCode::Internal, CodeErrorCode::Forbidden, CodeErrorCode::NeedsCredential]
    {
        let e = CodeError::new(code, "open: denied");
        assert_eq!(key_outcome(Err(e)), HttpOutcome::new(500, "open: denied"));
    }
    assert_eq!(key_outcome(Ok(())), HttpOutcome::new(200, "ok"));
}

#[test]
fn a_submitted_key_is_checked_by_the_validator() {
    let out = handle_add_key(
        Some("C"),
        &req("POST", AUTH_KEYS_PATH, Some("bearer C"), r#"{"public_key":"ssh-dss A"}"#),
        |k: &str| validated_key(k).map(|_| ()),
    );
    assert_eq!(out, HttpOutcome::new(400, "unrecognised key type"));
}

#[test]
fn a_request_can_be_checked_without_appending() {
    let ask = |auth: &str, body: &str| {
        check_add_key(Some("C"), &req("POST", AUTH_KEYS_PATH, Some(auth), body))
    };
    assert_eq!(ask("Bearer C", r#"{"public_key":" ssh-rsa A "}"#), HttpOutcome::new(200, "ok"));
    assert_eq!(
        ask("Bearer C", r#"{"public_key":"ssh-rsa A\nB"}"#),
        HttpOutcome::new(400, "key must be one line")
    );
    assert_eq!(
        ask("Bearer C", r#"{"pubkey":"x"}"#),
        HttpOutcome::new(400, "unrecognised key type")
    );
    assert_eq!(ask("Bearer C", "{}"), HttpOutcome::new(400, "missing public_key"));
    assert_eq!(ask("Bearer C", "{"), HttpOutcome::new(400, "bad json body"));
    assert_eq!(ask("Bearer D", "{"), HttpOutcome::new(401, "unauthorized"));
}
