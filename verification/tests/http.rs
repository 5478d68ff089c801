use rush::http::{
    accept_key, answer_upgrade, check_upgrade_response, head_status, header, parse_headers, same_text,
    upgrade_request, HeadStatus, UpgradeAnswer, FORBIDDEN_RESPONSE, MAX_HEAD, VERSION,
};

const KEY: &str = "dGhlIHNhbXBsZSBub25jZQ==";
const ACCEPT: &str = "s3pPLMBiTxaQ9kYGzzhZRbK+xOo=";

fn accepted(a: UpgradeAnswer) -> String {
    match a {
        UpgradeAnswer::Accept(s) => s,
        _ => panic!("expected the upgrade to be accepted"),
    }
}

#[test]
fn request_text_is_exact() {
    let r = upgrade_request("/", "example.com:8080", KEY, None);
    assert_eq!(
        r,
        format!(
            "GET / HTTP/1.1\r\nHost: example.com:8080\r\nUpgrade: websocket\r\nConnection: Upgrade\r\nSec-WebSocket-Version: 13\r\nSec-WebSocket-Key: {}\r\nUser-Agent: rush/{}\r\n\r\n",
            KEY, VERSION
        )
    );
    let with_token = upgrade_request("/", "h", KEY, Some("s3cret"));
    assert!(with_token.ends_with("\r\nAuthorization: Bearer s3cret\r\n\r\n"));
}

#[test]
fn server_accepts_a_rush_client() {
    let req = upgrade_request("/", "example.com:8080", KEY, None);
    let resp = accepted(answer_upgrade(&req, None));
    assert_eq!(
        resp,
        format!(
            "HTTP/1.1 101 Switching Protocols\r\nUpgrade: websocket\r\nConnection: Upgrade\r\nSec-WebSocket-Accept: {}\r\n\r\n",
            ACCEPT
        )
    );
    assert!(check_upgrade_response(&resp, KEY));
}

#[test]
fn token_must_match() {
    let good = upgrade_request("/", "h", KEY, Some("s3cret"));
    let resp = accepted(answer_upgrade(&good, Some("s3cret")));
    assert!(check_upgrade_response(&resp, KEY));
    let wrong = upgrade_request("/", "h", KEY, Some("guess"));
    assert!(matches!(answer_upgrade(&wrong, Some("s3cret")), UpgradeAnswer::BadToken));
    let missing = upgrade_request("/", "h", KEY, None);
    assert!(matches!(answer_upgrade(&missing, Some("s3cret")), UpgradeAnswer::BadToken));
    // A server without a token ignores the client's.
    assert!(matches!(answer_upgrade(&good, None), UpgradeAnswer::Accept(_)));
}

#[test]
fn foreign_clients_are_forbidden() {
    let ush = format!(
        "GET / HTTP/1.1\r\nHost: h\r\nUpgrade: websocket\r\nConnection: Upgrade\r\nSec-WebSocket-Version: 13\r\nSec-WebSocket-Key: {}\r\n\r\n",
        KEY
    );
    assert!(matches!(answer_upgrade(&ush, None), UpgradeAnswer::Forbidden));
    let browser = format!(
        "GET / HTTP/1.1\r\nupgrade: WebSocket\r\nsec-websocket-key: {}\r\nuser-agent: Mozilla/5.0\r\n\r\n",
        KEY
    );
    assert!(matches!(answer_upgrade(&browser, None), UpgradeAnswer::Forbidden));
    assert!(FORBIDDEN_RESPONSE.starts_with("HTTP/1.1 403 Forbidden\r\n"));
}

#[test]
fn invalid_upgrades() {
    let post = format!("POST / HTTP/1.1\r\nUpgrade: websocket\r\nSec-WebSocket-Key: {}\r\nUser-Agent: rush/1\r\n\r\n", KEY);
    assert!(matches!(answer_upgrade(&post, None), UpgradeAnswer::Invalid));
    let no_upgrade = format!("GET / HTTP/1.1\r\nSec-WebSocket-Key: {}\r\nUser-Agent: rush/1\r\n\r\n", KEY);
    assert!(matches!(answer_upgrade(&no_upgrade, None), UpgradeAnswer::Invalid));
    let no_key = "GET / HTTP/1.1\r\nUpgrade: websocket\r\nUser-Agent: rush/1\r\n\r\n";
    assert!(matches!(answer_upgrade(no_key, None), UpgradeAnswer::Invalid));
}

#[test]
fn upgrade_header_is_case_insensitive() {
    let req = format!("GET /x HTTP/1.1\r\nUPGRADE: WebSocket\r\nSEC-WEBSOCKET-KEY:   {}  \r\nUser-Agent: rush/0.1\r\n\r\n", KEY);
    let resp = accepted(answer_upgrade(&req, None));
    assert!(resp.contains(ACCEPT));
}

#[test]
fn client_checks_the_answer() {
    let ok = format!("HTTP/1.1 101 Switching Protocols\r\nsec-websocket-accept: {}\r\n\r\n", ACCEPT);
    assert!(check_upgrade_response(&ok, KEY));
    let wrong_status = format!("HTTP/1.1 200 OK\r\nSec-WebSocket-Accept: {}\r\n\r\n", ACCEPT);
    assert!(!check_upgrade_response(&wrong_status, KEY));
    let wrong_accept = "HTTP/1.1 101 Switching Protocols\r\nSec-WebSocket-Accept: AAAA\r\n\r\n";
    assert!(!check_upgrade_response(wrong_accept, KEY));
    let none = "HTTP/1.1 101 Switching Protocols\r\n\r\n";
    assert!(!check_upgrade_response(none, KEY));
}

#[test]
fn headers_are_parsed() {
    let (first, headers) = parse_headers("GET / HTTP/1.1\r\nHost: a:1\r\nX-Thing:  two words \r\nnot a header\r\nhost: b\r\n\r\n");
    assert_eq!(first, "GET / HTTP/1.1");
    assert_eq!(
        headers,
        vec![
            ("host".to_string(), "a:1".to_string()),
            ("x-thing".to_string(), "two words".to_string()),
            ("host".to_string(), "b".to_string()),
        ]
    );
    assert_eq!(header(&headers, "HOST"), Some("b"));
    assert_eq!(header(&headers, "x-thing"), Some("two words"));
    assert_eq!(header(&headers, "missing"), None);
}

#[test]
fn head_status_by_size_and_end() {
    assert_eq!(head_status(b"GET / HTTP/1.1\r\n"), HeadStatus::Incomplete);
    assert_eq!(head_status(b"GET / HTTP/1.1\r\n\r\n"), HeadStatus::Complete);
    assert_eq!(head_status(b""), HeadStatus::Incomplete);
    let big = vec![b'a'; MAX_HEAD + 1];
    assert_eq!(head_status(&big), HeadStatus::TooLarge);
    let mut exact = vec![b'a'; MAX_HEAD - 4];
    exact.extend_from_slice(b"\r\n\r\n");
    assert_eq!(head_status(&exact), HeadStatus::Complete);
}

#[test]
fn accept_key_of_rfc_example() {
    assert_eq!(accept_key(KEY), ACCEPT);
    assert!(same_text(&accept_key(KEY), ACCEPT));
    assert!(!same_text("a", "b"));
}
