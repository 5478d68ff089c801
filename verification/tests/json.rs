use rush::json::{exec_message, parse_exit_code, parse_session_init, resize_message};

#[test]
fn roundtrip() {
    let msg = resize_message(50, 120);
    assert_eq!(parse_exit_code(&msg), None);
    assert_eq!(parse_exit_code("{\"code\": 5, \"type\": \"exit\"}"), Some(5));
    assert_eq!(parse_exit_code("{\"code\": 256, \"type\": \"exit\"}"), Some(0));
    assert_eq!(parse_exit_code("{\"type\":\"resize\"}"), None);
}

#[test]
fn exec_escaping() {
    let msg = exec_message("echo \"hi\" \\ there", 24, 80);
    assert!(msg.contains("echo \\\"hi\\\" \\\\ there"));
    let msg = exec_message("a\nb", 24, 80);
    assert!(msg.contains("a\\nb"));
}

#[test]
fn session_init() {
    let init = parse_session_init("{\"type\":\"resize\",\"rows\":40,\"cols\":120}");
    assert_eq!((init.rows, init.cols), (40, 120));
    assert!(init.command.is_none());
    let init = parse_session_init(&exec_message("ls -la", 10, 20));
    assert_eq!(init.command.as_deref(), Some("ls -la"));
    assert_eq!((init.rows, init.cols), (10, 20));
    let init = parse_session_init("{}");
    assert_eq!((init.rows, init.cols), (24, 80));
    assert!(init.command.is_none());
}
