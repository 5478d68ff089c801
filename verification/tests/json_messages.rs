use rush::json::{
    field_size,
    escape_json, exec_message, exit_message, field_str, field_u32, parse_exit_code, parse_resize_command,
    parse_session_init, resize_message, safe_size, MAX_COLS, MAX_ROWS,
};

fn chars(s: &str) -> Vec<char> {
    s.chars().collect()
}

#[test]
fn message_texts() {
    assert_eq!(resize_message(24, 80), "{\"type\":\"resize\",\"rows\":24,\"cols\":80}");
    assert_eq!(exec_message("ls", 1, 2), "{\"type\":\"exec\",\"cmd\":\"ls\",\"rows\":1,\"cols\":2}");
    assert_eq!(exit_message(0), "{\"type\":\"exit\",\"code\":0}");
    assert_eq!(exit_message(-3), "{\"type\":\"exit\",\"code\":-3}");
}

#[test]
fn escapes() {
    assert_eq!(escape_json("a\"b\\c\nd\re\tf"), "a\\\"b\\\\c\\nd\\re\\tf");
    assert_eq!(escape_json("\u{1}\u{1f}"), "\\u0001\\u001f");
    assert_eq!(escape_json("héllo"), "héllo");
}

#[test]
fn resize_reads_back() {
    for (r, c) in [(24u16, 80u16), (1, 1), (1000, 5000), (33, 111)] {
        assert_eq!(parse_resize_command(&resize_message(r, c)), Some((r, c)));
    }
    // Out-of-range sizes are clamped.
    assert_eq!(parse_resize_command(&resize_message(0, 9000)), Some((1, 5000)));
    assert_eq!(parse_resize_command("{\"type\":\"resize\",\"rows\":24}"), None);
    assert_eq!(parse_resize_command("{\"type\":\"exit\",\"rows\":24,\"cols\":80}"), None);
    assert_eq!(parse_resize_command("not json"), None);
}

#[test]
fn exit_reads_back() {
    for code in [0, 1, 127, 255] {
        assert_eq!(parse_exit_code(&exit_message(code)), Some(code));
    }
    // A negative code has no digits to read.
    assert_eq!(parse_exit_code(&exit_message(-1)), None);
}

#[test]
fn exec_reads_back() {
    for cmd in ["uname -a", "ls -la /tmp", "x", "", "a\nb\tc", "say \"hi\" \\ there", "\u{1}\u{1f}é😀", "type", "rows"] {
        let init = parse_session_init(&exec_message(cmd, 30, 100));
        assert_eq!(init.command.as_deref(), Some(cmd));
        assert_eq!((init.rows, init.cols), (30, 100));
    }
}

#[test]
fn command_named_like_a_key_keeps_its_size() {
    let init = parse_session_init(&exec_message("cols", 30, 100));
    assert_eq!(init.command.as_deref(), Some("cols"));
    assert_eq!((init.rows, init.cols), (30, 100));
}

#[test]
fn command_with_quotes() {
    let init = parse_session_init(&exec_message("echo \"hi\"", 24, 80));
    assert_eq!(init.command.as_deref(), Some("echo \"hi\""));
}

#[test]
fn messages_with_spaces_and_escapes() {
    assert_eq!(parse_resize_command("{\"type\": \"resize\", \"rows\": 24, \"cols\": 80}"), Some((24, 80)));
    assert_eq!(parse_resize_command(" {\n\t\"cols\" : 100 ,\"rows\":50,\"type\":\"resize\" } "), Some((50, 100)));
    let init = parse_session_init("{\"type\": \"exec\", \"cmd\": \"a\\u0041\\/\\ud83d\\ude00\", \"rows\": 24, \"cols\": 80}");
    assert_eq!(init.command.as_deref(), Some("aA/😀"));
    // Keys inside strings are not keys.
    let init = parse_session_init("{\"type\":\"resize\",\"note\":\"\\\"rows\\\":7\",\"rows\":9}");
    assert_eq!((init.rows, init.cols), (9, 80));
}

#[test]
fn texts_that_are_not_messages() {
    assert_eq!(parse_resize_command("{\"type\":\"resize\",\"rows\":24,\"cols\":80} x"), None);
    assert_eq!(parse_resize_command("{\"type\":\"resize\",\"rows\":24,\"cols\":80"), None);
    assert_eq!(parse_resize_command("{\"type\":\"resize\",\"rows\":[24],\"cols\":80}"), None);
    assert_eq!(parse_resize_command("{\"type\":\"resize\",\"rows\":24.5,\"cols\":80}"), None);
    assert_eq!(parse_resize_command("{\"type\":\"resize\",\"rows\":\"24\",\"cols\":80}"), None);
    // A lone surrogate or a raw control character makes the text no object.
    assert_eq!(parse_exit_code("{\"type\":\"exit\",\"code\":1,\"x\":\"\\ud800\"}"), None);
    assert_eq!(parse_exit_code("{\"type\":\"exit\",\"code\":1,\"x\":\"\u{1}\"}"), None);
    // The first of two members with one key counts.
    assert_eq!(parse_exit_code("{\"type\":\"exit\",\"code\":3,\"code\":4}"), Some(3));
    // Literals and negative sizes.
    assert_eq!(parse_resize_command("{\"type\":\"resize\",\"x\":true,\"y\":null,\"rows\":-5,\"cols\":1e3}"), None);
    assert_eq!(parse_resize_command("{\"type\":\"resize\",\"x\":false,\"rows\":-5,\"cols\":7}"), Some((1, 7)));
}

#[test]
fn sizes_are_clamped() {
    assert_eq!(safe_size(0, 0), (1, 1));
    assert_eq!(safe_size(5000, 9999), (MAX_ROWS as u16, MAX_COLS as u16));
    assert_eq!(safe_size(40, 120), (40, 120));
}

#[test]
fn fields() {
    let j = chars("{\"a\": 12, \"b\": \"x y\", \"c\": \"q\\\"\"}");
    assert_eq!(field_str(&j, &chars("c")), Some(chars("q\"")));
    assert_eq!(field_u32(&j, &chars("a")), Some(12));
    assert_eq!(field_u32(&j, &chars("b")), None);
    assert_eq!(field_u32(&j, &chars("z")), None);
    assert_eq!(field_str(&j, &chars("b")), Some(chars("x y")));
    assert_eq!(field_str(&j, &chars("a")), None);
}

#[test]
fn overlong_sizes_are_clamped_not_defaulted() {
    let init = parse_session_init("{\"type\":\"resize\",\"rows\":5000000000,\"cols\":80}");
    assert_eq!((init.rows, init.cols), (1000, 80));
    let init = parse_session_init("{\"type\":\"resize\",\"rows\":0,\"cols\":99999999999999999999999}");
    assert_eq!((init.rows, init.cols), (1, 5000));
    assert_eq!(
        parse_resize_command("{\"type\":\"resize\",\"rows\":4294967296,\"cols\":4294967295}"),
        Some((1000, 5000))
    );
    // A code that does not fit is not a code.
    assert_eq!(parse_exit_code("{\"type\":\"exit\",\"code\":99999999999}"), None);
}

#[test]
fn sizes_fields() {
    let j = chars("{\"rows\": 12, \"cols\": 123456789012, \"n\": -3}");
    assert_eq!(field_size(&j, &chars("rows")), Some(12));
    assert_eq!(field_size(&j, &chars("n")), Some(0));
    assert_eq!(field_size(&j, &chars("cols")), Some(u32::MAX));
    assert_eq!(field_size(&j, &chars("none")), None);
    assert_eq!(field_size(&chars("{\"rows\": \"7\"}"), &chars("rows")), None);
}
