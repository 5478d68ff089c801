use rush::uri::{parse_uri, split_host_port, target_uri};

fn parts(raw: &str) -> (String, u16, String) {
    match parse_uri(raw) {
        Ok(u) => (u.host, u.port, u.path),
        Err(e) => panic!("unexpected error: {}", e),
    }
}

fn error(raw: &str) -> String {
    match parse_uri(raw) {
        Ok(_) => panic!("expected an error"),
        Err(e) => e,
    }
}

#[test]
fn plain_urls() {
    assert_eq!(parts("ws://example.com:8080/"), ("example.com".to_string(), 8080, "/".to_string()));
    assert_eq!(parts("ws://example.com"), ("example.com".to_string(), 80, "/".to_string()));
    assert_eq!(parts("ws://10.0.0.1:9/a/b?c"), ("10.0.0.1".to_string(), 9, "/a/b?c".to_string()));
    assert_eq!(parts("ws://[::1]:8080/x"), ("::1".to_string(), 8080, "/x".to_string()));
    assert_eq!(parts("ws://[fe80::1]"), ("fe80::1".to_string(), 80, "/".to_string()));
}

#[test]
fn url_errors() {
    assert_eq!(
        error("wss://example.com"),
        "wss:// is not supported by this build; put the server behind a TLS proxy and use ws://"
    );
    assert_eq!(error("http://example.com"), "URL must start with ws://");
    assert_eq!(error("ws:///path"), "missing host");
    assert_eq!(error("ws://[::1"), "unterminated IPv6 literal");
    assert_eq!(error("ws://a:b:80"), "invalid host");
    assert_eq!(error("ws://host:99999"), "invalid port");
    assert_eq!(error("ws://host:"), "invalid port");
    assert_eq!(error("ws://[::1]:x"), "invalid port");
}

#[test]
fn host_arguments() {
    assert_eq!(split_host_port("10.1.2.3", 8080), ("10.1.2.3".to_string(), 8080));
    assert_eq!(split_host_port("thehost:9000", 8080), ("thehost".to_string(), 9000));
    assert_eq!(split_host_port("example.com", 8080), ("example.com".to_string(), 80));
    assert_eq!(split_host_port("[::1]:2222", 8080), ("[::1]".to_string(), 2222));
    assert_eq!(split_host_port("[::1]", 8080), ("[::1]".to_string(), 8080));
    assert_eq!(split_host_port("ws://x:1/", 8080), ("ws://x:1/".to_string(), 8080));
    // A port that does not fit leaves the argument whole.
    assert_eq!(split_host_port("host:70000", 8080), ("host:70000".to_string(), 80));
    assert_eq!(split_host_port("1.2.3.4:+5", 8080), ("1.2.3.4:+5".to_string(), 8080));
}

#[test]
fn targets_read_back() {
    assert_eq!(target_uri("example.com", 80), "ws://example.com:80");
    assert_eq!(target_uri("ws://given/", 1), "ws://given/");
    for (host, port) in [("example.com", 80u16), ("10.0.0.7", 8080), ("h", 65535), ("a-b.c", 1)] {
        assert_eq!(parts(&target_uri(host, port)), (host.to_string(), port, "/".to_string()));
    }
}

#[test]
fn urls_with_paths_read_back() {
    for (host, port, path) in [("h", 1u16, "/a/b"), ("10.0.0.7", 8080, "/"), ("x.y", 65535, "/p?q=1")] {
        assert_eq!(parts(&format!("ws://{}:{}{}", host, port, path)), (host.to_string(), port, path.to_string()));
    }
}
