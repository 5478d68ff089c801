use rush::args::{choose_mode, parse_args, port_valid, select_token, version_line, Args, Mode, ParsedArgs, HELP};

fn run(argv: &[&str]) -> Args {
    let owned: Vec<String> = argv.iter().map(|s| s.to_string()).collect();
    match parse_args(&owned) {
        Ok(ParsedArgs::Run(a)) => a,
        _ => panic!("expected options"),
    }
}

fn error(argv: &[&str]) -> String {
    let owned: Vec<String> = argv.iter().map(|s| s.to_string()).collect();
    match parse_args(&owned) {
        Err(e) => e,
        _ => panic!("expected an error"),
    }
}

#[test]
fn defaults() {
    let a = run(&[]);
    assert!(!a.server && !a.install && !a.update && !a.uninstall && !a.verbose && !a.reconnect);
    assert_eq!(a.bind, "0.0.0.0");
    assert_eq!(a.port, 8080);
    assert_eq!(a.token, None);
    assert_eq!(a.command, None);
    assert_eq!(a.host, None);
}

#[test]
fn server_options() {
    let a = run(&["-s", "-b", "127.0.0.1", "-p", "9000", "-k", "tok"]);
    assert!(a.server);
    assert_eq!(a.bind, "127.0.0.1");
    assert_eq!(a.port, 9000);
    assert_eq!(a.token, Some("tok".to_string()));
    let a = run(&["-si", "--key", "x"]);
    assert!(a.install);
    assert_eq!(a.token, Some("x".to_string()));
}

#[test]
fn client_options() {
    let a = run(&["thehost", "-e", "uname -a", "-r", "-v"]);
    assert_eq!(a.host, Some("thehost".to_string()));
    assert_eq!(a.command, Some("uname -a".to_string()));
    assert!(a.reconnect && a.verbose);
    let a = run(&["--exec", "ls", "--reconnect", "--verbose", "h"]);
    assert_eq!(a.command, Some("ls".to_string()));
    assert_eq!(a.host, Some("h".to_string()));
}

#[test]
fn help_and_version_stop_reading() {
    let owned: Vec<String> = ["-h", "--bogus"].iter().map(|s| s.to_string()).collect();
    assert!(matches!(parse_args(&owned), Ok(ParsedArgs::Help)));
    let owned: Vec<String> = ["--version"].iter().map(|s| s.to_string()).collect();
    assert!(matches!(parse_args(&owned), Ok(ParsedArgs::Version)));
    assert_eq!(version_line(), "rush 1.0.0");
    assert!(HELP.starts_with("rush - remote terminal over websockets"));
}

#[test]
fn argument_errors() {
    assert_eq!(error(&["-p"]), "-p requires a port");
    assert_eq!(error(&["-p", "http"]), "invalid port: http");
    assert_eq!(error(&["-p", "65536"]), "invalid port: 65536");
    assert_eq!(error(&["-b"]), "-b requires an address");
    assert_eq!(error(&["-k"]), "-k requires a token");
    assert_eq!(error(&["-e"]), "-e requires a command");
    assert_eq!(error(&["-x"]), "unknown option: -x");
    assert_eq!(error(&["a", "b"]), "unexpected argument: b");
}

#[test]
fn lone_dash_is_a_host() {
    assert_eq!(run(&["-"]).host, Some("-".to_string()));
}

#[test]
fn token_choice() {
    assert_eq!(select_token(Some("a".to_string()), Some("b".to_string())), Some("a".to_string()));
    assert_eq!(select_token(Some(String::new()), Some("b".to_string())), Some("b".to_string()));
    assert_eq!(select_token(None, Some(String::new())), None);
    assert_eq!(select_token(None, None), None);
}

#[test]
fn modes() {
    assert!(matches!(choose_mode(&run(&["--update", "-s"])), Mode::Manage));
    assert!(matches!(choose_mode(&run(&["--uninstall"])), Mode::Manage));
    assert!(matches!(choose_mode(&run(&["-si", "host"])), Mode::Server));
    match choose_mode(&run(&["host"])) {
        Mode::Client(h) => assert_eq!(h, "host"),
        _ => panic!("expected the client"),
    }
    assert!(matches!(choose_mode(&run(&[])), Mode::Usage));
}

#[test]
fn ports() {
    assert!(!port_valid(0));
    assert!(port_valid(1));
    assert!(port_valid(65535));
}
