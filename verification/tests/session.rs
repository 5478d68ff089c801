use rush::session::{resize_update, shutdown_step, wants_reap, Shutdown, ShutdownAction};
use rush::session::{child_environment, DEFAULT_PATH};
use rush::session::{command_argv, COMMAND_SHELL};
use rush::json::SessionInit;
use rush::message::Msg;
use rush::session::{
    accepts_input, after_pause, classify_input, exit_code_from_status, final_report, flush_input, greeting,
    init_from_message, login_program, program_name, reader_step, session_outcome, translate_backspace,
    FlushStep, InitError, InputAction, Outcome, ReaderAction, Reconnect, EAGAIN, EINTR, EIO, MAX_PENDING_INPUT,
};

#[test]
fn wait_status_to_exit_code() {
    assert_eq!(exit_code_from_status(0), 0);
    assert_eq!(exit_code_from_status(3 << 8), 3);
    assert_eq!(exit_code_from_status(255 << 8), 255);
    assert_eq!(exit_code_from_status(9), 137);
    assert_eq!(exit_code_from_status(15), 143);
}

#[test]
fn outcomes() {
    assert_eq!(session_outcome(true, 4), Outcome::UserQuit);
    assert_eq!(session_outcome(false, 4), Outcome::RemoteExit(4));
    assert_eq!(session_outcome(false, -1), Outcome::TransportError);
}

#[test]
fn reconnect_backs_off_five_sessions_at_most() {
    let mut r = Reconnect::new();
    assert_eq!(r.after_session(Outcome::TransportError, true), Some(1));
    assert_eq!(r.after_session(Outcome::TransportError, true), Some(2));
    assert_eq!(r.after_session(Outcome::TransportError, true), Some(4));
    assert_eq!(r.after_session(Outcome::TransportError, true), Some(8));
    assert_eq!(r.after_session(Outcome::TransportError, true), None);
}

#[test]
fn no_retry_without_flag_or_after_clean_end() {
    let mut r = Reconnect::new();
    assert_eq!(r.after_session(Outcome::TransportError, false), None);
    assert_eq!(r.after_session(Outcome::RemoteExit(0), true), None);
    assert_eq!(r.after_session(Outcome::UserQuit, true), None);
    assert_eq!(r.attempt, 0);
}

#[test]
fn reports() {
    let r = final_report(Outcome::RemoteExit(7), false);
    assert_eq!(r.line, "Connection closed.");
    assert_eq!(r.exit_code, Some(7));
    assert_eq!(r.error_line, None);
    let r = final_report(Outcome::TransportError, false);
    assert_eq!(r.error_line, Some("Fail".to_string()));
    assert_eq!(r.exit_code, None);
    let r = final_report(Outcome::TransportError, true);
    assert_eq!(r.error_line, Some("Fail: connection lost".to_string()));
    let r = final_report(Outcome::UserQuit, true);
    assert_eq!(r.error_line, None);
}

#[test]
fn greetings() {
    assert_eq!(greeting(None, 24, 80), "{\"type\":\"resize\",\"rows\":24,\"cols\":80}");
    assert_eq!(
        greeting(Some("uname -a"), 24, 80),
        "{\"type\":\"exec\",\"cmd\":\"uname -a\",\"rows\":24,\"cols\":80}"
    );
}

#[test]
fn quit_byte_hangs_up() {
    assert_eq!(classify_input(b"ls\r"), InputAction::Send);
    assert_eq!(classify_input(&[b'a', 0x1d, b'b']), InputAction::Quit);
    assert_eq!(classify_input(&[]), InputAction::Send);
}

#[test]
fn backspace_becomes_del() {
    let mut d = vec![b'a', 0x08, b'b', 0x08];
    translate_backspace(&mut d);
    assert_eq!(d, vec![b'a', 0x7f, b'b', 0x7f]);
}

#[test]
fn pending_input_limit() {
    assert!(accepts_input(0, MAX_PENDING_INPUT));
    assert!(!accepts_input(1, MAX_PENDING_INPUT));
    assert!(accepts_input(MAX_PENDING_INPUT - 10, 10));
    assert!(!accepts_input(usize::MAX, 1));
}

#[test]
fn first_message_must_be_text() {
    match init_from_message(Msg::Text("{\"type\": \"resize\", \"rows\": 33, \"cols\": 111}".to_string())) {
        Ok(SessionInit { rows, cols, command }) => {
            assert_eq!((rows, cols), (33, 111));
            assert_eq!(command, None);
        },
        Err(_) => panic!("expected a session"),
    }
    assert!(matches!(init_from_message(Msg::Binary(vec![1])), Err(InitError::ResizeRequired)));
}

#[test]
fn reader_steps() {
    assert_eq!(reader_step(10, 0, false), ReaderAction::Forward(10));
    assert_eq!(reader_step(0, 0, false), ReaderAction::End);
    assert_eq!(reader_step(-1, EAGAIN, false), ReaderAction::Wait);
    assert_eq!(reader_step(-1, EINTR, true), ReaderAction::Stop);
    assert_eq!(reader_step(-1, EIO, false), ReaderAction::Pause);
    assert_eq!(reader_step(-1, 9, false), ReaderAction::End);
    assert_eq!(after_pause(true), ReaderAction::Stop);
    assert_eq!(after_pause(false), ReaderAction::Wait);
}

#[test]
fn flushing_pending_input() {
    let mut p = b"hello".to_vec();
    assert_eq!(flush_input(&mut p, 2, 0), FlushStep::Again);
    assert_eq!(p, b"llo".to_vec());
    assert_eq!(flush_input(&mut p, -1, EAGAIN), FlushStep::WaitWritable);
    assert_eq!(p, b"llo".to_vec());
    assert_eq!(flush_input(&mut p, 3, 0), FlushStep::Done);
    assert!(p.is_empty());
    let mut q = b"abc".to_vec();
    assert_eq!(flush_input(&mut q, -1, EIO), FlushStep::Done);
    assert!(q.is_empty());
}

#[test]
fn programs() {
    assert_eq!(program_name("/bin/bash"), "bash");
    assert_eq!(program_name("zsh"), "zsh");
    let p = login_program(Some("/usr/bin/fish".to_string()), true, None);
    assert_eq!((p.path.as_str(), p.arg0.as_str()), ("/usr/bin/fish", "fish"));
    let p = login_program(Some(String::new()), true, Some("/bin/zsh".to_string()));
    assert_eq!((p.path.as_str(), p.arg0.as_str()), ("/bin/login", "/bin/login"));
    let p = login_program(None, false, Some("/bin/zsh".to_string()));
    assert_eq!((p.path.as_str(), p.arg0.as_str()), ("/bin/zsh", "zsh"));
    let p = login_program(None, false, None);
    assert_eq!((p.path.as_str(), p.arg0.as_str()), ("/bin/sh", "sh"));
}

#[test]
fn session_environment() {
    assert_eq!(
        child_environment(Some("/usr/bin:/bin".to_string())),
        vec!["TERM=xterm-256color".to_string(), "PATH=/usr/bin:/bin".to_string()]
    );
    assert_eq!(child_environment(None)[1], format!("PATH={}", DEFAULT_PATH));
    assert_eq!(child_environment(Some(String::new()))[1], format!("PATH={}", DEFAULT_PATH));
}

#[test]
fn exec_command_line() {
    assert_eq!(command_argv("uname -a"), vec!["sh".to_string(), "-c".to_string(), "uname -a".to_string()]);
    assert_eq!(COMMAND_SHELL, "/bin/sh");
}

#[test]
fn resize_only_on_change() {
    assert_eq!(resize_update((24, 80), (24, 80)), None);
    assert_eq!(resize_update((24, 80), (30, 80)), Some("{\"type\":\"resize\",\"rows\":30,\"cols\":80}".to_string()));
}

#[test]
fn shutdown_of_a_child_that_exits() {
    let p = Shutdown::AwaitExit;
    assert!(wants_reap(p));
    assert_eq!(shutdown_step(p, None, false), (Shutdown::AwaitExit, ShutdownAction::Wait));
    let (p, a) = shutdown_step(p, Some(2 << 8), false);
    assert_eq!(a, ShutdownAction::SendExit(2));
    assert_eq!(p, Shutdown::AwaitTerm { reaped: true });
    assert!(!wants_reap(p));
    // The reaped child is never killed, however late it is.
    assert_eq!(shutdown_step(p, None, true), (Shutdown::Done, ShutdownAction::Finish));
}

#[test]
fn shutdown_of_a_child_that_lingers() {
    let (p, a) = shutdown_step(Shutdown::AwaitExit, None, true);
    assert_eq!((p, a), (Shutdown::AwaitTerm { reaped: false }, ShutdownAction::Terminate));
    assert!(wants_reap(p));
    assert_eq!(shutdown_step(p, None, false), (p, ShutdownAction::Wait));
    assert_eq!(shutdown_step(p, Some(15), false), (Shutdown::Done, ShutdownAction::Finish));
    let (p, a) = shutdown_step(p, None, true);
    assert_eq!((p, a), (Shutdown::Done, ShutdownAction::Kill));
    assert!(!wants_reap(p));
    assert_eq!(shutdown_step(p, None, true), (Shutdown::Done, ShutdownAction::Finish));
    // A child killed by a signal reports 128 plus the signal.
    assert_eq!(shutdown_step(Shutdown::AwaitExit, Some(9), false).1, ShutdownAction::SendExit(137));
}
