//! The decisions of a session on either side: what the client makes of its
//! input and of how a session ended, when it tries again, and what the server
//! makes of the pty's results and of the child's wait status.
use vstd::prelude::*;
use crate::json::{exec_message, exec_text, init_matches, parse_session_init, resize_message, resize_text, SessionInit};
use crate::message::Msg;
use crate::manage::last_segment;
use crate::text::{chars_of, push_str, rfind_char_exec, slice_of, string_of};

verus! {

/// Byte that the client keeps for itself: Ctrl+], hang up.
pub const QUIT_BYTE: u8 = 0x1D;
/// Sessions the client tries at most.
pub const RECONNECT_ATTEMPTS: u32 = 5;
/// Undelivered input the server buffers for the pty at most.
pub const MAX_PENDING_INPUT: usize = 1048576;
/// Chunks of output that wait for the websocket at most.
pub const MAX_QUEUE: usize = 64;
/// Seconds between pings.
pub const PING_INTERVAL: u64 = 20;
/// Seconds that the upgrade and the first message may take.
pub const HANDSHAKE_TIMEOUT_SECS: u64 = 10;
/// Bytes read from the pty at once.
pub const READ_CHUNK: usize = 16384;
/// `SIGKILL`.
pub const SIGKILL: i32 = 9;
/// `SIGTERM`.
pub const SIGTERM: i32 = 15;
/// `SIGWINCH`.
pub const SIGWINCH: i32 = 28;
/// `EINTR`.
pub const EINTR: i32 = 4;
/// `EIO`.
pub const EIO: i32 = 5;
/// `EAGAIN`.
pub const EAGAIN: i32 = 11;

/// The exit code that a wait status stands for: the low 8 bits of the exit
/// value for a normal exit, 128 plus the signal for a death by signal.
pub open spec fn exit_code_spec(status: i32) -> i32 {
    if status & 0x7f == 0 {
        (status >> 8i32) & 0xff
    } else {
        (128 + (status & 0x7f)) as i32
    }
}

/// The exit code that a wait status stands for.
pub fn exit_code_from_status(status: i32) -> (code: i32)
    ensures
        code == exit_code_spec(status),
        0 <= code <= 255,
{
    let sig = status & 0x7f;
    assert(0 <= sig <= 127) by (bit_vector)
        requires
            sig == status & 0x7f,
    ;
    if sig == 0 {
        let code = (status >> 8i32) & 0xff;
        assert(0 <= code <= 255) by (bit_vector)
            requires
                code == (status >> 8i32) & 0xff,
        ;
        code
    } else {
        128 + sig
    }
}

/// How a client session ended.
#[derive(PartialEq, Eq, Structural, Clone, Copy, Debug)]
pub enum Outcome {
    /// The user hung up (or the target was unusable).
    UserQuit,
    /// The server reported the remote command's exit code.
    RemoteExit(i32),
    /// The connection failed or dropped.
    TransportError,
}

/// How a session ended, from whether the user hung up and the last exit
/// code that the server reported (negative for none).
pub fn session_outcome(user_quit: bool, remote_code: i32) -> (o: Outcome)
    ensures
        o == (if user_quit {
            Outcome::UserQuit
        } else if remote_code >= 0 {
            Outcome::RemoteExit(remote_code)
        } else {
            Outcome::TransportError
        }),
{
    if user_quit {
        Outcome::UserQuit
    } else if remote_code >= 0 {
        Outcome::RemoteExit(remote_code)
    } else {
        Outcome::TransportError
    }
}

/// The retry policy of the client: how many sessions were tried, and how long
/// to wait before the next one.
pub struct Reconnect {
    pub attempt: u32,
    pub backoff: u64,
}

/// The wait before retry number `k` (counted from 1): one second, doubled
/// each time.
pub open spec fn backoff_secs(k: nat) -> nat
    decreases k,
{
    if k <= 1 {
        1
    } else {
        2 * backoff_secs((k - 1) as nat)
    }
}

impl Reconnect {
    /// No session tried yet.
    pub fn new() -> (r: Reconnect)
        ensures
            r.attempt == 0,
            r.backoff == 1,
    {
        Reconnect { attempt: 0, backoff: 1 }
    }

    /// After a session: `Some(seconds)` to wait and try again, `None` to stop.
    /// Only a transport error is retried, only with `reconnect`, and never
    /// after the last attempt.
    pub fn after_session(&mut self, outcome: Outcome, reconnect: bool) -> (r: Option<u64>)
        requires
            old(self).attempt < RECONNECT_ATTEMPTS,
            old(self).backoff == backoff_secs((old(self).attempt + 1) as nat),
        ensures
            r is Some <==> (outcome == Outcome::TransportError && reconnect && old(self).attempt + 1
                < RECONNECT_ATTEMPTS),
            r matches Some(s) ==> {
                &&& s == old(self).backoff
                &&& final(self).attempt == old(self).attempt + 1
                &&& final(self).backoff == backoff_secs((final(self).attempt + 1) as nat)
            },
            r is None ==> *final(self) == *old(self),
    {
        match outcome {
            Outcome::TransportError => {
                if !reconnect || self.attempt + 1 == RECONNECT_ATTEMPTS {
                    return None;
                }
                let wait = self.backoff;
                assert(self.backoff <= 8) by {
                    reveal_with_fuel(backoff_secs, 5);
                }
                self.attempt = self.attempt + 1;
                self.backoff = self.backoff * 2;
                Some(wait)
            },
            _ => None,
        }
    }
}

/// What the client reports when it is done.
pub struct Report {
    /// A line for standard error, if any.
    pub error_line: Option<String>,
    /// The line for standard output.
    pub line: String,
    /// The exit code of the client, when it is the remote command's.
    pub exit_code: Option<i32>,
}

/// What the client reports for how its last session ended.
pub fn final_report(outcome: Outcome, verbose: bool) -> (r: Report)
    ensures
        r.line@ == "Connection closed."@,
        r.exit_code == (match outcome {
            Outcome::RemoteExit(c) => Some(c),
            _ => None,
        }),
        match r.error_line {
            Some(e) => outcome == Outcome::TransportError && e@ == (if verbose {
                "Fail: connection lost"@
            } else {
                "Fail"@
            }),
            None => outcome != Outcome::TransportError,
        },
{
    let line = "Connection closed.".to_string();
    match outcome {
        Outcome::RemoteExit(code) => Report { error_line: None, line, exit_code: Some(code) },
        Outcome::UserQuit => Report { error_line: None, line, exit_code: None },
        Outcome::TransportError => {
            let e = if verbose {
                "Fail: connection lost".to_string()
            } else {
                "Fail".to_string()
            };
            Report { error_line: Some(e), line, exit_code: None }
        },
    }
}

/// The first message of a client: an exec message for a command, a resize
/// message otherwise.
pub fn greeting(command: Option<&str>, rows: u16, cols: u16) -> (s: String)
    ensures
        s@ == (match command {
            Some(c) => exec_text(c@, rows as nat, cols as nat),
            None => resize_text(rows as nat, cols as nat),
        }),
{
    match command {
        Some(c) => exec_message(c, rows, cols),
        None => resize_message(rows, cols),
    }
}

/// What the client sends when it finds the terminal at `current` after it
/// was at `previous`: a resize message for a changed size, nothing otherwise.
pub fn resize_update(previous: (u16, u16), current: (u16, u16)) -> (r: Option<String>)
    ensures
        r is None <==> previous == current,
        r matches Some(m) ==> m@ == resize_text(current.0 as nat, current.1 as nat),
{
    if previous.0 == current.0 && previous.1 == current.1 {
        None
    } else {
        Some(resize_message(current.0, current.1))
    }
}

/// What the client does with a chunk of its terminal input.
#[derive(PartialEq, Eq, Structural, Clone, Copy, Debug)]
pub enum InputAction {
    /// The chunk holds Ctrl+]: hang up, sending nothing of it.
    Quit,
    /// Send the chunk as a binary message.
    Send,
}

/// What the client does with a chunk of its terminal input.
pub fn classify_input(data: &[u8]) -> (a: InputAction)
    ensures
        a == (if data@.contains(QUIT_BYTE) {
            InputAction::Quit
        } else {
            InputAction::Send
        }),
{
    let mut i: usize = 0;
    while i < data.len()
        invariant
            i <= data@.len(),
            forall|j: int| 0 <= j < i ==> data@[j] != QUIT_BYTE,
        decreases data@.len() - i,
    {
        if data[i] == QUIT_BYTE {
            assert(data@.contains(QUIT_BYTE));
            return InputAction::Quit;
        }
        i += 1;
    }
    InputAction::Send
}

/// Backspace (`0x08`) as DEL (`0x7F`), which remote shells expect; other
/// bytes as they are.
pub open spec fn backspace_as_del(b: u8) -> u8 {
    if b == 0x08 {
        0x7F
    } else {
        b
    }
}

/// Rewrites the backspaces of a Windows console as DEL.
pub fn translate_backspace(data: &mut Vec<u8>)
    ensures
        final(data)@ == old(data)@.map_values(|b: u8| backspace_as_del(b)),
{
    let n = data.len();
    let mut i: usize = 0;
    while i < n
        invariant
            n == data@.len() == old(data)@.len(),
            i <= n,
            forall|j: int| 0 <= j < i ==> data@[j] == backspace_as_del(old(data)@[j]),
            forall|j: int| i <= j < n ==> data@[j] == old(data)@[j],
        decreases n - i,
    {
        if data[i] == 0x08 {
            data.set(i, 0x7F);
        }
        i += 1;
    }
    assert(data@ =~= old(data)@.map_values(|b: u8| backspace_as_del(b)));
}

/// Whether the server takes in more input for the pty: the undelivered input
/// may not grow past `MAX_PENDING_INPUT`.
pub fn accepts_input(pending: usize, incoming: usize) -> (ok: bool)
    ensures
        ok == (pending + incoming <= MAX_PENDING_INPUT),
{
    pending <= MAX_PENDING_INPUT && incoming <= MAX_PENDING_INPUT - pending
}

/// Why a session's first message is refused.
#[derive(PartialEq, Eq, Structural, Clone, Copy, Debug)]
pub enum InitError {
    /// The first message was binary.
    ResizeRequired,
}

/// The session that a first message asks for: it must be a text message.
pub fn init_from_message(msg: Msg) -> (r: Result<SessionInit, InitError>)
    ensures
        match (msg, r) {
            (Msg::Text(t), Ok(init)) => init_matches(init, t@),
            (Msg::Binary(_), Err(e)) => e == InitError::ResizeRequired,
            _ => false,
        },
{
    match msg {
        Msg::Text(text) => Ok(parse_session_init(text.as_str())),
        Msg::Binary(_) => Err(InitError::ResizeRequired),
    }
}

/// What the pty reader does after a read of the pty.
#[derive(PartialEq, Eq, Structural, Clone, Copy, Debug)]
pub enum ReaderAction {
    /// Queue this many bytes of output.
    Forward(usize),
    /// The output has ended: queue its end mark and stop.
    End,
    /// The session is stopping: stop.
    Stop,
    /// Nothing to read yet: wait until the pty is readable.
    Wait,
    /// The pty reports an I/O error (no reader side yet): pause briefly, then
    /// ask `after_pause`.
    Pause,
}

/// What the pty reader does with the result `n` of a read, the error number
/// of a failed read, and whether the session is stopping.
pub fn reader_step(n: isize, err: i32, stop: bool) -> (a: ReaderAction)
    ensures
        a == (if n > 0 {
            ReaderAction::Forward(n as usize)
        } else if n == 0 {
            ReaderAction::End
        } else if err == EAGAIN || err == EINTR {
            if stop {
                ReaderAction::Stop
            } else {
                ReaderAction::Wait
            }
        } else if err == EIO {
            ReaderAction::Pause
        } else {
            ReaderAction::End
        }),
{
    if n > 0 {
        ReaderAction::Forward(n as usize)
    } else if n == 0 {
        ReaderAction::End
    } else if err == EAGAIN || err == EINTR {
        if stop {
            ReaderAction::Stop
        } else {
            ReaderAction::Wait
        }
    } else if err == EIO {
        ReaderAction::Pause
    } else {
        ReaderAction::End
    }
}

/// What the pty reader does after pausing on an I/O error.
pub fn after_pause(stop: bool) -> (a: ReaderAction)
    ensures
        a == (if stop {
            ReaderAction::Stop
        } else {
            ReaderAction::Wait
        }),
{
    if stop {
        ReaderAction::Stop
    } else {
        ReaderAction::Wait
    }
}

/// What writing pending input to the pty does next.
#[derive(PartialEq, Eq, Structural, Clone, Copy, Debug)]
pub enum FlushStep {
    /// Write again.
    Again,
    /// Wait until the pty is writable, then write again.
    WaitWritable,
    /// Done: nothing is left pending.
    Done,
}

/// Takes in the result of one write of `pending` to the pty: written bytes
/// leave the front of `pending`; a write that would block waits; any other
/// failure drops what is pending.
pub fn flush_input(pending: &mut Vec<u8>, written: isize, err: i32) -> (s: FlushStep)
    requires
        written <= old(pending)@.len(),
    ensures
        written > 0 ==> final(pending)@ == old(pending)@.skip(written as int),
        written < 0 && (err == EAGAIN || err == EINTR) ==> final(pending)@ == old(pending)@,
        written < 0 && !(err == EAGAIN || err == EINTR) ==> final(pending)@.len() == 0,
        written == 0 ==> final(pending)@ == old(pending)@,
        s == (if final(pending)@.len() == 0 {
            FlushStep::Done
        } else if written < 0 && (err == EAGAIN || err == EINTR) {
            FlushStep::WaitWritable
        } else {
            FlushStep::Again
        }),
{
    if written > 0 {
        let n = written as usize;
        let mut rest: Vec<u8> = Vec::new();
        let mut i: usize = n;
        while i < pending.len()
            invariant
                n <= i <= pending@.len(),
                pending@ == old(pending)@,
                rest@ == old(pending)@.subrange(n as int, i as int),
            decreases pending@.len() - i,
        {
            rest.push(pending[i]);
            i += 1;
        }
        *pending = rest;
        assert(pending@ =~= old(pending)@.skip(written as int));
    } else if written < 0 {
        if err == EAGAIN || err == EINTR {
            if pending.len() == 0 {
                return FlushStep::Done;
            }
            return FlushStep::WaitWritable;
        }
        pending.clear();
    }
    if pending.len() == 0 {
        FlushStep::Done
    } else {
        FlushStep::Again
    }
}


/// The program that a session runs, and the name it is started under.
pub struct Program {
    pub path: String,
    pub arg0: String,
}

/// The name of a program: its path after the last `/`.
pub fn program_name(path: &str) -> (r: String)
    ensures
        r@ == last_segment(path@),
{
    let p = chars_of(path);
    match rfind_char_exec(&p, '/') {
        Some(k) => {
            let pl = p.len();
            let rest = slice_of(&p, k + 1, pl);
            assert(rest@ =~= path@.skip(k + 1 as int));
            string_of(&rest)
        },
        None => string_of(&p),
    }
}

/// The login program of a session: `RUSH_SHELL` when it is set and not
/// empty, else `/bin/login` when it can be run, else `SHELL` (or `/bin/sh`
/// when that is unset).
pub fn login_program(rush_shell: Option<String>, login_runnable: bool, shell: Option<String>) -> (p: Program)
    ensures
        match rush_shell {
            Some(c) if c@.len() > 0 => p.path@ == c@ && p.arg0@ == last_segment(c@),
            _ => if login_runnable {
                p.path@ == "/bin/login"@ && p.arg0@ == "/bin/login"@
            } else {
                match shell {
                    Some(s) => p.path@ == s@ && p.arg0@ == last_segment(s@),
                    None => p.path@ == "/bin/sh"@ && p.arg0@ == last_segment("/bin/sh"@),
                }
            },
        },
{
    match rush_shell {
        Some(c) if !c.as_str().is_empty() => {
            let arg0 = program_name(c.as_str());
            return Program { path: c, arg0 };
        },
        _ => {},
    }
    if login_runnable {
        return Program { path: string_of(&chars_of("/bin/login")), arg0: string_of(&chars_of("/bin/login")) };
    }
    let path = match shell {
        Some(s) => s,
        None => string_of(&chars_of("/bin/sh")),
    };
    let arg0 = program_name(path.as_str());
    Program { path, arg0 }
}

/// The terminal type that a session runs with.
pub const TERM_VALUE: &'static str = "xterm-256color";

/// The search path of a session when the server has none.
pub const DEFAULT_PATH: &'static str = "/usr/local/sbin:/usr/local/bin:/usr/sbin:/usr/bin:/sbin:/bin";

/// The views of a list of strings.
pub open spec fn string_list(v: Seq<String>) -> Seq<Seq<char>> {
    v.map_values(|s: String| s@)
}

/// The environment of a session, as `NAME=VALUE` entries: the terminal type
/// and the search path (the server's own, unless it is unset or empty),
/// nothing else, so that no secret of the server reaches the shell.
pub fn child_environment(path: Option<String>) -> (env: Vec<String>)
    ensures
        string_list(env@) == seq![
            "TERM="@ + TERM_VALUE@,
            "PATH="@ + match path {
                Some(p) if p@.len() > 0 => p@,
                _ => DEFAULT_PATH@,
            },
        ],
{
    let mut term: Vec<char> = Vec::new();
    push_str(&mut term, "TERM=");
    push_str(&mut term, TERM_VALUE);
    let mut search: Vec<char> = Vec::new();
    push_str(&mut search, "PATH=");
    match &path {
        Some(p) if !p.as_str().is_empty() => push_str(&mut search, p.as_str()),
        _ => push_str(&mut search, DEFAULT_PATH),
    }
    let env = vec![string_of(&term), string_of(&search)];
    assert(string_list(env@) =~= seq![term@, search@]);
    env
}

/// The shell that runs the command of an exec session.
pub const COMMAND_SHELL: &'static str = "/bin/sh";

/// The arguments that run the command of an exec session: `sh -c CMD`.
pub fn command_argv(cmd: &str) -> (argv: Vec<String>)
    ensures
        string_list(argv@) == seq!["sh"@, "-c"@, cmd@],
{
    let argv = vec![string_of(&chars_of("sh")), string_of(&chars_of("-c")), string_of(&chars_of(cmd))];
    assert(string_list(argv@) =~= seq!["sh"@, "-c"@, cmd@]);
    argv
}

/// How long the server waits for the child to exit on its own once the
/// session's output has ended, in milliseconds.
pub const EXIT_WAIT_MS: u64 = 1000;

/// How long the server waits after SIGTERM before it sends SIGKILL, in seconds.
pub const TERM_WAIT_SECS: u64 = 3;

/// Where the end of a server session stands.
#[derive(PartialEq, Eq, Structural, Clone, Copy, Debug)]
pub enum Shutdown {
    /// Output has ended; waiting (up to `EXIT_WAIT_MS`) for the child's status.
    AwaitExit,
    /// SIGTERM has gone to the process group; waiting (up to
    /// `TERM_WAIT_SECS`) unless the child was already reaped.
    AwaitTerm { reaped: bool },
    /// Nothing is left to do.
    Done,
}

/// What the server does next at the end of a session.
#[derive(PartialEq, Eq, Structural, Clone, Copy, Debug)]
pub enum ShutdownAction {
    /// Wait a little, then look again.
    Wait,
    /// Send the exit message with this code, then terminate as for `Terminate`.
    SendExit(i32),
    /// Close the websocket and the pty, send SIGTERM to the process group and
    /// start the wait for it.
    Terminate,
    /// Send SIGKILL to the process group and reap the child.
    Kill,
    /// The session is over.
    Finish,
}

/// The end of a session, one step at a time, from the phase, the status of the
/// child when a non-blocking reap just returned it, and whether the phase's
/// deadline has passed. The exit message goes out only for a child reaped in
/// the first wait; SIGKILL only for a child not reaped by the second.
pub open spec fn shutdown_spec(phase: Shutdown, reaped: Option<i32>, deadline_passed: bool) -> (Shutdown, ShutdownAction) {
    match phase {
        Shutdown::AwaitExit => match reaped {
            Some(status) => (Shutdown::AwaitTerm { reaped: true }, ShutdownAction::SendExit(exit_code_spec(status))),
            None => if deadline_passed {
                (Shutdown::AwaitTerm { reaped: false }, ShutdownAction::Terminate)
            } else {
                (Shutdown::AwaitExit, ShutdownAction::Wait)
            },
        },
        Shutdown::AwaitTerm { reaped: true } => (Shutdown::Done, ShutdownAction::Finish),
        Shutdown::AwaitTerm { reaped: false } => match reaped {
            Some(_) => (Shutdown::Done, ShutdownAction::Finish),
            None => if deadline_passed {
                (Shutdown::Done, ShutdownAction::Kill)
            } else {
                (Shutdown::AwaitTerm { reaped: false }, ShutdownAction::Wait)
            },
        },
        Shutdown::Done => (Shutdown::Done, ShutdownAction::Finish),
    }
}

/// Whether the phase asks for the child's status.
pub open spec fn wants_reap_spec(phase: Shutdown) -> bool {
    phase == Shutdown::AwaitExit || phase == (Shutdown::AwaitTerm { reaped: false })
}

/// Whether the server should try a non-blocking reap of the child in this phase.
pub fn wants_reap(phase: Shutdown) -> (r: bool)
    ensures
        r == wants_reap_spec(phase),
{
    match phase {
        Shutdown::AwaitExit => true,
        Shutdown::AwaitTerm { reaped } => !reaped,
        Shutdown::Done => false,
    }
}

/// One step of the end of a session.
pub fn shutdown_step(phase: Shutdown, reaped: Option<i32>, deadline_passed: bool) -> (r: (Shutdown, ShutdownAction))
    ensures
        r == shutdown_spec(phase, reaped, deadline_passed),
{
    match phase {
        Shutdown::AwaitExit => match reaped {
            Some(status) => (Shutdown::AwaitTerm { reaped: true }, ShutdownAction::SendExit(exit_code_from_status(status))),
            None => if deadline_passed {
                (Shutdown::AwaitTerm { reaped: false }, ShutdownAction::Terminate)
            } else {
                (Shutdown::AwaitExit, ShutdownAction::Wait)
            },
        },
        Shutdown::AwaitTerm { reaped: true } => (Shutdown::Done, ShutdownAction::Finish),
        Shutdown::AwaitTerm { reaped: false } => match reaped {
            Some(_) => (Shutdown::Done, ShutdownAction::Finish),
            None => if deadline_passed {
                (Shutdown::Done, ShutdownAction::Kill)
            } else {
                (Shutdown::AwaitTerm { reaped: false }, ShutdownAction::Wait)
            },
        },
        Shutdown::Done => (Shutdown::Done, ShutdownAction::Finish),
    }
}

/// SIGKILL goes out only for a child that SIGTERM has not ended: the child was
/// not reaped in the first wait, still not in this look, and the wait after
/// SIGTERM is over. A child reaped in time is never killed.
pub proof fn lemma_kill_only_unreaped(phase: Shutdown, reaped: Option<i32>, deadline_passed: bool)
    ensures
        shutdown_spec(phase, reaped, deadline_passed).1 == ShutdownAction::Kill ==> {
            &&& phase == (Shutdown::AwaitTerm { reaped: false })
            &&& reaped is None
            &&& deadline_passed
        },
        shutdown_spec(Shutdown::AwaitTerm { reaped: true }, reaped, deadline_passed).1 == ShutdownAction::Finish,
{
}

/// The exit message goes out exactly when the child is reaped in the first
/// wait, with the code its status stands for, and SIGTERM follows it.
pub proof fn lemma_exit_message_when_reaped(reaped: Option<i32>, deadline_passed: bool)
    ensures
        (shutdown_spec(Shutdown::AwaitExit, reaped, deadline_passed).1 is SendExit) <==> reaped is Some,
        reaped matches Some(st) ==> shutdown_spec(Shutdown::AwaitExit, reaped, deadline_passed) == (
        Shutdown::AwaitTerm { reaped: true },
        ShutdownAction::SendExit(exit_code_spec(st)),
        ),
{
}

} // verus!
