//! The command line: its options, and which mode they select.
use vstd::prelude::*;
use crate::http::VERSION;
use crate::text::{
    chars_of, decimal, is_digit, lemma_decimal, parse_unsigned, parse_unsigned_exec, push_str, same_chars, string_of,
};

verus! {

broadcast use vstd::string::group_string_axioms;

/// The usage text.
pub const HELP: &'static str = "rush - remote terminal over websockets

usage:
  rush -s [-b ADDR] [-p PORT] [-k KEY]     run the server (Linux only)
  rush -si [-p PORT] [-k KEY]              install and enable a server service
  rush HOST [-p PORT] [-k KEY] [-v]        connect to a server
  rush HOST -e CMD                         run CMD on the server and exit
  rush --update                            update the installed binary (Linux)
  rush --uninstall                         remove the binary and service (Linux)

options:
  -s, --server       run the server
  -si                install and enable a systemd or OpenRC service
  -b, --bind ADDR    bind address (default: 0.0.0.0)
  -p PORT            server port (default: 8080)
  -k, --key KEY      shared token; or set RUSH_KEY
  -e, --exec CMD     run CMD instead of a login shell, exit when done
  -r, --reconnect    retry a dropped connection (5 attempts with backoff)
  -v, --verbose      show failure details
  -h, --help         show this help

HOST is an ip, a domain, or host:port. disconnect with Ctrl+]";

/// The options of the command line.
pub struct Args {
    pub server: bool,
    pub install: bool,
    pub update: bool,
    pub uninstall: bool,
    pub bind: String,
    pub port: u16,
    pub verbose: bool,
    pub reconnect: bool,
    pub token: Option<String>,
    /// The command given with `-e` (`exec` is a word of Verus).
    pub command: Option<String>,
    pub host: Option<String>,
}

/// The options as values.
pub struct ArgsView {
    pub server: bool,
    pub install: bool,
    pub update: bool,
    pub uninstall: bool,
    pub bind: Seq<char>,
    pub port: u16,
    pub verbose: bool,
    pub reconnect: bool,
    pub token: Option<Seq<char>>,
    pub command: Option<Seq<char>>,
    pub host: Option<Seq<char>>,
}

/// The view of an optional string.
pub open spec fn opt_view(o: Option<String>) -> Option<Seq<char>> {
    match o {
        Some(s) => Some(s@),
        None => None,
    }
}

impl Args {
    pub open spec fn view(&self) -> ArgsView {
        ArgsView {
            server: self.server,
            install: self.install,
            update: self.update,
            uninstall: self.uninstall,
            bind: self.bind@,
            port: self.port,
            verbose: self.verbose,
            reconnect: self.reconnect,
            token: opt_view(self.token),
            command: opt_view(self.command),
            host: opt_view(self.host),
        }
    }
}

/// The options before any argument.
pub open spec fn default_args() -> ArgsView {
    ArgsView {
        server: false,
        install: false,
        update: false,
        uninstall: false,
        bind: "0.0.0.0"@,
        port: 8080,
        verbose: false,
        reconnect: false,
        token: None,
        command: None,
        host: None,
    }
}

/// What the command line asks for.
pub enum ParsedArgs {
    Run(Args),
    /// `-h` or `--help`: show the usage and exit.
    Help,
    /// `--version`: show the version and exit.
    Version,
}

/// What the command line asks for, as a value.
pub enum ArgsResult {
    Run(ArgsView),
    Help,
    Version,
    Error(Seq<char>),
}

/// Reads the arguments from position `i` on, with options `a` so far. Help and
/// version end the reading at once; an option that needs a value takes the
/// next argument; a second host or an unknown option is an error.
pub open spec fn parse_args_from(args: Seq<Seq<char>>, i: int, a: ArgsView) -> ArgsResult
    decreases args.len() - i,
{
    if i < 0 || i >= args.len() {
        ArgsResult::Run(a)
    } else {
        let arg = args[i];
        if arg == "-s"@ || arg == "--server"@ {
            parse_args_from(args, i + 1, ArgsView { server: true, ..a })
        } else if arg == "-si"@ {
            parse_args_from(args, i + 1, ArgsView { install: true, ..a })
        } else if arg == "--update"@ {
            parse_args_from(args, i + 1, ArgsView { update: true, ..a })
        } else if arg == "--uninstall"@ {
            parse_args_from(args, i + 1, ArgsView { uninstall: true, ..a })
        } else if arg == "-v"@ || arg == "--verbose"@ {
            parse_args_from(args, i + 1, ArgsView { verbose: true, ..a })
        } else if arg == "-r"@ || arg == "--reconnect"@ {
            parse_args_from(args, i + 1, ArgsView { reconnect: true, ..a })
        } else if arg == "-h"@ || arg == "--help"@ {
            ArgsResult::Help
        } else if arg == "--version"@ {
            ArgsResult::Version
        } else if arg == "-p"@ {
            if i + 1 >= args.len() {
                ArgsResult::Error("-p requires a port"@)
            } else {
                match parse_unsigned(args[i + 1], 65535) {
                    Some(p) => parse_args_from(args, i + 2, ArgsView { port: p as u16, ..a }),
                    None => ArgsResult::Error("invalid port: "@ + args[i + 1]),
                }
            }
        } else if arg == "-b"@ || arg == "--bind"@ {
            if i + 1 >= args.len() {
                ArgsResult::Error("-b requires an address"@)
            } else {
                parse_args_from(args, i + 2, ArgsView { bind: args[i + 1], ..a })
            }
        } else if arg == "-k"@ || arg == "--key"@ {
            if i + 1 >= args.len() {
                ArgsResult::Error("-k requires a token"@)
            } else {
                parse_args_from(args, i + 2, ArgsView { token: Some(args[i + 1]), ..a })
            }
        } else if arg == "-e"@ || arg == "--exec"@ {
            if i + 1 >= args.len() {
                ArgsResult::Error("-e requires a command"@)
            } else {
                parse_args_from(args, i + 2, ArgsView { command: Some(args[i + 1]), ..a })
            }
        } else if arg.len() > 1 && arg[0] == '-' {
            ArgsResult::Error("unknown option: "@ + arg)
        } else if a.host is Some {
            ArgsResult::Error("unexpected argument: "@ + arg)
        } else {
            parse_args_from(args, i + 1, ArgsView { host: Some(arg), ..a })
        }
    }
}

/// The views of a list of strings.
pub open spec fn string_views(v: Seq<String>) -> Seq<Seq<char>> {
    v.map_values(|s: String| s@)
}

fn is(arg: &[char], word: &str) -> (r: bool)
    ensures
        r == (arg@ == word@),
{
    same_chars(arg, &chars_of(word))
}

fn message_with(prefix: &str, rest: &[char]) -> (s: String)
    ensures
        s@ == prefix@ + rest@,
{
    let mut out: Vec<char> = chars_of(prefix);
    crate::text::push_all(&mut out, rest);
    string_of(&out)
}

/// Reads the command line (without the program name).
pub fn parse_args(args: &[String]) -> (r: Result<ParsedArgs, String>)
    ensures
        match (r, parse_args_from(string_views(args@), 0, default_args())) {
            (Ok(ParsedArgs::Run(a)), ArgsResult::Run(v)) => a.view() == v,
            (Ok(ParsedArgs::Help), ArgsResult::Help) => true,
            (Ok(ParsedArgs::Version), ArgsResult::Version) => true,
            (Err(e), ArgsResult::Error(m)) => e@ == m,
            _ => false,
        },
{
    let ghost views = string_views(args@);
    let mut a = Args {
        server: false,
        install: false,
        update: false,
        uninstall: false,
        bind: string_of(&chars_of("0.0.0.0")),
        port: 8080,
        verbose: false,
        reconnect: false,
        token: None,
        command: None,
        host: None,
    };
    let mut i: usize = 0;
    while i < args.len()
        invariant
            i <= args@.len(),
            views == string_views(args@),
            parse_args_from(views, 0, default_args()) == parse_args_from(views, i as int, a.view()),
        decreases args@.len() - i,
    {
        let arg = chars_of(args[i].as_str());
        assert(arg@ == views[i as int]);
        if is(&arg, "-s") || is(&arg, "--server") {
            a.server = true;
            i += 1;
        } else if is(&arg, "-si") {
            a.install = true;
            i += 1;
        } else if is(&arg, "--update") {
            a.update = true;
            i += 1;
        } else if is(&arg, "--uninstall") {
            a.uninstall = true;
            i += 1;
        } else if is(&arg, "-v") || is(&arg, "--verbose") {
            a.verbose = true;
            i += 1;
        } else if is(&arg, "-r") || is(&arg, "--reconnect") {
            a.reconnect = true;
            i += 1;
        } else if is(&arg, "-h") || is(&arg, "--help") {
            return Ok(ParsedArgs::Help);
        } else if is(&arg, "--version") {
            return Ok(ParsedArgs::Version);
        } else if is(&arg, "-p") {
            if i + 1 >= args.len() {
                return Err(string_of(&chars_of("-p requires a port")));
            }
            let value = chars_of(args[i + 1].as_str());
            match parse_unsigned_exec(&value, 65535) {
                Some(p) => {
                    a.port = p as u16;
                },
                None => {
                    return Err(message_with("invalid port: ", &value));
                },
            }
            i += 2;
        } else if is(&arg, "-b") || is(&arg, "--bind") {
            if i + 1 >= args.len() {
                return Err(string_of(&chars_of("-b requires an address")));
            }
            a.bind = args[i + 1].clone();
            i += 2;
        } else if is(&arg, "-k") || is(&arg, "--key") {
            if i + 1 >= args.len() {
                return Err(string_of(&chars_of("-k requires a token")));
            }
            a.token = Some(args[i + 1].clone());
            i += 2;
        } else if is(&arg, "-e") || is(&arg, "--exec") {
            if i + 1 >= args.len() {
                return Err(string_of(&chars_of("-e requires a command")));
            }
            a.command = Some(args[i + 1].clone());
            i += 2;
        } else if arg.len() > 1 && arg[0] == '-' {
            return Err(message_with("unknown option: ", &arg));
        } else if a.host.is_some() {
            return Err(message_with("unexpected argument: ", &arg));
        } else {
            a.host = Some(args[i].clone());
            i += 1;
        }
    }
    Ok(ParsedArgs::Run(a))
}

/// The line that `--version` shows.
pub fn version_line() -> (s: String)
    ensures
        s@ == "rush "@ + VERSION@,
{
    let mut out: Vec<char> = Vec::new();
    push_str(&mut out, "rush ");
    push_str(&mut out, VERSION);
    string_of(&out)
}

/// The token in force: the one given with `-k` unless it is empty, else the
/// one in `RUSH_KEY` unless that is empty.
pub fn select_token(given: Option<String>, env: Option<String>) -> (t: Option<String>)
    ensures
        opt_view(t) == (match opt_view(given) {
            Some(g) if g.len() > 0 => Some(g),
            _ => match opt_view(env) {
                Some(e) if e.len() > 0 => Some(e),
                _ => None,
            },
        }),
{
    match given {
        Some(g) if g.as_str().is_empty() == false => Some(g),
        _ => match env {
            Some(e) if e.as_str().is_empty() == false => Some(e),
            _ => None,
        },
    }
}

/// What the program does.
pub enum Mode {
    /// `--update` or `--uninstall`.
    Manage,
    /// `-s` or `-si`.
    Server,
    /// Connect to this host.
    Client(String),
    /// No host: show the usage.
    Usage,
}

/// Which mode the options select: managing the installation first, then the
/// server, then the client when a host is given.
pub fn choose_mode(a: &Args) -> (m: Mode)
    ensures
        match m {
            Mode::Manage => a.update || a.uninstall,
            Mode::Server => !(a.update || a.uninstall) && (a.install || a.server),
            Mode::Client(h) => !(a.update || a.uninstall || a.install || a.server) && opt_view(a.host) == Some(h@),
            Mode::Usage => !(a.update || a.uninstall || a.install || a.server) && a.host is None,
        },
{
    if a.update || a.uninstall {
        Mode::Manage
    } else if a.install || a.server {
        Mode::Server
    } else {
        match &a.host {
            Some(h) => Mode::Client(h.clone()),
            None => Mode::Usage,
        }
    }
}


/// Whether a port can be used: 1 to 65535.
pub fn port_valid(port: u16) -> (ok: bool)
    ensures
        ok == (1 <= port),
{
    port >= 1
}

/// What is read from a position on depends only on the arguments from there
/// on: arguments before them change nothing.
proof fn lemma_reading_ignores_prefix(pre: Seq<Seq<char>>, rest: Seq<Seq<char>>, j: int)
    requires
        0 <= j,
    ensures
        forall|a: ArgsView| parse_args_from(pre + rest, pre.len() + j, a) == #[trigger] parse_args_from(rest, j, a),
    decreases rest.len() - j,
{
    let args = pre + rest;
    if j < rest.len() {
        lemma_reading_ignores_prefix(pre, rest, j + 1);
        if j + 2 <= rest.len() {
            lemma_reading_ignores_prefix(pre, rest, j + 2);
        }
        assert(args[pre.len() + j] == rest[j]);
        if j + 1 < rest.len() {
            assert(args[pre.len() + j + 1] == rest[j + 1]);
        }
        assert forall|a: ArgsView| parse_args_from(args, pre.len() + j, a) == #[trigger] parse_args_from(rest, j, a) by {
            let i = pre.len() + j;
            assert(i + 1 == pre.len() + (j + 1));
            assert(i + 2 == pre.len() + (j + 2));
            let arg = rest[j];
            if arg == "-s"@ || arg == "--server"@ {
                let b = ArgsView { server: true, ..a };
                assert(parse_args_from(args, pre.len() + (j + 1), b) == parse_args_from(rest, j + 1, b));
            } else if arg == "-si"@ {
                let b = ArgsView { install: true, ..a };
                assert(parse_args_from(args, pre.len() + (j + 1), b) == parse_args_from(rest, j + 1, b));
            } else if arg == "--update"@ {
                let b = ArgsView { update: true, ..a };
                assert(parse_args_from(args, pre.len() + (j + 1), b) == parse_args_from(rest, j + 1, b));
            } else if arg == "--uninstall"@ {
                let b = ArgsView { uninstall: true, ..a };
                assert(parse_args_from(args, pre.len() + (j + 1), b) == parse_args_from(rest, j + 1, b));
            } else if arg == "-v"@ || arg == "--verbose"@ {
                let b = ArgsView { verbose: true, ..a };
                assert(parse_args_from(args, pre.len() + (j + 1), b) == parse_args_from(rest, j + 1, b));
            } else if arg == "-r"@ || arg == "--reconnect"@ {
                let b = ArgsView { reconnect: true, ..a };
                assert(parse_args_from(args, pre.len() + (j + 1), b) == parse_args_from(rest, j + 1, b));
            } else if arg == "-h"@ || arg == "--help"@ || arg == "--version"@ {
            } else if arg == "-p"@ {
                if j + 1 < rest.len() {
                    match parse_unsigned(rest[j + 1], 65535) {
                        Some(p) => {
                            let b = ArgsView { port: p as u16, ..a };
                            assert(parse_args_from(args, pre.len() + (j + 2), b) == parse_args_from(rest, j + 2, b));
                        },
                        None => {},
                    }
                }
            } else if arg == "-b"@ || arg == "--bind"@ {
                if j + 1 < rest.len() {
                    let b = ArgsView { bind: rest[j + 1], ..a };
                    assert(parse_args_from(args, pre.len() + (j + 2), b) == parse_args_from(rest, j + 2, b));
                }
            } else if arg == "-k"@ || arg == "--key"@ {
                if j + 1 < rest.len() {
                    let b = ArgsView { token: Some(rest[j + 1]), ..a };
                    assert(parse_args_from(args, pre.len() + (j + 2), b) == parse_args_from(rest, j + 2, b));
                }
            } else if arg == "-e"@ || arg == "--exec"@ {
                if j + 1 < rest.len() {
                    let b = ArgsView { command: Some(rest[j + 1]), ..a };
                    assert(parse_args_from(args, pre.len() + (j + 2), b) == parse_args_from(rest, j + 2, b));
                }
            } else if arg.len() > 1 && arg[0] == '-' {
            } else if a.host is Some {
            } else {
                let b = ArgsView { host: Some(arg), ..a };
                assert(parse_args_from(args, pre.len() + (j + 1), b) == parse_args_from(rest, j + 1, b));
            }
        }
    }
}

/// The options of the command line are different words.
proof fn lemma_options_differ()
    ensures
        "-s"@ != "-v"@,
        "-s"@ != "-r"@,
        "-s"@ != "-h"@,
        "-s"@ != "-p"@,
        "-s"@ != "-b"@,
        "-s"@ != "-k"@,
        "-s"@ != "-e"@,
        "--server"@ != "--update"@,
        "--uninstall"@ != "--reconnect"@,
        "-v"@ != "-r"@,
        "-v"@ != "-h"@,
        "-v"@ != "-p"@,
        "-v"@ != "-b"@,
        "-v"@ != "-k"@,
        "-v"@ != "-e"@,
        "--verbose"@ != "--version"@,
        "-r"@ != "-h"@,
        "-r"@ != "-p"@,
        "-r"@ != "-b"@,
        "-r"@ != "-k"@,
        "-r"@ != "-e"@,
        "-h"@ != "-p"@,
        "-h"@ != "-b"@,
        "-h"@ != "-k"@,
        "-h"@ != "-e"@,
        "--help"@ != "--bind"@,
        "--help"@ != "--exec"@,
        "-p"@ != "-b"@,
        "-p"@ != "-k"@,
        "-p"@ != "-e"@,
        "-b"@ != "-k"@,
        "-b"@ != "-e"@,
        "--bind"@ != "--exec"@,
        "-k"@ != "-e"@,
{
    reveal_strlit("-s");
    reveal_strlit("--server");
    reveal_strlit("-si");
    reveal_strlit("--update");
    reveal_strlit("--uninstall");
    reveal_strlit("-v");
    reveal_strlit("--verbose");
    reveal_strlit("-r");
    reveal_strlit("--reconnect");
    reveal_strlit("-h");
    reveal_strlit("--help");
    reveal_strlit("--version");
    reveal_strlit("-p");
    reveal_strlit("-b");
    reveal_strlit("--bind");
    reveal_strlit("-k");
    reveal_strlit("--key");
    reveal_strlit("-e");
    reveal_strlit("--exec");
    assert("-s"@[1] != "-v"@[1]);
    assert("-s"@[1] != "-r"@[1]);
    assert("-s"@[1] != "-h"@[1]);
    assert("-s"@[1] != "-p"@[1]);
    assert("-s"@[1] != "-b"@[1]);
    assert("-s"@[1] != "-k"@[1]);
    assert("-s"@[1] != "-e"@[1]);
    assert("--server"@[2] != "--update"@[2]);
    assert("--uninstall"@[2] != "--reconnect"@[2]);
    assert("-v"@[1] != "-r"@[1]);
    assert("-v"@[1] != "-h"@[1]);
    assert("-v"@[1] != "-p"@[1]);
    assert("-v"@[1] != "-b"@[1]);
    assert("-v"@[1] != "-k"@[1]);
    assert("-v"@[1] != "-e"@[1]);
    assert("--verbose"@[5] != "--version"@[5]);
    assert("-r"@[1] != "-h"@[1]);
    assert("-r"@[1] != "-p"@[1]);
    assert("-r"@[1] != "-b"@[1]);
    assert("-r"@[1] != "-k"@[1]);
    assert("-r"@[1] != "-e"@[1]);
    assert("-h"@[1] != "-p"@[1]);
    assert("-h"@[1] != "-b"@[1]);
    assert("-h"@[1] != "-k"@[1]);
    assert("-h"@[1] != "-e"@[1]);
    assert("--help"@[2] != "--bind"@[2]);
    assert("--help"@[2] != "--exec"@[2]);
    assert("-p"@[1] != "-b"@[1]);
    assert("-p"@[1] != "-k"@[1]);
    assert("-p"@[1] != "-e"@[1]);
    assert("-b"@[1] != "-k"@[1]);
    assert("-b"@[1] != "-e"@[1]);
    assert("--bind"@[2] != "--exec"@[2]);
    assert("-k"@[1] != "-e"@[1]);
}

/// The options that have a long form, each with it.
pub open spec fn option_pairs() -> Seq<(Seq<char>, Seq<char>)> {
    seq![
        ("-s"@, "--server"@),
        ("-b"@, "--bind"@),
        ("-k"@, "--key"@),
        ("-e"@, "--exec"@),
        ("-r"@, "--reconnect"@),
        ("-v"@, "--verbose"@),
        ("-h"@, "--help"@),
    ]
}

/// Every long option of the usage text reads as its short form: whatever
/// follows and whatever was read before, a command line that starts with the
/// long form gives the same result as one that starts with the short form.
pub proof fn lemma_long_options(rest: Seq<Seq<char>>, a: ArgsView, k: int)
    requires
        0 <= k < option_pairs().len(),
    ensures
        parse_args_from(seq![option_pairs()[k].1] + rest, 0, a) == parse_args_from(
            seq![option_pairs()[k].0] + rest,
            0,
            a,
        ),
{
    reveal_strlit("-s");
    reveal_strlit("--server");
    reveal_strlit("-si");
    reveal_strlit("--update");
    reveal_strlit("--uninstall");
    reveal_strlit("-v");
    reveal_strlit("--verbose");
    reveal_strlit("-r");
    reveal_strlit("--reconnect");
    reveal_strlit("-h");
    reveal_strlit("--help");
    reveal_strlit("--version");
    reveal_strlit("-p");
    reveal_strlit("-b");
    reveal_strlit("--bind");
    reveal_strlit("-k");
    reveal_strlit("--key");
    reveal_strlit("-e");
    reveal_strlit("--exec");
    lemma_options_differ();
    let long = option_pairs()[k].1;
    let short = option_pairs()[k].0;
    lemma_after_first(long, rest);
    lemma_after_first(short, rest);
    if k == 0 {
        assert(parse_args_from(seq![option_pairs()[k].1] + rest, 0, a) == parse_args_from(seq![option_pairs()[k].0] + rest, 0, a)) by {
            assert(long == "--server"@ && short == "-s"@);
            let b = ArgsView { server: true, ..a };
            assert(parse_args_from(seq![long] + rest, 1, b) == parse_args_from(rest, 0, b));
            assert(parse_args_from(seq![short] + rest, 1, b) == parse_args_from(rest, 0, b));
        }
    } else if k == 1 {
        assert(parse_args_from(seq![option_pairs()[k].1] + rest, 0, a) == parse_args_from(seq![option_pairs()[k].0] + rest, 0, a)) by {
            assert(long == "--bind"@ && short == "-b"@);
            if rest.len() > 0 {
                let b = ArgsView { bind: rest[0], ..a };
                assert(parse_args_from(seq![long] + rest, 2, b) == parse_args_from(rest, 1, b));
                assert(parse_args_from(seq![short] + rest, 2, b) == parse_args_from(rest, 1, b));
            }
        }
    } else if k == 2 {
        assert(parse_args_from(seq![option_pairs()[k].1] + rest, 0, a) == parse_args_from(seq![option_pairs()[k].0] + rest, 0, a)) by {
            assert(long == "--key"@ && short == "-k"@);
            if rest.len() > 0 {
                let b = ArgsView { token: Some(rest[0]), ..a };
                assert(parse_args_from(seq![long] + rest, 2, b) == parse_args_from(rest, 1, b));
                assert(parse_args_from(seq![short] + rest, 2, b) == parse_args_from(rest, 1, b));
            }
        }
    } else if k == 3 {
        assert(parse_args_from(seq![option_pairs()[k].1] + rest, 0, a) == parse_args_from(seq![option_pairs()[k].0] + rest, 0, a)) by {
            assert(long == "--exec"@ && short == "-e"@);
            if rest.len() > 0 {
                let b = ArgsView { command: Some(rest[0]), ..a };
                assert(parse_args_from(seq![long] + rest, 2, b) == parse_args_from(rest, 1, b));
                assert(parse_args_from(seq![short] + rest, 2, b) == parse_args_from(rest, 1, b));
            }
        }
    } else if k == 4 {
        assert(parse_args_from(seq![option_pairs()[k].1] + rest, 0, a) == parse_args_from(seq![option_pairs()[k].0] + rest, 0, a)) by {
            assert(long == "--reconnect"@ && short == "-r"@);
            let b = ArgsView { reconnect: true, ..a };
            assert(parse_args_from(seq![long] + rest, 1, b) == parse_args_from(rest, 0, b));
            assert(parse_args_from(seq![short] + rest, 1, b) == parse_args_from(rest, 0, b));
        }
    } else if k == 5 {
        assert(parse_args_from(seq![option_pairs()[k].1] + rest, 0, a) == parse_args_from(seq![option_pairs()[k].0] + rest, 0, a)) by {
            assert(long == "--verbose"@ && short == "-v"@);
            let b = ArgsView { verbose: true, ..a };
            assert(parse_args_from(seq![long] + rest, 1, b) == parse_args_from(rest, 0, b));
            assert(parse_args_from(seq![short] + rest, 1, b) == parse_args_from(rest, 0, b));
        }
    } else {
        assert(long == "--help"@ && short == "-h"@);
    }
}

/// What follows a first argument is read as from the start of the rest.
proof fn lemma_after_first(word: Seq<char>, rest: Seq<Seq<char>>)
    ensures
        (seq![word] + rest)[0] == word,
        rest.len() > 0 ==> (seq![word] + rest)[1] == rest[0],
        (seq![word] + rest).len() == rest.len() + 1,
        forall|b: ArgsView| parse_args_from(seq![word] + rest, 1, b) == #[trigger] parse_args_from(rest, 0, b),
        forall|b: ArgsView| parse_args_from(seq![word] + rest, 2, b) == #[trigger] parse_args_from(rest, 1, b),
{
    lemma_reading_ignores_prefix(seq![word], rest, 0);
    lemma_reading_ignores_prefix(seq![word], rest, 1);
}

/// `--server -p PORT` runs the server on that port, as `-s -p PORT` does.
pub proof fn lemma_server_on_port(port: nat)
    requires
        port <= 65535,
    ensures
        parse_args_from(seq!["--server"@, "-p"@, decimal(port)], 0, default_args()) == ArgsResult::Run(
            ArgsView { server: true, port: port as u16, ..default_args() },
        ),
{
    reveal_strlit("-s");
    reveal_strlit("--server");
    reveal_strlit("-si");
    reveal_strlit("--update");
    reveal_strlit("--uninstall");
    reveal_strlit("-v");
    reveal_strlit("--verbose");
    reveal_strlit("-r");
    reveal_strlit("--reconnect");
    reveal_strlit("-h");
    reveal_strlit("--help");
    reveal_strlit("--version");
    reveal_strlit("-p");
    lemma_options_differ();
    lemma_decimal(port);
    assert(is_digit(decimal(port)[0]));
    assert(parse_unsigned(decimal(port), 65535) == Some(port));
    let args = seq!["--server"@, "-p"@, decimal(port)];
    assert(args.len() == 3 && args[0] == "--server"@ && args[1] == "-p"@ && args[2] == decimal(port));
    let a1 = ArgsView { server: true, ..default_args() };
    assert(parse_args_from(args, 3, ArgsView { port: port as u16, ..a1 }) == ArgsResult::Run(
        ArgsView { port: port as u16, ..a1 },
    ));
    assert(parse_args_from(args, 1, a1) == ArgsResult::Run(ArgsView { port: port as u16, ..a1 }));
}

} // verus!
