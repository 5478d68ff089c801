//! Installing, updating and removing the binary: the commands that fetch a
//! release, the checksum file, the version that a new binary reports, and the
//! service files.
use vstd::prelude::*;
use crate::crypto::{hex, hex_spec, sha256, sha256_spec};
use crate::http::{split_exec, split_seq, views};
use crate::text::{
    chars_of, decimal, find, find_seq, has_prefix, is_ws, lemma_find_from, push_decimal,
    push_str, rfind_char, rfind_char_exec, same_chars, slice_of, starts_with, string_of, trim,
    trim_exec, trim_start, trim_start_exec, ws_run, ws_run_end, lemma_find_first, lemma_no_first_char,
};
use crate::http::VERSION;

verus! {

broadcast use vstd::string::group_string_axioms;

/// The repository that releases come from unless `RUSH_REPO` names another.
pub const DEFAULT_REPO: &'static str = "FolderFile/rush";
/// Where the binary is installed.
pub const INSTALL_PATH: &'static str = "/usr/bin/rush";
/// The release asset of the Linux binary.
pub const LINUX_ASSET: &'static str = "rush-linux";
/// The release asset that lists the checksums.
pub const SUMS_ASSET: &'static str = "SHA256SUMS";

/// The view of an optional string.
pub open spec fn opt_view(o: Option<String>) -> Option<Seq<char>> {
    match o {
        Some(s) => Some(s@),
        None => None,
    }
}

/// The repository to update from: `RUSH_REPO` unless it is unset or empty.
pub fn repo_name(env: Option<String>) -> (r: String)
    ensures
        r@ == (match opt_view(env) {
            Some(e) if e.len() > 0 => e,
            _ => DEFAULT_REPO@,
        }),
{
    match env {
        Some(e) if !e.as_str().is_empty() => e,
        _ => string_of(&chars_of(DEFAULT_REPO)),
    }
}

/// The download URL of a release asset.
pub open spec fn asset_url_spec(repo: Seq<char>, asset: Seq<char>) -> Seq<char> {
    "https://github.com/"@ + repo + "/releases/latest/download/"@ + asset
}

/// The download URL of a release asset.
pub fn asset_url(repo: &str, asset: &str) -> (r: String)
    ensures
        r@ == asset_url_spec(repo@, asset@),
{
    let mut out: Vec<char> = Vec::new();
    push_str(&mut out, "https://github.com/");
    push_str(&mut out, repo);
    push_str(&mut out, "/releases/latest/download/");
    push_str(&mut out, asset);
    string_of(&out)
}

/// One way of fetching an asset: a command line, and whether the destination
/// is removed before it runs.
pub struct DownloadAttempt {
    pub argv: Vec<String>,
    pub remove_dest_first: bool,
}

/// The views of a command line.
pub open spec fn argv_view(v: Seq<String>) -> Seq<Seq<char>> {
    v.map_values(|s: String| s@)
}

/// The ways of fetching an asset, tried in order until one succeeds: curl,
/// wget, curl with the `GITHUB_TOKEN` when it is set and not empty, and the
/// GitHub command line tool (after removing what earlier tries left).
pub open spec fn download_plan(url: Seq<char>, dest: Seq<char>, token: Option<Seq<char>>, repo: Seq<char>, asset: Seq<char>) -> Seq<(Seq<Seq<char>>, bool)> {
    let curl = seq!["curl"@, "-fsSL"@, url, "-o"@, dest];
    let wget = seq!["wget"@, "-qO"@, dest, url];
    let gh = seq!["gh"@, "release"@, "download"@, "--repo"@, repo, "--pattern"@, asset, "--output"@, dest];
    match token {
        Some(t) if t.len() > 0 => seq![
            (curl, false),
            (wget, false),
            (seq!["curl"@, "-fsSL"@, "-H"@, "Authorization: token "@ + t, url, "-o"@, dest], false),
            (gh, true),
        ],
        _ => seq![(curl, false), (wget, false), (gh, true)],
    }
}

fn owned(s: &str) -> (r: String)
    ensures
        r@ == s@,
{
    string_of(&chars_of(s))
}

/// The ways of fetching an asset, in the order they are tried.
pub fn download_attempts(url: &str, dest: &str, token: Option<&str>, repo: &str, asset: &str) -> (r: Vec<DownloadAttempt>)
    ensures
        r@.map_values(|a: DownloadAttempt| (argv_view(a.argv@), a.remove_dest_first)) == download_plan(
            url@,
            dest@,
            match token {
                Some(t) => Some(t@),
                None => None,
            },
            repo@,
            asset@,
        ),
{
    let mut out: Vec<DownloadAttempt> = Vec::new();
    let curl = vec![owned("curl"), owned("-fsSL"), owned(url), owned("-o"), owned(dest)];
    let wget = vec![owned("wget"), owned("-qO"), owned(dest), owned(url)];
    let gh = vec![
        owned("gh"),
        owned("release"),
        owned("download"),
        owned("--repo"),
        owned(repo),
        owned("--pattern"),
        owned(asset),
        owned("--output"),
        owned(dest),
    ];
    assert(argv_view(curl@) =~= seq!["curl"@, "-fsSL"@, url@, "-o"@, dest@]);
    assert(argv_view(wget@) =~= seq!["wget"@, "-qO"@, dest@, url@]);
    assert(argv_view(gh@) =~= seq!["gh"@, "release"@, "download"@, "--repo"@, repo@, "--pattern"@, asset@, "--output"@, dest@]);
    let ghost curl_v = argv_view(curl@);
    let ghost wget_v = argv_view(wget@);
    let ghost gh_v = argv_view(gh@);
    out.push(DownloadAttempt { argv: curl, remove_dest_first: false });
    out.push(DownloadAttempt { argv: wget, remove_dest_first: false });
    match token {
        Some(t) if !t.is_empty() => {
            let mut header: Vec<char> = Vec::new();
            push_str(&mut header, "Authorization: token ");
            push_str(&mut header, t);
            let with_token = vec![
                owned("curl"),
                owned("-fsSL"),
                owned("-H"),
                string_of(&header),
                owned(url),
                owned("-o"),
                owned(dest),
            ];
            assert(argv_view(with_token@) =~= seq!["curl"@, "-fsSL"@, "-H"@, "Authorization: token "@ + t@, url@, "-o"@, dest@]);
            out.push(DownloadAttempt { argv: with_token, remove_dest_first: false });
        },
        _ => {},
    }
    out.push(DownloadAttempt { argv: gh, remove_dest_first: true });
    let ghost tok = match token {
        Some(t) => Some(t@),
        None => None,
    };
    assert(out@.map_values(|a: DownloadAttempt| (argv_view(a.argv@), a.remove_dest_first)) =~= download_plan(
        url@,
        dest@,
        tok,
        repo@,
        asset@,
    ));
    out
}

/// Whether one path starts with another, component by component, as
/// `std::path::Path::starts_with` decides it.
pub uninterp spec fn path_starts_with_spec(path: Seq<char>, base: Seq<char>) -> bool;

/// `std::path::Path::starts_with`: whether the components of `base` are the
/// first components of `path`. The result is named, not stated.
#[verifier::external_body]
fn path_starts_with(path: &str, base: &str) -> (r: bool)
    ensures
        r == path_starts_with_spec(path@, base@),
{
    std::path::Path::new(path).starts_with(base)
}

/// Where the installed binary is: the running one when it lives under
/// `/usr/bin` or `/usr/local/bin`, else `/usr/bin/rush` when that exists.
pub fn installed_path(exe: Option<String>, install_path_exists: bool) -> (r: Option<String>)
    ensures
        opt_view(r) == (match opt_view(exe) {
            Some(e) if path_starts_with_spec(e, "/usr/bin"@) || path_starts_with_spec(e, "/usr/local/bin"@) => Some(e),
            _ => if install_path_exists {
                Some(INSTALL_PATH@)
            } else {
                None
            },
        }),
{
    match exe {
        Some(e) if path_starts_with(e.as_str(), "/usr/bin") || path_starts_with(e.as_str(), "/usr/local/bin") => Some(e),
        _ => if install_path_exists {
            Some(owned(INSTALL_PATH))
        } else {
            None
        },
    }
}

/// A line without the carriage return that may end it.
pub open spec fn strip_cr(line: Seq<char>) -> Seq<char> {
    if line.len() > 0 && line.last() == '\r' {
        line.drop_last()
    } else {
        line
    }
}

/// The lines of a text, as `str::lines` gives them: split at each newline,
/// without a carriage return just before it, and with no empty line after a
/// final newline.
pub open spec fn lines_spec(s: Seq<char>) -> Seq<Seq<char>>
    decreases s.len(),
{
    if s.len() == 0 {
        Seq::empty()
    } else {
        match find_seq(s, seq!['\n']) {
            Some(i) => if i < s.len() {
                seq![strip_cr(s.take(i as int))] + lines_spec(s.skip(i + 1 as int))
            } else {
                seq![s]
            },
            None => seq![s],
        }
    }
}

/// Number of leading characters that are not whitespace.
pub open spec fn word_run(s: Seq<char>) -> nat
    decreases s.len(),
{
    if s.len() > 0 && !is_ws(s[0]) {
        1 + word_run(s.drop_first())
    } else {
        0
    }
}

/// The first whitespace-separated word of `s` and what follows it.
pub open spec fn first_word(s: Seq<char>) -> Option<(Seq<char>, Seq<char>)> {
    let t = trim_start(s);
    if t.len() == 0 {
        None
    } else {
        Some((t.take(word_run(t) as int), t.skip(word_run(t) as int)))
    }
}

/// A word is no longer than its text, and not empty when the text starts
/// with a character other than whitespace.
pub proof fn lemma_word_run(s: Seq<char>)
    ensures
        word_run(s) <= s.len(),
        s.len() > 0 && !is_ws(s[0]) ==> word_run(s) > 0,
    decreases s.len(),
{
    if s.len() > 0 && !is_ws(s[0]) {
        lemma_word_run(s.drop_first());
    }
}

/// The first word of `s` and what follows it.
pub fn first_word_exec(s: &[char]) -> (r: Option<(Vec<char>, Vec<char>)>)
    ensures
        match (r, first_word(s@)) {
            (Some((w, rest)), Some((w2, rest2))) => w@ == w2 && rest@ == rest2,
            (None, None) => true,
            _ => false,
        },
{
    let t = trim_start_exec(s);
    if t.len() == 0 {
        return None;
    }
    let mut i: usize = 0;
    proof {
        assert(t@.skip(0) =~= t@);
        lemma_word_run(t@);
    }
    while i < t.len() && !crate::text::is_whitespace(t[i])
        invariant
            i <= t@.len(),
            word_run(t@) == i + word_run(t@.skip(i as int)),
        decreases t@.len() - i,
    {
        assert(t@.skip(i as int).drop_first() =~= t@.skip(i + 1));
        i += 1;
    }
    assert(word_run(t@.skip(i as int)) == 0);
    Some((slice_of(&t, 0, i), slice_of(&t, i, t.len())))
}

/// The part of a path after its last `/`.
pub open spec fn last_segment(name: Seq<char>) -> Seq<char> {
    match rfind_char(name, '/') {
        Some(k) => name.skip(k + 1 as int),
        None => name,
    }
}

/// The checksum and file name of a line of a checksum file: its first two words.
pub open spec fn line_entry(line: Seq<char>) -> Option<(Seq<char>, Seq<char>)> {
    match first_word(line) {
        Some((sum, rest)) => match first_word(rest) {
            Some((name, _)) => Some((sum, name)),
            None => None,
        },
        None => None,
    }
}

/// The checksum of the first line whose file name ends (after its last `/`)
/// in `asset`.
pub open spec fn entry_for(lines: Seq<Seq<char>>, asset: Seq<char>) -> Option<Seq<char>>
    decreases lines.len(),
{
    if lines.len() == 0 {
        None
    } else {
        match line_entry(lines[0]) {
            Some((sum, name)) if last_segment(name) == asset => Some(sum),
            _ => entry_for(lines.drop_first(), asset),
        }
    }
}

/// Cuts a text into lines.
pub fn lines_exec(s: &[char]) -> (out: Vec<Vec<char>>)
    ensures
        views(out@) == lines_spec(s@),
{
    let mut out: Vec<Vec<char>> = Vec::new();
    let mut rest: Vec<char> = slice_of(s, 0, s.len());
    assert(rest@ =~= s@);
    let nl = ['\n'];
    assert(nl@ =~= seq!['\n']);
    loop
        invariant
            nl@ == seq!['\n'],
            lines_spec(s@) == views(out@) + lines_spec(rest@),
        decreases rest@.len(),
    {
        if rest.len() == 0 {
            assert(views(out@) + lines_spec(rest@) =~= views(out@));
            return out;
        }
        let ghost old_out = out@;
        match find(&rest, &nl) {
            Some(i) => {
                proof {
                    lemma_find_from(rest@, nl@, 0);
                }
                let mut line = slice_of(&rest, 0, i);
                if line.len() > 0 && line[line.len() - 1] == '\r' {
                    line.pop();
                    assert(line@ =~= rest@.take(i as int).drop_last());
                }
                let next = slice_of(&rest, i + 1, rest.len());
                assert(next@ =~= rest@.skip(i + 1 as int));
                out.push(line);
                assert(views(out@) =~= views(old_out) + seq![strip_cr(rest@.take(i as int))]);
                assert(views(out@) + lines_spec(next@) =~= views(old_out) + lines_spec(rest@));
                rest = next;
            },
            None => {
                out.push(rest);
                assert(views(out@) =~= views(old_out) + lines_spec(s@).skip(views(old_out).len() as int)) by {
                    assert(lines_spec(s@).skip(views(old_out).len() as int) =~= lines_spec(rest@));
                }
                assert(views(out@) =~= lines_spec(s@));
                return out;
            },
        }
    }
}

fn last_segment_exec(name: &[char]) -> (r: Vec<char>)
    ensures
        r@ == last_segment(name@),
{
    match rfind_char_exec(name, '/') {
        Some(k) => {
            let nl = name.len();
            let r = slice_of(name, k + 1, nl);
            assert(r@ =~= name@.skip(k + 1 as int));
            r
        },
        None => slice_of(name, 0, name.len()),
    }
}

/// The checksum that a checksum file gives for `asset`.
pub fn expected_checksum(sums: &str, asset: &str) -> (r: Option<String>)
    ensures
        opt_view(r) == entry_for(lines_spec(sums@), asset@),
{
    let text = chars_of(sums);
    let wanted = chars_of(asset);
    let lines = lines_exec(&text);
    let mut i: usize = 0;
    assert(views(lines@).skip(0) =~= views(lines@));
    while i < lines.len()
        invariant
            i <= lines@.len(),
            wanted@ == asset@,
            views(lines@) == lines_spec(sums@),
            entry_for(lines_spec(sums@), asset@) == entry_for(views(lines@).skip(i as int), asset@),
        decreases lines@.len() - i,
    {
        let ghost rest = views(lines@).skip(i as int);
        assert(rest[0] == lines@[i as int]@);
        assert(rest.drop_first() =~= views(lines@).skip(i + 1));
        match first_word_exec(&lines[i]) {
            Some((sum, after)) => match first_word_exec(&after) {
                Some((name, _)) => {
                    if same_chars(&last_segment_exec(&name), &wanted) {
                        return Some(string_of(&sum));
                    }
                },
                None => {},
            },
            None => {},
        }
        i += 1;
    }
    None
}

/// The lower-case hexadecimal SHA-256 of the bytes of a file.
pub fn digest_hex(bytes: &[u8]) -> (r: String)
    ensures
        r@ == hex_spec(sha256_spec(bytes@)),
{
    string_of(&hex(&sha256(bytes)))
}

/// Why a downloaded binary is refused.
pub enum ChecksumError {
    /// The checksum file has no line for the asset.
    NoEntry(String),
    /// The checksums differ: asset, expected, actual.
    Mismatch(String, String, String),
}

/// Checks a downloaded asset against the checksum file: the file must list
/// the asset, with the digest that the asset has.
pub fn verify_checksum(sums: &str, asset: &str, actual: &str) -> (r: Result<(), ChecksumError>)
    ensures
        match (r, entry_for(lines_spec(sums@), asset@)) {
            (Ok(()), Some(e)) => e == actual@,
            (Err(ChecksumError::NoEntry(a)), None) => a@ == asset@,
            (Err(ChecksumError::Mismatch(a, e, g)), Some(x)) => a@ == asset@ && e@ == x && g@ == actual@
                && x != actual@,
            _ => false,
        },
{
    match expected_checksum(sums, asset) {
        None => Err(ChecksumError::NoEntry(owned(asset))),
        Some(expected) => {
            if same_chars(&chars_of(expected.as_str()), &chars_of(actual)) {
                Ok(())
            } else {
                Err(ChecksumError::Mismatch(owned(asset), expected, owned(actual)))
            }
        },
    }
}

/// The text of a checksum error.
pub fn checksum_error_text(e: &ChecksumError) -> (s: String)
    ensures
        s@ == (match e {
            ChecksumError::NoEntry(a) => "SHA256SUMS has no entry for "@ + a@,
            ChecksumError::Mismatch(a, x, g) => "checksum mismatch for "@ + a@ + ": expected "@ + x@ + ", got "@
                + g@,
        }),
{
    let mut out: Vec<char> = Vec::new();
    match e {
        ChecksumError::NoEntry(a) => {
            push_str(&mut out, "SHA256SUMS has no entry for ");
            push_str(&mut out, a.as_str());
        },
        ChecksumError::Mismatch(a, x, g) => {
            push_str(&mut out, "checksum mismatch for ");
            push_str(&mut out, a.as_str());
            push_str(&mut out, ": expected ");
            push_str(&mut out, x.as_str());
            push_str(&mut out, ", got ");
            push_str(&mut out, g.as_str());
        },
    }
    string_of(&out)
}

/// `s` without any number of leading copies of `p`, as
/// `str::trim_start_matches` with a string gives it.
pub open spec fn strip_all_prefix(s: Seq<char>, p: Seq<char>) -> Seq<char>
    decreases s.len(),
{
    if p.len() > 0 && has_prefix(s, p) {
        strip_all_prefix(s.skip(p.len() as int), p)
    } else {
        s
    }
}

/// The version that a new binary reports: its `--version` output without
/// surrounding whitespace and without the leading `rush `.
pub open spec fn version_of_output(out: Seq<char>) -> Seq<char> {
    strip_all_prefix(trim(out), "rush "@)
}

/// The version that a new binary reports.
pub fn version_from_output(out: &str) -> (r: String)
    ensures
        r@ == version_of_output(out@),
{
    let p = chars_of("rush ");
    proof {
        reveal_strlit("rush ");
    }
    let mut s = trim_exec(&chars_of(out));
    while starts_with(&s, &p)
        invariant
            p@ == "rush "@,
            p@.len() == 5,
            version_of_output(out@) == strip_all_prefix(s@, p@),
        decreases s@.len(),
    {
        let next = slice_of(&s, p.len(), s.len());
        assert(next@ =~= s@.skip(p@.len() as int));
        s = next;
    }
    string_of(&s)
}

/// The temporary files of an update: the new binary and the checksum file.
pub fn update_temp_paths(pid: u32) -> (r: (String, String))
    ensures
        r.0@ == "/tmp/rush.update."@ + decimal(pid as nat),
        r.1@ == "/tmp/rush.sums."@ + decimal(pid as nat),
{
    let mut a: Vec<char> = Vec::new();
    push_str(&mut a, "/tmp/rush.update.");
    push_decimal(&mut a, pid as u64);
    let mut b: Vec<char> = Vec::new();
    push_str(&mut b, "/tmp/rush.sums.");
    push_decimal(&mut b, pid as u64);
    (string_of(&a), string_of(&b))
}

/// Where `-si` keeps the token of a systemd service, readable by root only.
pub const KEY_ENV_FILE: &'static str = "/etc/rush.env";

/// How one character is written between single quotes: a quote closes the
/// quoting, is written escaped, and opens it again.
pub open spec fn sq_char(c: char) -> Seq<char> {
    if c == '\'' {
        seq!['\'', '\\', '\'', '\'']
    } else {
        seq![c]
    }
}

/// The inside of a single-quoted text.
pub open spec fn sq_body(s: Seq<char>) -> Seq<char>
    decreases s.len(),
{
    if s.len() == 0 {
        Seq::empty()
    } else {
        sq_body(s.drop_last()) + sq_char(s.last())
    }
}

/// `s` in single quotes, as a shell and a systemd environment file read it
/// back as `s`.
pub open spec fn single_quoted(s: Seq<char>) -> Seq<char> {
    seq!['\''] + sq_body(s) + seq!['\'']
}

fn push_single_quoted(out: &mut Vec<char>, s: &str)
    ensures
        final(out)@ == old(out)@ + single_quoted(s@),
{
    let chars = chars_of(s);
    let ghost start = out@;
    out.push('\'');
    let mut i: usize = 0;
    while i < chars.len()
        invariant
            i <= chars@.len(),
            chars@ == s@,
            out@ == start + seq!['\''] + sq_body(chars@.take(i as int)),
        decreases chars@.len() - i,
    {
        let c = chars[i];
        let ghost before = out@;
        if c == '\'' {
            out.push('\'');
            out.push('\\');
            out.push('\'');
            out.push('\'');
        } else {
            out.push(c);
        }
        assert(out@ =~= before + sq_char(c));
        assert(chars@.take(i + 1).drop_last() =~= chars@.take(i as int));
        i += 1;
    }
    assert(chars@.take(i as int) =~= chars@);
    out.push('\'');
    assert(out@ =~= start + single_quoted(s@));
}

/// The environment file that gives a systemd service its token.
pub open spec fn key_env_text(token: Seq<char>) -> Seq<char> {
    "RUSH_KEY="@ + single_quoted(token) + "\n"@
}

/// The environment file that gives a systemd service its token.
pub fn key_env_file(token: &str) -> (r: String)
    ensures
        r@ == key_env_text(token@),
{
    let mut out: Vec<char> = Vec::new();
    push_str(&mut out, "RUSH_KEY=");
    push_single_quoted(&mut out, token);
    push_str(&mut out, "\n");
    string_of(&out)
}

/// The systemd unit that runs the server on `port`; with a key file, the
/// server takes its token from the `RUSH_KEY` that the file sets.
pub open spec fn systemd_unit_text(target: Seq<char>, port: nat, key_file: Option<Seq<char>>) -> Seq<char> {
    "[Unit]\nDescription=rush remote shell server\nAfter=network-online.target\nWants=network-online.target\n\n[Service]\nType=simple\nEnvironment=TERM=xterm-256color\n"@
        + match key_file {
        Some(f) => "EnvironmentFile="@ + f + "\n"@,
        None => Seq::empty(),
    } + "ExecStart="@ + target + " --server -p "@ + decimal(port)
        + "\nRestart=on-failure\nRestartSec=2\nLimitNOFILE=65536\n\n[Install]\nWantedBy=multi-user.target\n"@
}

/// The systemd unit that runs the server on `port`, taking its token from
/// `key_file` when there is one.
pub fn systemd_unit(target: &str, port: u16, key_file: Option<&str>) -> (r: String)
    ensures
        r@ == systemd_unit_text(
            target@,
            port as nat,
            match key_file {
                Some(f) => Some(f@),
                None => None,
            },
        ),
{
    let mut out: Vec<char> = Vec::new();
    push_str(
        &mut out,
        "[Unit]\nDescription=rush remote shell server\nAfter=network-online.target\nWants=network-online.target\n\n[Service]\nType=simple\nEnvironment=TERM=xterm-256color\n",
    );
    match key_file {
        Some(f) => {
            push_str(&mut out, "EnvironmentFile=");
            push_str(&mut out, f);
            push_str(&mut out, "\n");
        },
        None => {},
    }
    push_str(&mut out, "ExecStart=");
    push_str(&mut out, target);
    push_str(&mut out, " --server -p ");
    push_decimal(&mut out, port as u64);
    push_str(&mut out, "\nRestart=on-failure\nRestartSec=2\nLimitNOFILE=65536\n\n[Install]\nWantedBy=multi-user.target\n");
    let ghost kf = match key_file {
        Some(f) => Some(f@),
        None => None,
    };
    assert(out@ =~= systemd_unit_text(target@, port as nat, kf));
    string_of(&out)
}

/// The OpenRC script that runs the server on `port`; with a token, the script
/// exports it as `RUSH_KEY`, which the server takes it from.
pub open spec fn openrc_script_text(target: Seq<char>, port: nat, token: Option<Seq<char>>) -> Seq<char> {
    "#!/sbin/openrc-run\nname=rush\ndescription=\"rush remote shell server\"\ncommand="@ + target
        + "\ncommand_args=\"--server -p "@ + decimal(port)
        + "\"\ncommand_background=yes\npidfile=/run/rush.pid\noutput_log=/var/log/rush.log\nerror_log=/var/log/rush.log\nretry=\"TERM/10/KILL/5\"\n\nexport TERM=xterm-256color\n"@
        + match token {
        Some(t) => "export RUSH_KEY="@ + single_quoted(t) + "\n"@,
        None => Seq::empty(),
    }
}

/// The OpenRC script that runs the server on `port`, with its token when
/// there is one.
pub fn openrc_script(target: &str, port: u16, token: Option<&str>) -> (r: String)
    ensures
        r@ == openrc_script_text(
            target@,
            port as nat,
            match token {
                Some(t) => Some(t@),
                None => None,
            },
        ),
{
    let mut out: Vec<char> = Vec::new();
    push_str(&mut out, "#!/sbin/openrc-run\nname=rush\ndescription=\"rush remote shell server\"\ncommand=");
    push_str(&mut out, target);
    push_str(&mut out, "\ncommand_args=\"--server -p ");
    push_decimal(&mut out, port as u64);
    push_str(
        &mut out,
        "\"\ncommand_background=yes\npidfile=/run/rush.pid\noutput_log=/var/log/rush.log\nerror_log=/var/log/rush.log\nretry=\"TERM/10/KILL/5\"\n\nexport TERM=xterm-256color\n",
    );
    match token {
        Some(t) => {
            push_str(&mut out, "export RUSH_KEY=");
            push_single_quoted(&mut out, t);
            push_str(&mut out, "\n");
        },
        None => {},
    }
    let ghost tk = match token {
        Some(t) => Some(t@),
        None => None,
    };
    assert(out@ =~= openrc_script_text(target@, port as nat, tk));
    string_of(&out)
}

/// The directories of a `PATH` value, in order.
pub fn path_dirs(path: &str) -> (r: Vec<String>)
    ensures
        r@.map_values(|s: String| s@) == split_seq(path@, seq![':']),
{
    let colon = [':'];
    assert(colon@ =~= seq![':']);
    let parts = split_exec(&chars_of(path), &colon);
    let mut out: Vec<String> = Vec::new();
    let mut i: usize = 0;
    while i < parts.len()
        invariant
            i <= parts@.len(),
            out@.map_values(|s: String| s@) == views(parts@).take(i as int),
        decreases parts@.len() - i,
    {
        let ghost before = out@;
        let piece = string_of(&parts[i]);
        assert(views(parts@)[i as int] == parts@[i as int]@);
        out.push(piece);
        assert(out@.map_values(|s: String| s@) =~= before.map_values(|s: String| s@).push(piece@));
        i += 1;
        assert(out@.map_values(|s: String| s@) =~= views(parts@).take(i as int));
    }
    assert(views(parts@).take(i as int) =~= views(parts@));
    out
}

/// The service manager that `-si` installs for.
#[derive(PartialEq, Eq, Structural, Clone, Copy, Debug)]
pub enum ServiceKind {
    Systemd,
    OpenRc,
}

/// Which service manager to install for: systemd when `systemctl` is on the
/// search path and systemd is running, else OpenRC when `rc-service` is on the
/// search path, else none.
pub fn choose_service(has_systemctl: bool, systemd_running: bool, has_rc_service: bool) -> (r: Option<ServiceKind>)
    ensures
        r == (if has_systemctl && systemd_running {
            Some(ServiceKind::Systemd)
        } else if has_rc_service {
            Some(ServiceKind::OpenRc)
        } else {
            None
        }),
{
    if has_systemctl && systemd_running {
        Some(ServiceKind::Systemd)
    } else if has_rc_service {
        Some(ServiceKind::OpenRc)
    } else {
        None
    }
}

/// The updater reads back the version that rush prints for `--version`
/// (`rush VERSION` and a newline).
pub proof fn lemma_version_reads_back()
    ensures
        version_of_output("rush "@ + VERSION@ + "\n"@) == VERSION@,
{
    reveal_strlit("rush ");
    reveal_strlit("1.0.0");
    reveal_strlit("\n");
    let line = "rush "@ + VERSION@;
    let out = line + "\n"@;
    assert(out.len() == 11);
    assert(!is_ws(out[0]));
    assert(ws_run(out) == 0);
    assert(out.skip(0) =~= out);
    assert(out.drop_last() =~= line);
    assert(!is_ws(line.last()));
    assert(ws_run_end(line) == 0);
    assert(ws_run_end(out) == 1);
    assert(trim(out) =~= line);
    assert(line.take(5) =~= "rush "@);
    assert(line.skip(5) =~= VERSION@);
    assert(!has_prefix(VERSION@, "rush "@)) by {
        assert(VERSION@.take(5)[0] != "rush "@[0]);
    }
    reveal_with_fuel(strip_all_prefix, 2);
}

/// The options that change the installation (`-si`, `--uninstall`) run only
/// as root; for anyone else they fail with `OPTION must be run as root`.
pub fn require_root(is_root: bool, option: &str) -> (r: Result<(), String>)
    ensures
        match r {
            Ok(()) => is_root,
            Err(e) => !is_root && e@ == option@ + " must be run as root"@,
        },
{
    if is_root {
        Ok(())
    } else {
        let mut out: Vec<char> = Vec::new();
        push_str(&mut out, option);
        push_str(&mut out, " must be run as root");
        Err(string_of(&out))
    }
}

/// Lines, each followed by `end`.
pub open spec fn joined_lines(ls: Seq<Seq<char>>, end: Seq<char>) -> Seq<char>
    decreases ls.len(),
{
    if ls.len() == 0 {
        Seq::empty()
    } else {
        ls[0] + end + joined_lines(ls.drop_first(), end)
    }
}

/// A line that holds no newline.
pub open spec fn one_line(l: Seq<char>) -> bool {
    !l.contains('\n')
}

/// The first newline of a line followed by `end` and more text is the one
/// that `end` ends with.
proof fn lemma_first_newline(l: Seq<char>, end: Seq<char>, rest: Seq<char>)
    requires
        one_line(l),
        end == seq!['\n'] || end == seq!['\r', '\n'],
    ensures
        find_seq(l + end + rest, seq!['\n']) == Some((l.len() + end.len() - 1) as nat),
        (l + end + rest).take(l.len() + end.len() - 1) == l + end.drop_last(),
        (l + end + rest).skip(l.len() + end.len() as int) == rest,
{
    let s = l + end + rest;
    let k = l.len() + end.len() - 1;
    assert(s[k] == '\n');
    assert(s.subrange(k, k + 1) =~= seq!['\n']);
    assert forall|j: int| 0 <= j < k && 0 <= j < s.len() implies s[j] != seq!['\n'][0] by {
        if j < l.len() {
            assert(s[j] == l[j]);
        } else {
            assert(s[j] == '\r');
        }
    }
    lemma_no_first_char(s, seq!['\n'], 0, k);
    lemma_find_first(s, seq!['\n'], k);
    assert(s.take(k) =~= l + end.drop_last());
    assert(s.skip(l.len() + end.len() as int) =~= rest);
}

/// Reading lines is `str::lines`: lines that hold no newline, each followed by
/// a newline, read back as those lines (a line that ends in a carriage return
/// loses it, as before CR LF); each followed by CR LF, they read back as they
/// are; and a last line without a newline after it is a line too.
pub proof fn lemma_lines_of_joined(ls: Seq<Seq<char>>, last: Seq<char>)
    requires
        forall|i: int| 0 <= i < ls.len() ==> one_line(#[trigger] ls[i]),
        one_line(last),
    ensures
        (forall|i: int| 0 <= i < ls.len() ==> !(ls[i].len() > 0 && #[trigger] ls[i].last() == '\r'))
            ==> lines_spec(joined_lines(ls, seq!['\n'])) == ls,
        lines_spec(joined_lines(ls, seq!['\r', '\n'])) == ls,
        last.len() > 0 ==> lines_spec(joined_lines(ls, seq!['\n']) + last) == ls.map_values(
            |l: Seq<char>| strip_cr(l),
        ).push(last),
    decreases ls.len(),
{
    if ls.len() == 0 {
        assert(joined_lines(ls, seq!['\n']) + last =~= last);
        if last.len() > 0 {
            assert(find_seq(last, seq!['\n']) is None) by {
                lemma_no_first_char(last, seq!['\n'], 0, last.len() as int);
                lemma_find_from(last, seq!['\n'], 0);
            }
            assert(ls.map_values(|l: Seq<char>| strip_cr(l)).push(last) =~= seq![last]);
        }
    } else {
        let l = ls[0];
        let tail = ls.drop_first();
        assert forall|i: int| 0 <= i < tail.len() implies one_line(#[trigger] tail[i]) by {
            assert(tail[i] == ls[i + 1]);
        }
        lemma_lines_of_joined(tail, last);
        assert(one_line(l));
        let lf = seq!['\n'];
        let crlf = seq!['\r', '\n'];
        // Each followed by a newline.
        lemma_first_newline(l, lf, joined_lines(tail, lf));
        assert(lf.drop_last() =~= Seq::<char>::empty());
        assert(l + Seq::<char>::empty() =~= l);
        if forall|i: int| 0 <= i < ls.len() ==> !(ls[i].len() > 0 && #[trigger] ls[i].last() == '\r') {
            assert(!(ls[0].len() > 0 && ls[0].last() == '\r'));
            assert(forall|i: int| 0 <= i < tail.len() ==> !(tail[i].len() > 0 && #[trigger] tail[i].last() == '\r')) by {
                assert forall|i: int| 0 <= i < tail.len() implies !(tail[i].len() > 0 && #[trigger] tail[i].last() == '\r') by {
                    assert(tail[i] == ls[i + 1]);
                }
            }
            assert(strip_cr(l) == l);
            assert(seq![l] + tail =~= ls);
        }
        // Each followed by CR LF.
        lemma_first_newline(l, crlf, joined_lines(tail, crlf));
        assert(crlf.drop_last() =~= seq!['\r']);
        assert((l + seq!['\r']).drop_last() =~= l);
        assert(seq![l] + tail =~= ls);
        // A last line after them.
        if last.len() > 0 {
            let s = joined_lines(ls, lf) + last;
            assert(s =~= l + lf + (joined_lines(tail, lf) + last));
            lemma_first_newline(l, lf, joined_lines(tail, lf) + last);
            assert(seq![strip_cr(l)] + tail.map_values(|x: Seq<char>| strip_cr(x)).push(last) =~= ls.map_values(
                |x: Seq<char>| strip_cr(x),
            ).push(last));
        }
    }
}

/// Hence the checksum of an asset is looked up in the newline-separated lines
/// of the checksum file: the first line whose file name ends in the asset.
pub proof fn lemma_checksum_lines(ls: Seq<Seq<char>>, asset: Seq<char>)
    requires
        forall|i: int| 0 <= i < ls.len() ==> one_line(#[trigger] ls[i]),
        forall|i: int| 0 <= i < ls.len() ==> !(ls[i].len() > 0 && #[trigger] ls[i].last() == '\r'),
    ensures
        entry_for(lines_spec(joined_lines(ls, seq!['\n'])), asset) == entry_for(ls, asset),
{
    lemma_lines_of_joined(ls, Seq::empty());
}

} // verus!
