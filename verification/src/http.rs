//! The HTTP/1.1 upgrade that opens a session: reading the head, its headers,
//! and what each side decides from them.
use vstd::prelude::*;
use vstd::utf8::{encode_utf8, encode_utf8_decode_utf8};
use crate::crypto::{base64, base64_spec, ct_eq, sha1, sha1_spec};
use crate::text::{
    push_str,
    chars_of, find, find_seq, has_prefix, lemma_find_from, matches_at, slice_of,
    starts_with, string_of, trim, trim_exec,
};

verus! {

broadcast use vstd::string::group_string_axioms;

/// `s` cut at each occurrence of `sep`, as `str::split` with a string does it.
pub open spec fn split_seq(s: Seq<char>, sep: Seq<char>) -> Seq<Seq<char>>
    decreases s.len(),
{
    if sep.len() == 0 {
        seq![s]
    } else {
        match find_seq(s, sep) {
            Some(i) => if i + sep.len() <= s.len() {
                seq![s.take(i as int)] + split_seq(s.skip((i + sep.len()) as int), sep)
            } else {
                seq![s]
            },
            None => seq![s],
        }
    }
}

/// The views of a list of character vectors.
pub open spec fn views(v: Seq<Vec<char>>) -> Seq<Seq<char>> {
    v.map_values(|x: Vec<char>| x@)
}

/// Cuts `s` at each occurrence of `sep`.
pub fn split_exec(s: &[char], sep: &[char]) -> (out: Vec<Vec<char>>)
    requires
        sep@.len() > 0,
    ensures
        views(out@) == split_seq(s@, sep@),
{
    let mut out: Vec<Vec<char>> = Vec::new();
    let mut rest: Vec<char> = slice_of(s, 0, s.len());
    assert(rest@ =~= s@);
    loop
        invariant
            sep@.len() > 0,
            split_seq(s@, sep@) == views(out@) + split_seq(rest@, sep@),
        decreases rest@.len(),
    {
        match find(&rest, sep) {
            Some(i) => {
                proof {
                    lemma_find_from(rest@, sep@, 0);
                }
                let rl = rest.len();
                assert(matches_at(rest@, sep@, i as int));
                let piece = slice_of(&rest, 0, i);
                let next = slice_of(&rest, i + sep.len(), rest.len());
                assert(piece@ =~= rest@.take(i as int));
                assert(next@ =~= rest@.skip(i + sep@.len()));
                let ghost old_out = out@;
                out.push(piece);
                assert(views(out@) =~= views(old_out) + seq![piece@]);
                assert(views(out@) + split_seq(next@, sep@) =~= views(old_out) + (seq![rest@.take(i as int)] + split_seq(next@, sep@)));
                rest = next;
            },
            None => {
                let ghost old_out = out@;
                out.push(rest);
                assert(views(out@) =~= views(old_out) + split_seq(s@, sep@).skip(views(old_out).len() as int)) by {
                    assert(split_seq(s@, sep@).skip(views(old_out).len() as int) =~= split_seq(rest@, sep@));
                }
                assert(views(out@) =~= split_seq(s@, sep@));
                return out;
            },
        }
    }
}

/// An ASCII upper-case letter made lower-case; other characters as they are.
pub open spec fn lower_char(c: char) -> char {
    if 'A' <= c && c <= 'Z' {
        ((c as u32) + 32) as char
    } else {
        c
    }
}

/// `str::to_ascii_lowercase`.
pub open spec fn lower(s: Seq<char>) -> Seq<char> {
    s.map_values(|c: char| lower_char(c))
}

/// `char::to_ascii_lowercase`.
pub fn lower_char_exec(c: char) -> (r: char)
    ensures
        r == lower_char(c),
{
    if 'A' <= c && c <= 'Z' {
        ((c as u8) + 32) as char
    } else {
        c
    }
}

/// `str::to_ascii_lowercase`.
pub fn lower_exec(s: &[char]) -> (out: Vec<char>)
    ensures
        out@ == lower(s@),
{
    let mut out: Vec<char> = Vec::new();
    let mut i: usize = 0;
    while i < s.len()
        invariant
            i <= s@.len(),
            out@ == lower(s@.take(i as int)),
        decreases s@.len() - i,
    {
        out.push(lower_char_exec(s[i]));
        i += 1;
        assert(out@ =~= lower(s@.take(i as int)));
    }
    assert(s@.take(i as int) =~= s@);
    out
}

/// `str::eq_ignore_ascii_case`.
pub open spec fn eq_ignore_case(a: Seq<char>, b: Seq<char>) -> bool {
    lower(a) == lower(b)
}

/// `str::eq_ignore_ascii_case`.
pub fn eq_ignore_case_exec(a: &[char], b: &[char]) -> (r: bool)
    ensures
        r == eq_ignore_case(a@, b@),
{
    if a.len() != b.len() {
        assert(lower(a@).len() != lower(b@).len());
        return false;
    }
    let mut i: usize = 0;
    while i < a.len()
        invariant
            a@.len() == b@.len(),
            i <= a@.len(),
            forall|j: int| 0 <= j < i ==> lower_char(a@[j]) == lower_char(b@[j]),
        decreases a@.len() - i,
    {
        if lower_char_exec(a[i]) != lower_char_exec(b[i]) {
            assert(lower(a@)[i as int] != lower(b@)[i as int]);
            return false;
        }
        i += 1;
    }
    assert(lower(a@) =~= lower(b@));
    true
}

/// A header line split at its first colon: the name in lower case and the
/// value without surrounding whitespace; `None` for a line without a colon.
pub open spec fn header_of_line(line: Seq<char>) -> Option<(Seq<char>, Seq<char>)> {
    match find_seq(line, seq![':']) {
        Some(i) => Some((lower(line.take(i as int)), trim(line.skip(i + 1 as int)))),
        None => None,
    }
}

/// The headers of a list of lines, in order, skipping lines without a colon.
pub open spec fn headers_of(lines: Seq<Seq<char>>) -> Seq<(Seq<char>, Seq<char>)>
    decreases lines.len(),
{
    if lines.len() == 0 {
        Seq::empty()
    } else {
        match header_of_line(lines.last()) {
            Some(h) => headers_of(lines.drop_last()).push(h),
            None => headers_of(lines.drop_last()),
        }
    }
}

/// The request or status line of an HTTP head.
pub open spec fn head_first_line(head: Seq<char>) -> Seq<char> {
    split_seq(head, "\r\n"@)[0]
}

/// The headers of an HTTP head, from its lines after the first.
pub open spec fn head_headers(head: Seq<char>) -> Seq<(Seq<char>, Seq<char>)> {
    headers_of(split_seq(head, "\r\n"@).drop_first())
}

/// The views of a list of headers.
pub open spec fn header_views(h: Seq<(String, String)>) -> Seq<(Seq<char>, Seq<char>)> {
    h.map_values(|p: (String, String)| (p.0@, p.1@))
}

/// Splitting always gives at least one piece.
pub proof fn lemma_split_nonempty(s: Seq<char>, sep: Seq<char>)
    ensures
        split_seq(s, sep).len() >= 1,
    decreases s.len(),
{
    if sep.len() > 0 {
        match find_seq(s, sep) {
            Some(i) => if i + sep.len() <= s.len() {
                lemma_split_nonempty(s.skip((i + sep.len()) as int), sep);
            },
            None => {},
        }
    }
}

/// Splits an HTTP head into its first line and its headers.
pub fn parse_headers(head: &str) -> (r: (String, Vec<(String, String)>))
    ensures
        r.0@ == head_first_line(head@),
        header_views(r.1@) == head_headers(head@),
{
    let s = chars_of(head);
    let sep = chars_of("\r\n");
    proof {
        reveal_strlit("\r\n");
    }
    let lines = split_exec(&s, &sep);
    proof {
        lemma_split_nonempty(s@, sep@);
    }
    let request = string_of(&lines[0]);
    let mut headers: Vec<(String, String)> = Vec::new();
    let colon = [':'];
    assert(colon@ =~= seq![':']);
    let mut i: usize = 1;
    while i < lines.len()
        invariant
            1 <= i <= lines@.len(),
            colon@ == seq![':'],
            views(lines@) == split_seq(head@, "\r\n"@),
            header_views(headers@) == headers_of(views(lines@).subrange(1, i as int)),
        decreases lines@.len() - i,
    {
        let line = &lines[i];
        let ghost before = headers@;
        match find(line, &colon) {
            Some(k) => {
                proof {
                    lemma_find_from(line@, colon@, 0);
                }
                let ll = line.len();
                assert(matches_at(line@, colon@, k as int));
                let name = lower_exec(&slice_of(line, 0, k));
                let value = trim_exec(&slice_of(line, k + 1, line.len()));
                headers.push((string_of(&name), string_of(&value)));
                assert(header_views(headers@) =~= header_views(before).push((name@, value@)));
            },
            None => {},
        }
        assert(views(lines@).subrange(1, i + 1).drop_last() =~= views(lines@).subrange(1, i as int));
        assert(views(lines@).subrange(1, i + 1).last() == line@);
        i += 1;
    }
    assert(views(lines@).subrange(1, i as int) =~= views(lines@).drop_first());
    (request, headers)
}


/// The version that the client announces in its user agent.
pub const VERSION: &'static str = "1.0.0";

/// The GUID that RFC 6455 appends to a key before hashing it.
pub const WS_GUID: &'static str = "258EAFA5-E914-47DA-95CA-C5AB0DC85B11";

/// Largest HTTP head that either side reads.
pub const MAX_HEAD: usize = 16384;

/// The value of the last header called `name` (in any letter case).
pub open spec fn last_header(hs: Seq<(Seq<char>, Seq<char>)>, name: Seq<char>) -> Option<Seq<char>>
    decreases hs.len(),
{
    if hs.len() == 0 {
        None
    } else if eq_ignore_case(hs.last().0, name) {
        Some(hs.last().1)
    } else {
        last_header(hs.drop_last(), name)
    }
}

/// The value of the last header called `name`, compared without regard to
/// ASCII letter case.
pub fn header<'a>(headers: &'a [(String, String)], name: &str) -> (r: Option<&'a str>)
    ensures
        r is None <==> last_header(header_views(headers@), name@) is None,
        r matches Some(v) ==> last_header(header_views(headers@), name@) == Some(v@),
{
    let wanted = chars_of(name);
    let mut i: usize = headers.len();
    assert(header_views(headers@).take(i as int) =~= header_views(headers@));
    while i > 0
        invariant
            i <= headers@.len(),
            wanted@ == name@,
            last_header(header_views(headers@), name@) == last_header(header_views(headers@).take(i as int), name@),
        decreases i,
    {
        let (n, v) = &headers[i - 1];
        let ghost part = header_views(headers@).take(i as int);
        assert(part.last() == (n@, v@));
        if eq_ignore_case_exec(&chars_of(n.as_str()), &wanted) {
            return Some(v.as_str());
        }
        assert(part.drop_last() =~= header_views(headers@).take(i - 1));
        i -= 1;
    }
    None
}

/// How far the bytes read so far go towards an HTTP head.
#[derive(PartialEq, Eq, Structural, Clone, Copy, Debug)]
pub enum HeadStatus {
    /// More bytes are needed.
    Incomplete,
    /// The bytes end with the blank line that ends the head.
    Complete,
    /// More than `MAX_HEAD` bytes and no end yet.
    TooLarge,
}

/// Whether the bytes read so far are a whole head, too much, or not yet
/// enough; the size is checked before the end.
pub open spec fn head_status_spec(buf: Seq<u8>) -> HeadStatus {
    if buf.len() > MAX_HEAD {
        HeadStatus::TooLarge
    } else if buf.len() >= 4 && buf.skip(buf.len() - 4) == seq![13u8, 10u8, 13u8, 10u8] {
        HeadStatus::Complete
    } else {
        HeadStatus::Incomplete
    }
}

/// Whether the bytes read so far are a whole head, too much, or not yet
/// enough.
pub fn head_status(buf: &[u8]) -> (r: HeadStatus)
    ensures
        r == head_status_spec(buf@),
{
    let n = buf.len();
    if n > MAX_HEAD {
        return HeadStatus::TooLarge;
    }
    if n >= 4 && buf[n - 4] == 13 && buf[n - 3] == 10 && buf[n - 2] == 13 && buf[n - 1] == 10 {
        assert(buf@.skip(n - 4) =~= seq![13u8, 10u8, 13u8, 10u8]);
        return HeadStatus::Complete;
    }
    if n >= 4 {
        assert(buf@.skip(n - 4)[0] == buf@[n - 4]);
        assert(buf@.skip(n - 4)[1] == buf@[n - 3]);
        assert(buf@.skip(n - 4)[2] == buf@[n - 2]);
        assert(buf@.skip(n - 4)[3] == buf@[n - 1]);
    }
    HeadStatus::Incomplete
}

/// `Sec-WebSocket-Accept` for a key: base64 of the SHA-1 of the key followed
/// by the GUID, as UTF-8.
pub open spec fn accept_spec(key: Seq<char>) -> Seq<char> {
    base64_spec(sha1_spec(encode_utf8(key + WS_GUID@)))
}

/// The `Sec-WebSocket-Accept` value that answers `client_key`.
pub fn accept_key(client_key: &str) -> (r: String)
    ensures
        r@ == accept_spec(client_key@),
{
    let mut text: Vec<char> = chars_of(client_key);
    push_str(&mut text, WS_GUID);
    let joined = string_of(&text);
    let digest = sha1(joined.as_str().as_bytes());
    string_of(&base64(&digest))
}

/// The upgrade request of the client.
pub open spec fn request_text(path: Seq<char>, host: Seq<char>, key: Seq<char>, token: Option<Seq<char>>) -> Seq<char> {
    "GET "@ + path + " HTTP/1.1\r\nHost: "@ + host
        + "\r\nUpgrade: websocket\r\nConnection: Upgrade\r\nSec-WebSocket-Version: 13\r\nSec-WebSocket-Key: "@
        + key + "\r\nUser-Agent: rush/"@ + VERSION@ + "\r\n"@ + match token {
        Some(t) => "Authorization: Bearer "@ + t + "\r\n"@,
        None => Seq::empty(),
    } + "\r\n"@
}

/// Builds the upgrade request of the client, with the token when there is one.
pub fn upgrade_request(path: &str, host: &str, key: &str, token: Option<&str>) -> (r: String)
    ensures
        r@ == request_text(
            path@,
            host@,
            key@,
            match token {
                Some(t) => Some(t@),
                None => None,
            },
        ),
{
    let mut out: Vec<char> = Vec::new();
    push_str(&mut out, "GET ");
    push_str(&mut out, path);
    push_str(&mut out, " HTTP/1.1\r\nHost: ");
    push_str(&mut out, host);
    push_str(
        &mut out,
        "\r\nUpgrade: websocket\r\nConnection: Upgrade\r\nSec-WebSocket-Version: 13\r\nSec-WebSocket-Key: ",
    );
    push_str(&mut out, key);
    push_str(&mut out, "\r\nUser-Agent: rush/");
    push_str(&mut out, VERSION);
    push_str(&mut out, "\r\n");
    let ghost before = out@;
    match token {
        Some(t) => {
            push_str(&mut out, "Authorization: Bearer ");
            push_str(&mut out, t);
            push_str(&mut out, "\r\n");
        },
        None => {},
    }
    push_str(&mut out, "\r\n");
    let ghost tok = match token {
        Some(t) => Some(t@),
        None => None,
    };
    assert(out@ =~= request_text(path@, host@, key@, tok));
    string_of(&out)
}

/// Whether the client accepts the server's answer: the status line starts
/// with `HTTP/1.1 101` and the last `Sec-WebSocket-Accept` header answers the key.
pub open spec fn response_ok_spec(head: Seq<char>, key: Seq<char>) -> bool {
    has_prefix(head_first_line(head), "HTTP/1.1 101"@) && last_header(head_headers(head), "sec-websocket-accept"@)
        == Some(accept_spec(key))
}

/// Whether the client accepts the server's answer to its upgrade request.
pub fn check_upgrade_response(head: &str, key: &str) -> (r: bool)
    ensures
        r == response_ok_spec(head@, key@),
{
    let (status, headers) = parse_headers(head);
    if !starts_with(&chars_of(status.as_str()), &chars_of("HTTP/1.1 101")) {
        return false;
    }
    let expected = accept_key(key);
    match header(&headers, "sec-websocket-accept") {
        Some(v) => same_text(v, expected.as_str()),
        None => false,
    }
}

/// Whether two strings hold the same characters.
pub fn same_text(a: &str, b: &str) -> (r: bool)
    ensures
        r == (a@ == b@),
{
    crate::text::same_chars(&chars_of(a), &chars_of(b))
}

/// The server's answer to an upgrade request.
pub enum UpgradeAnswer {
    /// Accept, with this response.
    Accept(String),
    /// Not a websocket upgrade: not a `GET`, no `Upgrade: websocket`, or no key.
    Invalid,
    /// A client that is not rush; it gets `FORBIDDEN_RESPONSE`.
    Forbidden,
    /// The token is missing or wrong; the connection is dropped after a delay.
    BadToken,
}

/// The answer to a client that is not rush.
pub const FORBIDDEN_RESPONSE: &'static str = "HTTP/1.1 403 Forbidden\r\nConnection: close\r\nContent-Length: 0\r\n\r\n";

/// The response that accepts an upgrade with key `key`.
pub open spec fn accept_response_text(key: Seq<char>) -> Seq<char> {
    "HTTP/1.1 101 Switching Protocols\r\nUpgrade: websocket\r\nConnection: Upgrade\r\nSec-WebSocket-Accept: "@
        + accept_spec(key) + "\r\n\r\n"@
}

/// The server's answer, as a value.
pub enum AnswerKind {
    Accept(Seq<char>),
    Invalid,
    Forbidden,
    BadToken,
}

/// How the server answers an upgrade request: it must be a `GET` with
/// `Upgrade: websocket` (any case) and a key; its user agent must be rush's;
/// with a token, its `Authorization` must be `Bearer TOKEN`.
pub open spec fn answer_spec(head: Seq<char>, token: Option<Seq<char>>) -> AnswerKind {
    let hs = head_headers(head);
    let key = match last_header(hs, "sec-websocket-key"@) {
        Some(k) => k,
        None => Seq::empty(),
    };
    let upgrade_ok = match last_header(hs, "upgrade"@) {
        Some(v) => eq_ignore_case(v, "websocket"@),
        None => false,
    };
    let rush_client = match last_header(hs, "user-agent"@) {
        Some(ua) => has_prefix(ua, "rush/"@),
        None => false,
    };
    if !has_prefix(head_first_line(head), "GET "@) || !upgrade_ok || key.len() == 0 {
        AnswerKind::Invalid
    } else if !rush_client {
        AnswerKind::Forbidden
    } else if token matches Some(t) && last_header(hs, "authorization"@) != Some("Bearer "@ + t) {
        AnswerKind::BadToken
    } else {
        AnswerKind::Accept(accept_response_text(key))
    }
}

/// Decides the server's answer to an upgrade request.
pub fn answer_upgrade(head: &str, token: Option<&str>) -> (r: UpgradeAnswer)
    ensures
        match (
            r,
            answer_spec(
                head@,
                match token {
                    Some(t) => Some(t@),
                    None => None,
                },
            ),
        ) {
            (UpgradeAnswer::Accept(s), AnswerKind::Accept(t)) => s@ == t,
            (UpgradeAnswer::Invalid, AnswerKind::Invalid) => true,
            (UpgradeAnswer::Forbidden, AnswerKind::Forbidden) => true,
            (UpgradeAnswer::BadToken, AnswerKind::BadToken) => true,
            _ => false,
        },
{
    let (request, headers) = parse_headers(head);
    let key: Vec<char> = match header(&headers, "sec-websocket-key") {
        Some(k) => chars_of(k),
        None => Vec::new(),
    };
    let upgrade_ok = match header(&headers, "upgrade") {
        Some(v) => eq_ignore_case_exec(&chars_of(v), &chars_of("websocket")),
        None => false,
    };
    if !starts_with(&chars_of(request.as_str()), &chars_of("GET ")) || !upgrade_ok || key.len() == 0 {
        return UpgradeAnswer::Invalid;
    }
    let rush_client = match header(&headers, "user-agent") {
        Some(ua) => starts_with(&chars_of(ua), &chars_of("rush/")),
        None => false,
    };
    if !rush_client {
        return UpgradeAnswer::Forbidden;
    }
    match token {
        Some(t) => {
            let mut expected: Vec<char> = Vec::new();
            push_str(&mut expected, "Bearer ");
            push_str(&mut expected, t);
            let expected = string_of(&expected);
            let ok = match header(&headers, "authorization") {
                Some(v) => {
                    let r = ct_eq(v.as_bytes(), expected.as_str().as_bytes());
                    proof {
                        encode_utf8_decode_utf8(v@);
                        encode_utf8_decode_utf8(expected@);
                    }
                    r
                },
                None => false,
            };
            if !ok {
                return UpgradeAnswer::BadToken;
            }
        },
        None => {},
    }
    let key_text = string_of(&key);
    let mut out: Vec<char> = Vec::new();
    push_str(
        &mut out,
        "HTTP/1.1 101 Switching Protocols\r\nUpgrade: websocket\r\nConnection: Upgrade\r\nSec-WebSocket-Accept: ",
    );
    let accept = accept_key(key_text.as_str());
    push_str(&mut out, accept.as_str());
    push_str(&mut out, "\r\n\r\n");
    UpgradeAnswer::Accept(string_of(&out))
}

} // verus!
