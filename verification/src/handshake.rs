//! What the two ends of the upgrade agree on: the request that the client
//! builds is accepted by a server that holds the same token (or none), any
//! other token is refused, and the server's acceptance satisfies the client.
use vstd::prelude::*;
use crate::http::{
    split_seq, lower, lower_char, header_of_line, headers_of, head_first_line,
    head_headers, last_header, request_text, answer_spec, AnswerKind, accept_response_text,
    response_ok_spec, accept_spec, VERSION,
};
use crate::crypto::{base64_spec, b64_digit};
use crate::text::{
    is_ws, ws_run, ws_run_end, trim, has_prefix, lemma_find_first, lemma_no_first_char,
};

verus! {

broadcast use vstd::string::group_string_axioms;

/// Text that fits in one line of an HTTP head: no carriage return and no
/// line feed.
pub open spec fn line_safe(s: Seq<char>) -> bool {
    forall|i: int| 0 <= i < s.len() ==> s[i] != '\r' && s[i] != '\n'
}

/// A header value that a reader gets back unchanged: one line, not empty,
/// and no whitespace at either end.
pub open spec fn plain_value(s: Seq<char>) -> bool {
    &&& line_safe(s)
    &&& s.len() > 0
    &&& !is_ws(s[0])
    &&& !is_ws(s.last())
}

/// The lines of a head, each followed by CR LF.
pub open spec fn join_lines(lines: Seq<Seq<char>>) -> Seq<char>
    decreases lines.len(),
{
    if lines.len() == 0 {
        Seq::empty()
    } else {
        lines[0] + "\r\n"@ + join_lines(lines.drop_first())
    }
}

/// A line followed by CR LF is split off as the first piece.
proof fn lemma_split_line(a: Seq<char>, rest: Seq<char>)
    requires
        line_safe(a),
    ensures
        split_seq(a + "\r\n"@ + rest, "\r\n"@) == seq![a] + split_seq(rest, "\r\n"@),
{
    reveal_strlit("\r\n");
    let crlf = "\r\n"@;
    let h = a + crlf + rest;
    let k = a.len() as int;
    assert(h.subrange(k, k + 2) =~= crlf);
    assert forall|j: int| 0 <= j < k && 0 <= j < h.len() implies h[j] != crlf[0] by {
        assert(h[j] == a[j]);
    }
    lemma_no_first_char(h, crlf, 0, k);
    lemma_find_first(h, crlf, k);
    assert(h.take(k) =~= a);
    assert(h.skip(k + 2) =~= rest);
}

/// Lines that hold no line break are split back into the same lines.
proof fn lemma_split_join(lines: Seq<Seq<char>>, rest: Seq<char>)
    requires
        forall|i: int| 0 <= i < lines.len() ==> line_safe(#[trigger] lines[i]),
    ensures
        split_seq(join_lines(lines) + rest, "\r\n"@) == lines + split_seq(rest, "\r\n"@),
    decreases lines.len(),
{
    if lines.len() == 0 {
        assert(join_lines(lines) + rest =~= rest);
        assert(lines + split_seq(rest, "\r\n"@) =~= split_seq(rest, "\r\n"@));
    } else {
        let tail = lines.drop_first();
        assert(line_safe(lines[0]));
        lemma_split_join(tail, rest);
        assert(join_lines(lines) + rest =~= lines[0] + "\r\n"@ + (join_lines(tail) + rest));
        lemma_split_line(lines[0], join_lines(tail) + rest);
        assert(lines =~= seq![lines[0]] + tail);
        assert(seq![lines[0]] + (tail + split_seq(rest, "\r\n"@)) =~= lines + split_seq(rest, "\r\n"@));
    }
}

/// A head ends with an empty line: the split ends with two empty pieces.
proof fn lemma_split_blank()
    ensures
        split_seq("\r\n"@, "\r\n"@) == seq![Seq::<char>::empty(), Seq::<char>::empty()],
{
    reveal_strlit("\r\n");
    let e = Seq::<char>::empty();
    assert(e + "\r\n"@ + e =~= "\r\n"@);
    lemma_split_line(e, e);
    assert(split_seq(e, "\r\n"@) == seq![e]);
    assert(seq![e] + seq![e] =~= seq![e, e]);
}

/// A header line whose name holds no colon reads back as that name in
/// lower case and the value without surrounding whitespace.
proof fn lemma_header_line(name: Seq<char>, value: Seq<char>)
    requires
        forall|i: int| 0 <= i < name.len() ==> name[i] != ':',
    ensures
        header_of_line(name + ": "@ + value) == Some((lower(name), trim(" "@ + value))),
{
    reveal_strlit(": ");
    reveal_strlit(" ");
    let line = name + ": "@ + value;
    let k = name.len() as int;
    assert(line.subrange(k, k + 1) =~= seq![':']);
    assert forall|j: int| 0 <= j < k && 0 <= j < line.len() implies line[j] != seq![':'][0] by {
        assert(line[j] == name[j]);
    }
    lemma_no_first_char(line, seq![':'], 0, k);
    lemma_find_first(line, seq![':'], k);
    assert(line.take(k) =~= name);
    assert(line.skip(k + 1) =~= " "@ + value);
}

/// A value with no whitespace at its ends, after one space, is read back
/// as it is.
proof fn lemma_trim_value(v: Seq<char>)
    requires
        v.len() > 0,
        !is_ws(v[0]),
        !is_ws(v.last()),
    ensures
        trim(" "@ + v) == v,
{
    reveal_strlit(" ");
    let s = " "@ + v;
    assert(s.drop_first() =~= v);
    assert(ws_run(v) == 0);
    assert(ws_run(s) == 1);
    assert(s.skip(1) =~= v);
    assert(ws_run_end(v) == 0);
    assert(v.take(v.len() as int) =~= v);
}

/// Lower case twice is lower case once.
proof fn lemma_lower_twice(s: Seq<char>)
    ensures
        lower(lower(s)) == lower(s),
{
    assert forall|i: int| 0 <= i < s.len() implies #[trigger] lower_char(lower_char(s[i])) == lower_char(s[i]) by {
        let c = s[i];
        if 'A' <= c && c <= 'Z' {
            assert('a' <= lower_char(c) && lower_char(c) <= 'z');
        }
    }
    assert(lower(lower(s)) =~= lower(s));
}

/// Lines that are skipped because they hold no colon add no header.
proof fn lemma_headers_skip(lines: Seq<Seq<char>>, line: Seq<char>)
    requires
        header_of_line(line) is None,
    ensures
        headers_of(lines.push(line)) == headers_of(lines),
{
    assert(lines.push(line).drop_last() =~= lines);
}

/// The lines of the client's upgrade request, before the blank line that
/// ends it.
pub open spec fn request_lines(path: Seq<char>, host: Seq<char>, key: Seq<char>, token: Option<Seq<char>>) -> Seq<Seq<char>> {
    seq![
        "GET "@ + path + " HTTP/1.1"@,
        "Host"@ + ": "@ + host,
        "Upgrade"@ + ": "@ + "websocket"@,
        "Connection"@ + ": "@ + "Upgrade"@,
        "Sec-WebSocket-Version"@ + ": "@ + "13"@,
        "Sec-WebSocket-Key"@ + ": "@ + key,
        "User-Agent"@ + ": "@ + ("rush/"@ + VERSION@),
    ] + match token {
        Some(t) => seq!["Authorization"@ + ": "@ + ("Bearer "@ + t)],
        None => Seq::empty(),
    }
}

/// The client's request is its lines, each ended by CR LF, then a blank line.
proof fn lemma_request_is_lines(path: Seq<char>, host: Seq<char>, key: Seq<char>, token: Option<Seq<char>>)
    ensures
        request_text(path, host, key, token) == join_lines(request_lines(path, host, key, token)) + "\r\n"@,
{
    reveal_strlit("GET ");
    reveal_strlit(" HTTP/1.1");
    reveal_strlit(" HTTP/1.1\r\nHost: ");
    reveal_strlit("Host");
    reveal_strlit(": ");
    reveal_strlit("Upgrade");
    reveal_strlit("websocket");
    reveal_strlit("Connection");
    reveal_strlit("13");
    reveal_strlit("Sec-WebSocket-Version");
    reveal_strlit("Sec-WebSocket-Key");
    reveal_strlit("\r\nUpgrade: websocket\r\nConnection: Upgrade\r\nSec-WebSocket-Version: 13\r\nSec-WebSocket-Key: ");
    reveal_strlit("\r\nUser-Agent: rush/");
    reveal_strlit("User-Agent");
    reveal_strlit("rush/");
    reveal_strlit("\r\n");
    reveal_strlit("Authorization: Bearer ");
    reveal_strlit("Authorization");
    reveal_strlit("Bearer ");
    let ls = request_lines(path, host, key, token);
    let crlf = "\r\n"@;
    reveal_with_fuel(join_lines, 9);
    assert(request_text(path, host, key, token) =~= join_lines(ls) + crlf);
}

/// Concatenated one-line texts are one line.
proof fn lemma_line_safe_concat(a: Seq<char>, b: Seq<char>)
    requires
        line_safe(a),
        line_safe(b),
    ensures
        line_safe(a + b),
{
    assert forall|i: int| 0 <= i < (a + b).len() implies (a + b)[i] != '\r' && (a + b)[i] != '\n' by {
        if i < a.len() {
            assert((a + b)[i] == a[i]);
        } else {
            assert((a + b)[i] == b[i - a.len()]);
        }
    }
}

/// Lines that all carry a header give one header each, in order.
proof fn lemma_headers_all(lines: Seq<Seq<char>>)
    requires
        forall|i: int| 0 <= i < lines.len() ==> (#[trigger] header_of_line(lines[i])) is Some,
    ensures
        headers_of(lines) == lines.map_values(|l: Seq<char>| header_of_line(l)->0),
    decreases lines.len(),
{
    if lines.len() > 0 {
        let init = lines.drop_last();
        assert forall|i: int| 0 <= i < init.len() implies (#[trigger] header_of_line(init[i])) is Some by {
            assert(init[i] == lines[i]);
        }
        lemma_headers_all(init);
        assert(header_of_line(lines[lines.len() - 1]) is Some);
        assert(lines.map_values(|l: Seq<char>| header_of_line(l)->0) =~= init.map_values(
            |l: Seq<char>| header_of_line(l)->0,
        ).push(header_of_line(lines.last())->0));
    }
}

/// How the server reads the client's request: its first line, and each
/// header line as one header.
proof fn lemma_request_parsed(path: Seq<char>, host: Seq<char>, key: Seq<char>, token: Option<Seq<char>>)
    requires
        line_safe(path),
        line_safe(host),
        line_safe(key),
        token matches Some(t) ==> line_safe(t),
    ensures
        head_first_line(request_text(path, host, key, token)) == "GET "@ + path + " HTTP/1.1"@,
        head_headers(request_text(path, host, key, token)) == request_lines(path, host, key, token).drop_first().map_values(
            |l: Seq<char>| header_of_line(l)->0,
        ),
{
    reveal_strlit("GET ");
    reveal_strlit(" HTTP/1.1");
    reveal_strlit("Host");
    reveal_strlit(": ");
    reveal_strlit("Upgrade");
    reveal_strlit("websocket");
    reveal_strlit("Connection");
    reveal_strlit("13");
    reveal_strlit("Sec-WebSocket-Version");
    reveal_strlit("Sec-WebSocket-Key");
    reveal_strlit("User-Agent");
    reveal_strlit("rush/");
    reveal_strlit("1.0.0");
    reveal_strlit("Authorization");
    reveal_strlit("Bearer ");
    reveal_strlit("\r\n");
    let ls = request_lines(path, host, key, token);
    let req = request_text(path, host, key, token);
    let e = Seq::<char>::empty();
    lemma_request_is_lines(path, host, key, token);
    assert(line_safe("GET "@));
    assert(line_safe(" HTTP/1.1"@));
    assert(line_safe(": "@));
    assert(line_safe("rush/"@ + VERSION@));
    lemma_line_safe_concat("GET "@, path);
    lemma_line_safe_concat("GET "@ + path, " HTTP/1.1"@);
    lemma_line_safe_concat("Host"@, ": "@);
    lemma_line_safe_concat("Host"@ + ": "@, host);
    lemma_line_safe_concat("Sec-WebSocket-Key"@, ": "@);
    lemma_line_safe_concat("Sec-WebSocket-Key"@ + ": "@, key);
    assert(line_safe(ls[2]));
    assert(line_safe(ls[3]));
    assert(line_safe(ls[4]));
    assert(line_safe(ls[6]));
    if let Some(t) = token {
        assert(line_safe("Authorization"@ + ": "@ + "Bearer "@));
        lemma_line_safe_concat("Authorization"@ + ": "@ + "Bearer "@, t);
        assert("Authorization"@ + ": "@ + "Bearer "@ + t =~= "Authorization"@ + ": "@ + ("Bearer "@ + t));
        assert(line_safe(ls[7]));
    }
    assert forall|i: int| 0 <= i < ls.len() implies line_safe(#[trigger] ls[i]) by {}
    lemma_split_join(ls, "\r\n"@);
    lemma_split_blank();
    let pieces = split_seq(req, "\r\n"@);
    assert(pieces == ls + seq![e, e]);
    assert(pieces[0] == ls[0]);
    let hl = ls.drop_first();
    assert(pieces.drop_first() =~= hl.push(e).push(e));
    assert(header_of_line(e) is None);
    lemma_headers_skip(hl.push(e), e);
    lemma_headers_skip(hl, e);
    assert forall|c: int| 0 <= c < hl.len() implies (#[trigger] header_of_line(hl[c])) is Some by {
        if c == 0 {
            lemma_header_line("Host"@, host);
        } else if c == 1 {
            lemma_header_line("Upgrade"@, "websocket"@);
        } else if c == 2 {
            lemma_header_line("Connection"@, "Upgrade"@);
        } else if c == 3 {
            lemma_header_line("Sec-WebSocket-Version"@, "13"@);
        } else if c == 4 {
            lemma_header_line("Sec-WebSocket-Key"@, key);
        } else if c == 5 {
            lemma_header_line("User-Agent"@, "rush/"@ + VERSION@);
        } else {
            let t = token->0;
            lemma_header_line("Authorization"@, "Bearer "@ + t);
        }
    }
    lemma_headers_all(hl);
}

/// The headers the server finds in the client's request, by the names it
/// looks up.
proof fn lemma_request_lookups(path: Seq<char>, host: Seq<char>, key: Seq<char>, token: Option<Seq<char>>)
    requires
        line_safe(path),
        line_safe(host),
        line_safe(key),
        token matches Some(t) ==> line_safe(t),
    ensures
        has_prefix(head_first_line(request_text(path, host, key, token)), "GET "@),
        last_header(head_headers(request_text(path, host, key, token)), "sec-websocket-key"@) == Some(trim(" "@ + key)),
        last_header(head_headers(request_text(path, host, key, token)), "upgrade"@) == Some(trim(" "@ + "websocket"@)),
        last_header(head_headers(request_text(path, host, key, token)), "user-agent"@) == Some(
            trim(" "@ + ("rush/"@ + VERSION@)),
        ),
        last_header(head_headers(request_text(path, host, key, token)), "authorization"@) == match token {
            Some(t) => Some(trim(" "@ + ("Bearer "@ + t))),
            None => None,
        },
{
    reveal_strlit("GET ");
    reveal_strlit(" HTTP/1.1");
    reveal_strlit("Host");
    reveal_strlit("Upgrade");
    reveal_strlit("websocket");
    reveal_strlit("Connection");
    reveal_strlit("13");
    reveal_strlit("Sec-WebSocket-Version");
    reveal_strlit("Sec-WebSocket-Key");
    reveal_strlit("User-Agent");
    reveal_strlit("Authorization");
    reveal_strlit("sec-websocket-key");
    reveal_strlit("upgrade");
    reveal_strlit("user-agent");
    reveal_strlit("authorization");
    lemma_request_parsed(path, host, key, token);
    let req = request_text(path, host, key, token);
    assert(head_first_line(req).take(4) =~= "GET "@);
    let ls = request_lines(path, host, key, token);
    let hl = ls.drop_first();
    lemma_header_line("Host"@, host);
    lemma_header_line("Upgrade"@, "websocket"@);
    lemma_header_line("Connection"@, "Upgrade"@);
    lemma_header_line("Sec-WebSocket-Version"@, "13"@);
    lemma_header_line("Sec-WebSocket-Key"@, key);
    lemma_header_line("User-Agent"@, "rush/"@ + VERSION@);
    let six = seq![
        (lower("Host"@), trim(" "@ + host)),
        (lower("Upgrade"@), trim(" "@ + "websocket"@)),
        (lower("Connection"@), trim(" "@ + "Upgrade"@)),
        (lower("Sec-WebSocket-Version"@), trim(" "@ + "13"@)),
        (lower("Sec-WebSocket-Key"@), trim(" "@ + key)),
        (lower("User-Agent"@), trim(" "@ + ("rush/"@ + VERSION@))),
    ];
    let hs = head_headers(req);
    lemma_lower_twice("Host"@);
    lemma_lower_twice("Upgrade"@);
    lemma_lower_twice("Connection"@);
    lemma_lower_twice("Sec-WebSocket-Version"@);
    lemma_lower_twice("Sec-WebSocket-Key"@);
    lemma_lower_twice("User-Agent"@);
    lemma_lower_twice("Authorization"@);
    assert(lower("Sec-WebSocket-Key"@) =~= lower("sec-websocket-key"@));
    assert(lower("Upgrade"@) =~= lower("upgrade"@));
    assert(lower("User-Agent"@) =~= lower("user-agent"@));
    assert(lower("Authorization"@) =~= lower("authorization"@));
    assert(lower("Connection"@)[0] != lower("user-agent"@)[0]);
    reveal_with_fuel(last_header, 8);
    match token {
        Some(t) => {
            lemma_header_line("Authorization"@, "Bearer "@ + t);
            assert(hs =~= six.push((lower("Authorization"@), trim(" "@ + ("Bearer "@ + t)))));
            assert(hs.drop_last() =~= six);
        },
        None => {
            assert(hs =~= six);
        },
    }
    assert(six.drop_last().drop_last() =~= six.take(4));
    assert(six.take(4).drop_last() =~= six.take(3));
    assert(six.take(3).drop_last() =~= six.take(2));
    assert(six.take(2).drop_last() =~= six.take(1));
    assert(six.take(1).drop_last() =~= Seq::<(Seq<char>, Seq<char>)>::empty());
}

/// A value with no whitespace at its ends keeps that after "Bearer ".
proof fn lemma_bearer_plain(t: Seq<char>)
    requires
        plain_value(t),
    ensures
        trim(" "@ + ("Bearer "@ + t)) == "Bearer "@ + t,
{
    reveal_strlit("Bearer ");
    let v = "Bearer "@ + t;
    assert(v[0] == 'B');
    assert(v.last() == t.last());
    lemma_trim_value(v);
}

/// The values that rush writes for `Upgrade` and `User-Agent` read back as
/// written.
proof fn lemma_fixed_values()
    ensures
        trim(" "@ + "websocket"@) == "websocket"@,
        trim(" "@ + ("rush/"@ + VERSION@)) == "rush/"@ + VERSION@,
        has_prefix("rush/"@ + VERSION@, "rush/"@),
{
    reveal_strlit("websocket");
    reveal_strlit("rush/");
    reveal_strlit("1.0.0");
    lemma_trim_value("websocket"@);
    let ua = "rush/"@ + VERSION@;
    assert(ua.last() == '0');
    lemma_trim_value(ua);
    assert(ua.take(5) =~= "rush/"@);
}

/// The server accepts the upgrade request that the client builds, as long
/// as the path and host are one line each, the key is a plain header value,
/// and the client carries the server's token whenever the server has one
/// (itself a plain header value). The answer is the acceptance for that key.
pub proof fn lemma_handshake_accepted(
    path: Seq<char>,
    host: Seq<char>,
    key: Seq<char>,
    token: Option<Seq<char>>,
    server_token: Option<Seq<char>>,
)
    requires
        line_safe(path),
        line_safe(host),
        plain_value(key),
        token matches Some(t) ==> plain_value(t),
        server_token matches Some(s) ==> token == Some(s),
    ensures
        answer_spec(request_text(path, host, key, token), server_token) == AnswerKind::Accept(
            accept_response_text(key),
        ),
{
    lemma_request_lookups(path, host, key, token);
    lemma_trim_value(key);
    lemma_fixed_values();
    if let Some(t) = token {
        lemma_bearer_plain(t);
    }
}

/// A server that holds a token refuses a request that carries no token or
/// another one.
pub proof fn lemma_wrong_token_refused(
    path: Seq<char>,
    host: Seq<char>,
    key: Seq<char>,
    token: Option<Seq<char>>,
    server_token: Seq<char>,
)
    requires
        line_safe(path),
        line_safe(host),
        plain_value(key),
        token matches Some(t) ==> plain_value(t),
        token != Some(server_token),
    ensures
        answer_spec(request_text(path, host, key, token), Some(server_token)) == AnswerKind::BadToken,
{
    lemma_request_lookups(path, host, key, token);
    lemma_trim_value(key);
    lemma_fixed_values();
    if let Some(t) = token {
        lemma_bearer_plain(t);
        reveal_strlit("Bearer ");
        if "Bearer "@ + t == "Bearer "@ + server_token {
            assert(t =~= ("Bearer "@ + t).skip(7));
            assert(server_token =~= ("Bearer "@ + server_token).skip(7));
        }
    }
}

/// No character of a base64 text is whitespace.
proof fn lemma_base64_no_ws(data: Seq<u8>)
    ensures
        forall|i: int| 0 <= i < base64_spec(data).len() ==> !is_ws(#[trigger] base64_spec(data)[i]),
    decreases data.len(),
{
    assert forall|v: nat| !is_ws(#[trigger] b64_digit(v)) by {}
    if data.len() >= 3 {
        lemma_base64_no_ws(data.skip(3));
        let head = seq![
            b64_digit(data[0] as nat / 4),
            b64_digit((data[0] as nat % 4) * 16 + data[1] as nat / 16),
            b64_digit((data[1] as nat % 16) * 4 + data[2] as nat / 64),
            b64_digit(data[2] as nat % 64),
        ];
        assert forall|i: int| 0 <= i < base64_spec(data).len() implies !is_ws(#[trigger] base64_spec(data)[i]) by {
            if i < 4 {
                assert(base64_spec(data)[i] == head[i]);
            } else {
                assert(base64_spec(data)[i] == base64_spec(data.skip(3))[i - 4]);
            }
        }
    }
}

/// Text without whitespace, after one space, is read back as it is.
proof fn lemma_trim_no_ws(v: Seq<char>)
    requires
        forall|i: int| 0 <= i < v.len() ==> !is_ws(#[trigger] v[i]),
    ensures
        trim(" "@ + v) == v,
{
    if v.len() > 0 {
        assert(!is_ws(v[0]));
        assert(!is_ws(v[v.len() - 1]));
        lemma_trim_value(v);
    } else {
        reveal_strlit(" ");
        let s = " "@ + v;
        assert(s.drop_first() =~= v);
        assert(is_ws(s[0]));
        assert(ws_run(v) == 0);
        assert(ws_run(s) == 1);
        assert(s.skip(1) =~= v);
        assert(v.take(0) =~= v);
    }
}

/// The lines of the server's acceptance, before the blank line.
pub open spec fn acceptance_lines(key: Seq<char>) -> Seq<Seq<char>> {
    seq![
        "HTTP/1.1 101 Switching Protocols"@,
        "Upgrade"@ + ": "@ + "websocket"@,
        "Connection"@ + ": "@ + "Upgrade"@,
        "Sec-WebSocket-Accept"@ + ": "@ + accept_spec(key),
    ]
}

/// The client accepts the server's acceptance of its key.
pub proof fn lemma_acceptance_accepted(key: Seq<char>)
    ensures
        response_ok_spec(accept_response_text(key), key),
{
    reveal_strlit("HTTP/1.1 101 Switching Protocols");
    reveal_strlit("HTTP/1.1 101 Switching Protocols\r\nUpgrade: websocket\r\nConnection: Upgrade\r\nSec-WebSocket-Accept: ");
    reveal_strlit("HTTP/1.1 101");
    reveal_strlit("Upgrade");
    reveal_strlit("websocket");
    reveal_strlit("Connection");
    reveal_strlit("Sec-WebSocket-Accept");
    reveal_strlit("sec-websocket-accept");
    reveal_strlit(": ");
    reveal_strlit("\r\n");
    reveal_strlit("\r\n\r\n");
    let acc = accept_spec(key);
    lemma_base64_no_ws(crate::crypto::sha1_spec(vstd::utf8::encode_utf8(key + crate::http::WS_GUID@)));
    assert forall|i: int| 0 <= i < acc.len() implies !is_ws(#[trigger] acc[i]) by {}
    assert(line_safe(acc)) by {
        assert forall|i: int| 0 <= i < acc.len() implies acc[i] != '\r' && acc[i] != '\n' by {
            assert(!is_ws(acc[i]));
        }
    }
    let ls = acceptance_lines(key);
    let text = accept_response_text(key);
    reveal_with_fuel(join_lines, 5);
    assert(text =~= join_lines(ls) + "\r\n"@);
    assert(line_safe(ls[0]));
    assert(line_safe(ls[1]));
    assert(line_safe(ls[2]));
    assert(line_safe("Sec-WebSocket-Accept"@ + ": "@));
    lemma_line_safe_concat("Sec-WebSocket-Accept"@ + ": "@, acc);
    assert forall|i: int| 0 <= i < ls.len() implies line_safe(#[trigger] ls[i]) by {}
    lemma_split_join(ls, "\r\n"@);
    lemma_split_blank();
    let e = Seq::<char>::empty();
    let pieces = split_seq(text, "\r\n"@);
    assert(pieces == ls + seq![e, e]);
    assert(pieces[0] == ls[0]);
    assert(ls[0].take(12) =~= "HTTP/1.1 101"@);
    let hl = ls.drop_first();
    assert(pieces.drop_first() =~= hl.push(e).push(e));
    assert(header_of_line(e) is None);
    lemma_headers_skip(hl.push(e), e);
    lemma_headers_skip(hl, e);
    lemma_header_line("Upgrade"@, "websocket"@);
    lemma_header_line("Connection"@, "Upgrade"@);
    lemma_header_line("Sec-WebSocket-Accept"@, acc);
    assert forall|c: int| 0 <= c < hl.len() implies (#[trigger] header_of_line(hl[c])) is Some by {}
    lemma_headers_all(hl);
    let hs = head_headers(text);
    assert(hs.last() == (lower("Sec-WebSocket-Accept"@), trim(" "@ + acc)));
    lemma_lower_twice("Sec-WebSocket-Accept"@);
    assert(lower("Sec-WebSocket-Accept"@) =~= lower("sec-websocket-accept"@));
    lemma_trim_no_ws(acc);
}

} // verus!
