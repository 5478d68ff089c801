//! Websocket addresses: `ws://` URLs, and the host arguments of the client.
use vstd::prelude::*;
use crate::text::{
    all_digits,    chars_of, contains_char, find, find_seq, has_prefix, is_alpha, is_digit, lemma_find_from,
    parse_unsigned, parse_unsigned_exec, push_all, push_decimal, push_str, rfind_char,
    rfind_char_exec, slice_of, starts_with, string_of, decimal, lemma_decimal, lemma_no_first_char, lemma_find_first,
};

verus! {

broadcast use vstd::string::group_string_axioms;

/// A parsed `ws://` URL.
pub struct Uri {
    pub host: String,
    pub port: u16,
    pub path: String,
}

/// Why a `wss://` URL is refused.
pub open spec fn wss_message() -> Seq<char> {
    "wss:// is not supported by this build; put the server behind a TLS proxy and use ws://"@
}

/// The host, port and path of a `ws://` URL, or why it is refused. The path
/// starts at the first `/` after the scheme (`/` when there is none); a host in
/// square brackets may be followed by `:PORT`; otherwise the port follows the
/// last colon, and the host before it must hold no colon; the port is 80 when
/// none is given.
pub open spec fn parse_uri_spec(raw: Seq<char>) -> Result<(Seq<char>, nat, Seq<char>), Seq<char>> {
    if has_prefix(raw, "wss://"@) {
        Err(wss_message())
    } else if !has_prefix(raw, "ws://"@) {
        Err("URL must start with ws://"@)
    } else {
        let rest = raw.skip(5);
        let authority = match find_seq(rest, seq!['/']) {
            Some(i) => rest.take(i as int),
            None => rest,
        };
        let path = match find_seq(rest, seq!['/']) {
            Some(i) => rest.skip(i as int),
            None => "/"@,
        };
        if authority.len() == 0 {
            Err("missing host"@)
        } else if authority[0] == '[' {
            let inner = authority.drop_first();
            match find_seq(inner, seq![']']) {
                Some(j) => {
                    let h = inner.take(j as int);
                    let tail = inner.skip(j + 1 as int);
                    if tail.len() > 0 && tail[0] == ':' {
                        match parse_unsigned(tail.drop_first(), 65535) {
                            Some(p) => Ok((h, p, path)),
                            None => Err("invalid port"@),
                        }
                    } else {
                        Ok((h, 80, path))
                    }
                },
                None => Err("unterminated IPv6 literal"@),
            }
        } else {
            match rfind_char(authority, ':') {
                Some(k) => {
                    let h = authority.take(k as int);
                    if h.contains(':') {
                        Err("invalid host"@)
                    } else {
                        match parse_unsigned(authority.skip(k + 1 as int), 65535) {
                            Some(p) => Ok((h, p, path)),
                            None => Err("invalid port"@),
                        }
                    }
                },
                None => Ok((authority, 80, path)),
            }
        }
    }
}

fn err_text(s: &str) -> (r: Result<Uri, String>)
    ensures
        r matches Err(e) && e@ == s@,
{
    Err(string_of(&chars_of(s)))
}

/// Parses a `ws://` URL as `parse_uri_spec` says.
pub fn parse_uri(raw: &str) -> (r: Result<Uri, String>)
    ensures
        match (r, parse_uri_spec(raw@)) {
            (Ok(u), Ok((h, p, pa))) => u.host@ == h && u.port as nat == p && u.path@ == pa,
            (Err(e), Err(m)) => e@ == m,
            _ => false,
        },
{
    let s = chars_of(raw);
    if starts_with(&s, &chars_of("wss://")) {
        return err_text("wss:// is not supported by this build; put the server behind a TLS proxy and use ws://");
    }
    if !starts_with(&s, &chars_of("ws://")) {
        return err_text("URL must start with ws://");
    }
    proof {
        reveal_strlit("ws://");
    }
    let rest = slice_of(&s, 5, s.len());
    assert(rest@ =~= raw@.skip(5));
    let slash = ['/'];
    assert(slash@ =~= seq!['/']);
    let (authority, path) = match find(&rest, &slash) {
        Some(i) => {
            proof {
                lemma_find_from(rest@, slash@, 0);
            }
            let a = slice_of(&rest, 0, i);
            let p = slice_of(&rest, i, rest.len());
            assert(a@ =~= rest@.take(i as int));
            assert(p@ =~= rest@.skip(i as int));
            (a, p)
        },
        None => (rest.clone(), chars_of("/")),
    };
    if authority.len() == 0 {
        return err_text("missing host");
    }
    if authority[0] == '[' {
        let inner = slice_of(&authority, 1, authority.len());
        assert(inner@ =~= authority@.drop_first());
        let close = [']'];
        assert(close@ =~= seq![']']);
        match find(&inner, &close) {
            Some(j) => {
                proof {
                    lemma_find_from(inner@, close@, 0);
                }
                let h = slice_of(&inner, 0, j);
                let tail = slice_of(&inner, j + 1, inner.len());
                assert(h@ =~= inner@.take(j as int));
                assert(tail@ =~= inner@.skip(j + 1));
                let port: u16 = if tail.len() > 0 && tail[0] == ':' {
                    let digits = slice_of(&tail, 1, tail.len());
                    assert(digits@ =~= tail@.drop_first());
                    match parse_unsigned_exec(&digits, 65535) {
                        Some(p) => p as u16,
                        None => return err_text("invalid port"),
                    }
                } else {
                    80
                };
                Ok(Uri { host: string_of(&h), port, path: string_of(&path) })
            },
            None => err_text("unterminated IPv6 literal"),
        }
    } else {
        match rfind_char_exec(&authority, ':') {
            Some(k) => {
                let h = slice_of(&authority, 0, k);
                assert(h@ =~= authority@.take(k as int));
                if contains_char(&h, ':') {
                    return err_text("invalid host");
                }
                let digits = slice_of(&authority, k + 1, authority.len());
                assert(digits@ =~= authority@.skip(k + 1));
                match parse_unsigned_exec(&digits, 65535) {
                    Some(p) => Ok(Uri { host: string_of(&h), port: p as u16, path: string_of(&path) }),
                    None => err_text("invalid port"),
                }
            },
            None => Ok(Uri { host: string_of(&authority), port: 80, path: string_of(&path) }),
        }
    }
}


/// `HOST:PORT` split at the last colon, when the host holds no colon and the
/// port is one or more digits whose value fits in 16 bits.
pub open spec fn host_port_pair(host: Seq<char>) -> Option<(Seq<char>, nat)> {
    match rfind_char(host, ':') {
        Some(k) => {
            let h = host.take(k as int);
            let p = host.skip(k + 1 as int);
            if !h.contains(':') && p.len() > 0 && all_digits(p) && parse_unsigned(p, 65535) is Some {
                Some((h, parse_unsigned(p, 65535)->0))
            } else {
                None
            }
        },
        None => None,
    }
}

/// Whether a host argument is already a URL.
pub open spec fn is_url(host: Seq<char>) -> bool {
    has_prefix(host, "ws://"@) || has_prefix(host, "wss://"@)
}

/// How a host argument names a server: a URL as it is; `[ADDR]` or
/// `[ADDR]:PORT`; `HOST:PORT` where the port is all digits and fits in 16
/// bits and the host holds no colon; else the argument itself, on port 80 when
/// it holds a letter (a domain) and on the default port otherwise.
pub open spec fn split_host_port_spec(host: Seq<char>, default_port: nat) -> (Seq<char>, nat) {
    if is_url(host) {
        (host, default_port)
    } else if host.len() > 0 && host[0] == '[' && find_seq(host.drop_first(), seq![']']) is Some {
        let inner = host.drop_first();
        let j = find_seq(inner, seq![']'])->0;
        let tail = inner.skip(j + 1 as int);
        let port = if tail.len() > 0 && tail[0] == ':' {
            match parse_unsigned(tail.drop_first(), 65535) {
                Some(p) => p,
                None => default_port,
            }
        } else {
            default_port
        };
        (seq!['['] + inner.take(j as int) + seq![']'], port)
    } else if host.len() > 0 && host[0] == '[' {
        (host, default_port)
    } else if host_port_pair(host) is Some {
        host_port_pair(host)->0
    } else if exists|i: int| 0 <= i < host.len() && is_alpha(#[trigger] host[i]) {
        (host, 80)
    } else {
        (host, default_port)
    }
}

/// Whether `s` holds an ASCII letter.
fn has_alpha(s: &[char]) -> (r: bool)
    ensures
        r == exists|i: int| 0 <= i < s@.len() && is_alpha(#[trigger] s@[i]),
{
    let mut i: usize = 0;
    while i < s.len()
        invariant
            i <= s@.len(),
            forall|j: int| 0 <= j < i ==> !is_alpha(#[trigger] s@[j]),
        decreases s@.len() - i,
    {
        let c = s[i];
        if ('a' <= c && c <= 'z') || ('A' <= c && c <= 'Z') {
            assert(is_alpha(s@[i as int]));
            return true;
        }
        i += 1;
    }
    false
}

/// Whether `s` is nonempty and all decimal digits.
fn all_digit_chars(s: &[char]) -> (r: bool)
    ensures
        r == (s@.len() > 0 && forall|i: int| 0 <= i < s@.len() ==> is_digit(#[trigger] s@[i])),
{
    if s.len() == 0 {
        return false;
    }
    let mut i: usize = 0;
    while i < s.len()
        invariant
            i <= s@.len(),
            forall|j: int| 0 <= j < i ==> is_digit(#[trigger] s@[j]),
        decreases s@.len() - i,
    {
        let c = s[i];
        if !('0' <= c && c <= '9') {
            assert(!is_digit(s@[i as int]));
            return false;
        }
        i += 1;
    }
    true
}

/// Splits a host argument of the client into a host (or URL) and a port, as
/// `split_host_port_spec` says.
pub fn split_host_port(host: &str, default_port: u16) -> (r: (String, u16))
    ensures
        r.0@ == split_host_port_spec(host@, default_port as nat).0,
        r.1 as nat == split_host_port_spec(host@, default_port as nat).1,
{
    let s = chars_of(host);
    if starts_with(&s, &chars_of("ws://")) || starts_with(&s, &chars_of("wss://")) {
        return (string_of(&s), default_port);
    }
    if s.len() > 0 && s[0] == '[' {
        let inner = slice_of(&s, 1, s.len());
        assert(inner@ =~= host@.drop_first());
        let close = [']'];
        assert(close@ =~= seq![']']);
        match find(&inner, &close) {
            Some(j) => {
                proof {
                    lemma_find_from(inner@, close@, 0);
                }
                let tail = slice_of(&inner, j + 1, inner.len());
                assert(tail@ =~= inner@.skip(j + 1 as int));
                let port: u16 = if tail.len() > 0 && tail[0] == ':' {
                    let digits = slice_of(&tail, 1, tail.len());
                    assert(digits@ =~= tail@.drop_first());
                    match parse_unsigned_exec(&digits, 65535) {
                        Some(p) => p as u16,
                        None => default_port,
                    }
                } else {
                    default_port
                };
                let mut out: Vec<char> = Vec::new();
                out.push('[');
                let h = slice_of(&inner, 0, j);
                push_all(&mut out, &h);
                out.push(']');
                assert(out@ =~= seq!['['] + inner@.take(j as int) + seq![']']);
                return (string_of(&out), port);
            },
            None => {
                return (string_of(&s), default_port);
            },
        }
    }
    match rfind_char_exec(&s, ':') {
        Some(k) => {
            let h = slice_of(&s, 0, k);
            let p = slice_of(&s, k + 1, s.len());
            assert(h@ =~= host@.take(k as int));
            assert(p@ =~= host@.skip(k + 1 as int));
            if !contains_char(&h, ':') && all_digit_chars(&p) {
                match parse_unsigned_exec(&p, 65535) {
                    Some(port) => {
                        return (string_of(&h), port as u16);
                    },
                    None => {},
                }
            }
        },
        None => {},
    }
    if has_alpha(&s) {
        (string_of(&s), 80)
    } else {
        (string_of(&s), default_port)
    }
}

/// The URL that the client connects to: a URL argument as it is, else
/// `ws://HOST:PORT`.
pub open spec fn target_uri_spec(host: Seq<char>, port: nat) -> Seq<char> {
    if is_url(host) {
        host
    } else {
        "ws://"@ + host + seq![':'] + decimal(port)
    }
}

/// The URL that the client connects to.
pub fn target_uri(host: &str, port: u16) -> (r: String)
    ensures
        r@ == target_uri_spec(host@, port as nat),
{
    let s = chars_of(host);
    if starts_with(&s, &chars_of("ws://")) || starts_with(&s, &chars_of("wss://")) {
        return string_of(&s);
    }
    let mut out: Vec<char> = Vec::new();
    push_str(&mut out, "ws://");
    push_all(&mut out, &s);
    out.push(':');
    push_decimal(&mut out, port as u64);
    assert(out@ =~= "ws://"@ + host@ + seq![':'] + decimal(port as nat));
    string_of(&out)
}

/// A `ws://` URL made of a host name or address (not empty, no colon, no
/// slash, not in brackets), a port and a path (empty, or starting with `/`)
/// reads back as that host, that port and that path (`/` for an empty one).
pub proof fn lemma_uri_parses(host: Seq<char>, port: nat, path: Seq<char>)
    requires
        host.len() > 0,
        host[0] != '[',
        !host.contains(':'),
        !host.contains('/'),
        port <= 65535,
        path.len() == 0 || path[0] == '/',
    ensures
        parse_uri_spec("ws://"@ + host + seq![':'] + decimal(port) + path) == Ok::<(Seq<char>, nat, Seq<char>), Seq<char>>(
            (host, port, if path.len() == 0 { "/"@ } else { path }),
        ),
{
    reveal_strlit("ws://");
    reveal_strlit("wss://");
    reveal_strlit("/");
    lemma_decimal(port);
    let d = decimal(port);
    let raw = "ws://"@ + host + seq![':'] + d + path;
    assert(raw.take(5) =~= "ws://"@);
    assert(!has_prefix(raw, "wss://"@)) by {
        if has_prefix(raw, "wss://"@) {
            assert(raw[2] == raw.take(6)[2]);
        }
    }
    let rest = raw.skip(5);
    let authority = host + seq![':'] + d;
    assert(rest =~= authority + path);
    let k = host.len() as int;
    assert forall|j: int| 0 <= j < authority.len() implies authority[j] != '/' && (j != k ==> authority[j] != ':') by {
        if j < k {
            assert(authority[j] == host[j]);
        } else if j > k {
            assert(authority[j] == d[j - k - 1]);
            assert(is_digit(d[j - k - 1]));
        }
    }
    assert forall|j: int| 0 <= j < authority.len() && 0 <= j < rest.len() implies rest[j] != seq!['/'][0] by {
        assert(rest[j] == authority[j]);
    }
    lemma_no_first_char(rest, seq!['/'], 0, authority.len() as int);
    if path.len() == 0 {
        assert(rest =~= authority);
        assert(find_seq(rest, seq!['/']) is None) by {
            lemma_find_from(rest, seq!['/'], 0);
        }
    } else {
        let m = authority.len() as int;
        assert(rest.subrange(m, m + 1) =~= seq!['/']);
        lemma_find_first(rest, seq!['/'], m);
        assert(rest.take(m) =~= authority);
        assert(rest.skip(m) =~= path);
    }
    assert(authority[k] == ':');
    assert(authority.contains(':'));
    let i = rfind_char(authority, ':')->0;
    assert(i == k);
    assert(authority.take(k) =~= host);
    assert(authority.skip(k + 1) =~= d);
    assert(d[0] != '+') by {
        assert(is_digit(d[0]));
    }
}

/// The client reaches the host it was given: the URL that it builds for a
/// host name or address (not empty, no colon, no slash, not in brackets) and
/// a port reads back as that host, that port and the path `/`.
pub proof fn lemma_target_uri_parses(host: Seq<char>, port: nat)
    requires
        host.len() > 0,
        host[0] != '[',
        !host.contains(':'),
        !host.contains('/'),
        port <= 65535,
    ensures
        parse_uri_spec(target_uri_spec(host, port)) == Ok::<(Seq<char>, nat, Seq<char>), Seq<char>>((host, port, "/"@)),
{
    reveal_strlit("ws://");
    reveal_strlit("wss://");
    assert(!is_url(host)) by {
        if has_prefix(host, "ws://"@) {
            assert(host[2] == host.take(5)[2]);
        }
        if has_prefix(host, "wss://"@) {
            assert(host[3] == host.take(6)[3]);
        }
    }
    let e = Seq::<char>::empty();
    lemma_uri_parses(host, port, e);
    assert("ws://"@ + host + seq![':'] + decimal(port) + e =~= target_uri_spec(host, port));
}

/// A `HOST:PORT` argument names that host and that port: for any host (an
/// address or a name, with or without letters) that is not empty and holds no
/// colon, bracket or slash, and any port up to 65535, the argument splits into
/// the host and the port, whatever the default port.
pub proof fn lemma_host_port_splits(host: Seq<char>, port: nat, default_port: nat)
    requires
        host.len() > 0,
        !host.contains(':'),
        !host.contains('['),
        !host.contains('/'),
        port <= 65535,
    ensures
        split_host_port_spec(host + seq![':'] + decimal(port), default_port) == (host, port),
{
    reveal_strlit("ws://");
    reveal_strlit("wss://");
    lemma_decimal(port);
    let d = decimal(port);
    let s = host + seq![':'] + d;
    let k = host.len() as int;
    assert(s[k] == ':');
    assert forall|j: int| 0 <= j < s.len() && j != k implies s[j] != ':' && s[j] != '/' by {
        if j < k {
            assert(s[j] == host[j]);
        } else {
            assert(s[j] == d[j - k - 1]);
            assert(is_digit(d[j - k - 1]));
        }
    }
    assert(!is_url(s)) by {
        if has_prefix(s, "ws://"@) {
            assert(s[3] == s.take(5)[3]);
        }
        if has_prefix(s, "wss://"@) {
            assert(s[4] == s.take(6)[4]);
        }
    }
    assert(s[0] != '[') by {
        assert(s[0] == host[0]);
    }
    assert(s.contains(':'));
    let i = rfind_char(s, ':')->0;
    assert(i == k);
    assert(s.take(k) =~= host);
    assert(s.skip(k + 1) =~= d);
    assert(d[0] != '+') by {
        assert(is_digit(d[0]));
    }
    assert(host_port_pair(s) == Some((host, port)));
}

/// A bare host argument (no port) names that host: a domain name, which
/// holds a letter, on port 80; an address, which holds none, on the default
/// port.
pub proof fn lemma_bare_host(host: Seq<char>, default_port: nat)
    requires
        host.len() > 0,
        !host.contains(':'),
        !host.contains('['),
        !host.contains('/'),
    ensures
        split_host_port_spec(host, default_port) == (host, if exists|i: int| 0 <= i < host.len() && is_alpha(
            #[trigger] host[i],
        ) {
            80
        } else {
            default_port
        }),
{
    reveal_strlit("ws://");
    reveal_strlit("wss://");
    assert(!is_url(host)) by {
        if has_prefix(host, "ws://"@) {
            assert(host[2] == host.take(5)[2]);
        }
        if has_prefix(host, "wss://"@) {
            assert(host[3] == host.take(6)[3]);
        }
    }
    assert(host[0] != '[');
    assert(rfind_char(host, ':') is None);
}

} // verus!
