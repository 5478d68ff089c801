//! Reading a JSON object whose members hold strings, numbers or the literals
//! `true`, `false` and `null`: the members in order, each key and string value
//! unescaped. Keys are only ever matched at the level of the object, never
//! inside a string.
use vstd::prelude::*;
use crate::text::{all_digits, digit_run, is_digit, lemma_digit_run};

verus! {

/// A member's value as read.
pub enum JsonValue {
    /// A string, unescaped.
    Str(Seq<char>),
    /// An integer: its sign and its digits.
    Int { neg: bool, digits: Seq<char> },
    /// A number with a fraction or an exponent, or a literal.
    Other,
}

/// JSON whitespace: space, tab, line feed, carriage return.
pub open spec fn is_json_ws(c: char) -> bool {
    c == ' ' || c == '\t' || c == '\n' || c == '\r'
}

/// The first position at or after `i` that holds no whitespace.
pub open spec fn skip_ws(s: Seq<char>, i: nat) -> nat
    decreases s.len() - i,
{
    if i < s.len() && is_json_ws(s[i as int]) {
        skip_ws(s, i + 1)
    } else {
        i
    }
}

/// The value of a hexadecimal digit.
pub open spec fn hex_value(c: char) -> Option<nat> {
    if '0' <= c && c <= '9' {
        Some((c as int - 48) as nat)
    } else if 'a' <= c && c <= 'f' {
        Some((c as int - 87) as nat)
    } else if 'A' <= c && c <= 'F' {
        Some((c as int - 55) as nat)
    } else {
        None
    }
}

/// The value of four hexadecimal digits at `i`.
pub open spec fn hex4(s: Seq<char>, i: nat) -> Option<nat> {
    if i + 4 <= s.len() {
        match (hex_value(s[i as int]), hex_value(s[(i + 1) as int]), hex_value(s[(i + 2) as int]), hex_value(s[(i + 3) as int])) {
            (Some(a), Some(b), Some(c), Some(d)) => Some(a * 4096 + b * 256 + c * 16 + d),
            _ => None,
        }
    } else {
        None
    }
}

/// The character that a one-letter escape stands for.
pub open spec fn simple_escape(e: char) -> Option<char> {
    if e == '"' || e == '\\' || e == '/' {
        Some(e)
    } else if e == 'b' {
        Some('\u{8}')
    } else if e == 'f' {
        Some('\u{c}')
    } else if e == 'n' {
        Some('\n')
    } else if e == 'r' {
        Some('\r')
    } else if e == 't' {
        Some('\t')
    } else {
        None
    }
}

/// A UTF-16 high surrogate.
pub open spec fn is_high(v: nat) -> bool {
    0xD800 <= v && v < 0xDC00
}

/// A UTF-16 low surrogate.
pub open spec fn is_low(v: nat) -> bool {
    0xDC00 <= v && v < 0xE000
}

/// The character of a `\uXXXX` escape whose backslash is at `i`, with a
/// following `\uXXXX` for the low half of a surrogate pair, and the position
/// after it. A lone surrogate is refused.
pub open spec fn unicode_escape(s: Seq<char>, i: nat) -> Option<(char, nat)> {
    match hex4(s, i + 2) {
        Some(v) => if is_high(v) {
            if i + 12 <= s.len() && s[(i + 6) as int] == '\\' && s[(i + 7) as int] == 'u' {
                match hex4(s, i + 8) {
                    Some(w) => if is_low(w) {
                        Some(((0x10000 + (v - 0xD800) * 1024 + (w - 0xDC00)) as char, i + 12))
                    } else {
                        None
                    },
                    None => None,
                }
            } else {
                None
            }
        } else if is_low(v) {
            None
        } else {
            Some((v as char, i + 6))
        },
        None => None,
    }
}

/// The rest of a string from `i` (after its opening quote), with `acc` read
/// so far: the unescaped text and the position after the closing quote.
/// A raw control character or an unknown escape is refused.
pub open spec fn string_body(s: Seq<char>, i: nat, acc: Seq<char>) -> Option<(Seq<char>, nat)>
    decreases s.len() - i,
{
    if i >= s.len() {
        None
    } else {
        let c = s[i as int];
        if c == '"' {
            Some((acc, i + 1))
        } else if c == '\\' {
            if i + 1 >= s.len() {
                None
            } else if s[(i + 1) as int] == 'u' {
                match unicode_escape(s, i) {
                    Some((ch, j)) => string_body(s, j, acc.push(ch)),
                    None => None,
                }
            } else {
                match simple_escape(s[(i + 1) as int]) {
                    Some(ch) => string_body(s, i + 2, acc.push(ch)),
                    None => None,
                }
            }
        } else if (c as u32) < 0x20 {
            None
        } else {
            string_body(s, i + 1, acc.push(c))
        }
    }
}

/// The string whose opening quote is at `i`, and the position after it.
pub open spec fn parse_string(s: Seq<char>, i: nat) -> Option<(Seq<char>, nat)> {
    if i < s.len() && s[i as int] == '"' {
        string_body(s, i + 1, Seq::empty())
    } else {
        None
    }
}

/// The end of the digits of a fraction or an exponent that starts at `p`, or
/// `p` when there is none; `None` when the part has no digits.
pub open spec fn number_tail(s: Seq<char>, p: nat) -> Option<nat> {
    let frac: Option<nat> = if p < s.len() && s[p as int] == '.' {
        let d = digit_run(s.skip((p + 1) as int));
        if d == 0 {
            None
        } else {
            Some(p + 1 + d)
        }
    } else {
        Some(p)
    };
    match frac {
        None => None,
        Some(q) => if q < s.len() && (s[q as int] == 'e' || s[q as int] == 'E') {
            let r: nat = if q + 1 < s.len() && (s[(q + 1) as int] == '+' || s[(q + 1) as int] == '-') {
                q + 2
            } else {
                q + 1
            };
            let d = digit_run(s.skip(r as int));
            if d == 0 {
                None
            } else {
                Some(r + d)
            }
        } else {
            Some(q)
        },
    }
}

/// The number at `i`: an optional minus sign, digits, then an optional
/// fraction and exponent; an integer keeps its sign and digits.
pub open spec fn parse_number(s: Seq<char>, i: nat) -> Option<(JsonValue, nat)> {
    if i >= s.len() {
        None
    } else {
        let neg = s[i as int] == '-';
        let k: nat = if neg {
            i + 1
        } else {
            i
        };
        let d = digit_run(s.skip(k as int));
        if d == 0 {
            None
        } else {
            let p = k + d;
            match number_tail(s, p) {
                Some(e) => if e == p {
                    Some((JsonValue::Int { neg, digits: s.subrange(k as int, p as int) }, p))
                } else {
                    Some((JsonValue::Other, e))
                },
                None => None,
            }
        }
    }
}

/// Whether `lit` stands at `i`.
pub open spec fn word_at(s: Seq<char>, i: nat, lit: Seq<char>) -> bool {
    i + lit.len() <= s.len() && s.subrange(i as int, (i + lit.len()) as int) == lit
}

/// The value at `i` and the position after it.
pub open spec fn parse_value(s: Seq<char>, i: nat) -> Option<(JsonValue, nat)> {
    if i >= s.len() {
        None
    } else {
        let c = s[i as int];
        if c == '"' {
            match parse_string(s, i) {
                Some((t, j)) => Some((JsonValue::Str(t), j)),
                None => None,
            }
        } else if c == '-' || is_digit(c) {
            parse_number(s, i)
        } else if word_at(s, i, seq!['t', 'r', 'u', 'e']) {
            Some((JsonValue::Other, i + 4))
        } else if word_at(s, i, seq!['f', 'a', 'l', 's', 'e']) {
            Some((JsonValue::Other, i + 5))
        } else if word_at(s, i, seq!['n', 'u', 'l', 'l']) {
            Some((JsonValue::Other, i + 4))
        } else {
            None
        }
    }
}

/// The member (key, colon, value) whose key starts at `i`, whitespace around
/// the colon allowed, and the position after its value.
pub open spec fn parse_member(s: Seq<char>, i: nat) -> Option<((Seq<char>, JsonValue), nat)> {
    match parse_string(s, i) {
        Some((key, b)) => {
            let c = skip_ws(s, b);
            if c < s.len() && s[c as int] == ':' {
                match parse_value(s, skip_ws(s, c + 1)) {
                    Some((v, d)) => Some(((key, v), d)),
                    None => None,
                }
            } else {
                None
            }
        },
        None => None,
    }
}

/// The members from `i` on (after `{` or a comma), with `acc` read so far,
/// up to the closing brace, after which only whitespace may follow.
pub open spec fn parse_members(s: Seq<char>, i: nat, acc: Seq<(Seq<char>, JsonValue)>) -> Option<
    Seq<(Seq<char>, JsonValue)>,
>
    decreases s.len() - i,
{
    let a = skip_ws(s, i);
    match parse_member(s, a) {
        Some((m, d)) => {
            let e = skip_ws(s, d);
            if e < s.len() && s[e as int] == ',' {
                proof {
                    lemma_skip_ws(s, i);
                    lemma_member_advances(s, a);
                    lemma_skip_ws(s, d);
                }
                parse_members(s, e + 1, acc.push(m))
            } else if e < s.len() && s[e as int] == '}' && skip_ws(s, e + 1) == s.len() {
                Some(acc.push(m))
            } else {
                None
            }
        },
        None => None,
    }
}

/// The members of the object that is the whole text, in order.
pub open spec fn parse_object_spec(s: Seq<char>) -> Option<Seq<(Seq<char>, JsonValue)>> {
    let a = skip_ws(s, 0);
    if a < s.len() && s[a as int] == '{' {
        let b = skip_ws(s, a + 1);
        if b < s.len() && s[b as int] == '}' {
            if skip_ws(s, b + 1) == s.len() {
                Some(Seq::empty())
            } else {
                None
            }
        } else {
            parse_members(s, a + 1, Seq::empty())
        }
    } else {
        None
    }
}

/// The value of the first member called `key`.
pub open spec fn first_field(fields: Seq<(Seq<char>, JsonValue)>, key: Seq<char>) -> Option<JsonValue>
    decreases fields.len(),
{
    if fields.len() == 0 {
        None
    } else if fields[0].0 == key {
        Some(fields[0].1)
    } else {
        first_field(fields.drop_first(), key)
    }
}

/// Skipping whitespace moves forward over whitespace only, and not past the
/// end.
pub proof fn lemma_skip_ws(s: Seq<char>, i: nat)
    ensures
        i <= skip_ws(s, i),
        i <= s.len() ==> skip_ws(s, i) <= s.len(),
        skip_ws(s, i) < s.len() ==> !is_json_ws(s[skip_ws(s, i) as int]),
        forall|j: int| i <= j < skip_ws(s, i) ==> is_json_ws(#[trigger] s[j]),
    decreases s.len() - i,
{
    if i < s.len() && is_json_ws(s[i as int]) {
        lemma_skip_ws(s, i + 1);
    }
}

/// A string that is read ends after where it starts, within the text.
pub proof fn lemma_string_body_advances(s: Seq<char>, i: nat, acc: Seq<char>)
    ensures
        string_body(s, i, acc) matches Some((_, j)) ==> i < j <= s.len(),
    decreases s.len() - i,
{
    if i < s.len() {
        let c = s[i as int];
        if c == '"' {
        } else if c == '\\' {
            if i + 1 >= s.len() {
            } else if s[(i + 1) as int] == 'u' {
                match unicode_escape(s, i) {
                    Some((ch, j)) => lemma_string_body_advances(s, j, acc.push(ch)),
                    None => {},
                }
            } else {
                match simple_escape(s[(i + 1) as int]) {
                    Some(ch) => lemma_string_body_advances(s, i + 2, acc.push(ch)),
                    None => {},
                }
            }
        } else if (c as u32) < 0x20 {
        } else {
            lemma_string_body_advances(s, i + 1, acc.push(c));
        }
    }
}

/// The tail of a number ends at or after where it starts, within the text.
pub proof fn lemma_number_tail(s: Seq<char>, p: nat)
    requires
        p <= s.len(),
    ensures
        number_tail(s, p) matches Some(e) ==> p <= e <= s.len(),
{
    let q: nat = if p < s.len() && s[p as int] == '.' {
        lemma_digit_run(s.skip((p + 1) as int));
        p + 1 + digit_run(s.skip((p + 1) as int))
    } else {
        p
    };
    if q < s.len() && (s[q as int] == 'e' || s[q as int] == 'E') {
        if q + 1 < s.len() {
            lemma_digit_run(s.skip((q + 2) as int));
        }
        lemma_digit_run(s.skip((q + 1) as int));
    }
}

/// A value that is read ends after where it starts, within the text.
pub proof fn lemma_value_advances(s: Seq<char>, i: nat)
    ensures
        parse_value(s, i) matches Some((_, j)) ==> i < j <= s.len(),
{
    if i < s.len() {
        let c = s[i as int];
        if c == '"' {
            lemma_string_body_advances(s, i + 1, Seq::empty());
        } else if c == '-' || is_digit(c) {
            let k: nat = if c == '-' {
                i + 1
            } else {
                i
            };
            lemma_digit_run(s.skip(k as int));
            let p = k + digit_run(s.skip(k as int));
            lemma_number_tail(s, p);
        }
    }
}

/// A member that is read ends after where it starts, within the text.
pub proof fn lemma_member_advances(s: Seq<char>, i: nat)
    ensures
        parse_member(s, i) matches Some((_, d)) ==> i < d <= s.len(),
{
    if i < s.len() && s[i as int] == '"' {
        lemma_string_body_advances(s, i + 1, Seq::empty());
        match parse_string(s, i) {
            Some((key, b)) => {
                lemma_skip_ws(s, b);
                let c = skip_ws(s, b);
                if c < s.len() && s[c as int] == ':' {
                    lemma_skip_ws(s, c + 1);
                    lemma_value_advances(s, skip_ws(s, c + 1));
                }
            },
            None => {},
        }
    }
}

/// A member's value as read, in memory.
pub enum JsonItem {
    Str(Vec<char>),
    Int { neg: bool, digits: Vec<char> },
    Other,
}

/// The value that an item holds.
pub open spec fn item_view(v: JsonItem) -> JsonValue {
    match v {
        JsonItem::Str(t) => JsonValue::Str(t@),
        JsonItem::Int { neg, digits } => JsonValue::Int { neg, digits: digits@ },
        JsonItem::Other => JsonValue::Other,
    }
}

/// An item read as an integer holds only digits.
pub open spec fn item_ok(v: JsonItem) -> bool {
    match v {
        JsonItem::Int { digits, .. } => digits@.len() > 0 && all_digits(digits@),
        _ => true,
    }
}

/// The values of a list of members.
pub open spec fn fields_view(v: Seq<(Vec<char>, JsonItem)>) -> Seq<(Seq<char>, JsonValue)> {
    v.map_values(|m: (Vec<char>, JsonItem)| (m.0@, item_view(m.1)))
}

fn is_json_ws_exec(c: char) -> (r: bool)
    ensures
        r == is_json_ws(c),
{
    c == ' ' || c == '\t' || c == '\n' || c == '\r'
}

/// The first position at or after `i` that holds no whitespace.
pub fn skip_ws_exec(s: &[char], i: usize) -> (r: usize)
    requires
        i <= s@.len(),
    ensures
        r == skip_ws(s@, i as nat),
{
    let mut j = i;
    while j < s.len() && is_json_ws_exec(s[j])
        invariant
            i <= j <= s@.len(),
            skip_ws(s@, i as nat) == skip_ws(s@, j as nat),
        decreases s@.len() - j,
    {
        j += 1;
    }
    j
}

fn hex_value_exec(c: char) -> (r: Option<u32>)
    ensures
        r matches Some(v) ==> hex_value(c) == Some(v as nat),
        r is None ==> hex_value(c) is None,
{
    if '0' <= c && c <= '9' {
        Some((c as u32) - 48)
    } else if 'a' <= c && c <= 'f' {
        Some((c as u32) - 87)
    } else if 'A' <= c && c <= 'F' {
        Some((c as u32) - 55)
    } else {
        None
    }
}

fn hex4_exec(s: &[char], i: usize) -> (r: Option<u32>)
    ensures
        r matches Some(v) ==> hex4(s@, i as nat) == Some(v as nat),
        r is None ==> hex4(s@, i as nat) is None,
        r is Some ==> i + 4 <= s@.len(),
{
    if i > s.len() || s.len() - i < 4 {
        return None;
    }
    match (hex_value_exec(s[i]), hex_value_exec(s[i + 1]), hex_value_exec(s[i + 2]), hex_value_exec(s[i + 3])) {
        (Some(a), Some(b), Some(c), Some(d)) => Some(a * 4096 + b * 256 + c * 16 + d),
        _ => None,
    }
}

/// `char::from_u32`: the character with code `v`, or `None` for a surrogate
/// or a value past U+10FFFF.
#[verifier::external_body]
fn char_from_code(v: u32) -> (r: Option<char>)
    ensures
        r == (if v < 0xD800 || (0xE000 <= v && v <= 0x10FFFF) {
            Some(v as char)
        } else {
            None
        }),
{
    char::from_u32(v)
}

fn unicode_escape_exec(s: &[char], i: usize) -> (r: Option<(char, usize)>)
    requires
        i + 1 < s@.len(),
    ensures
        r matches Some((c, j)) ==> unicode_escape(s@, i as nat) == Some((c, j as nat)),
        r is None ==> unicode_escape(s@, i as nat) is None,
{
    let n = s.len();
    let v = match hex4_exec(s, i + 2) {
        Some(v) => v,
        None => return None,
    };
    if 0xD800 <= v && v < 0xDC00 {
        if s.len() - i >= 12 && s[i + 6] == '\\' && s[i + 7] == 'u' {
            match hex4_exec(s, i + 8) {
                Some(w) => if 0xDC00 <= w && w < 0xE000 {
                    let code = 0x10000 + (v - 0xD800) * 1024 + (w - 0xDC00);
                    match char_from_code(code) {
                        Some(c) => Some((c, i + 12)),
                        None => None,
                    }
                } else {
                    None
                },
                None => None,
            }
        } else {
            None
        }
    } else if 0xDC00 <= v && v < 0xE000 {
        None
    } else {
        match char_from_code(v) {
            Some(c) => Some((c, i + 6)),
            None => None,
        }
    }
}

fn simple_escape_exec(e: char) -> (r: Option<char>)
    ensures
        r == simple_escape(e),
{
    if e == '"' || e == '\\' || e == '/' {
        Some(e)
    } else if e == 'b' {
        Some('\u{8}')
    } else if e == 'f' {
        Some('\u{c}')
    } else if e == 'n' {
        Some('\n')
    } else if e == 'r' {
        Some('\r')
    } else if e == 't' {
        Some('\t')
    } else {
        None
    }
}

/// The string whose opening quote is at `i`, unescaped, and the position
/// after it.
pub fn parse_string_exec(s: &[char], i: usize) -> (r: Option<(Vec<char>, usize)>)
    ensures
        r matches Some((t, j)) ==> parse_string(s@, i as nat) == Some((t@, j as nat)),
        r is None ==> parse_string(s@, i as nat) is None,
{
    if i >= s.len() || s[i] != '"' {
        return None;
    }
    let mut out: Vec<char> = Vec::new();
    let mut j = i + 1;
    loop
        invariant
            i < j <= s@.len(),
            s@[i as int] == '"',
            string_body(s@, (i + 1) as nat, Seq::empty()) == string_body(s@, j as nat, out@),
        decreases s@.len() - j,
    {
        if j >= s.len() {
            return None;
        }
        let c = s[j];
        assert(c == s@[j as int]);
        if c == '"' {
            assert(string_body(s@, j as nat, out@) == Some((out@, (j + 1) as nat)));
            return Some((out, j + 1));
        } else if c == '\\' {
            if j + 1 >= s.len() {
                return None;
            }
            if s[j + 1] == 'u' {
                match unicode_escape_exec(s, j) {
                    Some((ch, next)) => {
                        out.push(ch);
                        j = next;
                    },
                    None => return None,
                }
            } else {
                match simple_escape_exec(s[j + 1]) {
                    Some(ch) => {
                        out.push(ch);
                        j = j + 2;
                    },
                    None => return None,
                }
            }
        } else if (c as u32) < 0x20 {
            return None;
        } else {
            out.push(c);
            j = j + 1;
        }
    }
}

/// The number of digits from position `k` on.
fn digit_run_at(s: &[char], k: usize) -> (r: usize)
    requires
        k <= s@.len(),
    ensures
        r == digit_run(s@.skip(k as int)),
        k + r <= s@.len(),
{
    let mut j = k;
    proof {
        lemma_digit_run(s@.skip(k as int));
    }
    while j < s.len() && '0' <= s[j] && s[j] <= '9'
        invariant
            k <= j <= s@.len(),
            digit_run(s@.skip(k as int)) == (j - k) + digit_run(s@.skip(j as int)),
        decreases s@.len() - j,
    {
        assert(s@.skip(j as int).drop_first() =~= s@.skip(j + 1));
        j += 1;
    }
    j - k
}

fn number_tail_exec(s: &[char], p: usize) -> (r: Option<usize>)
    requires
        p <= s@.len(),
    ensures
        r matches Some(e) ==> number_tail(s@, p as nat) == Some(e as nat),
        r is None ==> number_tail(s@, p as nat) is None,
{
    let q = if p < s.len() && s[p] == '.' {
        let d = digit_run_at(s, p + 1);
        if d == 0 {
            return None;
        }
        p + 1 + d
    } else {
        p
    };
    if q < s.len() && (s[q] == 'e' || s[q] == 'E') {
        let r = if q + 1 < s.len() && (s[q + 1] == '+' || s[q + 1] == '-') {
            q + 2
        } else {
            q + 1
        };
        let d = digit_run_at(s, r);
        if d == 0 {
            None
        } else {
            Some(r + d)
        }
    } else {
        Some(q)
    }
}

fn parse_number_exec(s: &[char], i: usize) -> (r: Option<(JsonItem, usize)>)
    ensures
        r matches Some((v, j)) ==> parse_number(s@, i as nat) == Some((item_view(v), j as nat)),
        r is None ==> parse_number(s@, i as nat) is None,
        r matches Some((v, _)) ==> item_ok(v),
{
    if i >= s.len() {
        return None;
    }
    let neg = s[i] == '-';
    let k = if neg {
        i + 1
    } else {
        i
    };
    let d = digit_run_at(s, k);
    if d == 0 {
        return None;
    }
    let p = k + d;
    match number_tail_exec(s, p) {
        Some(e) => if e == p {
            let mut digits: Vec<char> = Vec::new();
            let mut t = k;
            while t < p
                invariant
                    k <= t <= p <= s@.len(),
                    digits@ == s@.subrange(k as int, t as int),
                decreases p - t,
            {
                digits.push(s[t]);
                t += 1;
            }
            proof {
                lemma_digit_run(s@.skip(k as int));
                assert(digits@ =~= s@.skip(k as int).take(d as int));
            }
            Some((JsonItem::Int { neg, digits }, p))
        } else {
            Some((JsonItem::Other, e))
        },
        None => None,
    }
}

fn word_at_exec(s: &[char], i: usize, lit: &[char]) -> (r: bool)
    ensures
        r == word_at(s@, i as nat, lit@),
{
    let n = s.len();
    if i > n || n - i < lit.len() {
        return false;
    }
    let mut t: usize = 0;
    while t < lit.len()
        invariant
            n == s@.len(),
            i + lit@.len() <= s@.len(),
            t <= lit@.len(),
            forall|u: int| 0 <= u < t ==> s@[i + u] == lit@[u],
        decreases lit@.len() - t,
    {
        if s[i + t] != lit[t] {
            assert(s@.subrange(i as int, i + lit@.len())[t as int] != lit@[t as int]);
            return false;
        }
        t += 1;
    }
    assert(s@.subrange(i as int, i + lit@.len()) =~= lit@);
    true
}

/// The value at `i` and the position after it.
pub fn parse_value_exec(s: &[char], i: usize) -> (r: Option<(JsonItem, usize)>)
    ensures
        r matches Some((v, j)) ==> parse_value(s@, i as nat) == Some((item_view(v), j as nat)),
        r is None ==> parse_value(s@, i as nat) is None,
        r matches Some((v, _)) ==> item_ok(v),
{
    if i >= s.len() {
        return None;
    }
    let c = s[i];
    if c == '"' {
        match parse_string_exec(s, i) {
            Some((t, j)) => Some((JsonItem::Str(t), j)),
            None => None,
        }
    } else if c == '-' || ('0' <= c && c <= '9') {
        parse_number_exec(s, i)
    } else if word_at_exec(s, i, &['t', 'r', 'u', 'e']) {
        Some((JsonItem::Other, i + 4))
    } else if word_at_exec(s, i, &['f', 'a', 'l', 's', 'e']) {
        Some((JsonItem::Other, i + 5))
    } else if word_at_exec(s, i, &['n', 'u', 'l', 'l']) {
        Some((JsonItem::Other, i + 4))
    } else {
        None
    }
}

fn parse_member_exec(s: &[char], i: usize) -> (r: Option<((Vec<char>, JsonItem), usize)>)
    ensures
        r matches Some((m, d)) ==> parse_member(s@, i as nat) == Some(((m.0@, item_view(m.1)), d as nat)),
        r is None ==> parse_member(s@, i as nat) is None,
        r matches Some((m, _)) ==> item_ok(m.1),
{
    let (key, b) = match parse_string_exec(s, i) {
        Some(x) => x,
        None => return None,
    };
    proof {
        lemma_string_body_advances(s@, (i + 1) as nat, Seq::empty());
    }
    let c = skip_ws_exec(s, b);
    proof {
        lemma_skip_ws(s@, b as nat);
    }
    if c < s.len() && s[c] == ':' {
        let v_at = skip_ws_exec(s, c + 1);
        match parse_value_exec(s, v_at) {
            Some((v, d)) => Some(((key, v), d)),
            None => None,
        }
    } else {
        None
    }
}

/// The members of the object that is the whole text, in order, or `None` when
/// the text is not such an object.
pub fn parse_object(s: &[char]) -> (r: Option<Vec<(Vec<char>, JsonItem)>>)
    ensures
        r matches Some(fs) ==> parse_object_spec(s@) == Some(fields_view(fs@)),
        r is None ==> parse_object_spec(s@) is None,
        r matches Some(fs) ==> forall|k: int| 0 <= k < fs@.len() ==> item_ok(#[trigger] fs@[k].1),
{
    let a = skip_ws_exec(s, 0);
    proof {
        lemma_skip_ws(s@, 0);
    }
    if !(a < s.len() && s[a] == '{') {
        return None;
    }
    let b = skip_ws_exec(s, a + 1);
    proof {
        lemma_skip_ws(s@, (a + 1) as nat);
    }
    if b < s.len() && s[b] == '}' {
        proof {
            lemma_skip_ws(s@, (b + 1) as nat);
        }
        if skip_ws_exec(s, b + 1) == s.len() {
            return Some(Vec::new());
        } else {
            return None;
        }
    }
    let mut fields: Vec<(Vec<char>, JsonItem)> = Vec::new();
    let mut i = a + 1;
    assert(fields_view(fields@) =~= Seq::<(Seq<char>, JsonValue)>::empty());
    loop
        invariant
            i <= s@.len(),
            parse_object_spec(s@) == parse_members(s@, i as nat, fields_view(fields@)),
            forall|k: int| 0 <= k < fields@.len() ==> item_ok(#[trigger] fields@[k].1),
        decreases s@.len() - i,
    {
        let at = skip_ws_exec(s, i);
        proof {
            lemma_skip_ws(s@, i as nat);
        }
        let (m, d) = match parse_member_exec(s, at) {
            Some(x) => x,
            None => return None,
        };
        proof {
            lemma_member_advances(s@, at as nat);
        }
        let e = skip_ws_exec(s, d);
        proof {
            lemma_skip_ws(s@, d as nat);
        }
        let ghost before = fields@;
        fields.push(m);
        assert(fields_view(fields@) =~= fields_view(before).push((m.0@, item_view(m.1))));
        if e < s.len() && s[e] == ',' {
            i = e + 1;
        } else if e < s.len() && s[e] == '}' {
            proof {
                lemma_skip_ws(s@, (e + 1) as nat);
            }
            if skip_ws_exec(s, e + 1) == s.len() {
                return Some(fields);
            }
            return None;
        } else {
            return None;
        }
    }
}

/// The value of the first member called `key`.
pub fn first_field_exec<'a>(fields: &'a [(Vec<char>, JsonItem)], key: &[char]) -> (r: Option<&'a JsonItem>)
    requires
        forall|k: int| 0 <= k < fields@.len() ==> item_ok(#[trigger] fields@[k].1),
    ensures
        r matches Some(v) ==> item_ok(*v),
        r matches Some(v) ==> first_field(fields_view(fields@), key@) == Some(item_view(*v)),
        r is None ==> first_field(fields_view(fields@), key@) is None,
{
    let mut i: usize = 0;
    assert(fields_view(fields@).skip(0) =~= fields_view(fields@));
    while i < fields.len()
        invariant
            i <= fields@.len(),
            first_field(fields_view(fields@), key@) == first_field(fields_view(fields@).skip(i as int), key@),
            forall|k: int| 0 <= k < fields@.len() ==> item_ok(#[trigger] fields@[k].1),
        decreases fields@.len() - i,
    {
        let ghost rest = fields_view(fields@).skip(i as int);
        assert(rest[0] == (fields@[i as int].0@, item_view(fields@[i as int].1)));
        if crate::text::same_chars(&fields[i].0, key) {
            assert(item_ok(fields@[i as int].1));
            return Some(&fields[i].1);
        }
        assert(rest.drop_first() =~= fields_view(fields@).skip(i + 1));
        i += 1;
    }
    None
}

} // verus!
