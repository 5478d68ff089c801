//! What the control messages read back as: each message that one side
//! builds, the other side's JSON reader reads as what was put in.
use vstd::prelude::*;
use crate::json::{
    clamp, escape, escape_char, exec_of, exec_text, exit_code_of, exit_text, field_value, hex_lower,
    resize_of, resize_text, size_or, MAX_COLS, MAX_ROWS,
};
use crate::json_reader::{
    first_field, hex_value, hex4, is_json_ws, number_tail, parse_member, parse_members, parse_object_spec, parse_string, parse_value, skip_ws, string_body, unicode_escape, JsonValue,
};
use crate::text::{
    decimal, is_digit, lemma_decimal, lemma_digit_run_concat,
};

verus! {

/// Escaping a text is escaping its parts one after the other.
proof fn lemma_escape_concat(a: Seq<char>, b: Seq<char>)
    ensures
        escape(a + b) == escape(a) + escape(b),
    decreases b.len(),
{
    if b.len() == 0 {
        assert(a + b =~= a);
        assert(escape(a) + escape(b) =~= escape(a));
    } else {
        lemma_escape_concat(a, b.drop_last());
        assert((a + b).drop_last() =~= a + b.drop_last());
        assert((a + b).last() == b.last());
        assert(escape(a) + escape(b) =~= escape(a) + escape(b.drop_last()) + escape_char(b.last()));
    }
}

/// The escape of a text starts with the escape of its first character.
proof fn lemma_escape_first(t: Seq<char>)
    requires
        t.len() > 0,
    ensures
        escape(t) == escape_char(t[0]) + escape(t.drop_first()),
{
    lemma_escape_concat(seq![t[0]], t.drop_first());
    assert(seq![t[0]] + t.drop_first() =~= t);
    assert(seq![t[0]].drop_last() =~= Seq::<char>::empty());
    assert(escape(Seq::<char>::empty()) + escape_char(t[0]) =~= escape_char(t[0]));
}

/// A lower-case hexadecimal digit reads back as its value.
proof fn lemma_hex_digit(d: nat)
    requires
        d < 16,
    ensures
        hex_value(hex_lower(d)) == Some(d),
{
}

/// The escape of one character, followed by the rest of a string, reads back
/// as that character.
proof fn lemma_escaped_char(s: Seq<char>, i: nat, acc: Seq<char>, c: char)
    requires
        i + escape_char(c).len() < s.len(),
        s.subrange(i as int, (i + escape_char(c).len()) as int) == escape_char(c),
    ensures
        string_body(s, i, acc) == string_body(s, i + escape_char(c).len(), acc.push(c)),
{
    let e = escape_char(c);
    assert(s[i as int] == e[0]);
    if e.len() >= 2 {
        assert(s[(i + 1) as int] == e[1]);
    }
    if c == '"' || c == '\\' || c == '\n' || c == '\r' || c == '\t' {
    } else if (c as u32) < 0x20 {
        let v = c as u32;
        assert(s[(i + 2) as int] == '0');
        assert(s[(i + 3) as int] == '0');
        assert(s[(i + 4) as int] == e[4]);
        assert(s[(i + 5) as int] == e[5]);
        lemma_hex_digit((v / 16) as nat);
        lemma_hex_digit((v % 16) as nat);
        assert(hex4(s, i + 2) == Some(v as nat));
        assert(unicode_escape(s, i) == Some((c, i + 6)));
    } else {
    }
}

/// An escaped text followed by a closing quote reads back as the text.
proof fn lemma_escaped_text(s: Seq<char>, i: nat, acc: Seq<char>, t: Seq<char>)
    requires
        i + escape(t).len() < s.len(),
        s.subrange(i as int, (i + escape(t).len()) as int) == escape(t),
        s[(i + escape(t).len()) as int] == '"',
    ensures
        string_body(s, i, acc) == Some((acc + t, i + escape(t).len() + 1)),
    decreases t.len(),
{
    if t.len() == 0 {
        assert(escape(t).len() == 0);
        assert(acc + t =~= acc);
    } else {
        lemma_escape_first(t);
        let c = t[0];
        let e = escape_char(c);
        let rest = t.drop_first();
        let j = i + e.len();
        assert(escape(t).subrange(0, e.len() as int) =~= e);
        assert(escape(t).subrange(e.len() as int, escape(t).len() as int) =~= escape(rest));
        assert(s.subrange(i as int, j as int) =~= s.subrange(i as int, (i + escape(t).len()) as int).subrange(0, e.len() as int));
        lemma_escaped_char(s, i, acc, c);
        assert(s.subrange(j as int, (j + escape(rest).len()) as int) =~= s.subrange(i as int, (i + escape(t).len()) as int).subrange(e.len() as int, escape(t).len() as int));
        lemma_escaped_text(s, j, acc.push(c), rest);
        assert(acc.push(c) + rest =~= acc + t);
    }
}

/// A string written with `escape` between quotes reads back as the text.
proof fn lemma_string_value(s: Seq<char>, i: nat, t: Seq<char>)
    requires
        i + escape(t).len() + 1 < s.len(),
        s[i as int] == '"',
        s.subrange((i + 1) as int, (i + 1 + escape(t).len()) as int) == escape(t),
        s[(i + 1 + escape(t).len()) as int] == '"',
    ensures
        parse_string(s, i) == Some((t, i + escape(t).len() + 2)),
        parse_value(s, i) == Some((JsonValue::Str(t), i + escape(t).len() + 2)),
{
    lemma_escaped_text(s, i + 1, Seq::empty(), t);
    assert(Seq::<char>::empty() + t =~= t);
}

/// A decimal number followed by a character that cannot continue a number
/// reads back as that number.
proof fn lemma_decimal_value(s: Seq<char>, i: nat, n: nat)
    requires
        i + decimal(n).len() < s.len(),
        s.subrange(i as int, (i + decimal(n).len()) as int) == decimal(n),
        !is_digit(s[(i + decimal(n).len()) as int]),
        s[(i + decimal(n).len()) as int] != '.',
        s[(i + decimal(n).len()) as int] != 'e',
        s[(i + decimal(n).len()) as int] != 'E',
    ensures
        parse_value(s, i) == Some((JsonValue::Int { neg: false, digits: decimal(n) }, i + decimal(n).len())),
{
    lemma_decimal(n);
    let d = decimal(n);
    let p = i + d.len();
    assert(s[i as int] == d[0]);
    assert(is_digit(d[0]));
    assert(s.skip(i as int) =~= d + s.skip(p as int));
    assert(s.skip(p as int)[0] == s[p as int]);
    lemma_digit_run_concat(d, s.skip(p as int));
    assert(number_tail(s, p) == Some(p));
    assert(s.subrange(i as int, p as int) == d);
}

/// A member whose key, colon and value follow one another without spaces.
proof fn lemma_member(s: Seq<char>, i: nat, key: Seq<char>, b: nat, v: JsonValue, d: nat)
    requires
        parse_string(s, i) == Some((key, b)),
        b + 1 < s.len(),
        s[b as int] == ':',
        !is_json_ws(s[(b + 1) as int]),
        parse_value(s, b + 1) == Some((v, d)),
    ensures
        parse_member(s, i) == Some(((key, v), d)),
{
    assert(skip_ws(s, b) == b);
    assert(skip_ws(s, b + 1) == b + 1);
}

/// A member followed by a comma: the members go on after the comma.
proof fn lemma_members_comma(s: Seq<char>, i: nat, m: (Seq<char>, JsonValue), d: nat, acc: Seq<(Seq<char>, JsonValue)>)
    requires
        i < s.len(),
        s[i as int] == '"',
        parse_member(s, i) == Some((m, d)),
        d < s.len(),
        s[d as int] == ',',
    ensures
        parse_members(s, i, acc) == parse_members(s, d + 1, acc.push(m)),
{
    assert(skip_ws(s, i) == i);
    assert(skip_ws(s, d) == d);
}

/// A member followed by the closing brace at the very end: the last member.
proof fn lemma_members_close(s: Seq<char>, i: nat, m: (Seq<char>, JsonValue), d: nat, acc: Seq<(Seq<char>, JsonValue)>)
    requires
        i < s.len(),
        s[i as int] == '"',
        parse_member(s, i) == Some((m, d)),
        d + 1 == s.len(),
        s[d as int] == '}',
    ensures
        parse_members(s, i, acc) == Some(acc.push(m)),
{
    assert(skip_ws(s, i) == i);
    assert(skip_ws(s, d) == d);
    assert(skip_ws(s, d + 1) == d + 1);
}

/// An object text that starts with `{"`: its members start after the brace.
proof fn lemma_object_open(s: Seq<char>)
    requires
        s.len() > 1,
        s[0] == '{',
        s[1] == '"',
    ensures
        parse_object_spec(s) == parse_members(s, 1, Seq::empty()),
{
    assert(skip_ws(s, 0) == 0);
    assert(skip_ws(s, 1) == 1);
}

/// A text that a JSON string holds as it is: no quote, no backslash, no
/// control character.
pub open spec fn plain_text(s: Seq<char>) -> bool {
    forall|i: int| 0 <= i < s.len() ==> #[trigger] s[i] != '"' && s[i] != '\\' && (s[i] as u32) >= 0x20
}

/// Plain text is written as it is.
pub proof fn lemma_escape_plain(s: Seq<char>)
    requires
        plain_text(s),
    ensures
        escape(s) == s,
    decreases s.len(),
{
    if s.len() > 0 {
        assert(plain_text(s.drop_last())) by {
            assert forall|i: int| 0 <= i < s.drop_last().len() implies #[trigger] s.drop_last()[i] != '"'
                && s.drop_last()[i] != '\\' && (s.drop_last()[i] as u32) >= 0x20 by {
                assert(s.drop_last()[i] == s[i]);
            }
        }
        lemma_escape_plain(s.drop_last());
        let c = s.last();
        assert(s[s.len() - 1] == c);
        assert(escape_char(c) == seq![c]);
        assert(s.drop_last() + seq![c] =~= s);
    }
}

/// The keys and fixed strings of the messages are written as they are.
proof fn lemma_words_plain()
    ensures
        escape("type"@) == "type"@,
        escape("resize"@) == "resize"@,
        escape("exec"@) == "exec"@,
        escape("exit"@) == "exit"@,
        escape("cmd"@) == "cmd"@,
        escape("rows"@) == "rows"@,
        escape("cols"@) == "cols"@,
        escape("code"@) == "code"@,
{
    reveal_strlit("type");
    reveal_strlit("resize");
    reveal_strlit("exec");
    reveal_strlit("exit");
    reveal_strlit("cmd");
    reveal_strlit("rows");
    reveal_strlit("cols");
    reveal_strlit("code");
    lemma_escape_plain("type"@);
    lemma_escape_plain("resize"@);
    lemma_escape_plain("exec"@);
    lemma_escape_plain("exit"@);
    lemma_escape_plain("cmd"@);
    lemma_escape_plain("rows"@);
    lemma_escape_plain("cols"@);
    lemma_escape_plain("code"@);
}

/// Where the fixed characters of a resize message stand.
proof fn lemma_resize_layout(rows: nat, cols: nat)
    ensures
        ({
            let s = resize_text(rows, cols);
            let l1 = decimal(rows).len();
            let l2 = decimal(cols).len();
            &&& s.len() == 33 + l1 + l2
            &&& s[0] == '{' && s[1] == '"' && s[16] == ',' && s[17] == '"'
            &&& s[(24 + l1) as int] == ',' && s[(25 + l1) as int] == '"' && s[(32 + l1 + l2) as int] == '}'
        }),
{
    reveal_strlit("{\"type\":\"resize\",\"rows\":");
    reveal_strlit(",\"cols\":");
    reveal_strlit("}");
}

/// The first member of a resize message.
proof fn lemma_resize_type(rows: nat, cols: nat)
    ensures
        parse_member(resize_text(rows, cols), 1) == Some((("type"@, JsonValue::Str("resize"@)), 16nat)),
{
    let s = resize_text(rows, cols);
    reveal_strlit("{\"type\":\"resize\",\"rows\":");
    reveal_strlit("type");
    reveal_strlit("resize");
    lemma_words_plain();
    assert(s.subrange(2, 6) =~= "type"@);
    lemma_string_value(s, 1, "type"@);
    assert(s.subrange(9, 15) =~= "resize"@);
    lemma_string_value(s, 8, "resize"@);
    lemma_member(s, 1, "type"@, 7, JsonValue::Str("resize"@), 16);
}

/// The second member of a resize message.
proof fn lemma_resize_rows(rows: nat, cols: nat)
    ensures
        parse_member(resize_text(rows, cols), 17) == Some(
            (("rows"@, JsonValue::Int { neg: false, digits: decimal(rows) }), (24 + decimal(rows).len()) as nat),
        ),
{
    let s = resize_text(rows, cols);
    let d1 = decimal(rows);
    let l1 = d1.len();
    lemma_decimal(rows);
    reveal_strlit("{\"type\":\"resize\",\"rows\":");
    reveal_strlit(",\"cols\":");
    reveal_strlit("rows");
    lemma_words_plain();
    assert(s.subrange(18, 22) =~= "rows"@);
    lemma_string_value(s, 17, "rows"@);
    assert(s.subrange(24, (24 + l1) as int) =~= d1);
    assert(s[(24 + l1) as int] == ',');
    lemma_decimal_value(s, 24, rows);
    assert(s[24] == d1[0]);
    lemma_member(s, 17, "rows"@, 23, JsonValue::Int { neg: false, digits: d1 }, (24 + l1) as nat);
}

/// The third member of a resize message.
proof fn lemma_resize_cols(rows: nat, cols: nat)
    ensures
        parse_member(resize_text(rows, cols), (25 + decimal(rows).len()) as nat) == Some(
            (
                ("cols"@, JsonValue::Int { neg: false, digits: decimal(cols) }),
                (32 + decimal(rows).len() + decimal(cols).len()) as nat,
            ),
        ),
{
    let s = resize_text(rows, cols);
    let d1 = decimal(rows);
    let d2 = decimal(cols);
    let l1 = d1.len();
    let l2 = d2.len();
    lemma_decimal(cols);
    reveal_strlit("{\"type\":\"resize\",\"rows\":");
    reveal_strlit(",\"cols\":");
    reveal_strlit("}");
    reveal_strlit("cols");
    lemma_words_plain();
    assert(s.subrange((26 + l1) as int, (30 + l1) as int) =~= "cols"@);
    lemma_string_value(s, (25 + l1) as nat, "cols"@);
    assert(s.subrange((32 + l1) as int, (32 + l1 + l2) as int) =~= d2);
    assert(s[(32 + l1 + l2) as int] == '}');
    lemma_decimal_value(s, (32 + l1) as nat, cols);
    assert(s[(32 + l1) as int] == d2[0]);
    lemma_member(s, (25 + l1) as nat, "cols"@, (31 + l1) as nat, JsonValue::Int { neg: false, digits: d2 }, (32 + l1 + l2) as nat);
}

/// The members of a resize message.
proof fn lemma_resize_members(rows: nat, cols: nat)
    ensures
        parse_object_spec(resize_text(rows, cols)) == Some(
            seq![
                ("type"@, JsonValue::Str("resize"@)),
                ("rows"@, JsonValue::Int { neg: false, digits: decimal(rows) }),
                ("cols"@, JsonValue::Int { neg: false, digits: decimal(cols) }),
            ],
        ),
{
    let s = resize_text(rows, cols);
    let l1 = decimal(rows).len();
    let l2 = decimal(cols).len();
    let m1 = ("type"@, JsonValue::Str("resize"@));
    let m2 = ("rows"@, JsonValue::Int { neg: false, digits: decimal(rows) });
    let m3 = ("cols"@, JsonValue::Int { neg: false, digits: decimal(cols) });
    lemma_resize_layout(rows, cols);
    lemma_resize_type(rows, cols);
    lemma_resize_rows(rows, cols);
    lemma_resize_cols(rows, cols);
    lemma_members_comma(s, 1, m1, 16, Seq::empty());
    lemma_members_comma(s, 17, m2, (24 + l1) as nat, seq![m1]);
    lemma_members_close(s, (25 + l1) as nat, m3, (32 + l1 + l2) as nat, seq![m1, m2]);
    lemma_object_open(s);
    assert(seq![m1].push(m2) =~= seq![m1, m2]);
    assert(seq![m1, m2].push(m3) =~= seq![m1, m2, m3]);
    assert(Seq::<(Seq<char>, JsonValue)>::empty().push(m1) =~= seq![m1]);
}

/// Where the fixed characters of an exit message stand.
proof fn lemma_exit_layout(code: nat)
    ensures
        ({
            let s = exit_text(code as int);
            let l = decimal(code).len();
            &&& s.len() == 23 + l
            &&& s[0] == '{' && s[1] == '"' && s[14] == ',' && s[15] == '"' && s[(22 + l) as int] == '}'
        }),
{
    reveal_strlit("{\"type\":\"exit\",\"code\":");
    reveal_strlit("}");
}

/// The first member of an exit message.
proof fn lemma_exit_type(code: nat)
    ensures
        parse_member(exit_text(code as int), 1) == Some((("type"@, JsonValue::Str("exit"@)), 14nat)),
{
    let s = exit_text(code as int);
    reveal_strlit("{\"type\":\"exit\",\"code\":");
    reveal_strlit("type");
    reveal_strlit("exit");
    lemma_words_plain();
    assert(s.subrange(2, 6) =~= "type"@);
    lemma_string_value(s, 1, "type"@);
    assert(s.subrange(9, 13) =~= "exit"@);
    lemma_string_value(s, 8, "exit"@);
    lemma_member(s, 1, "type"@, 7, JsonValue::Str("exit"@), 14);
}

/// The second member of an exit message.
proof fn lemma_exit_code(code: nat)
    ensures
        parse_member(exit_text(code as int), 15) == Some(
            (("code"@, JsonValue::Int { neg: false, digits: decimal(code) }), (22 + decimal(code).len()) as nat),
        ),
{
    let s = exit_text(code as int);
    let d = decimal(code);
    let l = d.len();
    lemma_decimal(code);
    reveal_strlit("{\"type\":\"exit\",\"code\":");
    reveal_strlit("}");
    reveal_strlit("code");
    lemma_words_plain();
    assert(s.subrange(16, 20) =~= "code"@);
    lemma_string_value(s, 15, "code"@);
    assert(s.subrange(22, (22 + l) as int) =~= d);
    assert(s[(22 + l) as int] == '}');
    lemma_decimal_value(s, 22, code);
    assert(s[22] == d[0]);
    lemma_member(s, 15, "code"@, 21, JsonValue::Int { neg: false, digits: d }, (22 + l) as nat);
}

/// The members of an exit message with a nonnegative code.
proof fn lemma_exit_members(code: nat)
    ensures
        parse_object_spec(exit_text(code as int)) == Some(
            seq![("type"@, JsonValue::Str("exit"@)), ("code"@, JsonValue::Int { neg: false, digits: decimal(code) })],
        ),
{
    let s = exit_text(code as int);
    let l = decimal(code).len();
    let m1 = ("type"@, JsonValue::Str("exit"@));
    let m2 = ("code"@, JsonValue::Int { neg: false, digits: decimal(code) });
    lemma_exit_layout(code);
    lemma_exit_type(code);
    lemma_exit_code(code);
    lemma_members_comma(s, 1, m1, 14, Seq::empty());
    lemma_members_close(s, 15, m2, (22 + l) as nat, seq![m1]);
    lemma_object_open(s);
    assert(seq![m1].push(m2) =~= seq![m1, m2]);
    assert(Seq::<(Seq<char>, JsonValue)>::empty().push(m1) =~= seq![m1]);
}

/// Where the fixed characters of an exec message stand.
proof fn lemma_exec_layout(cmd: Seq<char>, rows: nat, cols: nat)
    ensures
        ({
            let s = exec_text(cmd, rows, cols);
            let e = escape(cmd).len();
            let l1 = decimal(rows).len();
            let l2 = decimal(cols).len();
            &&& s.len() == 40 + e + l1 + l2
            &&& s[0] == '{' && s[1] == '"' && s[14] == ',' && s[15] == '"'
            &&& s[(23 + e) as int] == ',' && s[(24 + e) as int] == '"'
            &&& s[(31 + e + l1) as int] == ',' && s[(32 + e + l1) as int] == '"' && s[(39 + e + l1 + l2) as int] == '}'
        }),
{
    reveal_strlit("{\"type\":\"exec\",\"cmd\":\"");
    reveal_strlit("\",\"rows\":");
    reveal_strlit(",\"cols\":");
    reveal_strlit("}");
}

/// The first member of an exec message.
proof fn lemma_exec_type(cmd: Seq<char>, rows: nat, cols: nat)
    ensures
        parse_member(exec_text(cmd, rows, cols), 1) == Some((("type"@, JsonValue::Str("exec"@)), 14nat)),
{
    let s = exec_text(cmd, rows, cols);
    reveal_strlit("{\"type\":\"exec\",\"cmd\":\"");
    reveal_strlit("type");
    reveal_strlit("exec");
    lemma_words_plain();
    assert(s.subrange(2, 6) =~= "type"@);
    lemma_string_value(s, 1, "type"@);
    assert(s.subrange(9, 13) =~= "exec"@);
    lemma_string_value(s, 8, "exec"@);
    lemma_member(s, 1, "type"@, 7, JsonValue::Str("exec"@), 14);
}

/// The second member of an exec message: the command, whatever it holds.
proof fn lemma_exec_cmd(cmd: Seq<char>, rows: nat, cols: nat)
    ensures
        parse_member(exec_text(cmd, rows, cols), 15) == Some(
            (("cmd"@, JsonValue::Str(cmd)), (23 + escape(cmd).len()) as nat),
        ),
{
    let s = exec_text(cmd, rows, cols);
    let e = escape(cmd).len();
    reveal_strlit("{\"type\":\"exec\",\"cmd\":\"");
    reveal_strlit("\",\"rows\":");
    reveal_strlit("cmd");
    lemma_words_plain();
    assert(s.subrange(16, 19) =~= "cmd"@);
    lemma_string_value(s, 15, "cmd"@);
    assert(s.subrange(22, (22 + e) as int) =~= escape(cmd));
    assert(s[(22 + e) as int] == '"');
    lemma_string_value(s, 21, cmd);
    lemma_member(s, 15, "cmd"@, 20, JsonValue::Str(cmd), (23 + e) as nat);
}

/// The third member of an exec message.
#[verifier::rlimit(40)]
proof fn lemma_exec_rows(cmd: Seq<char>, rows: nat, cols: nat)
    ensures
        parse_member(exec_text(cmd, rows, cols), (24 + escape(cmd).len()) as nat) == Some(
            (
                ("rows"@, JsonValue::Int { neg: false, digits: decimal(rows) }),
                (31 + escape(cmd).len() + decimal(rows).len()) as nat,
            ),
        ),
{
    let s = exec_text(cmd, rows, cols);
    let e = escape(cmd).len();
    let d1 = decimal(rows);
    let l1 = d1.len();
    lemma_decimal(rows);
    lemma_exec_layout(cmd, rows, cols);
    reveal_strlit("{\"type\":\"exec\",\"cmd\":\"");
    reveal_strlit("\",\"rows\":");
    reveal_strlit(",\"cols\":");
    reveal_strlit("rows");
    lemma_words_plain();
    assert(s.subrange((25 + e) as int, (29 + e) as int) =~= "rows"@);
    lemma_string_value(s, (24 + e) as nat, "rows"@);
    assert(s.subrange((31 + e) as int, (31 + e + l1) as int) =~= d1);
    assert(s[(31 + e + l1) as int] == ',');
    lemma_decimal_value(s, (31 + e) as nat, rows);
    assert(s[(31 + e) as int] == d1[0]);
    lemma_member(s, (24 + e) as nat, "rows"@, (30 + e) as nat, JsonValue::Int { neg: false, digits: d1 }, (31 + e + l1) as nat);
}

/// The fourth member of an exec message.
#[verifier::rlimit(40)]
proof fn lemma_exec_cols(cmd: Seq<char>, rows: nat, cols: nat)
    ensures
        parse_member(exec_text(cmd, rows, cols), (32 + escape(cmd).len() + decimal(rows).len()) as nat) == Some(
            (
                ("cols"@, JsonValue::Int { neg: false, digits: decimal(cols) }),
                (39 + escape(cmd).len() + decimal(rows).len() + decimal(cols).len()) as nat,
            ),
        ),
{
    let s = exec_text(cmd, rows, cols);
    let e = escape(cmd).len();
    let l1 = decimal(rows).len();
    let d2 = decimal(cols);
    let l2 = d2.len();
    lemma_decimal(cols);
    lemma_exec_layout(cmd, rows, cols);
    reveal_strlit("{\"type\":\"exec\",\"cmd\":\"");
    reveal_strlit("\",\"rows\":");
    reveal_strlit(",\"cols\":");
    reveal_strlit("}");
    reveal_strlit("cols");
    lemma_words_plain();
    assert(s.subrange((33 + e + l1) as int, (37 + e + l1) as int) =~= "cols"@);
    lemma_string_value(s, (32 + e + l1) as nat, "cols"@);
    assert(s.subrange((39 + e + l1) as int, (39 + e + l1 + l2) as int) =~= d2);
    assert(s[(39 + e + l1 + l2) as int] == '}');
    lemma_decimal_value(s, (39 + e + l1) as nat, cols);
    assert(s[(39 + e + l1) as int] == d2[0]);
    lemma_member(s, (32 + e + l1) as nat, "cols"@, (38 + e + l1) as nat, JsonValue::Int { neg: false, digits: d2 }, (39 + e + l1 + l2) as nat);
}

/// The last two members of an exec message.
#[verifier::spinoff_prover]
proof fn lemma_exec_size_members(cmd: Seq<char>, rows: nat, cols: nat, acc: Seq<(Seq<char>, JsonValue)>)
    ensures
        parse_members(exec_text(cmd, rows, cols), (24 + escape(cmd).len()) as nat, acc) == Some(
            acc.push(("rows"@, JsonValue::Int { neg: false, digits: decimal(rows) })).push(
                ("cols"@, JsonValue::Int { neg: false, digits: decimal(cols) }),
            ),
        ),
{
    let s = exec_text(cmd, rows, cols);
    let e = escape(cmd).len();
    let l1 = decimal(rows).len();
    let l2 = decimal(cols).len();
    let m3 = ("rows"@, JsonValue::Int { neg: false, digits: decimal(rows) });
    let m4 = ("cols"@, JsonValue::Int { neg: false, digits: decimal(cols) });
    lemma_exec_layout(cmd, rows, cols);
    lemma_exec_rows(cmd, rows, cols);
    lemma_exec_cols(cmd, rows, cols);
    lemma_members_comma(s, (24 + e) as nat, m3, (31 + e + l1) as nat, acc);
    lemma_members_close(s, (32 + e + l1) as nat, m4, (39 + e + l1 + l2) as nat, acc.push(m3));
}

/// The members of an exec message.
#[verifier::spinoff_prover]
#[verifier::rlimit(40)]
proof fn lemma_exec_members(cmd: Seq<char>, rows: nat, cols: nat)
    ensures
        parse_object_spec(exec_text(cmd, rows, cols)) == Some(
            seq![
                ("type"@, JsonValue::Str("exec"@)),
                ("cmd"@, JsonValue::Str(cmd)),
                ("rows"@, JsonValue::Int { neg: false, digits: decimal(rows) }),
                ("cols"@, JsonValue::Int { neg: false, digits: decimal(cols) }),
            ],
        ),
{
    let s = exec_text(cmd, rows, cols);
    let e = escape(cmd).len();
    let m1 = ("type"@, JsonValue::Str("exec"@));
    let m2 = ("cmd"@, JsonValue::Str(cmd));
    let m3 = ("rows"@, JsonValue::Int { neg: false, digits: decimal(rows) });
    let m4 = ("cols"@, JsonValue::Int { neg: false, digits: decimal(cols) });
    lemma_exec_layout(cmd, rows, cols);
    lemma_exec_type(cmd, rows, cols);
    lemma_exec_cmd(cmd, rows, cols);
    lemma_members_comma(s, 1, m1, 14, Seq::empty());
    lemma_members_comma(s, 15, m2, (23 + e) as nat, seq![m1]);
    lemma_exec_size_members(cmd, rows, cols, seq![m1, m2]);
    lemma_object_open(s);
    assert(Seq::<(Seq<char>, JsonValue)>::empty().push(m1) =~= seq![m1]);
    assert(seq![m1].push(m2) =~= seq![m1, m2]);
    assert(seq![m1, m2].push(m3).push(m4) =~= seq![m1, m2, m3, m4]);
}

/// The message keys differ from one another.
proof fn lemma_keys_differ()
    ensures
        "type"@ != "cmd"@,
        "type"@ != "rows"@,
        "type"@ != "cols"@,
        "type"@ != "code"@,
        "cmd"@ != "rows"@,
        "cmd"@ != "cols"@,
        "cmd"@ != "code"@,
        "rows"@ != "cols"@,
        "rows"@ != "code"@,
        "cols"@ != "code"@,
        "resize"@ != "exec"@,
        "resize"@ != "exit"@,
        "exec"@ != "exit"@,
{
    reveal_strlit("type");
    reveal_strlit("cmd");
    reveal_strlit("rows");
    reveal_strlit("cols");
    reveal_strlit("code");
    reveal_strlit("resize");
    reveal_strlit("exec");
    reveal_strlit("exit");
    assert("type"@[0] != "rows"@[0]);
    assert("type"@[0] != "cols"@[0]);
    assert("type"@[0] != "code"@[0]);
    assert("rows"@[0] != "cols"@[0]);
    assert("rows"@[0] != "code"@[0]);
    assert("cols"@[2] != "code"@[2]);
    assert("exec"@[2] != "exit"@[2]);
    assert("cmd"@.len() != "code"@.len());
}

/// A resize message reads back as its size (clamped), and as neither an exec
/// nor an exit message; as a first message it keeps the size as sent.
pub proof fn lemma_resize_message_roundtrip(rows: u16, cols: u16)
    ensures
        resize_of(resize_text(rows as nat, cols as nat)) == Some(
            (clamp(rows as nat, 1, MAX_ROWS as nat), clamp(cols as nat, 1, MAX_COLS as nat)),
        ),
        size_or(resize_text(rows as nat, cols as nat), "rows"@, 24) == rows as nat,
        size_or(resize_text(rows as nat, cols as nat), "cols"@, 80) == cols as nat,
        exec_of(resize_text(rows as nat, cols as nat)) is None,
        exit_code_of(resize_text(rows as nat, cols as nat)) is None,
{
    let s = resize_text(rows as nat, cols as nat);
    lemma_resize_members(rows as nat, cols as nat);
    lemma_keys_differ();
    lemma_decimal(rows as nat);
    lemma_decimal(cols as nat);
    reveal_with_fuel(first_field, 4);
    assert(field_value(s, "type"@) == Some(JsonValue::Str("resize"@)));
    assert(field_value(s, "rows"@) == Some(JsonValue::Int { neg: false, digits: decimal(rows as nat) }));
    assert(field_value(s, "cols"@) == Some(JsonValue::Int { neg: false, digits: decimal(cols as nat) }));
}

/// An exec message reads back as its command, whatever characters it holds,
/// and as its size; and as neither a resize nor an exit message.
pub proof fn lemma_exec_message_roundtrip(cmd: Seq<char>, rows: u16, cols: u16)
    ensures
        exec_of(exec_text(cmd, rows as nat, cols as nat)) == Some(cmd),
        size_or(exec_text(cmd, rows as nat, cols as nat), "rows"@, 24) == rows as nat,
        size_or(exec_text(cmd, rows as nat, cols as nat), "cols"@, 80) == cols as nat,
        resize_of(exec_text(cmd, rows as nat, cols as nat)) is None,
        exit_code_of(exec_text(cmd, rows as nat, cols as nat)) is None,
{
    let s = exec_text(cmd, rows as nat, cols as nat);
    lemma_exec_members(cmd, rows as nat, cols as nat);
    lemma_keys_differ();
    lemma_decimal(rows as nat);
    lemma_decimal(cols as nat);
    reveal_with_fuel(first_field, 5);
    assert(field_value(s, "type"@) == Some(JsonValue::Str("exec"@)));
    assert(field_value(s, "cmd"@) == Some(JsonValue::Str(cmd)));
    assert(field_value(s, "rows"@) == Some(JsonValue::Int { neg: false, digits: decimal(rows as nat) }));
    assert(field_value(s, "cols"@) == Some(JsonValue::Int { neg: false, digits: decimal(cols as nat) }));
}

/// An exit message with a nonnegative code reads back as the low 8 bits of
/// the code, and as neither a resize nor an exec message. (A negative code is
/// a negative number, which is no exit status: `exit_message(-1)` reads back
/// as nothing.)
pub proof fn lemma_exit_message_roundtrip(code: i32)
    requires
        code >= 0,
    ensures
        exit_code_of(exit_text(code as int)) == Some((code % 256) as int),
        exec_of(exit_text(code as int)) is None,
        resize_of(exit_text(code as int)) is None,
{
    let n = code as nat;
    let s = exit_text(code as int);
    assert(n as int == code as int);
    lemma_exit_members(n);
    lemma_keys_differ();
    lemma_decimal(n);
    reveal_with_fuel(first_field, 3);
    assert(field_value(s, "type"@) == Some(JsonValue::Str("exit"@)));
    assert(field_value(s, "code"@) == Some(JsonValue::Int { neg: false, digits: decimal(n) }));
    assert(field_value(s, "rows"@) is None);
}

} // verus!
