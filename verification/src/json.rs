//! The small JSON control messages of the protocol: building them, and
//! reading their fields from the parsed object.
use vstd::prelude::*;
use crate::json_reader::{
    first_field, first_field_exec, item_ok, item_view, parse_object, parse_object_spec, JsonItem, JsonValue,
};
use crate::text::{
    is_digit, digits_saturating, digits_value, chars_of, decimal, decimal_int, digit_char, parse_unsigned_exec, push_decimal, push_decimal_signed, push_str, same_chars, string_of,
};

verus! {

broadcast use vstd::string::group_string_axioms;

/// Rows assumed when a session's first message gives none.
pub const DEFAULT_ROWS: u32 = 24;
/// Columns assumed when a session's first message gives none.
pub const DEFAULT_COLS: u32 = 80;
/// Largest number of rows a session accepts.
pub const MAX_ROWS: u32 = 1000;
/// Largest number of columns a session accepts.
pub const MAX_COLS: u32 = 5000;

/// The text of a resize message.
pub open spec fn resize_text(rows: nat, cols: nat) -> Seq<char> {
    "{\"type\":\"resize\",\"rows\":"@ + decimal(rows) + ",\"cols\":"@ + decimal(cols) + "}"@
}

/// `{"type":"resize","rows":ROWS,"cols":COLS}`.
pub fn resize_message(rows: u16, cols: u16) -> (s: String)
    ensures
        s@ == resize_text(rows as nat, cols as nat),
{
    let mut out: Vec<char> = Vec::new();
    push_str(&mut out, "{\"type\":\"resize\",\"rows\":");
    push_decimal(&mut out, rows as u64);
    push_str(&mut out, ",\"cols\":");
    push_decimal(&mut out, cols as u64);
    push_str(&mut out, "}");
    string_of(&out)
}

/// A lower-case hexadecimal digit.
pub open spec fn hex_lower(d: nat) -> char {
    if d < 10 {
        digit_char(d)
    } else {
        (d + 87) as char
    }
}

/// How one character is written inside a JSON string.
pub open spec fn escape_char(c: char) -> Seq<char> {
    if c == '"' {
        seq!['\\', '"']
    } else if c == '\\' {
        seq!['\\', '\\']
    } else if c == '\n' {
        seq!['\\', 'n']
    } else if c == '\r' {
        seq!['\\', 'r']
    } else if c == '\t' {
        seq!['\\', 't']
    } else if (c as u32) < 0x20 {
        seq!['\\', 'u', '0', '0', hex_lower((c as u32 / 16) as nat), hex_lower((c as u32 % 16) as nat)]
    } else {
        seq![c]
    }
}

/// How a text is written inside a JSON string.
pub open spec fn escape(s: Seq<char>) -> Seq<char>
    decreases s.len(),
{
    if s.len() == 0 {
        Seq::empty()
    } else {
        escape(s.drop_last()) + escape_char(s.last())
    }
}

fn hex_lower_exec(d: u32) -> (c: char)
    requires
        d < 16,
    ensures
        c == hex_lower(d as nat),
{
    if d < 10 {
        (48u8 + d as u8) as char
    } else {
        (87u8 + d as u8) as char
    }
}

fn push_escaped_char(out: &mut Vec<char>, c: char)
    ensures
        final(out)@ == old(out)@ + escape_char(c),
{
    if c == '"' {
        out.push('\\');
        out.push('"');
    } else if c == '\\' {
        out.push('\\');
        out.push('\\');
    } else if c == '\n' {
        out.push('\\');
        out.push('n');
    } else if c == '\r' {
        out.push('\\');
        out.push('r');
    } else if c == '\t' {
        out.push('\\');
        out.push('t');
    } else if (c as u32) < 0x20 {
        let v = c as u32;
        out.push('\\');
        out.push('u');
        out.push('0');
        out.push('0');
        out.push(hex_lower_exec(v / 16));
        out.push(hex_lower_exec(v % 16));
    } else {
        out.push(c);
    }
    assert(final(out)@ =~= old(out)@ + escape_char(c));
}

/// Writes `text` as the inside of a JSON string: quote, backslash, newline,
/// carriage return and tab get a backslash escape, other control characters a
/// `\u00XX` escape.
pub fn escape_json(text: &str) -> (s: String)
    ensures
        s@ == escape(text@),
{
    let chars = chars_of(text);
    let mut out: Vec<char> = Vec::new();
    let mut i: usize = 0;
    while i < chars.len()
        invariant
            i <= chars@.len(),
            chars@ == text@,
            out@ == escape(chars@.take(i as int)),
        decreases chars@.len() - i,
    {
        push_escaped_char(&mut out, chars[i]);
        assert(chars@.take(i + 1).drop_last() =~= chars@.take(i as int));
        i += 1;
    }
    assert(chars@.take(i as int) =~= chars@);
    string_of(&out)
}

/// The text of an exec message.
pub open spec fn exec_text(cmd: Seq<char>, rows: nat, cols: nat) -> Seq<char> {
    "{\"type\":\"exec\",\"cmd\":\""@ + escape(cmd) + "\",\"rows\":"@ + decimal(rows) + ",\"cols\":"@
        + decimal(cols) + "}"@
}

/// `{"type":"exec","cmd":"CMD","rows":ROWS,"cols":COLS}`, with CMD escaped.
pub fn exec_message(cmd: &str, rows: u16, cols: u16) -> (s: String)
    ensures
        s@ == exec_text(cmd@, rows as nat, cols as nat),
{
    let escaped = escape_json(cmd);
    let mut out: Vec<char> = Vec::new();
    push_str(&mut out, "{\"type\":\"exec\",\"cmd\":\"");
    push_str(&mut out, escaped.as_str());
    push_str(&mut out, "\",\"rows\":");
    push_decimal(&mut out, rows as u64);
    push_str(&mut out, ",\"cols\":");
    push_decimal(&mut out, cols as u64);
    push_str(&mut out, "}");
    string_of(&out)
}

/// The text of an exit message.
pub open spec fn exit_text(code: int) -> Seq<char> {
    "{\"type\":\"exit\",\"code\":"@ + decimal_int(code) + "}"@
}

/// `{"type":"exit","code":CODE}`.
pub fn exit_message(code: i32) -> (s: String)
    ensures
        s@ == exit_text(code as int),
{
    let mut out: Vec<char> = Vec::new();
    push_str(&mut out, "{\"type\":\"exit\",\"code\":");
    push_decimal_signed(&mut out, code as i64);
    push_str(&mut out, "}");
    string_of(&out)
}

/// `"key"`, the text that introduces a field.
pub open spec fn quoted(key: Seq<char>) -> Seq<char> {
    seq!['"'] + key + seq!['"']
}

/// The value of the first member called `key` of the object that is the
/// whole text.
pub open spec fn field_value(json: Seq<char>, key: Seq<char>) -> Option<JsonValue> {
    match parse_object_spec(json) {
        Some(fs) => first_field(fs, key),
        None => None,
    }
}

/// A field that holds a nonnegative integer that fits in `u32`: its value.
pub open spec fn field_u32_spec(json: Seq<char>, key: Seq<char>) -> Option<nat> {
    match field_value(json, key) {
        Some(JsonValue::Int { neg: false, digits }) => if digits_value(digits) <= u32::MAX as nat {
            Some(digits_value(digits))
        } else {
            None
        },
        _ => None,
    }
}

/// A field that holds an integer, read as a size: its value, however large,
/// and 0 for a negative one (which clamping brings up to the least size).
pub open spec fn field_size_spec(json: Seq<char>, key: Seq<char>) -> Option<nat> {
    match field_value(json, key) {
        Some(JsonValue::Int { neg, digits }) => if neg {
            Some(0)
        } else {
            Some(digits_value(digits))
        },
        _ => None,
    }
}

/// A field that holds a string: the string, unescaped.
pub open spec fn field_str_spec(json: Seq<char>, key: Seq<char>) -> Option<Seq<char>> {
    match field_value(json, key) {
        Some(JsonValue::Str(t)) => Some(t),
        _ => None,
    }
}

/// The value of field `key`, as read.
fn field_item(json: &[char], key: &[char]) -> (r: Option<JsonItem>)
    ensures
        r matches Some(v) ==> field_value(json@, key@) == Some(item_view(v)),
        r is None ==> field_value(json@, key@) is None,
        r matches Some(v) ==> item_ok(v),
{
    match parse_object(json) {
        Some(fields) => match first_field_exec(&fields, key) {
            Some(v) => Some(copy_item(v)),
            None => None,
        },
        None => None,
    }
}

fn copy_item(v: &JsonItem) -> (r: JsonItem)
    ensures
        item_view(r) == item_view(*v),
        item_ok(*v) ==> item_ok(r),
{
    match v {
        JsonItem::Str(t) => JsonItem::Str(t.clone()),
        JsonItem::Int { neg, digits } => JsonItem::Int { neg: *neg, digits: digits.clone() },
        JsonItem::Other => JsonItem::Other,
    }
}

/// The value of field `key` when it is a nonnegative integer that fits in `u32`.
pub fn field_u32(json: &[char], key: &[char]) -> (r: Option<u32>)
    ensures
        r == (match field_u32_spec(json@, key@) {
            Some(v) => Some(v as u32),
            None => None,
        }),
{
    match field_item(json, key) {
        Some(JsonItem::Int { neg: false, digits }) => {
            assert(is_digit(digits@[0]));
            match parse_unsigned_exec(&digits, 0xFFFF_FFFF) {
                Some(n) => Some(n as u32),
                None => None,
            }
        },
        _ => None,
    }
}

/// The value of field `key` when it is an integer, as a size: `u32::MAX` when
/// larger, 0 when negative.
pub fn field_size(json: &[char], key: &[char]) -> (r: Option<u32>)
    ensures
        r == (match field_size_spec(json@, key@) {
            Some(v) => Some((if v > u32::MAX as nat { u32::MAX as nat } else { v }) as u32),
            None => None,
        }),
{
    match field_item(json, key) {
        Some(JsonItem::Int { neg, digits }) => if neg {
            Some(0)
        } else {
            Some(digits_saturating(&digits))
        },
        _ => None,
    }
}

/// The string that field `key` holds, unescaped.
pub fn field_str(json: &[char], key: &[char]) -> (r: Option<Vec<char>>)
    ensures
        r matches Some(v) ==> field_str_spec(json@, key@) == Some(v@),
        r is None ==> field_str_spec(json@, key@) is None,
{
    match field_item(json, key) {
        Some(JsonItem::Str(t)) => Some(t),
        _ => None,
    }
}

/// The exit code that an exit message carries: its `code` field, low 8 bits.
pub open spec fn exit_code_of(text: Seq<char>) -> Option<int> {
    match field_str_spec(text, "type"@) {
        Some(t) => if t == "exit"@ {
            match field_u32_spec(text, "code"@) {
                Some(c) => Some((c % 256) as int),
                None => None,
            }
        } else {
            None
        },
        None => None,
    }
}

/// The exit code of an exit message, or `None` for any other text.
pub fn parse_exit_code(text: &str) -> (r: Option<i32>)
    ensures
        r == (match exit_code_of(text@) {
            Some(c) => Some(c as i32),
            None => None,
        }),
{
    let json = chars_of(text);
    let ty = match field_str(&json, &chars_of("type")) {
        Some(t) => t,
        None => return None,
    };
    if !same_chars(&ty, &chars_of("exit")) {
        return None;
    }
    match field_u32(&json, &chars_of("code")) {
        Some(c) => {
            let low = c & 0xFF;
            assert(low == c % 256) by (bit_vector)
                requires
                    low == c & 0xFF,
            ;
            Some(low as i32)
        },
        None => None,
    }
}

/// `v` brought into `lo..=hi`.
pub open spec fn clamp(v: nat, lo: nat, hi: nat) -> nat {
    if v < lo {
        lo
    } else if v > hi {
        hi
    } else {
        v
    }
}

/// Rows and columns brought into `1..=MAX_ROWS` and `1..=MAX_COLS`.
pub fn safe_size(rows: u32, cols: u32) -> (r: (u16, u16))
    ensures
        r.0 as nat == clamp(rows as nat, 1, MAX_ROWS as nat),
        r.1 as nat == clamp(cols as nat, 1, MAX_COLS as nat),
{
    let r = if rows < 1 {
        1
    } else if rows > MAX_ROWS {
        MAX_ROWS
    } else {
        rows
    };
    let c = if cols < 1 {
        1
    } else if cols > MAX_COLS {
        MAX_COLS
    } else {
        cols
    };
    (r as u16, c as u16)
}

/// What a session's first message asks for.
pub struct SessionInit {
    pub rows: u16,
    pub cols: u16,
    /// The command of an exec message (named `exec` in the wire format; `exec`
    /// is a word of Verus).
    pub command: Option<String>,
}

/// A size field of the first message, or its default.
pub open spec fn size_or(json: Seq<char>, key: Seq<char>, default: nat) -> nat {
    match field_size_spec(json, key) {
        Some(v) => v,
        None => default,
    }
}

/// The command of an exec message: its `cmd` field when its `type` is `exec`.
pub open spec fn exec_of(json: Seq<char>) -> Option<Seq<char>> {
    match field_str_spec(json, "type"@) {
        Some(t) => if t == "exec"@ {
            field_str_spec(json, "cmd"@)
        } else {
            None
        },
        None => None,
    }
}

/// `init` is what the first message `text` asks for: its size, clamped, with
/// defaults for missing fields, and the command when it is an exec message.
pub open spec fn init_matches(init: SessionInit, text: Seq<char>) -> bool {
    &&& init.rows as nat == clamp(size_or(text, "rows"@, DEFAULT_ROWS as nat), 1, MAX_ROWS as nat)
    &&& init.cols as nat == clamp(size_or(text, "cols"@, DEFAULT_COLS as nat), 1, MAX_COLS as nat)
    &&& (init.command is None <==> exec_of(text) is None)
    &&& (init.command matches Some(cmd) ==> exec_of(text) == Some(cmd@))
}

/// Reads the first message of a session: its size, clamped, with defaults
/// for missing fields, and the command when it is an exec message.
pub fn parse_session_init(text: &str) -> (init: SessionInit)
    ensures
        init.rows as nat == clamp(size_or(text@, "rows"@, DEFAULT_ROWS as nat), 1, MAX_ROWS as nat),
        init.cols as nat == clamp(size_or(text@, "cols"@, DEFAULT_COLS as nat), 1, MAX_COLS as nat),
        init.command is None <==> exec_of(text@) is None,
        init.command matches Some(cmd) ==> exec_of(text@) == Some(cmd@),
{
    let json = chars_of(text);
    let rows = match field_size(&json, &chars_of("rows")) {
        Some(v) => v,
        None => DEFAULT_ROWS,
    };
    let cols = match field_size(&json, &chars_of("cols")) {
        Some(v) => v,
        None => DEFAULT_COLS,
    };
    let (rows, cols) = safe_size(rows, cols);
    let command = match field_str(&json, &chars_of("type")) {
        Some(t) => {
            if same_chars(&t, &chars_of("exec")) {
                match field_str(&json, &chars_of("cmd")) {
                    Some(cmd) => Some(string_of(&cmd)),
                    None => None,
                }
            } else {
                None
            }
        },
        None => None,
    };
    SessionInit { rows, cols, command }
}

/// The size that a resize message asks for, clamped.
pub open spec fn resize_of(json: Seq<char>) -> Option<(nat, nat)> {
    match field_str_spec(json, "type"@) {
        Some(t) => if t == "resize"@ {
            match (field_size_spec(json, "rows"@), field_size_spec(json, "cols"@)) {
                (Some(r), Some(c)) => Some((clamp(r, 1, MAX_ROWS as nat), clamp(c, 1, MAX_COLS as nat))),
                _ => None,
            }
        } else {
            None
        },
        None => None,
    }
}

/// The clamped size of a resize message, or `None` for any other text.
pub fn parse_resize_command(text: &str) -> (r: Option<(u16, u16)>)
    ensures
        r is None <==> resize_of(text@) is None,
        r matches Some(p) ==> resize_of(text@) == Some((p.0 as nat, p.1 as nat)),
{
    let json = chars_of(text);
    let ty = match field_str(&json, &chars_of("type")) {
        Some(t) => t,
        None => return None,
    };
    if !same_chars(&ty, &chars_of("resize")) {
        return None;
    }
    let rows = match field_size(&json, &chars_of("rows")) {
        Some(v) => v,
        None => return None,
    };
    let cols = match field_size(&json, &chars_of("cols")) {
        Some(v) => v,
        None => return None,
    };
    Some(safe_size(rows, cols))
}


} // verus!
