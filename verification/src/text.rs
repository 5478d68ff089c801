//! Character-level text utilities: every function works on the sequence of
//! Unicode scalar values of a string, as `str` and `String` are viewed by Verus.
use vstd::prelude::*;

verus! {

broadcast use vstd::string::group_string_axioms;

/// The characters of `s`, one by one.
pub fn chars_of(s: &str) -> (out: Vec<char>)
    ensures
        out@ == s@,
{
    let mut out: Vec<char> = Vec::new();
    for c in it: s.chars()
        invariant
            out@ == it.seq().take(it.index() as int),
            it.seq() == s@,
    {
        out.push(c);
    }
    out
}

/// Collects characters into a `String` (std's `FromIterator<char> for String`,
/// which appends each character in order).
#[verifier::external_body]
pub fn string_of(chars: &[char]) -> (s: String)
    ensures
        s@ == chars@,
{
    chars.iter().collect()
}

/// A copy of `v[from..to]`.
pub fn slice_of(v: &[char], from: usize, to: usize) -> (out: Vec<char>)
    requires
        from <= to <= v@.len(),
    ensures
        out@ == v@.subrange(from as int, to as int),
{
    let mut out: Vec<char> = Vec::new();
    let mut i = from;
    while i < to
        invariant
            from <= i <= to <= v@.len(),
            out@ == v@.subrange(from as int, i as int),
        decreases to - i,
    {
        out.push(v[i]);
        i += 1;
    }
    out
}

/// Whether `n` occurs in `h` at position `i`.
pub open spec fn matches_at(h: Seq<char>, n: Seq<char>, i: int) -> bool {
    0 <= i && i + n.len() <= h.len() && h.subrange(i, i + n.len()) == n
}

/// The first position at or after `i` where `n` occurs in `h`.
pub open spec fn find_from(h: Seq<char>, n: Seq<char>, i: nat) -> Option<nat>
    decreases h.len() - i,
{
    if i + n.len() > h.len() {
        None
    } else if n.len() == 0 || matches_at(h, n, i as int) {
        Some(i)
    } else {
        find_from(h, n, i + 1)
    }
}

/// The first position where `n` occurs in `h`, as `str::find` gives it.
pub open spec fn find_seq(h: Seq<char>, n: Seq<char>) -> Option<nat> {
    find_from(h, n, 0)
}

/// What is known of a found position: `n` is there and nowhere earlier.
pub proof fn lemma_find_from(h: Seq<char>, n: Seq<char>, i: nat)
    ensures
        find_from(h, n, i) matches Some(k) ==> {
            &&& i <= k
            &&& matches_at(h, n, k as int)
            &&& forall|j: int| i <= j < k ==> !matches_at(h, n, j)
        },
        find_from(h, n, i) is None ==> forall|j: int| i <= j ==> !matches_at(h, n, j),
    decreases h.len() - i,
{
    if i + n.len() > h.len() {
    } else if n.len() == 0 || matches_at(h, n, i as int) {
        if n.len() == 0 {
            assert(h.subrange(i as int, i as int) =~= n);
        }
    } else {
        lemma_find_from(h, n, i + 1);
    }
}

/// Whether `n` occurs in `h` at position `i` (exec).
pub fn matches_at_exec(h: &[char], n: &[char], i: usize) -> (r: bool)
    requires
        i + n@.len() <= h@.len(),
    ensures
        r == matches_at(h@, n@, i as int),
{
    let hl = h.len();
    let mut j: usize = 0;
    while j < n.len()
        invariant
            hl == h@.len(),
            i + n@.len() <= h@.len(),
            j <= n@.len(),
            h@.subrange(i as int, i + j) =~= n@.take(j as int),
        decreases n@.len() - j,
    {
        if h[i + j] != n[j] {
            assert(h@.subrange(i as int, i + n@.len())[j as int] != n@[j as int]);
            return false;
        }
        j += 1;
        assert(h@.subrange(i as int, i + j) =~= n@.take(j as int));
    }
    assert(n@.take(j as int) =~= n@);
    true
}

/// The first position where `n` occurs in `h`.
pub fn find(h: &[char], n: &[char]) -> (r: Option<usize>)
    ensures
        r matches Some(k) ==> find_seq(h@, n@) == Some(k as nat),
        r is None ==> find_seq(h@, n@) is None,
{
    if n.len() > h.len() {
        return None;
    }
    let hl = h.len();
    let last = hl - n.len();
    let mut i: usize = 0;
    while i <= last
        invariant
            hl == h@.len(),
            last == h@.len() - n@.len(),
            i <= last + 1,
            find_seq(h@, n@) == find_from(h@, n@, i as nat),
        decreases last + 1 - i,
    {
        if n.len() == 0 || matches_at_exec(h, n, i) {
            return Some(i);
        }
        i += 1;
    }
    None
}


/// `s` begins with `p`.
pub open spec fn has_prefix(s: Seq<char>, p: Seq<char>) -> bool {
    p.len() <= s.len() && s.take(p.len() as int) == p
}

/// Whether `s` begins with `p`, as `str::starts_with` answers it.
pub fn starts_with(s: &[char], p: &[char]) -> (r: bool)
    ensures
        r == has_prefix(s@, p@),
{
    if p.len() > s.len() {
        return false;
    }
    let r = matches_at_exec(s, p, 0);
    assert(s@.subrange(0, p@.len() as int) =~= s@.take(p@.len() as int));
    r
}

/// Whether `c` occurs in `s`.
pub fn contains_char(s: &[char], c: char) -> (r: bool)
    ensures
        r == s@.contains(c),
{
    let mut i: usize = 0;
    while i < s.len()
        invariant
            i <= s@.len(),
            forall|j: int| 0 <= j < i ==> s@[j] != c,
        decreases s@.len() - i,
    {
        if s[i] == c {
            return true;
        }
        i += 1;
    }
    false
}

/// The last position of `c` in `s`.
pub open spec fn rfind_char(s: Seq<char>, c: char) -> Option<nat> {
    if s.contains(c) {
        Some(choose|i: nat| i < s.len() && s[i as int] == c && forall|j: int| i < j < s.len() ==> s[j] != c)
    } else {
        None
    }
}

/// The last position of `c` in `s`, as `str::rfind` with a character gives it.
pub fn rfind_char_exec(s: &[char], c: char) -> (r: Option<usize>)
    ensures
        r == (match rfind_char(s@, c) { Some(k) => Some(k as usize), None => None }),
        r matches Some(k) ==> k < s@.len() && s@[k as int] == c && forall|j: int| k < j < s@.len() ==> s@[j] != c,
{
    let mut i: usize = s.len();
    while i > 0
        invariant
            i <= s@.len(),
            forall|j: int| i <= j < s@.len() ==> s@[j] != c,
        decreases i,
    {
        if s[i - 1] == c {
            let k = i - 1;
            assert(s@.contains(c));
            let ghost w = choose|w: nat| w < s@.len() && s@[w as int] == c && forall|j: int| w < j < s@.len() ==> s@[j] != c;
            assert((k as nat) < s@.len() && s@[k as int] == c && forall|j: int| k < j < s@.len() ==> s@[j] != c);
            assert(w == k) by {
                if w < k {
                    assert(s@[k as int] != c);
                } else if w > k {
                    assert(s@[w as int] != c);
                }
            }
            return Some(k);
        }
        i -= 1;
    }
    assert(!s@.contains(c));
    None
}

/// Unicode `White_Space`, which `char::is_whitespace` tests and `str::trim` removes.
pub open spec fn is_ws(c: char) -> bool {
    ||| ('\u{9}' <= c && c <= '\u{d}')
    ||| c == ' '
    ||| c == '\u{85}'
    ||| c == '\u{a0}'
    ||| c == '\u{1680}'
    ||| ('\u{2000}' <= c && c <= '\u{200a}')
    ||| c == '\u{2028}'
    ||| c == '\u{2029}'
    ||| c == '\u{202f}'
    ||| c == '\u{205f}'
    ||| c == '\u{3000}'
}

/// `char::is_whitespace`.
pub fn is_whitespace(c: char) -> (r: bool)
    ensures
        r == is_ws(c),
{
    ('\u{9}' <= c && c <= '\u{d}') || c == ' ' || c == '\u{85}' || c == '\u{a0}' || c == '\u{1680}'
        || ('\u{2000}' <= c && c <= '\u{200a}') || c == '\u{2028}' || c == '\u{2029}' || c
        == '\u{202f}' || c == '\u{205f}' || c == '\u{3000}'
}

/// Number of leading whitespace characters.
pub open spec fn ws_run(s: Seq<char>) -> nat
    decreases s.len(),
{
    if s.len() > 0 && is_ws(s[0]) {
        1 + ws_run(s.drop_first())
    } else {
        0
    }
}

/// Number of trailing whitespace characters.
pub open spec fn ws_run_end(s: Seq<char>) -> nat
    decreases s.len(),
{
    if s.len() > 0 && is_ws(s.last()) {
        1 + ws_run_end(s.drop_last())
    } else {
        0
    }
}

/// Leading and trailing whitespace runs fit in the text.
pub proof fn lemma_ws_run_bound(s: Seq<char>)
    ensures
        ws_run(s) <= s.len(),
        ws_run_end(s) <= s.len(),
    decreases s.len(),
{
    if s.len() > 0 {
        lemma_ws_run_bound(s.drop_first());
        lemma_ws_run_bound(s.drop_last());
    }
}

/// `str::trim_start`.
pub open spec fn trim_start(s: Seq<char>) -> Seq<char> {
    s.skip(ws_run(s) as int)
}

/// `str::trim_end`.
pub open spec fn trim_end(s: Seq<char>) -> Seq<char> {
    s.take(s.len() - ws_run_end(s))
}

/// `str::trim`.
pub open spec fn trim(s: Seq<char>) -> Seq<char> {
    trim_end(trim_start(s))
}

/// `s` without its leading whitespace.
pub fn trim_start_exec(s: &[char]) -> (out: Vec<char>)
    ensures
        out@ == trim_start(s@),
{
    let mut i: usize = 0;
    proof {
        lemma_ws_run_bound(s@);
        assert(s@.skip(0) =~= s@);
    }
    while i < s.len() && is_whitespace(s[i])
        invariant
            i <= s@.len(),
            ws_run(s@) == i + ws_run(s@.skip(i as int)),
        decreases s@.len() - i,
    {
        assert(s@.skip(i as int).drop_first() =~= s@.skip(i + 1));
        i += 1;
    }
    assert(ws_run(s@.skip(i as int)) == 0);
    slice_of(s, i, s.len())
}

/// `s` without its trailing whitespace.
pub fn trim_end_exec(s: &[char]) -> (out: Vec<char>)
    ensures
        out@ == trim_end(s@),
{
    let mut i: usize = s.len();
    proof {
        lemma_ws_run_bound(s@);
        assert(s@.take(s@.len() as int) =~= s@);
    }
    while i > 0 && is_whitespace(s[i - 1])
        invariant
            i <= s@.len(),
            ws_run_end(s@) == (s@.len() - i) + ws_run_end(s@.take(i as int)),
        decreases i,
    {
        assert(s@.take(i as int).drop_last() =~= s@.take(i - 1));
        i -= 1;
    }
    assert(ws_run_end(s@.take(i as int)) == 0);
    slice_of(s, 0, i)
}

/// `s` without leading and trailing whitespace.
pub fn trim_exec(s: &[char]) -> (out: Vec<char>)
    ensures
        out@ == trim(s@),
{
    let t = trim_start_exec(s);
    trim_end_exec(&t)
}


/// `char::is_ascii_digit`.
pub open spec fn is_digit(c: char) -> bool {
    '0' <= c && c <= '9'
}

/// `char::is_ascii_alphabetic`.
pub open spec fn is_alpha(c: char) -> bool {
    ('a' <= c && c <= 'z') || ('A' <= c && c <= 'Z')
}

/// The value of a decimal digit.
pub open spec fn digit_value(c: char) -> nat {
    (c as u32 - 48) as nat
}

/// The digit character for `d < 10`.
pub open spec fn digit_char(d: nat) -> char {
    (d + 48) as char
}

/// Every character of `s` is a decimal digit.
pub open spec fn all_digits(s: Seq<char>) -> bool {
    forall|i: int| 0 <= i < s.len() ==> is_digit(#[trigger] s[i])
}

/// The number that a run of decimal digits spells.
pub open spec fn digits_value(s: Seq<char>) -> nat
    decreases s.len(),
{
    if s.len() == 0 {
        0
    } else {
        digits_value(s.drop_last()) * 10 + digit_value(s.last())
    }
}

/// The decimal spelling of `n`, without leading zeros.
pub open spec fn decimal(n: nat) -> Seq<char>
    decreases n,
{
    if n < 10 {
        seq![digit_char(n)]
    } else {
        decimal(n / 10).push(digit_char(n % 10))
    }
}

/// The decimal spelling of a signed number, with `-` before a negative one.
pub open spec fn decimal_int(i: int) -> Seq<char> {
    if i < 0 {
        seq!['-'] + decimal((-i) as nat)
    } else {
        decimal(i as nat)
    }
}

/// What `str::parse` gives for an unsigned type whose largest value is `max`:
/// an optional `+`, then one or more decimal digits whose value is at most `max`.
pub open spec fn parse_unsigned(s: Seq<char>, max: nat) -> Option<nat> {
    let d = if s.len() > 0 && s[0] == '+' {
        s.drop_first()
    } else {
        s
    };
    if d.len() > 0 && all_digits(d) && digits_value(d) <= max {
        Some(digits_value(d))
    } else {
        None
    }
}

/// Number of leading decimal digits.
pub open spec fn digit_run(s: Seq<char>) -> nat
    decreases s.len(),
{
    if s.len() > 0 && is_digit(s[0]) {
        1 + digit_run(s.drop_first())
    } else {
        0
    }
}

/// The leading decimal digits of `s`.
pub open spec fn digit_prefix(s: Seq<char>) -> Seq<char> {
    s.take(digit_run(s) as int)
}

/// The leading digit run fits in the text, is all digits, and is followed
/// by a non-digit when it stops early.
pub proof fn lemma_digit_run(s: Seq<char>)
    ensures
        digit_run(s) <= s.len(),
        all_digits(s.take(digit_run(s) as int)),
        digit_run(s) < s.len() ==> !is_digit(s[digit_run(s) as int]),
    decreases s.len(),
{
    if s.len() > 0 && is_digit(s[0]) {
        lemma_digit_run(s.drop_first());
        let k = digit_run(s.drop_first()) as int;
        assert forall|i: int| 0 <= i < k + 1 implies is_digit(#[trigger] s.take(k + 1)[i]) by {
            if i > 0 {
                assert(s.take(k + 1)[i] == s.drop_first().take(k)[i - 1]);
            }
        }
        if k + 1 < s.len() {
            assert(s[k + 1] == s.drop_first()[k]);
        }
    }
}

/// The leading decimal digits of `s`.
pub fn digit_prefix_exec(s: &[char]) -> (out: Vec<char>)
    ensures
        out@ == digit_prefix(s@),
{
    let mut i: usize = 0;
    proof {
        assert(s@.skip(0) =~= s@);
    }
    while i < s.len() && '0' <= s[i] && s[i] <= '9'
        invariant
            i <= s@.len(),
            digit_run(s@) == i + digit_run(s@.skip(i as int)),
        decreases s@.len() - i,
    {
        assert(s@.skip(i as int).drop_first() =~= s@.skip(i + 1));
        i += 1;
    }
    slice_of(s, 0, i)
}

/// The value of a run of digits, or `u32::MAX` when it is larger.
pub fn digits_saturating(s: &[char]) -> (r: u32)
    requires
        all_digits(s@),
    ensures
        r as nat == (if digits_value(s@) > u32::MAX as nat {
            u32::MAX as nat
        } else {
            digits_value(s@)
        }),
{
    let mut v: u32 = 0;
    let mut i: usize = 0;
    let ghost big = u32::MAX as nat;
    assert(s@.take(0) =~= Seq::<char>::empty());
    while i < s.len()
        invariant
            i <= s@.len(),
            all_digits(s@),
            big == u32::MAX as nat,
            v as nat == (if digits_value(s@.take(i as int)) > big {
                big
            } else {
                digits_value(s@.take(i as int))
            }),
        decreases s@.len() - i,
    {
        let c = s[i];
        assert(is_digit(s@[i as int]));
        let d = (c as u32) - 48;
        let ghost before = digits_value(s@.take(i as int));
        assert(s@.take(i + 1).drop_last() =~= s@.take(i as int));
        assert(s@.take(i + 1).last() == c);
        assert(digits_value(s@.take(i + 1)) == before * 10 + d);
        assert(d <= 9);
        if v == u32::MAX || v > (u32::MAX - d) / 10 {
            assert(before * 10 + d > big) by (nonlinear_arith)
                requires
                    d <= 9,
                    big == 0xFFFF_FFFF,
                    v == big || v > (0xFFFF_FFFFu32 - d) / 10,
                    v == big ==> before >= big,
                    v < big ==> before == v,
            ;
            v = u32::MAX;
        } else {
            assert(v * 10 + d <= big) by (nonlinear_arith)
                requires
                    d <= 9,
                    big == 0xFFFF_FFFF,
                    v <= (0xFFFF_FFFFu32 - d) / 10,
            ;
            assert(before == v);
            v = v * 10 + d;
        }
        i += 1;
    }
    assert(s@.take(i as int) =~= s@);
    v
}

/// A leading part of a digit run has at most the value of the whole run.
pub proof fn lemma_digits_value_prefix(s: Seq<char>, k: int)
    requires
        0 <= k <= s.len(),
    ensures
        digits_value(s.take(k)) <= digits_value(s),
    decreases s.len(),
{
    if k < s.len() {
        assert(s.drop_last().take(k) =~= s.take(k));
        lemma_digits_value_prefix(s.drop_last(), k);
    } else {
        assert(s.take(k) =~= s);
    }
}

/// Parses `s` as `str::parse` does for an unsigned type whose largest value is `max`.
pub fn parse_unsigned_exec(s: &[char], max: u64) -> (r: Option<u64>)
    ensures
        r == (match parse_unsigned(s@, max as nat) {
            Some(v) => Some(v as u64),
            None => None,
        }),
{
    let start: usize = if s.len() > 0 && s[0] == '+' {
        1
    } else {
        0
    };
    let ghost d = s@.skip(start as int);
    assert(start == 1 ==> d =~= s@.drop_first());
    assert(start == 0 ==> d =~= s@);
    if start >= s.len() {
        return None;
    }
    let mut acc: u64 = 0;
    let mut i: usize = start;
    while i < s.len()
        invariant
            start <= i <= s@.len(),
            d == s@.skip(start as int),
            d == (if s@.len() > 0 && s@[0] == '+' { s@.drop_first() } else { s@ }),
            d.len() > 0,
            all_digits(d.take(i - start)),
            acc as nat == digits_value(d.take(i - start)),
            acc <= max,
        decreases s@.len() - i,
    {
        let c = s[i];
        if !('0' <= c && c <= '9') {
            assert(d[i - start] == c);
            assert(!is_digit(d[i - start]));
            return None;
        }
        let dv: u64 = (c as u32 - 48) as u64;
        assert(d.take(i - start + 1).drop_last() =~= d.take(i - start));
        assert(d.take(i - start + 1).last() == c);
        let wide: u128 = acc as u128 * 10 + dv as u128;
        assert(digit_value(c) == dv);
        assert(digits_value(d.take(i - start + 1)) == wide);
        if wide > max as u128 {
            proof {
                lemma_digits_value_prefix(d, i - start + 1);
            }
            return None;
        }
        acc = wide as u64;
        i += 1;
        assert forall|j: int| 0 <= j < i - start implies is_digit(#[trigger] d.take(i - start)[j]) by {
            if j < i - start - 1 {
                assert(d.take(i - start)[j] == d.take(i - start - 1)[j]);
            }
        }
    }
    assert(d.take(i - start) =~= d);
    Some(acc)
}

/// Appends the decimal spelling of `n` to `out`.
pub fn push_decimal(out: &mut Vec<char>, n: u64)
    ensures
        final(out)@ == old(out)@ + decimal(n as nat),
    decreases n,
{
    if n >= 10 {
        push_decimal(out, n / 10);
    }
    let d = (n % 10) as u8;
    let c = (48u8 + d) as char;
    assert(c == digit_char((n % 10) as nat));
    out.push(c);
    proof {
        if n >= 10 {
            assert(decimal(n as nat) == decimal((n / 10) as nat).push(digit_char((n % 10) as nat)));
        } else {
            assert(decimal(n as nat) == seq![digit_char(n as nat)]);
        }
    }
}

/// Appends the decimal spelling of a signed `n` to `out`.
pub fn push_decimal_signed(out: &mut Vec<char>, n: i64)
    requires
        n > i64::MIN,
    ensures
        final(out)@ == old(out)@ + decimal_int(n as int),
{
    if n < 0 {
        out.push('-');
        let m = (-n) as u64;
        push_decimal(out, m);
    } else {
        push_decimal(out, n as u64);
    }
}

/// Appends the characters of `extra` to `out`.
pub fn push_all(out: &mut Vec<char>, extra: &[char])
    ensures
        final(out)@ == old(out)@ + extra@,
{
    let mut i: usize = 0;
    while i < extra.len()
        invariant
            i <= extra@.len(),
            out@ == old(out)@ + extra@.take(i as int),
        decreases extra@.len() - i,
    {
        out.push(extra[i]);
        i += 1;
        assert(out@ =~= old(out)@ + extra@.take(i as int));
    }
    assert(extra@.take(i as int) =~= extra@);
}

/// Appends the characters of a string to `out`.
pub fn push_str(out: &mut Vec<char>, s: &str)
    ensures
        final(out)@ == old(out)@ + s@,
{
    let v = chars_of(s);
    push_all(out, &v);
}


/// Whether two character sequences are equal.
pub fn same_chars(a: &[char], b: &[char]) -> (r: bool)
    ensures
        r == (a@ == b@),
{
    if a.len() != b.len() {
        return false;
    }
    let mut i: usize = 0;
    while i < a.len()
        invariant
            a@.len() == b@.len(),
            i <= a@.len(),
            forall|j: int| 0 <= j < i ==> a@[j] == b@[j],
        decreases a@.len() - i,
    {
        if a[i] != b[i] {
            return false;
        }
        i += 1;
    }
    assert(a@ =~= b@);
    true
}


/// `n` is not at `j` when one of its characters differs there.
pub proof fn lemma_mismatch(h: Seq<char>, n: Seq<char>, j: int, d: int)
    requires
        0 <= d < n.len(),
        0 <= j,
        j + d < h.len(),
        h[j + d] != n[d],
    ensures
        !matches_at(h, n, j),
{
    if matches_at(h, n, j) {
        assert(h.subrange(j, j + n.len())[d] == h[j + d]);
    }
}

/// `n` is nowhere in `[lo, hi)` when its first character is nowhere there.
pub proof fn lemma_no_first_char(h: Seq<char>, n: Seq<char>, lo: int, hi: int)
    requires
        n.len() > 0,
        forall|j: int| lo <= j < hi && 0 <= j < h.len() ==> h[j] != n[0],
    ensures
        forall|j: int| lo <= j < hi ==> !matches_at(h, n, j),
{
    assert forall|j: int| lo <= j < hi implies !matches_at(h, n, j) by {
        if 0 <= j < h.len() {
            lemma_mismatch(h, n, j, 0);
        }
    }
}

/// The first occurrence is where `n` is, when it is nowhere earlier.
pub proof fn lemma_find_first(h: Seq<char>, n: Seq<char>, k: int)
    requires
        n.len() > 0,
        matches_at(h, n, k),
        forall|j: int| 0 <= j < k ==> !matches_at(h, n, j),
    ensures
        find_seq(h, n) == Some(k as nat),
{
    lemma_find_from_at(h, n, k, 0);
}

/// The search from `i` stops at the first occurrence `k`.
proof fn lemma_find_from_at(h: Seq<char>, n: Seq<char>, k: int, i: nat)
    requires
        n.len() > 0,
        i <= k,
        matches_at(h, n, k),
        forall|j: int| i <= j < k ==> !matches_at(h, n, j),
    ensures
        find_from(h, n, i) == Some(k as nat),
    decreases k - i,
{
    if i < k {
        assert(!matches_at(h, n, i as int));
        lemma_find_from_at(h, n, k, i + 1);
    }
}

/// Facts about the decimal spelling of a number: at least one character,
/// all digits, and it reads back as the number.
pub proof fn lemma_decimal(n: nat)
    ensures
        decimal(n).len() >= 1,
        all_digits(decimal(n)),
        digits_value(decimal(n)) == n,
    decreases n,
{
    if n >= 10 {
        lemma_decimal(n / 10);
        let d = decimal(n / 10);
        assert(decimal(n).drop_last() =~= d);
        assert forall|i: int| 0 <= i < decimal(n).len() implies is_digit(#[trigger] decimal(n)[i]) by {
            if i < d.len() {
                assert(decimal(n)[i] == d[i]);
            }
        }
        assert(digit_value(digit_char(n % 10)) == n % 10);
        assert(decimal(n).last() == digit_char(n % 10));
        assert(digits_value(decimal(n)) == digits_value(d) * 10 + digit_value(decimal(n).last()));
        assert(n == (n / 10) * 10 + n % 10);
    } else {
        assert(decimal(n).drop_last() =~= Seq::<char>::empty());
        assert(digits_value(decimal(n)) == digits_value(Seq::<char>::empty()) * 10 + digit_value(decimal(n).last()));
        assert(digit_value(digit_char(n)) == n);
    }
}

/// Digits followed by a non-digit: the leading digits are exactly the digits.
pub proof fn lemma_digit_run_concat(d: Seq<char>, x: Seq<char>)
    requires
        all_digits(d),
        x.len() > 0 ==> !is_digit(x[0]),
    ensures
        digit_run(d + x) == d.len(),
        digit_prefix(d + x) == d,
    decreases d.len(),
{
    if d.len() == 0 {
        assert(d + x =~= x);
    } else {
        assert((d + x).drop_first() =~= d.drop_first() + x);
        assert(is_digit(d[0]));
        lemma_digit_run_concat(d.drop_first(), x);
    }
    assert((d + x).take(d.len() as int) =~= d);
}

} // verus!
