//! A parsed table-literal document, as a tree of plain values.

use vstd::prelude::*;
use crate::lua_text::digit_value;
use crate::text::{chars_of, string_of};

verus! {

broadcast use {vstd::std_specs::vec::group_vec_axioms, vstd::seq::group_seq_axioms};

/// A parsed value, as values.
pub enum ValueView {
    Str(Seq<char>),
    Num(Seq<char>),
    Bool(bool),
    Nil,
    Table(Seq<FieldView>),
}

/// A parsed table field, as values.
pub enum FieldView {
    Keyed(ValueView, ValueView),
    Named(Seq<char>, ValueView),
    Positional(ValueView),
}

/// A parsed value.
#[derive(Debug)]
pub enum LuaValue {
    Str(String),
    Num(String),
    Bool(bool),
    Nil,
    Table(Vec<LuaField>),
}

/// A parsed table field: `[key] = value`, `name = value` or a bare value.
#[derive(Debug)]
pub enum LuaField {
    Keyed(LuaValue, LuaValue),
    Named(String, LuaValue),
    Positional(LuaValue),
}

/// A parsed value as values.
pub open spec fn value_view(v: LuaValue) -> ValueView
    decreases v,
{
    match v {
        LuaValue::Str(s) => ValueView::Str(s@),
        LuaValue::Num(s) => ValueView::Num(s@),
        LuaValue::Bool(b) => ValueView::Bool(b),
        LuaValue::Nil => ValueView::Nil,
        LuaValue::Table(fs) => ValueView::Table(fields_view(fs@)),
    }
}

/// Parsed fields as values.
pub open spec fn fields_view(fs: Seq<LuaField>) -> Seq<FieldView>
    decreases fs,
{
    if fs.len() == 0 {
        Seq::empty()
    } else {
        seq![field_view(fs[0])] + fields_view(fs.subrange(1, fs.len() as int))
    }
}

/// A parsed field as values.
pub open spec fn field_view(f: LuaField) -> FieldView
    decreases f,
{
    match f {
        LuaField::Keyed(k, v) => FieldView::Keyed(value_view(k), value_view(v)),
        LuaField::Named(n, v) => FieldView::Named(n@, value_view(v)),
        LuaField::Positional(v) => FieldView::Positional(value_view(v)),
    }
}

/// Viewing fields one by one.
pub proof fn lemma_fields_view(fs: Seq<LuaField>)
    ensures
        fields_view(fs).len() == fs.len(),
        forall|i: int| 0 <= i < fs.len() ==> fields_view(fs)[i] == field_view(#[trigger] fs[i]),
    decreases fs.len(),
{
    if fs.len() > 0 {
        let rest = fs.subrange(1, fs.len() as int);
        lemma_fields_view(rest);
        assert forall|i: int| 0 <= i < fs.len() implies fields_view(fs)[i] == field_view(#[trigger] fs[i]) by {
            if i > 0 {
                assert(rest[i - 1] == fs[i]);
            }
        }
    }
}

/// Viewing fields after appending one.
pub proof fn lemma_fields_view_push(fs: Seq<LuaField>, f: LuaField)
    ensures
        fields_view(fs.push(f)) == fields_view(fs).push(field_view(f)),
{
    lemma_fields_view(fs);
    lemma_fields_view(fs.push(f));
    assert forall|i: int| 0 <= i < fs.len() + 1 implies fields_view(fs.push(f))[i] == fields_view(fs).push(field_view(f))[i] by {
        assert(fields_view(fs.push(f))[i] == field_view(fs.push(f)[i]));
        if i < fs.len() {
            assert(fs.push(f)[i] == fs[i]);
        }
    }
    assert(fields_view(fs.push(f)) =~= fields_view(fs).push(field_view(f)));
}

/// Blank characters between tokens.
pub open spec fn is_space(c: char) -> bool {
    c == ' ' || c == '\t' || c == '\n' || c == '\r'
}

/// A decimal digit.
pub open spec fn is_digit(c: char) -> bool {
    digit_value(c) is Some
}

/// A character that may start a name.
pub open spec fn is_name_start(c: char) -> bool {
    ('a' <= c && c <= 'z') || ('A' <= c && c <= 'Z') || c == '_'
}

/// A character that may continue a name.
pub open spec fn is_name_char(c: char) -> bool {
    is_name_start(c) || is_digit(c)
}

/// The first position at or after `p` that is neither blank nor inside a
/// `--` comment.
pub open spec fn skip_ws(s: Seq<char>, p: int) -> int
    decreases s.len() - p,
{
    if p < 0 || p >= s.len() {
        p
    } else if is_space(s[p]) {
        skip_ws(s, p + 1)
    } else if p + 1 < s.len() && s[p] == '-' && s[p + 1] == '-' {
        match long_open(s, p + 2) {
            Some(n) => match long_close_from(s, p + n + 4, n) {
                Some(c) => if p < c + n + 2 <= s.len() {
                    skip_ws(s, c + n + 2)
                } else {
                    s.len() as int
                },
                None => s.len() as int,
            },
            None => skip_comment(s, p + 2),
        }
    } else {
        p
    }
}

/// The first position at or after `p` that holds no `=`.
pub open spec fn eq_run_end(s: Seq<char>, p: int) -> int
    decreases s.len() - p,
{
    if 0 <= p < s.len() && s[p] == '=' {
        eq_run_end(s, p + 1)
    } else {
        p
    }
}

/// The level of the long bracket that opens at `p` (`[`, as many `=` as the
/// level, `[`), if one does.
pub open spec fn long_open(s: Seq<char>, p: int) -> Option<int> {
    let e = eq_run_end(s, p + 1);
    if 0 <= p < s.len() && s[p] == '[' && p + 1 <= e < s.len() && s[e] == '[' {
        Some(e - p - 1)
    } else {
        None
    }
}

/// A long bracket of level `n` closes at `p`: `]`, `n` times `=`, `]`.
pub open spec fn closes_at(s: Seq<char>, p: int, n: int) -> bool {
    &&& 0 <= p
    &&& p + n + 1 < s.len()
    &&& s[p] == ']'
    &&& s[p + n + 1] == ']'
    &&& forall|k: int| 1 <= k <= n ==> #[trigger] s[p + k] == '='
}

/// The first position at or after `p` where a long bracket of level `n` closes.
pub open spec fn long_close_from(s: Seq<char>, p: int, n: int) -> Option<int>
    decreases s.len() - p,
{
    if p < 0 || p >= s.len() {
        None
    } else if closes_at(s, p, n) {
        Some(p)
    } else {
        long_close_from(s, p + 1, n)
    }
}

/// Where the text of a long string opened at `c` starts: a first line break
/// (one of `\n`, `\r`, `\r\n`, `\n\r`) is not part of it.
pub open spec fn long_text_start(s: Seq<char>, c: int) -> int {
    if 0 <= c < s.len() && (s[c] == '\n' || s[c] == '\r') {
        if c + 1 < s.len() && (s[c + 1] == '\n' || s[c + 1] == '\r') && s[c + 1] != s[c] {
            c + 2
        } else {
            c + 1
        }
    } else {
        c
    }
}

/// A long string at `p`: its text as written and the position after it.
pub open spec fn parse_long_string(s: Seq<char>, p: int) -> Option<(ValueView, int)> {
    match long_open(s, p) {
        Some(n) => {
            let t = long_text_start(s, p + n + 2);
            match long_close_from(s, t, n) {
                Some(c) => Some((ValueView::Str(s.subrange(t, c)), c + n + 2)),
                None => None,
            }
        },
        None => None,
    }
}

/// The end of the comment that runs through position `p`, then blanks after it.
pub open spec fn skip_comment(s: Seq<char>, p: int) -> int
    decreases s.len() - p,
{
    if p < 0 || p >= s.len() {
        p
    } else if s[p] == '\n' {
        skip_ws(s, p + 1)
    } else {
        skip_comment(s, p + 1)
    }
}

/// The first position at or after `p` that holds no name character.
pub open spec fn name_end(s: Seq<char>, p: int) -> int
    decreases s.len() - p,
{
    if 0 <= p < s.len() && is_name_char(s[p]) {
        name_end(s, p + 1)
    } else {
        p
    }
}

/// The character that escape `\c` stands for, `c` being neither a digit nor
/// a line break: a letter of `abfnrtv` names a control character, and any
/// other character stands for itself.
pub open spec fn unescape(c: char) -> char {
    if c == 'a' {
        '\u{7}'
    } else if c == 'b' {
        '\u{8}'
    } else if c == 'f' {
        '\u{c}'
    } else if c == 'n' {
        '\n'
    } else if c == 'r' {
        '\r'
    } else if c == 't' {
        '\t'
    } else if c == 'v' {
        '\u{b}'
    } else {
        c
    }
}

/// The end of a decimal escape whose digits start at `p`: at most three digits.
pub open spec fn decimal_escape_end(s: Seq<char>, p: int) -> int {
    if p + 1 < s.len() && is_digit(s[p + 1]) {
        if p + 2 < s.len() && is_digit(s[p + 2]) {
            p + 3
        } else {
            p + 2
        }
    } else {
        p + 1
    }
}

/// The value of the decimal digits of `s` from `p` up to `e`.
pub open spec fn digits_at(s: Seq<char>, p: int, e: int) -> int
    decreases e - p,
{
    if e <= p {
        0
    } else {
        digits_at(s, p, e - 1) * 10 + match digit_value(s[e - 1]) {
            Some(d) => d,
            None => 0,
        }
    }
}

/// The rest of a string literal closed by `q`, from `p`, after the characters
/// `acc` already read: the characters and the position after the closing quote.
pub open spec fn string_body(s: Seq<char>, p: int, q: char, acc: Seq<char>) -> Option<(Seq<char>, int)>
    decreases s.len() - p,
{
    if p < 0 || p >= s.len() {
        None
    } else if s[p] == q {
        Some((acc, p + 1))
    } else if s[p] == '\n' || s[p] == '\r' {
        None
    } else if s[p] == '\\' {
        if p + 1 >= s.len() {
            None
        } else {
            let c = s[p + 1];
            if c == '\n' || c == '\r' {
                let next = if p + 2 < s.len() && (s[p + 2] == '\n' || s[p + 2] == '\r') && s[p + 2] != c {
                    p + 3
                } else {
                    p + 2
                };
                string_body(s, next, q, acc.push('\n'))
            } else if is_digit(c) {
                let e = decimal_escape_end(s, p + 1);
                let v = digits_at(s, p + 1, e);
                if v > 255 {
                    None
                } else {
                    string_body(s, e, q, acc.push((v as u8) as char))
                }
            } else {
                string_body(s, p + 2, q, acc.push(unescape(c)))
            }
        }
    } else {
        string_body(s, p + 1, q, acc.push(s[p]))
    }
}

/// The first position at or after `p` that holds neither a digit nor a dot.
pub open spec fn digit_dot_end(s: Seq<char>, p: int) -> int
    decreases s.len() - p,
{
    if 0 <= p < s.len() && (is_digit(s[p]) || s[p] == '.') {
        digit_dot_end(s, p + 1)
    } else {
        p
    }
}

/// The end of the numeral that starts at `p`, read as Lua reads one: digits
/// and dots, an exponent mark with an optional sign, then letters, digits and
/// underscores (which covers hexadecimal numerals).
pub open spec fn numeral_end(s: Seq<char>, p: int) -> int {
    let a = digit_dot_end(s, p);
    let b = if 0 <= a < s.len() && (s[a] == 'e' || s[a] == 'E') {
        if a + 1 < s.len() && (s[a + 1] == '+' || s[a + 1] == '-') {
            a + 2
        } else {
            a + 1
        }
    } else {
        a
    };
    name_end(s, b)
}

/// A numeral starts at `d`: a digit, or a dot and a digit.
pub open spec fn numeral_starts(s: Seq<char>, d: int) -> bool {
    0 <= d < s.len() && (is_digit(s[d]) || (s[d] == '.' && d + 1 < s.len() && is_digit(s[d + 1])))
}

/// A number literal at `p`: an optional `-` and a numeral, kept as written.
pub open spec fn parse_number(s: Seq<char>, p: int) -> Option<(ValueView, int)> {
    let d = if 0 <= p < s.len() && s[p] == '-' { p + 1 } else { p };
    let e = numeral_end(s, d);
    if 0 <= p && numeral_starts(s, d) && d < e && e <= s.len() {
        Some((ValueView::Num(s.subrange(p, e)), e))
    } else {
        None
    }
}

/// A word value at `p`: `true`, `false` or `nil`.
pub open spec fn parse_word(s: Seq<char>, p: int) -> Option<(ValueView, int)> {
    let e = name_end(s, p);
    if !(0 <= p <= e <= s.len()) {
        None
    } else if s.subrange(p, e) == "true"@ {
        Some((ValueView::Bool(true), e))
    } else if s.subrange(p, e) == "false"@ {
        Some((ValueView::Bool(false), e))
    } else if s.subrange(p, e) == "nil"@ {
        Some((ValueView::Nil, e))
    } else {
        None
    }
}

/// The value that starts at `p`, and the position after it.
#[verifier::opaque]
pub open spec fn parse_value(s: Seq<char>, p: int) -> Option<(ValueView, int)>
    decreases s.len() - p, 0int,
{
    if p < 0 || p >= s.len() {
        None
    } else if s[p] == '"' || s[p] == '\'' {
        match string_body(s, p + 1, s[p], Seq::empty()) {
            Some((t, e)) => Some((ValueView::Str(t), e)),
            None => None,
        }
    } else if s[p] == '{' {
        match parse_fields(s, p + 1, Seq::empty()) {
            Some((fs, e)) => Some((ValueView::Table(fs), e)),
            None => None,
        }
    } else if s[p] == '[' {
        parse_long_string(s, p)
    } else if s[p] == '-' || is_digit(s[p]) || s[p] == '.' {
        parse_number(s, p)
    } else if is_name_start(s[p]) {
        parse_word(s, p)
    } else {
        None
    }
}

/// The fields of a table from `p` up to and including its closing brace,
/// after the fields `acc` already read.
#[verifier::opaque]
pub open spec fn parse_fields(s: Seq<char>, p: int, acc: Seq<FieldView>) -> Option<(Seq<FieldView>, int)>
    decreases s.len() - p, 2int,
{
    let q = skip_ws(s, p);
    if p < 0 || q < p || q >= s.len() {
        None
    } else if s[q] == '}' {
        Some((acc, q + 1))
    } else {
        match parse_field(s, q) {
            None => None,
            Some((f, e)) => {
                let r = skip_ws(s, e);
                if !(0 <= r < s.len()) {
                    None
                } else if s[r] == ',' || s[r] == ';' {
                    if r + 1 <= p {
                        None
                    } else {
                        parse_fields(s, r + 1, acc.push(f))
                    }
                } else if s[r] == '}' {
                    Some((acc.push(f), r + 1))
                } else {
                    None
                }
            },
        }
    }
}

/// The field that starts at `p`, and the position after it.
#[verifier::opaque]
pub open spec fn parse_field(s: Seq<char>, p: int) -> Option<(FieldView, int)>
    decreases s.len() - p, 1int,
{
    if p < 0 || p >= s.len() {
        None
    } else if s[p] == '[' && long_open(s, p) is None {
        let a = skip_ws(s, p + 1);
        if a <= p || a > s.len() {
            None
        } else {
            match parse_value(s, a) {
                None => None,
                Some((k, e1)) => {
                    let b = skip_ws(s, e1);
                    if !(0 <= b < s.len() && s[b] == ']') {
                        None
                    } else {
                        let c = skip_ws(s, b + 1);
                        if !(0 <= c < s.len() && s[c] == '=') {
                            None
                        } else {
                            let d = skip_ws(s, c + 1);
                            if d <= p || d > s.len() {
                                None
                            } else {
                                match parse_value(s, d) {
                                    Some((v, e2)) => Some((FieldView::Keyed(k, v), e2)),
                                    None => None,
                                }
                            }
                        }
                    }
                },
            }
        }
    } else if is_name_start(s[p]) && ({
        let c = skip_ws(s, name_end(s, p));
        0 <= c < s.len() && s[c] == '='
    }) {
        let e = name_end(s, p);
        let c = skip_ws(s, e);
        let d = skip_ws(s, c + 1);
        if d <= p || d > s.len() || e > s.len() {
            None
        } else {
            match parse_value(s, d) {
                Some((v, e2)) => Some((FieldView::Named(s.subrange(p, e), v), e2)),
                None => None,
            }
        }
    } else {
        match parse_value(s, p) {
            Some((v, e2)) => Some((FieldView::Positional(v), e2)),
            None => None,
        }
    }
}

/// The assignments `name = value` of a document from `p` to its end, after
/// the assignments `acc` already read; `None` if the text is not such a document.
#[verifier::opaque]
pub open spec fn parse_chunk(s: Seq<char>, p: int, acc: Seq<(Seq<char>, ValueView)>) -> Option<
    Seq<(Seq<char>, ValueView)>,
>
    decreases s.len() - p,
{
    let q = skip_ws(s, p);
    if p < 0 || q < p || p > s.len() {
        None
    } else if q >= s.len() {
        Some(acc)
    } else if s[q] == ';' {
        parse_chunk(s, q + 1, acc)
    } else if is_name_start(s[q]) {
        let e = name_end(s, q);
        let c = skip_ws(s, e);
        if !(0 <= c < s.len() && s[c] == '=' && e <= s.len()) {
            None
        } else {
            match parse_value(s, skip_ws(s, c + 1)) {
                Some((v, e2)) => if e2 <= p || e2 > s.len() {
                    None
                } else {
                    parse_chunk(s, e2, acc.push((s.subrange(q, e), v)))
                },
                None => None,
            }
        }
    } else {
        None
    }
}

/// The assignments of document `s`, in order, or `None` if it does not parse.
pub open spec fn parse_document(s: Seq<char>) -> Option<Seq<(Seq<char>, ValueView)>> {
    parse_chunk(s, 0, Seq::empty())
}

/// A parsed value and where it ends, as values.
pub open spec fn value_result(r: Option<(LuaValue, usize)>) -> Option<(ValueView, int)> {
    match r {
        Some((v, e)) => Some((value_view(v), e as int)),
        None => None,
    }
}

/// A parsed field and where it ends, as values.
pub open spec fn field_result(r: Option<(LuaField, usize)>) -> Option<(FieldView, int)> {
    match r {
        Some((f, e)) => Some((field_view(f), e as int)),
        None => None,
    }
}

/// A blank character.
fn is_blank(c: char) -> (r: bool)
    ensures
        r == is_space(c),
{
    c == ' ' || c == '\t' || c == '\n' || c == '\r'
}

/// A decimal digit.
fn is_digit_char(c: char) -> (r: bool)
    ensures
        r == is_digit(c),
{
    c == '0' || c == '1' || c == '2' || c == '3' || c == '4' || c == '5' || c == '6' || c == '7'
        || c == '8' || c == '9'
}

/// A character that may start a name.
fn is_name_start_char(c: char) -> (r: bool)
    ensures
        r == is_name_start(c),
{
    ('a' <= c && c <= 'z') || ('A' <= c && c <= 'Z') || c == '_'
}

/// A character that may continue a name.
fn is_name_char_exec(c: char) -> (r: bool)
    ensures
        r == is_name_char(c),
{
    is_name_start_char(c) || is_digit_char(c)
}

/// The first position at or after `p` that is neither blank nor in a comment.
fn skip_blank(s: &Vec<char>, p: usize) -> (r: usize)
    requires
        p <= s@.len(),
    ensures
        r as int == skip_ws(s@, p as int),
        p <= r <= s@.len(),
{
    let mut i: usize = p;
    let mut in_comment = false;
    while i < s.len()
        invariant
            p <= i <= s@.len(),
            skip_ws(s@, p as int) == if in_comment {
                skip_comment(s@, i as int)
            } else {
                skip_ws(s@, i as int)
            },
        decreases s.len() - i,
    {
        let c = s[i];
        if in_comment {
            if c == '\n' {
                in_comment = false;
            }
            i += 1;
        } else if is_blank(c) {
            i += 1;
        } else if c == '-' && i + 1 < s.len() && s[i + 1] == '-' {
            match long_open_at(s, i + 2) {
                Some(n) => match long_close_search(s, i + n + 4, n) {
                    Some(close) => {
                        i = close + n + 2;
                    },
                    None => {
                        return s.len();
                    },
                },
                None => {
                    in_comment = true;
                    i += 2;
                },
            }
        } else {
            return i;
        }
    }
    i
}

/// The level of the long bracket that opens at `p`, if one does.
fn long_open_at(s: &Vec<char>, p: usize) -> (r: Option<usize>)
    requires
        p <= s@.len(),
    ensures
        match r {
            Some(n) => long_open(s@, p as int) == Some(n as int) && p + n + 2 <= s@.len(),
            None => long_open(s@, p as int) is None,
        },
{
    if p >= s.len() || s[p] != '[' {
        return None;
    }
    let mut e: usize = p + 1;
    while e < s.len() && s[e] == '='
        invariant
            p + 1 <= e <= s@.len(),
            eq_run_end(s@, p + 1) == eq_run_end(s@, e as int),
        decreases s.len() - e,
    {
        e += 1;
    }
    if e < s.len() && s[e] == '[' {
        Some(e - p - 1)
    } else {
        None
    }
}

/// Whether a long bracket of level `n` closes at `p`.
fn closes_at_exec(s: &Vec<char>, p: usize, n: usize) -> (r: bool)
    requires
        p <= s@.len(),
    ensures
        r == closes_at(s@, p as int, n as int),
{
    let len = s.len();
    if p >= len || n >= len - p - 1 || s[p] != ']' || s[p + n + 1] != ']' {
        return false;
    }
    let mut k: usize = 1;
    while k <= n
        invariant
            1 <= k <= n + 1,
            len == s@.len(),
            p + n + 1 < len,
            forall|x: int| 1 <= x < k ==> #[trigger] s@[p + x] == '=',
        decreases n + 1 - k,
    {
        if s[p + k] != '=' {
            return false;
        }
        k += 1;
    }
    true
}

/// The first position at or after `p` where a long bracket of level `n` closes.
fn long_close_search(s: &Vec<char>, p: usize, n: usize) -> (r: Option<usize>)
    requires
        p <= s@.len(),
    ensures
        match r {
            Some(c) => long_close_from(s@, p as int, n as int) == Some(c as int) && p <= c && c + n + 2
                <= s@.len(),
            None => long_close_from(s@, p as int, n as int) is None,
        },
{
    let mut i: usize = p;
    while i < s.len()
        invariant
            p <= i <= s@.len(),
            long_close_from(s@, p as int, n as int) == long_close_from(s@, i as int, n as int),
        decreases s.len() - i,
    {
        if closes_at_exec(s, i, n) {
            return Some(i);
        }
        i += 1;
    }
    None
}

/// The long string at `p`.
fn read_long_string(s: &Vec<char>, p: usize) -> (r: Option<(LuaValue, usize)>)
    requires
        p < s@.len(),
    ensures
        value_result(r) == parse_long_string(s@, p as int),
        r matches Some((_, e)) ==> p < e <= s@.len(),
{
    let len = s.len();
    match long_open_at(s, p) {
        Some(n) => {
            let c = p + n + 2;
            let t = if c < s.len() && (s[c] == '\n' || s[c] == '\r') {
                if c + 1 < s.len() && (s[c + 1] == '\n' || s[c + 1] == '\r') && s[c + 1] != s[c] {
                    c + 2
                } else {
                    c + 1
                }
            } else {
                c
            };
            match long_close_search(s, t, n) {
                Some(close) => Some((LuaValue::Str(string_of_range(s, t, close)), close + n + 2)),
                None => None,
            }
        },
        None => None,
    }
}

/// The end of the name that starts at `p`.
fn scan_name(s: &Vec<char>, p: usize) -> (r: usize)
    requires
        p <= s@.len(),
    ensures
        r as int == name_end(s@, p as int),
        p <= r <= s@.len(),
{
    let mut i: usize = p;
    while i < s.len() && is_name_char_exec(s[i])
        invariant
            p <= i <= s@.len(),
            name_end(s@, p as int) == name_end(s@, i as int),
        decreases s.len() - i,
    {
        i += 1;
    }
    i
}

/// The characters of `s` from `p` up to `e`.
fn string_of_range(s: &Vec<char>, p: usize, e: usize) -> (r: String)
    requires
        p <= e <= s@.len(),
    ensures
        r@ == s@.subrange(p as int, e as int),
{
    let mut out: Vec<char> = Vec::new();
    let mut i: usize = p;
    while i < e
        invariant
            p <= i <= e <= s@.len(),
            out@ == s@.subrange(p as int, i as int),
        decreases e - i,
    {
        out.push(s[i]);
        assert(out@ =~= s@.subrange(p as int, i + 1));
        i += 1;
    }
    string_of(&out)
}

/// Whether the characters of `s` from `p` up to `e` are exactly `w`.
fn range_is(s: &Vec<char>, p: usize, e: usize, w: &str) -> (r: bool)
    requires
        p <= e <= s@.len(),
    ensures
        r == (s@.subrange(p as int, e as int) == w@),
{
    let ws = chars_of(w);
    if ws.len() != e - p {
        return false;
    }
    let mut i: usize = 0;
    while i < ws.len()
        invariant
            ws@ == w@,
            ws.len() == e - p,
            p <= e <= s@.len(),
            i <= ws.len(),
            forall|k: int| 0 <= k < i ==> s@[p + k] == ws@[k],
        decreases ws.len() - i,
    {
        if s[p + i] != ws[i] {
            assert(s@.subrange(p as int, e as int)[i as int] != w@[i as int]);
            return false;
        }
        i += 1;
    }
    assert(s@.subrange(p as int, e as int) =~= w@);
    true
}

/// The character that escape `\c` stands for.
fn unescape_char(c: char) -> (r: char)
    ensures
        r == unescape(c),
{
    if c == 'a' {
        '\u{7}'
    } else if c == 'b' {
        '\u{8}'
    } else if c == 'f' {
        '\u{c}'
    } else if c == 'n' {
        '\n'
    } else if c == 'r' {
        '\r'
    } else if c == 't' {
        '\t'
    } else if c == 'v' {
        '\u{b}'
    } else {
        c
    }
}

/// The rest of a string literal closed by `q`, from `p`.
fn read_string(s: &Vec<char>, p: usize, q: char) -> (r: Option<(String, usize)>)
    requires
        p <= s@.len(),
    ensures
        match r {
            Some((t, e)) => string_body(s@, p as int, q, Seq::empty()) == Some((t@, e as int))
                && p < e <= s@.len(),
            None => string_body(s@, p as int, q, Seq::empty()) is None,
        },
{
    let mut acc: Vec<char> = Vec::new();
    let mut i: usize = p;
    while i < s.len()
        invariant
            p <= i <= s@.len(),
            string_body(s@, p as int, q, Seq::empty()) == string_body(s@, i as int, q, acc@),
        decreases s.len() - i,
    {
        let c = s[i];
        if c == q {
            return Some((string_of(&acc), i + 1));
        } else if c == '\n' || c == '\r' {
            return None;
        } else if c == '\\' {
            if i + 1 >= s.len() {
                return None;
            }
            let e = s[i + 1];
            if e == '\n' || e == '\r' {
                acc.push('\n');
                if i + 2 < s.len() && (s[i + 2] == '\n' || s[i + 2] == '\r') && s[i + 2] != e {
                    i += 3;
                } else {
                    i += 2;
                }
            } else if is_digit_char(e) {
                let end = if i + 2 < s.len() && is_digit_char(s[i + 2]) {
                    if i + 3 < s.len() && is_digit_char(s[i + 3]) {
                        i + 4
                    } else {
                        i + 3
                    }
                } else {
                    i + 2
                };
                let v = digits_value_at(s, i + 1, end);
                if v > 255 {
                    return None;
                }
                acc.push((v as u8) as char);
                i = end;
            } else {
                acc.push(unescape_char(e));
                i += 2;
            }
        } else {
            acc.push(c);
            i += 1;
        }
    }
    None
}

/// The value of the at most three digits of `s` from `p` up to `e`.
fn digits_value_at(s: &Vec<char>, p: usize, e: usize) -> (r: u32)
    requires
        p <= e <= s@.len(),
        e - p <= 3,
        forall|k: int| p <= k < e ==> is_digit(#[trigger] s@[k]),
    ensures
        r as int == digits_at(s@, p as int, e as int),
        r < 1000,
{
    let mut v: u32 = 0;
    let mut k: usize = p;
    while k < e
        invariant
            p <= k <= e,
            e - p <= 3,
            v as int == digits_at(s@, p as int, k as int),
            v < 1000,
            e <= s@.len(),
            (k - p == 0 ==> v < 1),
            (k - p == 1 ==> v < 10),
            (k - p == 2 ==> v < 100),
            forall|x: int| p <= x < e ==> is_digit(#[trigger] s@[x]),
        decreases e - k,
    {
        let d = digit_of(s[k]);
        v = v * 10 + d;
        k += 1;
    }
    v
}

/// The value of a digit character.
fn digit_of(c: char) -> (r: u32)
    requires
        is_digit(c),
    ensures
        digit_value(c) == Some(r as int),
        r < 10,
{
    if c == '0' {
        0
    } else if c == '1' {
        1
    } else if c == '2' {
        2
    } else if c == '3' {
        3
    } else if c == '4' {
        4
    } else if c == '5' {
        5
    } else if c == '6' {
        6
    } else if c == '7' {
        7
    } else if c == '8' {
        8
    } else {
        9
    }
}

/// The number literal at `p`, kept as written.
fn read_number(s: &Vec<char>, p: usize) -> (r: Option<(LuaValue, usize)>)
    requires
        p < s@.len(),
    ensures
        value_result(r) == parse_number(s@, p as int),
        r matches Some((_, e)) ==> p < e <= s@.len(),
{
    let n = s.len();
    let d = if s[p] == '-' { p + 1 } else { p };
    let starts = d < n && (is_digit_char(s[d]) || (s[d] == '.' && d + 1 < n && is_digit_char(s[d + 1])));
    if !starts {
        return None;
    }
    let mut a: usize = d;
    while a < n && (is_digit_char(s[a]) || s[a] == '.')
        invariant
            d <= a <= n,
            n == s@.len(),
            digit_dot_end(s@, d as int) == digit_dot_end(s@, a as int),
        decreases n - a,
    {
        a += 1;
    }
    let b = if a < n && (s[a] == 'e' || s[a] == 'E') {
        if a + 1 < n && (s[a + 1] == '+' || s[a + 1] == '-') {
            a + 2
        } else {
            a + 1
        }
    } else {
        a
    };
    let e = scan_name(s, b);
    if d < e {
        Some((LuaValue::Num(string_of_range(s, p, e)), e))
    } else {
        None
    }
}

/// The word value (`true`, `false`, `nil`) at `p`.
fn read_word(s: &Vec<char>, p: usize) -> (r: Option<(LuaValue, usize)>)
    requires
        p < s@.len(),
    ensures
        value_result(r) == parse_word(s@, p as int),
        r matches Some((_, e)) ==> p < e <= s@.len(),
{
    let e = scan_name(s, p);
    let r = if range_is(s, p, e, "true") {
        Some((LuaValue::Bool(true), e))
    } else if range_is(s, p, e, "false") {
        Some((LuaValue::Bool(false), e))
    } else if range_is(s, p, e, "nil") {
        Some((LuaValue::Nil, e))
    } else {
        None
    };
    proof {
        if r is Some {
            reveal_strlit("true");
            reveal_strlit("false");
            reveal_strlit("nil");
            assert(s@.subrange(p as int, e as int).len() > 0);
        }
    }
    r
}

/// The value that starts at `p`, and the position after it.
pub fn read_value(s: &Vec<char>, p: usize) -> (r: Option<(LuaValue, usize)>)
    requires
        p <= s@.len(),
    ensures
        value_result(r) == parse_value(s@, p as int),
        r matches Some((_, e)) ==> p < e <= s@.len(),
    decreases s@.len() - p, 0int,
{
    reveal_with_fuel(parse_value, 1);
    reveal_with_fuel(parse_fields, 1);
    reveal_with_fuel(parse_field, 1);
    if p >= s.len() {
        return None;
    }
    let c = s[p];
    if c == '"' || c == '\'' {
        match read_string(s, p + 1, c) {
            Some((t, e)) => Some((LuaValue::Str(t), e)),
            None => None,
        }
    } else if c == '{' {
        match read_fields(s, p + 1) {
            Some((fs, e)) => Some((LuaValue::Table(fs), e)),
            None => None,
        }
    } else if c == '[' {
        read_long_string(s, p)
    } else if c == '-' || is_digit_char(c) || c == '.' {
        read_number(s, p)
    } else if is_name_start_char(c) {
        read_word(s, p)
    } else {
        None
    }
}

/// The fields of a table from `p` up to and including its closing brace.
pub fn read_fields(s: &Vec<char>, p: usize) -> (r: Option<(Vec<LuaField>, usize)>)
    requires
        p <= s@.len(),
    ensures
        match r {
            Some((fs, e)) => parse_fields(s@, p as int, Seq::empty()) == Some((fields_view(fs@), e as int))
                && p < e <= s@.len(),
            None => parse_fields(s@, p as int, Seq::empty()) is None,
        },
    decreases s@.len() - p, 2int,
{
    reveal_with_fuel(parse_value, 1);
    reveal_with_fuel(parse_fields, 1);
    reveal_with_fuel(parse_field, 1);
    let mut acc: Vec<LuaField> = Vec::new();
    let mut i: usize = p;
    assert(fields_view(acc@) =~= Seq::<FieldView>::empty());
    loop
        invariant
            p <= i <= s@.len(),
            parse_fields(s@, p as int, Seq::empty()) == parse_fields(s@, i as int, fields_view(acc@)),
        decreases s@.len() - i,
    {
        proof {
            reveal_with_fuel(parse_value, 1);
            reveal_with_fuel(parse_fields, 1);
            reveal_with_fuel(parse_field, 1);
        }
        let q = skip_blank(s, i);
        if q >= s.len() {
            return None;
        }
        if s[q] == '}' {
            return Some((acc, q + 1));
        }
        match read_field(s, q) {
            None => {
                return None;
            },
            Some((f, e)) => {
                let r = skip_blank(s, e);
                if r >= s.len() {
                    return None;
                }
                let ghost before = acc@;
                if s[r] == ',' || s[r] == ';' {
                    acc.push(f);
                    proof {
                        lemma_fields_view_push(before, f);
                    }
                    i = r + 1;
                } else if s[r] == '}' {
                    acc.push(f);
                    proof {
                        lemma_fields_view_push(before, f);
                    }
                    return Some((acc, r + 1));
                } else {
                    return None;
                }
            },
        }
    }
}

/// The field that starts at `p`, and the position after it.
pub fn read_field(s: &Vec<char>, p: usize) -> (r: Option<(LuaField, usize)>)
    requires
        p <= s@.len(),
    ensures
        field_result(r) == parse_field(s@, p as int),
        r matches Some((_, e)) ==> p < e <= s@.len(),
    decreases s@.len() - p, 1int,
{
    reveal_with_fuel(parse_value, 1);
    reveal_with_fuel(parse_fields, 1);
    reveal_with_fuel(parse_field, 1);
    if p >= s.len() {
        return None;
    }
    if s[p] == '[' && long_open_at(s, p).is_none() {
        let a = skip_blank(s, p + 1);
        match read_value(s, a) {
            None => None,
            Some((k, e1)) => {
                let b = skip_blank(s, e1);
                if !(b < s.len() && s[b] == ']') {
                    return None;
                }
                let c = skip_blank(s, b + 1);
                if !(c < s.len() && s[c] == '=') {
                    return None;
                }
                let d = skip_blank(s, c + 1);
                match read_value(s, d) {
                    Some((v, e2)) => Some((LuaField::Keyed(k, v), e2)),
                    None => None,
                }
            },
        }
    } else {
        let named = if is_name_start_char(s[p]) {
            let e = scan_name(s, p);
            let c = skip_blank(s, e);
            if c < s.len() && s[c] == '=' {
                Some((e, c))
            } else {
                None
            }
        } else {
            None
        };
        match named {
            Some((e, c)) => {
                let d = skip_blank(s, c + 1);
                match read_value(s, d) {
                    Some((v, e2)) => Some((LuaField::Named(string_of_range(s, p, e), v), e2)),
                    None => None,
                }
            },
            None => match read_value(s, p) {
                Some((v, e2)) => Some((LuaField::Positional(v), e2)),
                None => None,
            },
        }
    }
}

/// Parsed assignments as values.
pub open spec fn statements_view(v: Seq<(String, LuaValue)>) -> Seq<(Seq<char>, ValueView)> {
    v.map_values(|a: (String, LuaValue)| (a.0@, value_view(a.1)))
}

/// The assignments `name = value` of document `text`, in order, or `None` if
/// the text is not such a document.
pub fn read_document(text: &str) -> (r: Option<Vec<(String, LuaValue)>>)
    ensures
        match r {
            Some(v) => parse_document(text@) == Some(statements_view(v@)),
            None => parse_document(text@) is None,
        },
{
    reveal_with_fuel(parse_chunk, 1);
    let s = chars_of(text);
    let mut acc: Vec<(String, LuaValue)> = Vec::new();
    let mut i: usize = 0;
    assert(statements_view(acc@) =~= Seq::<(Seq<char>, ValueView)>::empty());
    loop
        invariant
            s@ == text@,
            i <= s@.len(),
            parse_document(text@) == parse_chunk(s@, i as int, statements_view(acc@)),
        decreases s@.len() - i,
    {
        proof {
            reveal_with_fuel(parse_chunk, 1);
        }
        let q = skip_blank(&s, i);
        if q >= s.len() {
            return Some(acc);
        }
        if s[q] == ';' {
            i = q + 1;
        } else if is_name_start_char(s[q]) {
            let e = scan_name(&s, q);
            let c = skip_blank(&s, e);
            if !(c < s.len() && s[c] == '=') {
                return None;
            }
            let d = skip_blank(&s, c + 1);
            match read_value(&s, d) {
                Some((v, e2)) => {
                    let ghost before = acc@;
                    let name = string_of_range(&s, q, e);
                    acc.push((name, v));
                    assert(statements_view(acc@) =~= statements_view(before).push((s@.subrange(q as int, e as int), value_view(v))));
                    i = e2;
                },
                None => {
                    return None;
                },
            }
        } else {
            return None;
        }
    }
}

} // verus!
