//! The JSON editor's operations: pretty-printing, minifying, escaping into a
//! string literal and back, validating and counting.
//!
//! Parsing and printing JSON is done by `serde_json`; what it gives back is
//! named by the spec functions below, and the operations are stated over
//! those names.

use vstd::prelude::*;
use vstd::utf8::encode_utf8;
use crate::text::{chars_of, decimal, lines_chars, lines_of, push_decimal, replace_char, string_from_chars, trim, trim_chars};

verus! {

/// Whether `serde_json` parses `s` as a JSON document.
pub uninterp spec fn is_json(s: Seq<char>) -> bool;

/// The text `serde_json::to_string_pretty` writes for the document `s`
/// parses to (two-space indentation).
pub uninterp spec fn json_pretty(s: Seq<char>) -> Seq<char>;

/// The text `serde_json::to_string` writes for the document `s` parses to
/// (no white space).
pub uninterp spec fn json_compact(s: Seq<char>) -> Seq<char>;

/// The message of the error `serde_json` reports when `s` is not a JSON
/// document.
pub uninterp spec fn json_error_text(s: Seq<char>) -> Seq<char>;

/// The line of that error.
pub uninterp spec fn json_error_line(s: Seq<char>) -> usize;

/// The column of that error.
pub uninterp spec fn json_error_column(s: Seq<char>) -> usize;

/// The lower-case hexadecimal digit for `d` (below sixteen).
pub open spec fn hex_digit(d: nat) -> char {
    seq!['0', '1', '2', '3', '4', '5', '6', '7', '8', '9', 'a', 'b', 'c', 'd', 'e', 'f'][d as int]
}

/// How `serde_json` writes one character inside a string literal: quote and
/// backslash behind a backslash, the short escapes of backspace, tab, line
/// feed, form feed and carriage return, the other characters below U+0020 as
/// `\u00` and two hexadecimal digits, every other character as itself.
pub open spec fn json_char_escape(c: char) -> Seq<char> {
    let u = c as u32;
    if c == '"' {
        seq!['\\', '"']
    } else if c == '\\' {
        seq!['\\', '\\']
    } else if u == 8 {
        seq!['\\', 'b']
    } else if u == 9 {
        seq!['\\', 't']
    } else if u == 10 {
        seq!['\\', 'n']
    } else if u == 12 {
        seq!['\\', 'f']
    } else if u == 13 {
        seq!['\\', 'r']
    } else if u < 0x20 {
        seq!['\\', 'u', '0', '0', hex_digit((u / 16) as nat), hex_digit((u % 16) as nat)]
    } else {
        seq![c]
    }
}

/// The characters of `s`, each written as [`json_char_escape`] says.
pub open spec fn json_escaped(s: Seq<char>) -> Seq<char>
    decreases s.len(),
{
    if s.len() == 0 {
        seq![]
    } else {
        json_escaped(s.drop_last()) + json_char_escape(s.last())
    }
}

/// The JSON string literal `serde_json` writes for `s`: its escaped
/// characters between quotes.
pub open spec fn json_string_literal(s: Seq<char>) -> Seq<char> {
    seq!['"'] + json_escaped(s) + seq!['"']
}

/// The string that `serde_json` reads from the JSON string literal `s`, or
/// none when `s` is not one.
pub uninterp spec fn json_string_content(s: Seq<char>) -> Option<Seq<char>>;

/// The message of the error `serde_json` reports when `s` is not a JSON
/// string literal.
pub uninterp spec fn json_literal_error(s: Seq<char>) -> Seq<char>;

/// `serde_json::from_str::<serde_json::Value>`, keeping only its error: none
/// exactly for the documents named by [`is_json`], else the error's message,
/// line and column, named by [`json_error_text`], [`json_error_line`] and
/// [`json_error_column`].
#[verifier::external_body]
pub(crate) fn parse_error(s: &str) -> (r: Option<(String, usize, usize)>)
    ensures
        r is None <==> is_json(s@),
        r matches Some(p) ==> p.0@ == json_error_text(s@) && p.1 == json_error_line(s@) && p.2 == json_error_column(s@),
{
    match serde_json::from_str::<serde_json::Value>(s) {
        Ok(_) => None,
        Err(e) => Some((e.to_string(), e.line(), e.column())),
    }
}

/// `serde_json::from_str::<serde_json::Value>` followed by
/// `serde_json::to_string_pretty`: none when `s` is not a document, else the
/// printed text, named by [`json_pretty`]. Printing a `Value` does not fail:
/// `serde_json` documents failure only for a failing `Serialize` impl or a
/// map with non-string keys, and a `Value` has neither.
#[verifier::external_body]
pub(crate) fn pretty_document(s: &str) -> (r: Option<String>)
    ensures
        r is Some <==> is_json(s@),
        r matches Some(t) ==> t@ == json_pretty(s@),
{
    match serde_json::from_str::<serde_json::Value>(s) {
        Ok(v) => serde_json::to_string_pretty(&v).ok(),
        Err(_) => None,
    }
}

/// `serde_json::from_str::<serde_json::Value>` followed by
/// `serde_json::to_string`: none when `s` is not a document, else the
/// printed text, named by [`json_compact`]. As with [`pretty_document`],
/// printing a `Value` does not fail.
#[verifier::external_body]
fn compact_document(s: &str) -> (r: Option<String>)
    ensures
        r is Some <==> is_json(s@),
        r matches Some(t) ==> t@ == json_compact(s@),
{
    match serde_json::from_str::<serde_json::Value>(s) {
        Ok(v) => serde_json::to_string(&v).ok(),
        Err(_) => None,
    }
}

/// `serde_json::to_string` on a string: its JSON string literal, as
/// [`json_string_literal`] states it (`format_escaped_str` with the `ESCAPE`
/// table and `write_char_escape` of the compact formatter). Writing a `str`
/// does not fail (its `Serialize` impl never does, and it is no map).
/// Claimed too: reading the literal back with
/// `serde_json::from_str::<String>` (named by [`json_string_content`]) gives
/// `s` again.
#[verifier::external_body]
fn str_to_literal(s: &str) -> (r: Result<String, serde_json::Error>)
    ensures
        r is Ok,
        r matches Ok(t) ==> t@ == json_string_literal(s@),
        r matches Ok(t) ==> json_string_content(t@) == Some(s@),
{
    serde_json::to_string(s)
}

#[verifier::external_type_specification]
#[verifier::external_body]
pub struct ExJsonError(serde_json::Error);

/// `serde_json::from_str::<String>`: reads a JSON string literal; it
/// succeeds exactly when [`json_string_content`] names a string, and gives
/// that string; otherwise it gives the error's message, named by
/// [`json_literal_error`].
#[verifier::external_body]
fn literal_to_string(s: &str) -> (r: Result<String, String>)
    ensures
        r is Ok <==> json_string_content(s@) is Some,
        r matches Ok(t) ==> json_string_content(s@) == Some(t@),
        r matches Err(m) ==> m@ == json_literal_error(s@),
{
    match serde_json::from_str::<String>(s) {
        Ok(t) => Ok(t),
        Err(e) => Err(e.to_string()),
    }
}

/// The outcome of a JSON operation.
pub struct ProcessResult {
    pub output: String,
    pub is_error: bool,
    pub message: String,
}

impl ProcessResult {
    /// A success with the given output and no message.
    pub fn success(output: String) -> (r: Self)
        ensures
            r.output == output,
            !r.is_error,
            r.message@.len() == 0,
    {
        ProcessResult { output, is_error: false, message: String::new() }
    }

    /// A failure with the given message and no output.
    pub fn error(message: String) -> (r: Self)
        ensures
            r.output@.len() == 0,
            r.is_error,
            r.message == message,
    {
        ProcessResult { output: String::new(), is_error: true, message }
    }
}

/// A failure whose message is `prefix` followed by `text`.
fn failure(prefix: &str, text: &str) -> (r: ProcessResult)
    ensures
        r.is_error,
        r.output@.len() == 0,
        r.message@ == prefix@ + text@,
{
    let mut m = prefix.to_string();
    m.append(text);
    ProcessResult::error(m)
}

/// Pretty-prints a JSON document (two-space indentation).
///
/// Input that is not JSON gives the error "JSON 解析错误: " followed by the
/// parser's message.
pub fn format_json(input: &str) -> (r: ProcessResult)
    ensures
        !is_json(input@) ==> r.is_error && r.output@.len() == 0 && r.message@ == "JSON 解析错误: "@ + json_error_text(input@),
        is_json(input@) ==> !r.is_error && r.output@ == json_pretty(input@) && r.message@.len() == 0,
{
    match pretty_document(input) {
        Some(s) => ProcessResult::success(s),
        None => parse_failure("JSON 解析错误: ", input),
    }
}

/// The failure for input that is not a JSON document: `prefix` followed by
/// the parser's message.
fn parse_failure(prefix: &str, input: &str) -> (r: ProcessResult)
    requires
        !is_json(input@),
    ensures
        r.is_error,
        r.output@.len() == 0,
        r.message@ == prefix@ + json_error_text(input@),
{
    match parse_error(input) {
        Some((t, _, _)) => failure(prefix, t.as_str()),
        None => failure(prefix, ""),
    }
}

/// Minifies a JSON document (no white space).
///
/// Input that is not JSON gives the error "JSON 解析错误: " followed by the
/// parser's message.
pub fn minify_json(input: &str) -> (r: ProcessResult)
    ensures
        !is_json(input@) ==> r.is_error && r.output@.len() == 0 && r.message@ == "JSON 解析错误: "@ + json_error_text(input@),
        is_json(input@) ==> !r.is_error && r.output@ == json_compact(input@) && r.message@.len() == 0,
{
    match compact_document(input) {
        Some(s) => ProcessResult::success(s),
        None => parse_failure("JSON 解析错误: ", input),
    }
}

/// `s` with every backslash doubled.
pub open spec fn escape_backslashes(s: Seq<char>) -> Seq<char>
    decreases s.len(),
{
    if s.len() == 0 {
        seq![]
    } else {
        (if s[0] == '\\' { seq!['\\', '\\'] } else { seq![s[0]] }) + escape_backslashes(s.drop_first())
    }
}

/// `s` with a backslash before every quote.
pub open spec fn escape_quotes(s: Seq<char>) -> Seq<char>
    decreases s.len(),
{
    if s.len() == 0 {
        seq![]
    } else {
        (if s[0] == '"' { seq!['\\', '"'] } else { seq![s[0]] }) + escape_quotes(s.drop_first())
    }
}

/// `s` with each character `c` replaced by `esc` followed by `c`.
fn escape_char(v: &Vec<char>, c: char) -> (r: Vec<char>)
    ensures
        c == '\\' ==> r@ == escape_backslashes(v@),
        c == '"' ==> r@ == escape_quotes(v@),
{
    let mut r: Vec<char> = Vec::new();
    let mut i = v.len();
    assert(v@.skip(i as int) =~= Seq::<char>::empty());
    while i > 0
        invariant
            i <= v.len(),
            c == '\\' ==> r@ == escape_backslashes(v@.skip(i as int)),
            c == '"' ==> r@ == escape_quotes(v@.skip(i as int)),
        decreases i,
    {
        i -= 1;
        let x = v[i];
        let ghost old_r = r@;
        let mut piece: Vec<char> = Vec::new();
        if x == c {
            piece.push('\\');
        }
        piece.push(x);
        let mut j: usize = 0;
        let mut nr = piece;
        while j < r.len()
            invariant
                j <= r.len(),
                r@ == old_r,
                nr@ == (if x == c { seq!['\\', x] } else { seq![x] }) + old_r.take(j as int),
            decreases r.len() - j,
        {
            nr.push(r[j]);
            assert(old_r.take(j + 1) =~= old_r.take(j as int).push(old_r[j as int]));
            j += 1;
        }
        assert(old_r.take(r.len() as int) =~= old_r);
        r = nr;
        assert(v@.skip(i as int).drop_first() =~= v@.skip(i + 1));
        assert(v@.skip(i as int)[0] == x);
    }
    assert(v@.skip(0) =~= v@);
    r
}

/// What unescaping `input` gives: its text, pretty-printed when that is a
/// JSON document, or the message of the error.
pub open spec fn unescape_spec(input: Seq<char>) -> Result<Seq<char>, Seq<char>> {
    let t = trim(input);
    if !(t.len() > 0 && t[0] == '"' && t.last() == '"') {
        Err("输入不是有效的 JSON 字符串形式（需以引号包裹）"@)
    } else {
        match json_string_content(t) {
            None => Err("反转义失败: "@ + json_literal_error(t)),
            Some(u) => Ok(if is_json(u) { json_pretty(u) } else { u }),
        }
    }
}

/// Escapes text into a JSON string literal.
///
/// The literal is the one `serde_json` writes. The hand escaping of
/// backslashes and quotes, kept for a failure of `serde_json`, is never
/// reached: writing a string does not fail. Unescaping the literal gives
/// the text back (pretty-printed when it is a JSON document).
pub fn escape_json(input: &str) -> (r: ProcessResult)
    ensures
        !r.is_error,
        r.message@.len() == 0,
        r.output@ == json_string_literal(input@),
        unescape_spec(r.output@) == Ok::<Seq<char>, Seq<char>>(
            if is_json(input@) { json_pretty(input@) } else { input@ },
        ),
{
    match str_to_literal(input) {
        Ok(s) => {
            proof {
                crate::text::lemma_trim_unchanged(s@);
            }
            ProcessResult::success(s)
        },
        Err(_) => {
            let v = chars_of(input);
            let a = escape_char(&v, '\\');
            let b = escape_char(&a, '"');
            let mut out = String::from_str("\"");
            crate::text::push_chars(&mut out, &b);
            out.append("\"");
            ProcessResult::success(out)
        },
    }
}

/// Turns a JSON string literal back into its text; text that is itself JSON
/// is pretty-printed.
///
/// The trimmed input must start and end with a quote; otherwise, or when
/// it is not a valid literal, an error is given.
pub fn unescape_json(input: &str) -> (r: ProcessResult)
    ensures
        match unescape_spec(input@) {
            Ok(o) => !r.is_error && r.output@ == o && r.message@.len() == 0,
            Err(m) => r.is_error && r.output@.len() == 0 && r.message@ == m,
        },
{
    let tv = trim_chars(&chars_of(input));
    if tv.len() > 0 && tv[0] == '"' && tv[tv.len() - 1] == '"' {
        let trimmed = string_from_chars(&tv);
        match literal_to_string(trimmed.as_str()) {
            Ok(unescaped) => {
                match pretty_document(unescaped.as_str()) {
                    Some(pretty) => ProcessResult::success(pretty),
                    None => ProcessResult::success(unescaped),
                }
            },
            Err(m) => failure("反转义失败: ", m.as_str()),
        }
    } else {
        ProcessResult::error(String::from_str("输入不是有效的 JSON 字符串形式（需以引号包裹）"))
    }
}

/// Checks a JSON document; the input is kept as output.
///
/// A valid document gives the message "✓ JSON 有效"; an invalid one an error
/// whose message gives the reason, line and column.
pub fn validate_json(input: &str) -> (r: ProcessResult)
    ensures
        r.output@ == input@,
        r.is_error == !is_json(input@),
        is_json(input@) ==> r.message@ == "✓ JSON 有效"@,
        !is_json(input@) ==> r.message@ == "✗ 错误: "@ + json_error_text(input@) + " (行 "@
            + decimal(json_error_line(input@) as nat) + ", 列 "@ + decimal(json_error_column(input@) as nat) + ")"@,
{
    match parse_error(input) {
        None => ProcessResult { output: input.to_string(), is_error: false, message: String::from_str("✓ JSON 有效") },
        Some((t, line, column)) => {
            let mut m = String::from_str("✗ 错误: ");
            m.append(t.as_str());
            m.append(" (行 ");
            push_decimal(&mut m, line);
            m.append(", 列 ");
            push_decimal(&mut m, column);
            m.append(")");
            ProcessResult { output: input.to_string(), is_error: true, message: m }
        },
    }
}

/// The size of the input in bytes, its number of lines, and whether it is a
/// JSON document.
pub fn json_stats(input: &str) -> (r: (usize, usize, bool))
    requires
        encode_utf8(input@).len() <= usize::MAX,
    ensures
        r.0 == encode_utf8(input@).len(),
        r.1 == lines_of(input@).len(),
        r.2 == is_json(input@),
{
    let bytes = input.len();
    let ls = lines_chars(&chars_of(input));
    let valid = parse_error(input).is_none();
    (bytes, ls.len(), valid)
}

} // verus!
