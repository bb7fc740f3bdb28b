//! Decoding of JavaScript string-literal bodies and extraction of variable
//! values from script text.
//!
//! The decoder scans left to right, one escape at a time: `\xHH` and `\uHHHH`
//! escapes become the character with that code, `\\uHHHH` (a double-escaped
//! unicode escape) decodes the same way, the standard single-character
//! escapes map to their control or quote character, and any other `\X` is
//! emitted as `X` literally. A truncated `\x`/`\u` escape, a non-hex digit
//! in one, or a surrogate code point is a malformed escape.

use vstd::prelude::*;
use vstd::utf8::char_u32_cast;
use vstd::utf8::decode_utf8;
use vstd::utf8::is_scalar;
use vstd::utf8::valid_utf8;
use crate::chars::char_from_code;
use crate::chars::chars_to_string;
use crate::chars::find_from;
use crate::chars::find_pattern;
use crate::chars::hex_digit_val;
use crate::chars::hex_val;
use crate::chars::match_at;
use crate::chars::pat_match_at;
use crate::chars::skip_ws;
use crate::chars::skip_ws_from;
use crate::chars::spec_trim;
use crate::chars::str_chars;
use crate::chars::sub_chars;
use crate::chars::trim_chars;
use crate::jsonio::json_quoted;
use crate::jsonio::json_text;
use crate::jsonio::json_tree;
use crate::jsonio::parse_json;
use crate::jsonio::string_to_json;
use crate::jsonio::value_to_string;
use crate::repair::escape_json_control_chars;
use crate::repair::spec_repair;
use crate::scan::spec_stmt_end;
use crate::scan::stmt_end_chars;

verus! {

/// The ways an extraction call can fail.
#[derive(Clone, Copy, Debug, PartialEq, Eq, Structural)]
pub enum ExtractError {
    /// An incomplete or invalid `\x` / `\u` escape sequence.
    MalformedEscape,
    /// The variable-declaration pattern does not occur in the script.
    VariableNotFound,
    /// `JSON.parse(` is not followed by a recognised quote character.
    UnsupportedLiteral,
    /// The CSS selector could not be parsed.
    InvalidSelector,
}

/// Value of a two-digit hex escape, or `None` if a digit is not hex.
pub open spec fn hex2_val(a: char, b: char) -> Option<u32> {
    match (hex_digit_val(a), hex_digit_val(b)) {
        (Some(x), Some(y)) => Some((16 * x + y) as u32),
        _ => None,
    }
}

/// Value of a four-digit hex escape, or `None` if a digit is not hex.
pub open spec fn hex4_val(a: char, b: char, c: char, d: char) -> Option<u32> {
    match (hex_digit_val(a), hex_digit_val(b), hex_digit_val(c), hex_digit_val(d)) {
        (Some(x), Some(y), Some(z), Some(w)) => Some((4096 * x + 256 * y + 16 * z + w) as u32),
        _ => None,
    }
}

/// What a single-character escape `\c` decodes to: the standard control and
/// quote escapes map to their character, and any other character stands for
/// itself (this covers the lenient `\-` and `\/` escapes and all unknown ones).
pub open spec fn escape_char(c: char) -> char {
    if c == 'n' {
        '\n'
    } else if c == 'r' {
        '\r'
    } else if c == 't' {
        '\t'
    } else if c == 'b' {
        '\u{8}'
    } else if c == 'f' {
        '\u{c}'
    } else if c == 'v' {
        '\u{b}'
    } else if c == '0' {
        '\0'
    } else {
        c
    }
}

/// `Some(u + rest)` when `rest` is `Some`, else `None`.
pub open spec fn opt_prepend(u: Seq<char>, rest: Option<Seq<char>>) -> Option<Seq<char>> {
    match rest {
        Some(r) => Some(u + r),
        None => None,
    }
}

/// The decoded form of `s` from position `i` on, or `None` if a malformed
/// escape occurs at or after `i`.
pub open spec fn decode_from(s: Seq<char>, i: int) -> Option<Seq<char>>
    decreases s.len() - i,
    when 0 <= i
{
    if i >= s.len() {
        Some(Seq::empty())
    } else if s[i] != '\\' {
        opt_prepend(seq![s[i]], decode_from(s, i + 1))
    } else if i + 1 >= s.len() {
        opt_prepend(seq!['\\'], decode_from(s, i + 1))
    } else if s[i + 1] == 'x' {
        if i + 4 > s.len() {
            None
        } else {
            match hex2_val(s[i + 2], s[i + 3]) {
                Some(code) => opt_prepend(seq![code as char], decode_from(s, i + 4)),
                None => None,
            }
        }
    } else if s[i + 1] == 'u' {
        if i + 6 > s.len() {
            None
        } else {
            match hex4_val(s[i + 2], s[i + 3], s[i + 4], s[i + 5]) {
                Some(code) => if is_scalar(code) {
                    opt_prepend(seq![code as char], decode_from(s, i + 6))
                } else {
                    None
                },
                None => None,
            }
        }
    } else if s[i + 1] == '\\' {
        if i + 2 < s.len() && s[i + 2] == 'u' {
            if i + 7 > s.len() {
                None
            } else {
                match hex4_val(s[i + 3], s[i + 4], s[i + 5], s[i + 6]) {
                    Some(code) => if is_scalar(code) {
                        opt_prepend(seq![code as char], decode_from(s, i + 7))
                    } else {
                        None
                    },
                    None => None,
                }
            }
        } else {
            opt_prepend(seq!['\\'], decode_from(s, i + 2))
        }
    } else {
        opt_prepend(seq![escape_char(s[i + 1])], decode_from(s, i + 2))
    }
}

/// The decoded form of a string-literal body, or `None` if it holds a
/// malformed escape.
pub open spec fn spec_decode(s: Seq<char>) -> Option<Seq<char>> {
    decode_from(s, 0)
}

proof fn lemma_opt_prepend_assoc(a: Seq<char>, u: Seq<char>, rest: Option<Seq<char>>)
    ensures
        opt_prepend(a + u, rest) == opt_prepend(a, opt_prepend(u, rest)),
{
    match rest {
        Some(r) => {
            assert((a + u) + r =~= a + (u + r));
        },
        None => {},
    }
}

proof fn lemma_decode_step(s: Seq<char>, i: int, j: int, u: Seq<char>, out0: Seq<char>, out1: Seq<char>)
    requires
        decode_from(s, 0) == opt_prepend(out0, decode_from(s, i)),
        decode_from(s, i) == opt_prepend(u, decode_from(s, j)),
        out1 == out0 + u,
    ensures
        decode_from(s, 0) == opt_prepend(out1, decode_from(s, j)),
{
    lemma_opt_prepend_assoc(out0, u, decode_from(s, j));
}

proof fn lemma_decode_from_no_backslash(s: Seq<char>, i: int)
    requires
        0 <= i <= s.len(),
        forall|k: int| i <= k < s.len() ==> s[k] != '\\',
    ensures
        decode_from(s, i) == Some(s.skip(i)),
    decreases s.len() - i,
{
    if i >= s.len() {
        assert(s.skip(i) =~= Seq::<char>::empty());
    } else {
        lemma_decode_from_no_backslash(s, i + 1);
        assert(seq![s[i]] + s.skip(i + 1) =~= s.skip(i));
    }
}

/// Decoding a string-literal body that holds no backslash returns it
/// unchanged.
pub proof fn lemma_decode_identity(s: Seq<char>)
    requires
        forall|k: int| 0 <= k < s.len() ==> s[k] != '\\',
    ensures
        spec_decode(s) == Some(s),
{
    lemma_decode_from_no_backslash(s, 0);
    assert(s.skip(0) =~= s);
}

/// Decode a JavaScript string-literal body (the text between the quotes) to
/// plain text: hex, unicode, double-escaped unicode, standard and lenient
/// escapes are resolved; a truncated or invalid `\x`/`\u` escape fails.
pub fn decode_js_string(input: &str) -> (r: Result<String, ExtractError>)
    ensures
        match r {
            Ok(out) => spec_decode(input@) == Some(out@),
            Err(e) => spec_decode(input@) is None && e == ExtractError::MalformedEscape,
        },
{
    let v = str_chars(input);
    let r = decode_chars(&v);
    match r {
        Ok(out) => Ok(chars_to_string(&out)),
        Err(e) => Err(e),
    }
}

/// Decode a string-literal body given as characters; see `decode_js_string`.
#[verifier::rlimit(100)]
#[verifier::spinoff_prover]
pub fn decode_chars(v: &Vec<char>) -> (r: Result<Vec<char>, ExtractError>)
    ensures
        match r {
            Ok(out) => spec_decode(v@) == Some(out@),
            Err(e) => spec_decode(v@) is None && e == ExtractError::MalformedEscape,
        },
{
    let n = v.len();
    let mut out: Vec<char> = Vec::new();
    let mut i: usize = 0;
    while i < n
        invariant
            i <= n,
            n == v@.len(),
            decode_from(v@, 0) == opt_prepend(out@, decode_from(v@, i as int)),
        decreases n - i,
    {
        let c = v[i];
        let ghost out0 = out@;
        if c != '\\' {
            out.push(c);
            proof {
                assert(out@ =~= out0 + seq![c]);
                lemma_decode_step(v@, i as int, i + 1, seq![c], out0, out@);
            }
            i += 1;
        } else if n - i == 1 {
            out.push('\\');
            proof {
                assert(out@ =~= out0 + seq!['\\']);
                lemma_decode_step(v@, i as int, i + 1, seq!['\\'], out0, out@);
            }
            i += 1;
        } else {
            let c1 = v[i + 1];
            if c1 == 'x' {
                if n - i < 4 {
                    proof {
                        assert(decode_from(v@, i as int) is None);
                    }
                    return Err(ExtractError::MalformedEscape);
                }
                let (ha, hb) = (hex_val(v[i + 2]), hex_val(v[i + 3]));
                if ha.is_none() || hb.is_none() {
                    proof {
                        assert(decode_from(v@, i as int) is None);
                    }
                    return Err(ExtractError::MalformedEscape);
                }
                let code: u32 = 16 * ha.unwrap() + hb.unwrap();
                let ch = char_from_code(code);
                out.push(ch);
                proof {
                    char_u32_cast(ch, code);
                    assert(out@ =~= out0 + seq![ch]);
                    assert(decode_from(v@, i as int) == opt_prepend(
                        seq![ch],
                        decode_from(v@, i + 4 as int),
                    ));
                    lemma_decode_step(v@, i as int, i + 4, seq![ch], out0, out@);
                }
                i += 4;
            } else if c1 == 'u' {
                if n - i < 6 {
                    proof {
                        assert(decode_from(v@, i as int) is None);
                    }
                    return Err(ExtractError::MalformedEscape);
                }
                match hex4_chars(v[i + 2], v[i + 3], v[i + 4], v[i + 5]) {
                    Some(code) => {
                        if 0xD800 <= code && code <= 0xDFFF {
                            proof {
                                assert(decode_from(v@, i as int) is None);
                            }
                            return Err(ExtractError::MalformedEscape);
                        }
                        let ch = char_from_code(code);
                        out.push(ch);
                        proof {
                            char_u32_cast(ch, code);
                            assert(out@ =~= out0 + seq![ch]);
                            assert(decode_from(v@, i as int) == opt_prepend(
                                seq![ch],
                                decode_from(v@, i + 6 as int),
                            ));
                            lemma_decode_step(v@, i as int, i + 6, seq![ch], out0, out@);
                        }
                        i += 6;
                    },
                    None => {
                        proof {
                            assert(decode_from(v@, i as int) is None);
                        }
                        return Err(ExtractError::MalformedEscape);
                    },
                }
            } else if c1 == '\\' {
                if n - i > 2 && v[i + 2] == 'u' {
                    if n - i < 7 {
                        proof {
                            assert(decode_from(v@, i as int) is None);
                        }
                        return Err(ExtractError::MalformedEscape);
                    }
                    match hex4_chars(v[i + 3], v[i + 4], v[i + 5], v[i + 6]) {
                        Some(code) => {
                            if 0xD800 <= code && code <= 0xDFFF {
                                proof {
                                    assert(decode_from(v@, i as int) is None);
                                }
                                return Err(ExtractError::MalformedEscape);
                            }
                            let ch = char_from_code(code);
                            out.push(ch);
                            proof {
                                char_u32_cast(ch, code);
                                assert(out@ =~= out0 + seq![ch]);
                                assert(decode_from(v@, i as int) == opt_prepend(
                                    seq![ch],
                                    decode_from(v@, i + 7 as int),
                                ));
                                lemma_decode_step(v@, i as int, i + 7, seq![ch], out0, out@);
                            }
                            i += 7;
                        },
                        None => {
                            proof {
                                assert(decode_from(v@, i as int) is None);
                            }
                            return Err(ExtractError::MalformedEscape);
                        },
                    }
                } else {
                    out.push('\\');
                    proof {
                        assert(out@ =~= out0 + seq!['\\']);
                        lemma_decode_step(v@, i as int, i + 2, seq!['\\'], out0, out@);
                    }
                    i += 2;
                }
            } else {
                let ch = escape_char_exec(c1);
                out.push(ch);
                proof {
                    assert(out@ =~= out0 + seq![ch]);
                    lemma_decode_step(v@, i as int, i + 2, seq![ch], out0, out@);
                }
                i += 2;
            }
        }
    }
    proof {
        assert(decode_from(v@, n as int) == Some(Seq::<char>::empty()));
        assert(out@ + Seq::<char>::empty() =~= out@);
    }
    Ok(out)
}

/// Executable form of `escape_char`.
fn escape_char_exec(c: char) -> (r: char)
    ensures
        r == escape_char(c),
{
    if c == 'n' {
        '\n'
    } else if c == 'r' {
        '\r'
    } else if c == 't' {
        '\t'
    } else if c == 'b' {
        '\u{8}'
    } else if c == 'f' {
        '\u{c}'
    } else if c == 'v' {
        '\u{b}'
    } else if c == '0' {
        '\0'
    } else {
        c
    }
}

/// The result of extracting a JavaScript variable: either a parsed JSON
/// value tree, or the raw text that could not be parsed as one.
#[derive(Debug, Clone)]
pub enum JsValue {
    /// A parsed JSON value (object, array, string, number, boolean, null).
    Json(serde_json::Value),
    /// Raw text that could not be parsed as JSON, preserved verbatim.
    Raw(String),
}

impl JsValue {
    /// JSON text of the value: the serialization of the tree, or the JSON
    /// string literal quoting the raw text.
    pub fn to_json_string(&self) -> (r: String)
        ensures
            self is Json ==> r@ == json_text(self->Json_0),
            self is Raw ==> r@ == json_quoted(self->Raw_0@),
    {
        match self {
            JsValue::Json(v) => value_to_string(v),
            JsValue::Raw(s) => string_to_json(s.as_str()),
        }
    }
}

/// How decoded text becomes a `JsValue`: a direct parse wins, then a parse
/// of the repaired text, and otherwise the text is kept raw.
pub open spec fn decoded_value_post(d: Seq<char>, r: Result<JsValue, ExtractError>) -> bool {
    match json_tree(d) {
        Some(v) => r == Ok::<JsValue, ExtractError>(JsValue::Json(v)),
        None => match json_tree(spec_repair(d)) {
            Some(v) => r == Ok::<JsValue, ExtractError>(JsValue::Json(v)),
            None => match r {
                Ok(JsValue::Raw(out)) => out@ == d,
                _ => false,
            },
        },
    }
}

/// Turn decoded text into a structured value: parse it as JSON, retry after
/// control-character repair, and fall back to the text itself.
pub fn decoded_to_value(d: &Vec<char>) -> (r: Result<JsValue, ExtractError>)
    ensures
        decoded_value_post(d@, r),
        r is Ok,
{
    let s = chars_to_string(d);
    match parse_json(s.as_str()) {
        Some(v) => Ok(JsValue::Json(v)),
        None => {
            let fixed = escape_json_control_chars(s.as_str());
            match parse_json(fixed.as_str()) {
                Some(v) => Ok(JsValue::Json(v)),
                None => Ok(JsValue::Raw(s)),
            }
        },
    }
}

/// The characters of the literal prefix `JSON.parse(`.
pub open spec fn jp_prefix() -> Seq<char> {
    seq!['J', 'S', 'O', 'N', '.', 'p', 'a', 'r', 's', 'e', '(']
}

/// Position of the quote closing a string literal scanned from `i`: the
/// first unescaped occurrence of `q`, any `\X` pair being skipped as a
/// unit, or the end of the input if the literal is unterminated.
pub open spec fn quote_scan(s: Seq<char>, i: int, q: char) -> int
    decreases s.len() - i + 1,
    when 0 <= i
{
    if i >= s.len() {
        s.len() as int
    } else if s[i] == q {
        i
    } else if s[i] == '\\' {
        quote_scan(s, i + 2, q)
    } else {
        quote_scan(s, i + 1, q)
    }
}

/// Executable scan for the closing quote; see `quote_scan`.
fn quote_end_chars(v: &Vec<char>, start: usize, q: char) -> (e: usize)
    requires
        start <= v@.len(),
    ensures
        e as int == quote_scan(v@, start as int, q),
        start <= e <= v@.len(),
{
    let n = v.len();
    let mut i: usize = start;
    while i < n
        invariant
            start <= i <= n,
            n == v@.len(),
            quote_scan(v@, start as int, q) == quote_scan(v@, i as int, q),
        decreases n - i,
    {
        let c = v[i];
        if c == q {
            return i;
        }
        if c == '\\' {
            if n - i < 2 {
                proof {
                    assert(quote_scan(v@, i + 2 as int, q) == v@.len());
                }
                return n;
            }
            i += 2;
        } else {
            i += 1;
        }
    }
    n
}

/// What `extract_json_parse` returns for the given input: an unsupported
/// literal unless the text starts with `JSON.parse(` followed by a quote; a
/// malformed escape if the quoted argument does not decode; and otherwise
/// the decoded argument parsed as by `decoded_to_value`.
pub open spec fn jp_post(s: Seq<char>, r: Result<JsValue, ExtractError>) -> bool {
    if !match_at(s, jp_prefix(), 0) {
        r is Err && r->Err_0 == ExtractError::UnsupportedLiteral
    } else if s.len() == 11 || (s[11] != '\'' && s[11] != '"') {
        r is Err && r->Err_0 == ExtractError::UnsupportedLiteral
    } else {
        let content = s.subrange(12, quote_scan(s, 12, s[11]));
        match spec_decode(content) {
            None => r is Err && r->Err_0 == ExtractError::MalformedEscape,
            Some(d) => decoded_value_post(d, r),
        }
    }
}

/// Extract and decode the single string argument of a `JSON.parse('...')`
/// or `JSON.parse("...")` call, given as characters; see `jp_post`.
pub fn extract_json_parse_chars(v: &Vec<char>) -> (r: Result<JsValue, ExtractError>)
    ensures
        jp_post(v@, r),
{
    let pat: Vec<char> = vec!['J', 'S', 'O', 'N', '.', 'p', 'a', 'r', 's', 'e', '('];
    proof {
        assert(pat@ =~= jp_prefix());
    }
    if !pat_match_at(v, &pat, 0) {
        return Err(ExtractError::UnsupportedLiteral);
    }
    if v.len() == 11 {
        return Err(ExtractError::UnsupportedLiteral);
    }
    let q = v[11];
    if q != '\'' && q != '"' {
        return Err(ExtractError::UnsupportedLiteral);
    }
    let e = quote_end_chars(v, 12, q);
    let content = sub_chars(v, 12, e);
    match decode_chars(&content) {
        Err(_) => Err(ExtractError::MalformedEscape),
        Ok(d) => decoded_to_value(&d),
    }
}

/// Extract and decode the single string argument of a `JSON.parse(...)`
/// call standing at the start of `input`, and parse the decoded text as
/// structured data.
pub fn extract_json_parse(input: &str) -> (r: Result<JsValue, ExtractError>)
    ensures
        jp_post(input@, r),
{
    let v = str_chars(input);
    extract_json_parse_chars(&v)
}

/// The search pattern of a variable declaration: the trimmed declaration
/// prefix followed by ` = `.
pub open spec fn var_pattern_seq(pat: Seq<char>) -> Seq<char> {
    spec_trim(pat) + seq![' ', '=', ' ']
}

/// What `extract_js_variable` returns: the variable is not found when its
/// assignment pattern is absent; a right-hand side beginning (after
/// whitespace) with `JSON.parse(` is handled as by `extract_json_parse` on
/// the rest of the script; any other right-hand side is cut at the first
/// top-level statement terminator, trimmed, and parsed as by
/// `decoded_to_value`.
pub open spec fn resolve_post(
    script: Seq<char>,
    pat: Seq<char>,
    r: Result<JsValue, ExtractError>,
) -> bool {
    let p = var_pattern_seq(pat);
    match find_from(script, p, 0) {
        None => r is Err && r->Err_0 == ExtractError::VariableNotFound,
        Some(pos) => {
            let rem = script.skip(pos + p.len());
            let rem_ts = rem.skip(skip_ws(rem, 0));
            if match_at(rem_ts, jp_prefix(), 0) {
                jp_post(rem_ts, r)
            } else {
                decoded_value_post(spec_trim(rem.take(spec_stmt_end(rem))), r)
            }
        },
    }
}

/// Extract a JavaScript variable value from script text.  The
/// `var_pattern` is the declaration prefix, e.g. `var jobs` or `const
/// data`; the first occurrence of `<pattern> = ` in the script wins.
pub fn extract_js_variable(script: &str, var_pattern: &str) -> (r: Result<JsValue, ExtractError>)
    ensures
        resolve_post(script@, var_pattern@, r),
{
    let v = str_chars(script);
    let pv = str_chars(var_pattern);
    let mut p = trim_chars(&pv);
    p.push(' ');
    p.push('=');
    p.push(' ');
    proof {
        assert(p@ =~= var_pattern_seq(pv@));
    }
    match find_pattern(&v, &p) {
        None => Err(ExtractError::VariableNotFound),
        Some(pos) => {
            proof {
                crate::chars::lemma_find_from_found(v@, p@, 0, pos as int);
                assert(pos + p@.len() <= v@.len());
            }
            let total = v.len();
            let rem = sub_chars(&v, pos + p.len(), total);
            proof {
                assert(rem@ =~= v@.skip(pos + p@.len()));
            }
            let a = skip_ws_from(&rem, 0);
            let rem_ts = sub_chars(&rem, a, rem.len());
            proof {
                assert(rem_ts@ =~= rem@.skip(skip_ws(rem@, 0)));
            }
            let pat: Vec<char> = vec!['J', 'S', 'O', 'N', '.', 'p', 'a', 'r', 's', 'e', '('];
            proof {
                assert(pat@ =~= jp_prefix());
            }
            if pat_match_at(&rem_ts, &pat, 0) {
                extract_json_parse_chars(&rem_ts)
            } else {
                let e = stmt_end_chars(&rem);
                let rhs = sub_chars(&rem, 0, e);
                proof {
                    assert(rhs@ =~= rem@.take(spec_stmt_end(rem@)));
                }
                let t = trim_chars(&rhs);
                decoded_to_value(&t)
            }
        },
    }
}

/// The bytes of the characters with codes up to 255, other characters
/// being dropped: the byte string that `s` reads as when its text was
/// UTF-8 wrongly decoded as Latin-1.
pub open spec fn latin1_bytes(s: Seq<char>) -> Seq<u8>
    decreases s.len(),
{
    if s.len() == 0 {
        Seq::empty()
    } else {
        let rest = latin1_bytes(s.drop_last());
        if s.last() as u32 <= 255 {
            rest.push(s.last() as u8)
        } else {
            rest
        }
    }
}

/// Relies on `String::from_utf8`: it succeeds exactly on valid UTF-8 and
/// decodes the bytes to the characters they encode.
#[verifier::external_body]
fn utf8_to_string(bytes: Vec<u8>) -> (r: Option<String>)
    ensures
        match r {
            Some(out) => valid_utf8(bytes@) && out@ == decode_utf8(bytes@),
            None => !valid_utf8(bytes@),
        },
{
    match String::from_utf8(bytes) {
        Ok(s) => Some(s),
        Err(_) => None,
    }
}

/// Attempt to mend mojibake (UTF-8 text that was wrongly decoded as
/// Latin-1): re-read the sub-256 character codes as bytes and decode them
/// as UTF-8, keeping the input unchanged if those bytes are not valid
/// UTF-8.
pub fn fix_mojibake(input: &str) -> (r: String)
    ensures
        valid_utf8(latin1_bytes(input@)) ==> r@ == decode_utf8(latin1_bytes(input@)),
        !valid_utf8(latin1_bytes(input@)) ==> r@ == input@,
{
    let v = str_chars(input);
    let n = v.len();
    let mut bytes: Vec<u8> = Vec::new();
    let mut i: usize = 0;
    while i < n
        invariant
            i <= n,
            n == v@.len(),
            bytes@ == latin1_bytes(v@.take(i as int)),
        decreases n - i,
    {
        let c = v[i];
        proof {
            assert(v@.take(i + 1 as int).drop_last() =~= v@.take(i as int));
            assert(v@.take(i + 1 as int).last() == v@[i as int]);
        }
        if c as u32 <= 255 {
            bytes.push(c as u8);
        }
        i += 1;
    }
    proof {
        assert(v@.take(n as int) =~= v@);
    }
    match utf8_to_string(bytes) {
        Some(s) => s,
        None => input.to_owned(),
    }
}

/// Combine four hex digit characters; `None` if one is not a hex digit.
fn hex4_chars(a: char, b: char, c: char, d: char) -> (r: Option<u32>)
    ensures
        r == hex4_val(a, b, c, d),
        r is Some ==> r->0 <= 0xFFFF && is_scalar(r->0) == !(0xD800 <= r->0 <= 0xDFFF),
{
    match (hex_val(a), hex_val(b), hex_val(c), hex_val(d)) {
        (Some(x), Some(y), Some(z), Some(w)) => Some(4096 * x + 256 * y + 16 * z + w),
        _ => None,
    }
}

} // verus!
