//! The two bracket-tracking scanners: the statement-value scanner, which
//! finds the end of the expression standing right of an assignment operator,
//! and the balanced-region scanner, which finds the shortest balanced
//! substring closing an initial brace or bracket under one of two quoting
//! conventions.

use vstd::prelude::*;
use crate::chars::chars_to_string;
use crate::chars::skip_ws;
use crate::chars::skip_ws_from;
use crate::chars::str_chars;
use crate::chars::sub_chars;

verus! {

/// How string literals inside a scanned region are delimited.
///
/// `Literal`: an unescaped `"` toggles in-string state; inside a string any
/// `\X` pair is skipped as a unit.  `EscapedQuotes`: the two-character
/// sequence `\"` toggles in-string state; inside a string the pair `\\` is
/// skipped as a unit and a lone `\` is not special.  Outside strings, only
/// the convention's own quote token is special.
#[derive(Clone, Copy, Debug, PartialEq, Eq, Structural)]
pub enum QuoteConvention {
    Literal,
    EscapedQuotes,
}

/// Position right after the character closing the region that is open with
/// `depth` pending braces/brackets at position `i`, or `None` if the input
/// ends first.  `esc_mode` selects the `EscapedQuotes` convention.
pub open spec fn bal_scan(s: Seq<char>, i: int, depth: int, in_str: bool, esc_mode: bool) -> Option<
    int,
>
    decreases s.len() - i + 2,
    when 0 <= i
{
    if i >= s.len() {
        None
    } else {
        let c = s[i];
        if in_str {
            if esc_mode {
                if c == '\\' && i + 1 < s.len() && s[i + 1] == '"' {
                    bal_scan(s, i + 2, depth, false, esc_mode)
                } else if c == '\\' && i + 1 < s.len() && s[i + 1] == '\\' {
                    bal_scan(s, i + 2, depth, true, esc_mode)
                } else {
                    bal_scan(s, i + 1, depth, true, esc_mode)
                }
            } else {
                if c == '\\' {
                    bal_scan(s, i + 2, depth, true, esc_mode)
                } else if c == '"' {
                    bal_scan(s, i + 1, depth, false, esc_mode)
                } else {
                    bal_scan(s, i + 1, depth, true, esc_mode)
                }
            }
        } else {
            if esc_mode && c == '\\' && i + 1 < s.len() && s[i + 1] == '"' {
                bal_scan(s, i + 2, depth, true, esc_mode)
            } else if !esc_mode && c == '"' {
                bal_scan(s, i + 1, depth, true, esc_mode)
            } else if c == '{' || c == '[' {
                bal_scan(s, i + 1, depth + 1, false, esc_mode)
            } else if c == '}' || c == ']' {
                if depth == 1 {
                    Some(i + 1)
                } else {
                    bal_scan(s, i + 1, depth - 1, false, esc_mode)
                }
            } else {
                bal_scan(s, i + 1, depth, false, esc_mode)
            }
        }
    }
}

/// Position right after the close of the balanced region starting at `start`,
/// or `None` if the input ends before balance is reached.
pub open spec fn spec_balanced_end(s: Seq<char>, start: int, conv: QuoteConvention) -> Option<int> {
    bal_scan(s, start, 0, false, conv is EscapedQuotes)
}

/// Executable balanced-region scan from `start`; see `spec_balanced_end`.
pub fn balanced_end_chars(v: &Vec<char>, start: usize, conv: QuoteConvention) -> (r: Option<usize>)
    requires
        start <= v@.len(),
    ensures
        match r {
            Some(e) => spec_balanced_end(v@, start as int, conv) == Some(e as int) && start < e
                <= v@.len(),
            None => spec_balanced_end(v@, start as int, conv) is None,
        },
{
    let esc_mode = match conv {
        QuoteConvention::Literal => false,
        QuoteConvention::EscapedQuotes => true,
    };
    let n = v.len();
    let mut i: usize = start;
    let mut depth: i128 = 0;
    let mut in_str: bool = false;
    while i < n
        invariant
            start <= i <= n,
            n == v@.len(),
            -(i as i128) <= depth <= i as i128,
            bal_scan(v@, start as int, 0, false, esc_mode) == bal_scan(
                v@,
                i as int,
                depth as int,
                in_str,
                esc_mode,
            ),
            esc_mode == (conv is EscapedQuotes),
        decreases n - i,
    {
        let c = v[i];
        if in_str {
            if esc_mode {
                if c == '\\' && i + 1 < n && v[i + 1] == '"' {
                    in_str = false;
                    i += 2;
                } else if c == '\\' && i + 1 < n && v[i + 1] == '\\' {
                    i += 2;
                } else {
                    i += 1;
                }
            } else {
                if c == '\\' {
                    if n - i < 2 {
                        proof {
                            assert(bal_scan(v@, i + 2 as int, depth as int, true, esc_mode)
                                is None);
                        }
                        return None;
                    }
                    i += 2;
                } else if c == '"' {
                    in_str = false;
                    i += 1;
                } else {
                    i += 1;
                }
            }
        } else {
            if esc_mode && c == '\\' && i + 1 < n && v[i + 1] == '"' {
                in_str = true;
                i += 2;
            } else if !esc_mode && c == '"' {
                in_str = true;
                i += 1;
            } else if c == '{' || c == '[' {
                depth += 1;
                i += 1;
            } else if c == '}' || c == ']' {
                if depth == 1 {
                    return Some(i + 1);
                }
                depth -= 1;
                i += 1;
            } else {
                i += 1;
            }
        }
    }
    None
}

/// The shortest balanced substring of `text` starting at its first character
/// (an opening brace or bracket) and closing it, under the given quoting
/// convention, or `None` if the text ends before balance is reached.
pub fn balanced_region(text: &str, conv: QuoteConvention) -> (r: Option<String>)
    ensures
        match r {
            Some(region) => spec_balanced_end(text@, 0, conv) == Some(region@.len() as int)
                && region@ == text@.take(region@.len() as int),
            None => spec_balanced_end(text@, 0, conv) is None,
        },
{
    let v = str_chars(text);
    match balanced_end_chars(&v, 0, conv) {
        Some(e) => {
            let region = sub_chars(&v, 0, e);
            proof {
                assert(v@.subrange(0, e as int) =~= v@.take(e as int));
            }
            Some(chars_to_string(&region))
        },
        None => None,
    }
}

/// Position of the first top-level statement terminator at or after `i`:
/// a `;` at zero depth outside strings, or a newline at zero depth outside
/// strings that is not followed (after whitespace) by a continuation
/// character, or the end of the input.
pub open spec fn stmt_scan(
    s: Seq<char>,
    i: int,
    brace: int,
    bracket: int,
    in_str: bool,
    qc: char,
    esc: bool,
) -> int
    decreases s.len() - i,
    when 0 <= i <= s.len()
{
    if i >= s.len() {
        i
    } else {
        let c = s[i];
        if esc {
            stmt_scan(s, i + 1, brace, bracket, in_str, qc, false)
        } else if c == '\\' {
            stmt_scan(s, i + 1, brace, bracket, in_str, qc, true)
        } else if in_str {
            stmt_scan(s, i + 1, brace, bracket, c != qc, qc, false)
        } else if c == '"' || c == '\'' {
            stmt_scan(s, i + 1, brace, bracket, true, c, false)
        } else if c == '{' {
            stmt_scan(s, i + 1, brace + 1, bracket, false, qc, false)
        } else if c == '}' {
            stmt_scan(s, i + 1, brace - 1, bracket, false, qc, false)
        } else if c == '[' {
            stmt_scan(s, i + 1, brace, bracket + 1, false, qc, false)
        } else if c == ']' {
            stmt_scan(s, i + 1, brace, bracket - 1, false, qc, false)
        } else if c == ';' && brace == 0 && bracket == 0 {
            i
        } else if c == '\n' && brace == 0 && bracket == 0 {
            let k = skip_ws(s, i + 1);
            if k >= s.len() {
                i
            } else if s[k] == '.' || s[k] == ',' || s[k] == '+' || s[k] == '-' || s[k] == '*' || s[
                k
            ] == '/' {
                stmt_scan(s, i + 1, brace, bracket, false, qc, false)
            } else {
                i
            }
        } else {
            stmt_scan(s, i + 1, brace, bracket, false, qc, false)
        }
    }
}

/// Position of the first top-level statement terminator of `s`.
pub open spec fn spec_stmt_end(s: Seq<char>) -> int {
    stmt_scan(s, 0, 0, 0, false, '"', false)
}

/// Executable statement scan; see `spec_stmt_end`.
pub fn stmt_end_chars(v: &Vec<char>) -> (e: usize)
    ensures
        e as int == spec_stmt_end(v@),
        e <= v@.len(),
{
    let n = v.len();
    let mut i: usize = 0;
    let mut brace: i128 = 0;
    let mut bracket: i128 = 0;
    let mut in_str: bool = false;
    let mut qc: char = '"';
    let mut esc: bool = false;
    while i < n
        invariant
            i <= n,
            n == v@.len(),
            -(i as i128) <= brace <= i as i128,
            -(i as i128) <= bracket <= i as i128,
            spec_stmt_end(v@) == stmt_scan(
                v@,
                i as int,
                brace as int,
                bracket as int,
                in_str,
                qc,
                esc,
            ),
        decreases n - i,
    {
        let c = v[i];
        if esc {
            esc = false;
            i += 1;
        } else if c == '\\' {
            esc = true;
            i += 1;
        } else if in_str {
            if c == qc {
                in_str = false;
            }
            i += 1;
        } else if c == '"' || c == '\'' {
            in_str = true;
            qc = c;
            i += 1;
        } else if c == '{' {
            brace += 1;
            i += 1;
        } else if c == '}' {
            brace -= 1;
            i += 1;
        } else if c == '[' {
            bracket += 1;
            i += 1;
        } else if c == ']' {
            bracket -= 1;
            i += 1;
        } else if c == ';' && brace == 0 && bracket == 0 {
            return i;
        } else if c == '\n' && brace == 0 && bracket == 0 {
            let k = skip_ws_from(v, i + 1);
            if k >= n {
                return i;
            }
            let ck = v[k];
            if ck == '.' || ck == ',' || ck == '+' || ck == '-' || ck == '*' || ck == '/' {
                i += 1;
            } else {
                return i;
            }
        } else {
            i += 1;
        }
    }
    i
}

/// The substring of `input` that constitutes the right-hand-side expression
/// standing right after an assignment operator: everything up to the first
/// top-level statement terminator, which is excluded.
pub fn extract_until_statement_end(input: &str) -> (r: String)
    ensures
        r@ == input@.take(spec_stmt_end(input@)),
{
    let v = str_chars(input);
    let e = stmt_end_chars(&v);
    let out = sub_chars(&v, 0, e);
    proof {
        assert(v@.subrange(0, e as int) =~= v@.take(e as int));
    }
    chars_to_string(&out)
}

} // verus!
