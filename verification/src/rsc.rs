//! Locating and extracting server-component push payloads: every JSON
//! object found in a script that holds a given key as a top-level member,
//! under either the literal or the escaped quoting convention.
//!
//! For each of the two key patterns (`\"key\":` and `"key":`) every
//! occurrence is tried: the scan walks backward over plain braces to the
//! enclosing object's opening brace, takes the balanced region forward
//! under the matching convention, normalizes `\"` to `"` in the escaped
//! convention, decodes escapes, parses (with control-character repair as a
//! fallback), and keeps the value only if it still holds the key.

use vstd::prelude::*;
use crate::chars::chars_to_string;
use crate::chars::match_at;
use crate::chars::pat_match_at;
use crate::chars::str_chars;
use crate::chars::sub_chars;
use crate::js_decode::spec_decode;
use crate::js_decode::decode_chars;
use crate::js_decode::JsValue;
use crate::jsonio::json_tree;
use crate::jsonio::obj_has_key;
use crate::jsonio::parse_json;
use crate::jsonio::value_has_key;
use crate::repair::escape_json_control_chars;
use crate::repair::spec_repair;
use crate::scan::bal_scan;
use crate::scan::balanced_end_chars;
use crate::scan::QuoteConvention;

verus! {

/// Position of the opening brace enclosing position `i`, found scanning
/// backward over plain `{`/`}` pairs with `depth` pending closers, or
/// `None` if the start of the text is reached first.
pub open spec fn back_scan(s: Seq<char>, i: int, depth: int) -> Option<int>
    decreases i + 1,
    when -1 <= i < s.len()
{
    if i < 0 {
        None
    } else if s[i] == '{' && depth == 0 {
        Some(i)
    } else if s[i] == '{' {
        back_scan(s, i - 1, depth - 1)
    } else if s[i] == '}' {
        back_scan(s, i - 1, depth + 1)
    } else {
        back_scan(s, i - 1, depth)
    }
}

/// Executable backward scan for the enclosing opening brace, starting just
/// before position `m`.
fn enclosing_open_brace(v: &Vec<char>, m: usize) -> (r: Option<usize>)
    requires
        m <= v@.len(),
    ensures
        match r {
            Some(b) => back_scan(v@, m - 1, 0) == Some(b as int) && b < m,
            None => back_scan(v@, m - 1, 0) is None,
        },
{
    let mut i: usize = m;
    let mut depth: i128 = 0;
    while i > 0
        invariant
            i <= m <= v@.len(),
            -((m - i) as i128) <= depth <= (m - i) as i128,
            back_scan(v@, m - 1, 0) == back_scan(v@, i - 1, depth as int),
        decreases i,
    {
        let c = v[i - 1];
        if c == '{' && depth == 0 {
            return Some(i - 1);
        }
        if c == '{' {
            depth -= 1;
        } else if c == '}' {
            depth += 1;
        }
        i -= 1;
    }
    None
}

/// `s` with every two-character sequence `\"` replaced by `"`.
pub open spec fn unescape_quotes(s: Seq<char>) -> Seq<char>
    decreases s.len(),
{
    if s.len() == 0 {
        Seq::empty()
    } else if s.len() >= 2 && s[0] == '\\' && s[1] == '"' {
        seq!['"'] + unescape_quotes(s.skip(2))
    } else {
        seq![s[0]] + unescape_quotes(s.skip(1))
    }
}

/// Executable form of `unescape_quotes`.
fn unescape_chars(v: &Vec<char>) -> (out: Vec<char>)
    ensures
        out@ == unescape_quotes(v@),
{
    let n = v.len();
    let mut out: Vec<char> = Vec::new();
    let mut i: usize = 0;
    proof {
        assert(v@.skip(0) =~= v@);
        assert(out@ + unescape_quotes(v@) =~= unescape_quotes(v@));
    }
    while i < n
        invariant
            i <= n,
            n == v@.len(),
            unescape_quotes(v@) == out@ + unescape_quotes(v@.skip(i as int)),
        decreases n - i,
    {
        let ghost tail = v@.skip(i as int);
        let ghost out0 = out@;
        proof {
            assert(tail[0] == v@[i as int]);
            assert(tail.len() == n - i);
            assert(tail.skip(1) =~= v@.skip(i + 1 as int));
            if i + 2 <= n {
                assert(tail.skip(2) =~= v@.skip(i + 2 as int));
            }
        }
        let c = v[i];
        if c == '\\' && i + 1 < n && v[i + 1] == '"' {
            out.push('"');
            proof {
                assert(tail[1] == v@[i + 1 as int]);
                assert(out@ =~= out0 + seq!['"']);
                assert((out0 + seq!['"']) + unescape_quotes(v@.skip(i + 2 as int)) =~= out0 + (
                seq!['"'] + unescape_quotes(v@.skip(i + 2 as int))));
            }
            i += 2;
        } else {
            out.push(c);
            proof {
                if tail.len() >= 2 && tail[0] == '\\' && tail[1] == '"' {
                    assert(v@[i + 1 as int] == tail[1]);
                }
                assert(out@ =~= out0 + seq![c]);
                assert((out0 + seq![c]) + unescape_quotes(v@.skip(i + 1 as int)) =~= out0 + (
                seq![c] + unescape_quotes(v@.skip(i + 1 as int))));
            }
            i += 1;
        }
    }
    proof {
        assert(v@.skip(n as int) =~= Seq::<char>::empty());
        assert(out@ + Seq::<char>::empty() =~= out@);
    }
    out
}

/// The decoded candidate text for a key occurrence at position `m`: the
/// balanced region of the enclosing object, normalized under the escaped
/// convention when `esc` holds, with escapes decoded; `None` when no
/// enclosing brace is found, the region does not close, or decoding fails.
pub open spec fn rsc_candidate(s: Seq<char>, m: int, esc: bool) -> Option<Seq<char>> {
    match back_scan(s, m - 1, 0) {
        None => None,
        Some(b) => match bal_scan(s, b, 0, false, esc) {
            None => None,
            Some(e) => {
                let region = s.subrange(b, e);
                let norm = if esc {
                    unescape_quotes(region)
                } else {
                    region
                };
                spec_decode(norm)
            },
        },
    }
}

/// The value a decoded candidate contributes: the parse of the text (with
/// repair as a fallback), kept only if it is an object holding `key`.
pub open spec fn kept_value(d: Seq<char>, key: Seq<char>) -> Option<serde_json::Value> {
    let t = if json_tree(d) is Some {
        json_tree(d)
    } else {
        json_tree(spec_repair(d))
    };
    match t {
        Some(v) => if obj_has_key(v, key) {
            Some(v)
        } else {
            None
        },
        None => None,
    }
}

/// The values contributed by every occurrence of `pat` at or after `k`,
/// in order of occurrence.
pub open spec fn rsc_list(s: Seq<char>, pat: Seq<char>, key: Seq<char>, esc: bool, k: int) -> Seq<
    serde_json::Value,
>
    decreases s.len() - k,
    when 0 <= k && pat.len() > 0
{
    if k + pat.len() > s.len() {
        Seq::empty()
    } else if !match_at(s, pat, k) {
        rsc_list(s, pat, key, esc, k + 1)
    } else {
        let rest = rsc_list(s, pat, key, esc, k + pat.len());
        match rsc_candidate(s, k, esc) {
            Some(d) => match kept_value(d, key) {
                Some(v) => seq![v] + rest,
                None => rest,
            },
            None => rest,
        }
    }
}

/// The escaped-convention key pattern `\"key\":`.
pub open spec fn esc_key_pattern(key: Seq<char>) -> Seq<char> {
    seq!['\\', '"'] + key + seq!['\\', '"', ':']
}

/// The literal-convention key pattern `"key":`.
pub open spec fn lit_key_pattern(key: Seq<char>) -> Seq<char> {
    seq!['"'] + key + seq!['"', ':']
}

/// Every payload value the script yields for the key: those of the escaped
/// pattern first, then those of the literal pattern, each in order of
/// occurrence.
pub open spec fn spec_rsc_payloads(s: Seq<char>, key: Seq<char>) -> Seq<serde_json::Value> {
    rsc_list(s, esc_key_pattern(key), key, true, 0) + rsc_list(s, lit_key_pattern(key), key, false, 0)
}

/// Append the characters of `src` to `dst`.
fn append_chars(dst: &mut Vec<char>, src: &Vec<char>)
    ensures
        final(dst)@ == old(dst)@ + src@,
{
    let n = src.len();
    let mut i: usize = 0;
    proof {
        assert(dst@ =~= old(dst)@ + src@.take(0));
    }
    while i < n
        invariant
            i <= n,
            n == src@.len(),
            dst@ == old(dst)@ + src@.take(i as int),
        decreases n - i,
    {
        let c = src[i];
        dst.push(c);
        proof {
            assert(old(dst)@ + src@.take(i + 1 as int) =~= (old(dst)@ + src@.take(i as int)).push(
                src@[i as int],
            ));
        }
        i += 1;
    }
    proof {
        assert(src@.take(n as int) =~= src@);
    }
}

/// Collect the payload values of one key pattern into `out`; see `rsc_list`.
#[verifier::rlimit(60)]
fn rsc_collect(v: &Vec<char>, pat: &Vec<char>, key_str: &str, esc: bool, out: &mut Vec<JsValue>)
    requires
        pat@.len() > 0,
    ensures
        final(out)@.len() == old(out)@.len() + rsc_list(v@, pat@, key_str@, esc, 0).len(),
        forall|i: int| 0 <= i < old(out)@.len() ==> final(out)@[i] == old(out)@[i],
        forall|i: int|
            0 <= i < rsc_list(v@, pat@, key_str@, esc, 0).len() ==> final(out)@[old(out)@.len() + i]
                == JsValue::Json(rsc_list(v@, pat@, key_str@, esc, 0)[i]),
{
    let conv = if esc {
        QuoteConvention::EscapedQuotes
    } else {
        QuoteConvention::Literal
    };
    let ghost mut gacc: Seq<serde_json::Value> = Seq::empty();
    let mut k: usize = 0;
    proof {
        assert(gacc + rsc_list(v@, pat@, key_str@, esc, 0) =~= rsc_list(v@, pat@, key_str@, esc, 0));
    }
    while pat.len() <= v.len() - k
        invariant
            k <= v@.len(),
            pat@.len() > 0,
            esc == (conv is EscapedQuotes),
            out@.len() == old(out)@.len() + gacc.len(),
            forall|i: int| 0 <= i < old(out)@.len() ==> out@[i] == old(out)@[i],
            forall|i: int| 0 <= i < gacc.len() ==> out@[old(out)@.len() + i] == JsValue::Json(gacc[i]),
            rsc_list(v@, pat@, key_str@, esc, 0) == gacc + rsc_list(v@, pat@, key_str@, esc, k as int),
        decreases v@.len() - k,
    {
        if pat_match_at(v, pat, k) {
            let ghost rest = rsc_list(v@, pat@, key_str@, esc, k + pat@.len());
            let ghost unit = match rsc_candidate(v@, k as int, esc) {
                Some(d) => match kept_value(d, key_str@) {
                    Some(val) => seq![val],
                    None => Seq::<serde_json::Value>::empty(),
                },
                None => Seq::<serde_json::Value>::empty(),
            };
            proof {
                assert(rsc_list(v@, pat@, key_str@, esc, k as int) == unit + rest);
            }
            match enclosing_open_brace(v, k) {
                Some(b) => {
                    match balanced_end_chars(v, b, conv) {
                        Some(e) => {
                            let region = sub_chars(v, b, e);
                            let norm = if esc {
                                unescape_chars(&region)
                            } else {
                                region
                            };
                            match decode_chars(&norm) {
                                Ok(d) => {
                                    proof {
                                        assert(rsc_candidate(v@, k as int, esc) == Some(d@));
                                    }
                                    let s = chars_to_string(&d);
                                    let tv = match parse_json(s.as_str()) {
                                        Some(val) => Some(val),
                                        None => {
                                            let fixed = escape_json_control_chars(s.as_str());
                                            parse_json(fixed.as_str())
                                        },
                                    };
                                    match tv {
                                        Some(val) => {
                                            if value_has_key(&val, key_str) {
                                                proof {
                                                    assert(kept_value(d@, key_str@) == Some(val));
                                                    assert(unit =~= seq![val]);
                                                }
                                                out.push(JsValue::Json(val));
                                                proof {
                                                    gacc = gacc.push(val);
                                                }
                                            } else {
                                                proof {
                                                    assert(kept_value(d@, key_str@) is None);
                                                    assert(unit =~= Seq::<
                                                        serde_json::Value,
                                                    >::empty());
                                                }
                                            }
                                        },
                                        None => {
                                            proof {
                                                assert(kept_value(d@, key_str@) is None);
                                                assert(unit =~= Seq::<serde_json::Value>::empty());
                                            }
                                        },
                                    }
                                },
                                Err(_) => {
                                    proof {
                                        assert(rsc_candidate(v@, k as int, esc) is None);
                                        assert(unit =~= Seq::<serde_json::Value>::empty());
                                    }
                                },
                            }
                        },
                        None => {
                            proof {
                                assert(rsc_candidate(v@, k as int, esc) is None);
                                assert(unit =~= Seq::<serde_json::Value>::empty());
                            }
                        },
                    }
                },
                None => {
                    proof {
                        assert(rsc_candidate(v@, k as int, esc) is None);
                        assert(unit =~= Seq::<serde_json::Value>::empty());
                    }
                },
            }
            proof {
                assert(gacc + rsc_list(v@, pat@, key_str@, esc, k + pat@.len()) =~= rsc_list(
                    v@,
                    pat@,
                    key_str@,
                    esc,
                    0,
                ));
            }
            k += pat.len();
        } else {
            proof {
                assert(rsc_list(v@, pat@, key_str@, esc, k as int) == rsc_list(
                    v@,
                    pat@,
                    key_str@,
                    esc,
                    k + 1,
                ));
            }
            k += 1;
        }
    }
    proof {
        assert(rsc_list(v@, pat@, key_str@, esc, k as int) =~= Seq::<serde_json::Value>::empty());
        assert(gacc + Seq::<serde_json::Value>::empty() =~= gacc);
    }
}

/// Extract every structured payload value in the script that is a JSON
/// object holding `json_key` as a top-level member, under either quoting
/// convention; the list is empty when there is no match, and duplicates
/// are kept.
pub fn extract_rsc_payloads(script: &str, json_key: &str) -> (r: Vec<JsValue>)
    ensures
        r@.len() == spec_rsc_payloads(script@, json_key@).len(),
        forall|i: int|
            0 <= i < r@.len() ==> r@[i] == JsValue::Json(spec_rsc_payloads(script@, json_key@)[i]),
{
    let v = str_chars(script);
    let kv = str_chars(json_key);
    let mut pe: Vec<char> = vec!['\\', '"'];
    append_chars(&mut pe, &kv);
    pe.push('\\');
    pe.push('"');
    pe.push(':');
    proof {
        assert(pe@ =~= esc_key_pattern(kv@));
    }
    let mut pl: Vec<char> = vec!['"'];
    append_chars(&mut pl, &kv);
    pl.push('"');
    pl.push(':');
    proof {
        assert(pl@ =~= lit_key_pattern(kv@));
    }
    let mut r: Vec<JsValue> = Vec::new();
    rsc_collect(&v, &pe, json_key, true, &mut r);
    rsc_collect(&v, &pl, json_key, false, &mut r);
    proof {
        let le = rsc_list(v@, pe@, json_key@, true, 0);
        let ll = rsc_list(v@, pl@, json_key@, false, 0);
        let all = spec_rsc_payloads(script@, json_key@);
        assert(all == le + ll);
        assert(r@.len() == all.len());
        assert forall|i: int| 0 <= i < r@.len() implies r@[i] == JsValue::Json(all[i]) by {
            if i < le.len() {
                assert(all[i] == le[i]);
            } else {
                assert(all[i] == ll[i - le.len()]);
            }
        }
    }
    r
}

} // verus!
