//! Best-effort repair of near-valid JSON: raw control characters that appear
//! inside string-literal spans are escaped (`\n`, `\r`, `\t`) or dropped,
//! while control characters outside strings are left untouched. String spans
//! are tracked by a simple quote toggle that ignores escape pairs.

use vstd::prelude::*;
use crate::chars::chars_to_string;
use crate::chars::ctl_char;
use crate::chars::is_ctl_char;
use crate::chars::str_chars;

verus! {

/// The repaired form of `s`, scanned with `in_str` saying whether the scan
/// stands inside a string span and `esc` whether the previous character was
/// an unconsumed backslash.
pub open spec fn repair_state(s: Seq<char>, in_str: bool, esc: bool) -> Seq<char>
    decreases s.len(),
{
    if s.len() == 0 {
        Seq::empty()
    } else {
        let c = s[0];
        let rest = s.drop_first();
        if esc {
            seq![c] + repair_state(rest, in_str, false)
        } else if c == '\\' {
            seq![c] + repair_state(rest, in_str, true)
        } else if c == '"' {
            seq![c] + repair_state(rest, !in_str, false)
        } else if in_str && is_ctl_char(c) {
            if c == '\n' {
                seq!['\\', 'n'] + repair_state(rest, in_str, false)
            } else if c == '\r' {
                seq!['\\', 'r'] + repair_state(rest, in_str, false)
            } else if c == '\t' {
                seq!['\\', 't'] + repair_state(rest, in_str, false)
            } else {
                repair_state(rest, in_str, false)
            }
        } else {
            seq![c] + repair_state(rest, in_str, false)
        }
    }
}

/// The repaired form of `s`.
pub open spec fn spec_repair(s: Seq<char>) -> Seq<char> {
    repair_state(s, false, false)
}

proof fn lemma_repair_state_idempotent(s: Seq<char>, in_str: bool, esc: bool)
    ensures
        repair_state(repair_state(s, in_str, esc), in_str, esc) == repair_state(s, in_str, esc),
    decreases s.len(),
{
    if s.len() == 0 {
    } else {
        let c = s[0];
        let rest = s.drop_first();
        if esc {
            let r = repair_state(rest, in_str, false);
            lemma_repair_state_idempotent(rest, in_str, false);
            assert((seq![c] + r).drop_first() =~= r);
        } else if c == '\\' {
            let r = repair_state(rest, in_str, true);
            lemma_repair_state_idempotent(rest, in_str, true);
            assert((seq![c] + r).drop_first() =~= r);
        } else if c == '"' {
            let r = repair_state(rest, !in_str, false);
            lemma_repair_state_idempotent(rest, !in_str, false);
            assert((seq![c] + r).drop_first() =~= r);
        } else if in_str && is_ctl_char(c) {
            let r = repair_state(rest, in_str, false);
            lemma_repair_state_idempotent(rest, in_str, false);
            if c == '\n' || c == '\r' || c == '\t' {
                let e = if c == '\n' {
                    'n'
                } else if c == '\r' {
                    'r'
                } else {
                    't'
                };
                assert(repair_state(s, in_str, esc) == seq!['\\', e] + r);
                assert((seq!['\\', e] + r).drop_first() =~= seq![e] + r);
                assert((seq![e] + r).drop_first() =~= r);
                assert((seq!['\\', e] + r)[0] == '\\');
                assert((seq![e] + r)[0] == e);
                assert(repair_state(seq![e] + r, in_str, true) == seq![e] + repair_state(
                    r,
                    in_str,
                    false,
                ));
                assert(repair_state(seq!['\\', e] + r, in_str, false) == seq!['\\'] + repair_state(
                    seq![e] + r,
                    in_str,
                    true,
                ));
                assert(seq!['\\'] + (seq![e] + r) =~= seq!['\\', e] + r);
            }
        } else {
            let r = repair_state(rest, in_str, false);
            lemma_repair_state_idempotent(rest, in_str, false);
            assert((seq![c] + r).drop_first() =~= r);
        }
    }
}

/// Re-running the repair on its own output is a no-op.
pub proof fn lemma_repair_idempotent(s: Seq<char>)
    ensures
        spec_repair(spec_repair(s)) == spec_repair(s),
{
    lemma_repair_state_idempotent(s, false, false);
}

/// Escape raw control characters found inside string spans of near-valid
/// JSON so that the text becomes parseable; characters outside strings are
/// kept as they are, and control characters other than newline, carriage
/// return and tab inside strings are dropped.
pub fn escape_json_control_chars(input: &str) -> (r: String)
    ensures
        r@ == spec_repair(input@),
{
    let v = str_chars(input);
    let out = repair_chars(&v);
    chars_to_string(&out)
}

/// Repair over characters; see `escape_json_control_chars`.
pub fn repair_chars(v: &Vec<char>) -> (out: Vec<char>)
    ensures
        out@ == spec_repair(v@),
{
    let n = v.len();
    let mut out: Vec<char> = Vec::new();
    let mut in_str: bool = false;
    let mut esc: bool = false;
    let mut i: usize = 0;
    proof {
        assert(v@.skip(0) =~= v@);
        assert(out@ + repair_state(v@, false, false) =~= repair_state(v@, false, false));
    }
    while i < n
        invariant
            i <= n,
            n == v@.len(),
            spec_repair(v@) == out@ + repair_state(v@.skip(i as int), in_str, esc),
        decreases n - i,
    {
        let c = v[i];
        let ghost tail = v@.skip(i as int);
        proof {
            assert(tail[0] == v@[i as int]);
            assert(tail.drop_first() =~= v@.skip(i + 1 as int));
        }
        let ghost out0 = out@;
        if esc {
            out.push(c);
            esc = false;
            proof {
                assert(out@ =~= out0 + seq![c]);
                assert((out0 + seq![c]) + repair_state(v@.skip(i + 1 as int), in_str, false)
                    =~= out0 + (seq![c] + repair_state(v@.skip(i + 1 as int), in_str, false)));
            }
        } else if c == '\\' {
            out.push(c);
            esc = true;
            proof {
                assert(out@ =~= out0 + seq![c]);
                assert((out0 + seq![c]) + repair_state(v@.skip(i + 1 as int), in_str, true) =~= out0
                    + (seq![c] + repair_state(v@.skip(i + 1 as int), in_str, true)));
            }
        } else if c == '"' {
            out.push(c);
            in_str = !in_str;
            proof {
                assert(out@ =~= out0 + seq![c]);
                assert((out0 + seq![c]) + repair_state(v@.skip(i + 1 as int), in_str, false) =~= out0
                    + (seq![c] + repair_state(v@.skip(i + 1 as int), in_str, false)));
            }
        } else if in_str && ctl_char(c) {
            if c == '\n' {
                out.push('\\');
                out.push('n');
                proof {
                    assert(out@ =~= out0 + seq!['\\', 'n']);
                    assert((out0 + seq!['\\', 'n']) + repair_state(
                        v@.skip(i + 1 as int),
                        in_str,
                        false,
                    ) =~= out0 + (seq!['\\', 'n'] + repair_state(
                        v@.skip(i + 1 as int),
                        in_str,
                        false,
                    )));
                }
            } else if c == '\r' {
                out.push('\\');
                out.push('r');
                proof {
                    assert(out@ =~= out0 + seq!['\\', 'r']);
                    assert((out0 + seq!['\\', 'r']) + repair_state(
                        v@.skip(i + 1 as int),
                        in_str,
                        false,
                    ) =~= out0 + (seq!['\\', 'r'] + repair_state(
                        v@.skip(i + 1 as int),
                        in_str,
                        false,
                    )));
                }
            } else if c == '\t' {
                out.push('\\');
                out.push('t');
                proof {
                    assert(out@ =~= out0 + seq!['\\', 't']);
                    assert((out0 + seq!['\\', 't']) + repair_state(
                        v@.skip(i + 1 as int),
                        in_str,
                        false,
                    ) =~= out0 + (seq!['\\', 't'] + repair_state(
                        v@.skip(i + 1 as int),
                        in_str,
                        false,
                    )));
                }
            }
        } else {
            out.push(c);
            proof {
                assert(out@ =~= out0 + seq![c]);
                assert((out0 + seq![c]) + repair_state(v@.skip(i + 1 as int), in_str, false) =~= out0
                    + (seq![c] + repair_state(v@.skip(i + 1 as int), in_str, false)));
            }
        }
        i += 1;
    }
    proof {
        assert(v@.skip(n as int) =~= Seq::<char>::empty());
        assert(out@ + Seq::<char>::empty() =~= out@);
    }
    out
}

} // verus!
