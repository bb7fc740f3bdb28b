//! Character classes and small string utilities shared by the scanners:
//! whitespace and control-character predicates, hex digits, conversion
//! between `&str` and `Vec<char>`, substring search and trimming.

use vstd::prelude::*;
use vstd::utf8::is_scalar;

verus! {

/// The Unicode `White_Space` characters, as `char::is_whitespace` classifies them.
pub open spec fn is_ws_char(c: char) -> bool {
    let v = c as u32;
    (0x9 <= v && v <= 0xd) || v == 0x20 || v == 0x85 || v == 0xa0 || v == 0x1680 || (0x2000 <= v
        && v <= 0x200a) || v == 0x2028 || v == 0x2029 || v == 0x202f || v == 0x205f || v == 0x3000
}

/// Executable form of `is_ws_char`.
pub fn ws_char(c: char) -> (r: bool)
    ensures
        r == is_ws_char(c),
{
    let v = c as u32;
    (0x9 <= v && v <= 0xd) || v == 0x20 || v == 0x85 || v == 0xa0 || v == 0x1680 || (0x2000 <= v
        && v <= 0x200a) || v == 0x2028 || v == 0x2029 || v == 0x202f || v == 0x205f || v == 0x3000
}

/// The Unicode control characters (category Cc), as `char::is_control`
/// classifies them.
pub open spec fn is_ctl_char(c: char) -> bool {
    let v = c as u32;
    v < 0x20 || (0x7f <= v && v <= 0x9f)
}

/// Executable form of `is_ctl_char`.
pub fn ctl_char(c: char) -> (r: bool)
    ensures
        r == is_ctl_char(c),
{
    let v = c as u32;
    v < 0x20 || (0x7f <= v && v <= 0x9f)
}

/// Value of a hexadecimal digit, or `None` for any other character.
pub open spec fn hex_digit_val(c: char) -> Option<u32> {
    let v = c as u32;
    if 0x30 <= v && v <= 0x39 {
        Some((v - 0x30) as u32)
    } else if 0x61 <= v && v <= 0x66 {
        Some((v - 0x61 + 10) as u32)
    } else if 0x41 <= v && v <= 0x46 {
        Some((v - 0x41 + 10) as u32)
    } else {
        None
    }
}

/// Executable form of `hex_digit_val`.
pub fn hex_val(c: char) -> (r: Option<u32>)
    ensures
        r == hex_digit_val(c),
{
    let v = c as u32;
    if 0x30 <= v && v <= 0x39 {
        Some(v - 0x30)
    } else if 0x61 <= v && v <= 0x66 {
        Some(v - 0x61 + 10)
    } else if 0x41 <= v && v <= 0x46 {
        Some(v - 0x41 + 10)
    } else {
        None
    }
}

/// The characters of `s`, in order, as a vector.
pub fn str_chars(s: &str) -> (v: Vec<char>)
    ensures
        v@ == s@,
{
    let n = s.unicode_len();
    let mut v: Vec<char> = Vec::new();
    let mut i: usize = 0;
    while i < n
        invariant
            i <= n,
            n == s@.len(),
            v@ == s@.take(i as int),
        decreases n - i,
    {
        let c = s.get_char(i);
        v.push(c);
        proof {
            assert(s@.take(i + 1 as int) =~= s@.take(i as int).push(s@[i as int]));
        }
        i += 1;
    }
    proof {
        assert(s@.take(n as int) =~= s@);
    }
    v
}

/// Relies on `String`'s `FromIterator<char>` implementation: collecting
/// chars yields the string holding exactly those characters in order.
#[verifier::external_body]
pub(crate) fn chars_to_string(v: &Vec<char>) -> (r: String)
    ensures
        r@ == v@,
{
    v.iter().collect()
}

/// Relies on `char::from_u32`: it returns `Some` exactly for valid Unicode
/// scalar values, and the resulting char has the given code.
#[verifier::external_body]
pub(crate) fn char_from_code(v: u32) -> (c: char)
    requires
        is_scalar(v),
    ensures
        c as u32 == v,
{
    char::from_u32(v).unwrap()
}

/// `pat` occurs in `s` starting at position `i`.
pub open spec fn match_at(s: Seq<char>, pat: Seq<char>, i: int) -> bool {
    &&& 0 <= i
    &&& i + pat.len() <= s.len()
    &&& s.subrange(i, i + pat.len()) == pat
}

/// Executable check for `match_at`.
pub fn pat_match_at(v: &Vec<char>, pat: &Vec<char>, i: usize) -> (r: bool)
    ensures
        r == match_at(v@, pat@, i as int),
{
    if i > v.len() || pat.len() > v.len() - i {
        proof {
            assert(!match_at(v@, pat@, i as int));
        }
        return false;
    }
    let mut j: usize = 0;
    while j < pat.len()
        invariant
            j <= pat.len(),
            i + pat.len() <= v.len(),
            forall|k: int| 0 <= k < j ==> v@[i + k] == pat@[k],
        decreases pat.len() - j,
    {
        if v[i + j] != pat[j] {
            proof {
                assert(v@.subrange(i as int, i + pat@.len())[j as int] == v@[i + j]);
            }
            return false;
        }
        j += 1;
    }
    proof {
        assert(v@.subrange(i as int, i + pat@.len()) =~= pat@);
    }
    true
}

/// Executable equality of two character vectors.
pub fn chars_eq(v: &Vec<char>, w: &Vec<char>) -> (r: bool)
    ensures
        r == (v@ == w@),
{
    if v.len() != w.len() {
        return false;
    }
    let r = pat_match_at(v, w, 0);
    proof {
        if r {
            assert(v@.subrange(0, w@.len() as int) =~= v@);
        } else {
            if v@ == w@ {
                assert(v@.subrange(0, w@.len() as int) =~= w@);
            }
        }
    }
    r
}

/// Position of the first occurrence of `pat` in `s` at or after `i`,
/// or `None` if there is none.
pub open spec fn find_from(s: Seq<char>, pat: Seq<char>, i: int) -> Option<int>
    decreases s.len() - i + 1,
    when 0 <= i
{
    if i + pat.len() > s.len() {
        None
    } else if match_at(s, pat, i) {
        Some(i)
    } else {
        find_from(s, pat, i + 1)
    }
}

/// Executable search for the first occurrence of `pat` in `v`.
pub fn find_pattern(v: &Vec<char>, pat: &Vec<char>) -> (r: Option<usize>)
    ensures
        match r {
            Some(p) => find_from(v@, pat@, 0) == Some(p as int),
            None => find_from(v@, pat@, 0) is None,
        },
{
    if pat.len() == 0 {
        proof {
            assert(v@.subrange(0, 0) =~= pat@);
        }
        return Some(0);
    }
    let mut i: usize = 0;
    while pat.len() <= v.len() - i
        invariant
            i <= v.len(),
            pat@.len() >= 1,
            find_from(v@, pat@, 0) == find_from(v@, pat@, i as int),
        decreases v.len() - i,
    {
        if pat_match_at(v, pat, i) {
            return Some(i);
        }
        i += 1;
    }
    None
}

/// A found occurrence lies at or after the start of the search and matches.
pub proof fn lemma_find_from_found(s: Seq<char>, pat: Seq<char>, i: int, j: int)
    requires
        0 <= i,
        find_from(s, pat, i) == Some(j),
    ensures
        i <= j,
        match_at(s, pat, j),
    decreases s.len() - i + 1,
{
    if i + pat.len() > s.len() {
    } else if match_at(s, pat, i) {
    } else {
        lemma_find_from_found(s, pat, i + 1, j);
    }
}

/// First position at or after `i` holding a character that is not whitespace,
/// or the length of `s` if all of the rest is whitespace.
pub open spec fn skip_ws(s: Seq<char>, i: int) -> int
    decreases s.len() - i,
    when 0 <= i
{
    if i >= s.len() {
        s.len() as int
    } else if is_ws_char(s[i]) {
        skip_ws(s, i + 1)
    } else {
        i
    }
}

/// Executable form of `skip_ws`.
pub fn skip_ws_from(v: &Vec<char>, i: usize) -> (r: usize)
    requires
        i <= v.len(),
    ensures
        r as int == skip_ws(v@, i as int),
        i <= r <= v.len(),
{
    let mut j: usize = i;
    while j < v.len() && ws_char(v[j])
        invariant
            i <= j <= v.len(),
            skip_ws(v@, i as int) == skip_ws(v@, j as int),
        decreases v.len() - j,
    {
        j += 1;
    }
    j
}

/// One past the last position before `i` holding a character that is not
/// whitespace, or `0` if all of the prefix is whitespace.
pub open spec fn rskip_ws(s: Seq<char>, i: int) -> int
    decreases i,
    when i <= s.len()
{
    if i <= 0 {
        0
    } else if is_ws_char(s[i - 1]) {
        rskip_ws(s, i - 1)
    } else {
        i
    }
}

/// `s` with leading and trailing whitespace removed, as `str::trim` removes it.
pub open spec fn spec_trim(s: Seq<char>) -> Seq<char> {
    let a = skip_ws(s, 0);
    let b = rskip_ws(s, s.len() as int);
    if a <= b {
        s.subrange(a, b)
    } else {
        Seq::empty()
    }
}

/// The characters of `v` between `from` and `to`.
pub fn sub_chars(v: &Vec<char>, from: usize, to: usize) -> (r: Vec<char>)
    requires
        from <= to <= v.len(),
    ensures
        r@ == v@.subrange(from as int, to as int),
{
    let mut r: Vec<char> = Vec::new();
    let mut i: usize = from;
    while i < to
        invariant
            from <= i <= to <= v.len(),
            r@ == v@.subrange(from as int, i as int),
        decreases to - i,
    {
        let c = v[i];
        r.push(c);
        proof {
            assert(v@.subrange(from as int, i + 1 as int) =~= v@.subrange(
                from as int,
                i as int,
            ).push(v@[i as int]));
        }
        i += 1;
    }
    r
}

/// `v` with leading and trailing whitespace removed.
pub fn trim_chars(v: &Vec<char>) -> (r: Vec<char>)
    ensures
        r@ == spec_trim(v@),
{
    let a = skip_ws_from(v, 0);
    let mut b: usize = v.len();
    while b > 0 && ws_char(v[b - 1])
        invariant
            b <= v.len(),
            rskip_ws(v@, v@.len() as int) == rskip_ws(v@, b as int),
        decreases b,
    {
        b -= 1;
    }
    if a <= b {
        sub_chars(v, a, b)
    } else {
        let r: Vec<char> = Vec::new();
        r
    }
}

} // verus!
