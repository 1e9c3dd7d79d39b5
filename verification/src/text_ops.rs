//! Operations on character vectors used by the editing commands.

use vstd::prelude::*;
use crate::text::{string_of, chars_of};

verus! {

/// `s` with `[a, b)` replaced by `r`.
pub fn splice_chars(s: &Vec<char>, a: usize, b: usize, r: &[char]) -> (out: Vec<char>)
    requires
        a <= b <= s@.len(),
    ensures
        out@ == s@.take(a as int) + r@ + s@.skip(b as int),
{
    let mut out: Vec<char> = Vec::new();
    let mut i: usize = 0;
    while i < a
        invariant
            i <= a <= b <= s@.len(),
            out@ == s@.take(i as int),
        decreases a - i,
    {
        out.push(s[i]);
        i = i + 1;
        assert(out@ =~= s@.take(i as int));
    }
    let mut j: usize = 0;
    while j < r.len()
        invariant
            j <= r@.len(),
            out@ == s@.take(a as int) + r@.take(j as int),
        decreases r@.len() - j,
    {
        out.push(r[j]);
        j = j + 1;
        assert(out@ =~= s@.take(a as int) + r@.take(j as int));
    }
    assert(r@.take(r@.len() as int) =~= r@);
    let mut k: usize = b;
    while k < s.len()
        invariant
            b <= k <= s@.len(),
            out@ == s@.take(a as int) + r@ + s@.subrange(b as int, k as int),
        decreases s@.len() - k,
    {
        out.push(s[k]);
        k = k + 1;
        assert(out@ =~= s@.take(a as int) + r@ + s@.subrange(b as int, k as int));
    }
    assert(s@.subrange(b as int, s@.len() as int) =~= s@.skip(b as int));
    out
}

/// The string `s` with `[a, b)` replaced by `r`.
pub fn splice_string(s: &Vec<char>, a: usize, b: usize, r: &[char]) -> (out: String)
    requires
        a <= b <= s@.len(),
    ensures
        out@ == s@.take(a as int) + r@ + s@.skip(b as int),
{
    let v = splice_chars(s, a, b, r);
    string_of(v.as_slice())
}

/// A copy of a list of strings.
pub fn clone_strings(v: &Vec<String>) -> (out: Vec<String>)
    ensures
        out@.map_values(|s: String| s@) == v@.map_values(|s: String| s@),
        out@.len() == v@.len(),
{
    let mut out: Vec<String> = Vec::new();
    let mut i: usize = 0;
    while i < v.len()
        invariant
            i <= v@.len(),
            out@.len() == i,
            forall|k: int| 0 <= k < i ==> (#[trigger] out@[k])@ == v@[k]@,
        decreases v@.len() - i,
    {
        let s = v[i].clone();
        out.push(s);
        i = i + 1;
    }
    assert(out@.map_values(|s: String| s@) =~= v@.map_values(|s: String| s@));
    out
}

/// Whether `needle` occurs in `hay` at offset `m`.
pub fn occurs_at_exec(hay: &Vec<char>, needle: &Vec<char>, m: usize) -> (r: bool)
    ensures
        r == crate::document::model::occurs_at(hay@, needle@, m as int),
{
    if m > hay.len() || needle.len() > hay.len() - m {
        return false;
    }
    let hl = hay.len();
    let mut i: usize = 0;
    while i < needle.len()
        invariant
            hl == hay@.len(),
            m + needle@.len() <= hay@.len(),
            i <= needle@.len(),
            forall|k: int| 0 <= k < i ==> hay@[m + k] == needle@[k],
        decreases needle@.len() - i,
    {
        if hay[m + i] != needle[i] {
            assert(hay@.subrange(m as int, m + needle@.len())[i as int] != needle@[i as int]);
            return false;
        }
        i = i + 1;
    }
    assert(hay@.subrange(m as int, m + needle@.len()) =~= needle@);
    true
}

/// First occurrence of `needle` in `hay` at an offset `>= from`.
pub fn first_match_exec(hay: &Vec<char>, needle: &Vec<char>, from: usize) -> (r: Option<usize>)
    ensures
        r matches Some(m) ==> crate::document::model::first_match_from(hay@, needle@, from as int) == Some(m as int)
            && from <= m <= hay@.len(),
        r is None <==> crate::document::model::first_match_from(hay@, needle@, from as int) is None,
{
    proof {
        lemma_first_match_bound(hay@, needle@, from as int);
    }
    let mut m = from;
    while m <= hay.len() && needle.len() <= hay.len() - m
        invariant
            from <= m,
            crate::document::model::first_match_from(hay@, needle@, from as int)
                == crate::document::model::first_match_from(hay@, needle@, m as int),
        decreases hay@.len() + 1 - m,
    {
        if occurs_at_exec(hay, needle, m) {
            return Some(m);
        }
        if m >= hay.len() {
            return None;
        }
        m = m + 1;
    }
    None
}

pub proof fn lemma_first_match_bound(hay: Seq<char>, needle: Seq<char>, from: int)
    ensures
        crate::document::model::first_match_from(hay, needle, from) matches Some(m) ==> from <= m && m <= hay.len(),
    decreases hay.len() - from,
{
    if !(from < 0 || from + needle.len() > hay.len()) && !crate::document::model::occurs_at(hay, needle, from)
        && from < hay.len() {
        lemma_first_match_bound(hay, needle, from + 1);
    }
}

/// The characters of a line given by index.
pub fn line_chars(lines: &Vec<String>, i: usize) -> (r: Vec<char>)
    requires
        i < lines@.len(),
    ensures
        r@ == lines@[i as int]@,
{
    chars_of(lines[i].as_str())
}

} // verus!
