//! Characters, strings and grapheme clusters.
//!
//! Text is modelled as `Seq<char>`. A line is split into grapheme clusters by
//! the `unicode-segmentation` crate; the library names that split
//! (`grapheme_clusters`) and relies only on the two facts its source shows:
//! the clusters are non-empty and, concatenated, give back the line.

use vstd::prelude::*;
use unicode_segmentation::UnicodeSegmentation;

verus! {

/// `String::push` appends one character.
pub assume_specification[ String::push ](s: &mut String, ch: char)
    ensures
        final(s)@ == old(s)@.push(ch),
;

/// The concatenation of a sequence of character sequences.
pub open spec fn concat_all(gs: Seq<Seq<char>>) -> Seq<char>
    decreases gs.len(),
{
    if gs.len() == 0 {
        Seq::empty()
    } else {
        concat_all(gs.drop_last()) + gs.last()
    }
}

/// Character offset at which cluster `i` starts: the total length of the
/// clusters before it.
pub open spec fn gstart(gs: Seq<Seq<char>>, i: int) -> int
    decreases i,
{
    if i <= 0 {
        0
    } else {
        gstart(gs, i - 1) + gs[i - 1].len()
    }
}

/// The extended grapheme clusters of a string, as `unicode-segmentation`
/// computes them (UAX #29).
pub uninterp spec fn grapheme_clusters(s: Seq<char>) -> Seq<Seq<char>>;

/// Calls `UnicodeSegmentation::graphemes(s, true)`. Claims: the result is the
/// named split of `s`, every cluster is non-empty, and the clusters
/// concatenate to `s` (the iterator hands out consecutive slices
/// `s[start..next]` from offset 0 to the end).
#[verifier::external_body]
fn graphemes_of(s: &str) -> (r: Vec<String>)
    ensures
        r@.map_values(|g: String| g@) == grapheme_clusters(s@),
        forall|i: int| 0 <= i < r@.len() ==> (#[trigger] r@[i])@.len() > 0,
        concat_all(r@.map_values(|g: String| g@)) == s@,
{
    s.graphemes(true).map(String::from).collect()
}

/// Number of grapheme clusters in a line.
pub open spec fn gcount(line: Seq<char>) -> int {
    grapheme_clusters(line).len() as int
}

/// Character offset of the start of cluster `i` of a line.
pub open spec fn gstart_of(line: Seq<char>, i: int) -> int {
    gstart(grapheme_clusters(line), i)
}

/// Character offset of grapheme column `col`; a column at or past the end
/// of the line maps to the end of the line.
pub open spec fn col_offset(line: Seq<char>, col: int) -> int {
    if 0 <= col < gcount(line) {
        gstart_of(line, col)
    } else {
        line.len() as int
    }
}

/// The number of clusters of a line that start before character offset `k`.
pub open spec fn clusters_before(line: Seq<char>, k: int) -> int
    decreases gcount(line),
{
    count_starts_before(grapheme_clusters(line), gcount(line), k)
}

/// The number of `i < n` with `gstart(gs, i) < k`.
pub open spec fn count_starts_before(gs: Seq<Seq<char>>, n: int, k: int) -> int
    decreases n,
{
    if n <= 0 {
        0
    } else {
        count_starts_before(gs, n - 1, k) + if gstart(gs, n - 1) < k { 1int } else { 0int }
    }
}

/// Facts about a split into non-empty clusters.
pub proof fn lemma_gstart_facts(gs: Seq<Seq<char>>, i: int, j: int)
    requires
        forall|k: int| 0 <= k < gs.len() ==> (#[trigger] gs[k]).len() > 0,
        0 <= i <= j <= gs.len(),
    ensures
        0 <= gstart(gs, i) <= gstart(gs, j) <= concat_all(gs).len(),
        i < j ==> gstart(gs, i) < gstart(gs, j),
    decreases j - i,
{
    lemma_gstart_total(gs);
    lemma_gstart_nonneg(gs, i);
    lemma_gstart_upto_total(gs, j);
    if i < j {
        lemma_gstart_facts(gs, i, j - 1);
    }
}

pub(crate) proof fn lemma_gstart_nonneg(gs: Seq<Seq<char>>, i: int)
    ensures
        gstart(gs, i) >= 0,
    decreases i,
{
    if i > 0 {
        lemma_gstart_nonneg(gs, i - 1);
    }
}

proof fn lemma_gstart_upto_total(gs: Seq<Seq<char>>, j: int)
    requires
        0 <= j <= gs.len(),
    ensures
        gstart(gs, j) <= gstart(gs, gs.len() as int),
    decreases gs.len() - j,
{
    if j < gs.len() {
        lemma_gstart_upto_total(gs, j + 1);
    }
}

/// The start of the position past the last cluster is the total length.
pub proof fn lemma_gstart_total(gs: Seq<Seq<char>>)
    ensures
        gstart(gs, gs.len() as int) == concat_all(gs).len(),
    decreases gs.len(),
{
    if gs.len() > 0 {
        lemma_gstart_total(gs.drop_last());
        lemma_gstart_prefix_general(gs, gs.len() - 1, gs.len() - 1);
        assert(gs.take(gs.len() - 1) =~= gs.drop_last());
    }
}

proof fn lemma_gstart_prefix_general(gs: Seq<Seq<char>>, n: int, i: int)
    requires
        0 <= i <= n <= gs.len(),
    ensures
        gstart(gs, i) == gstart(gs.take(n), i),
    decreases i,
{
    if i > 0 {
        lemma_gstart_prefix_general(gs, n, i - 1);
    }
}

/// A line's characters together with the starting offsets of its clusters.
pub struct LineClusters {
    pub chars: Vec<char>,
    pub starts: Vec<usize>,
    pub clusters: Vec<Vec<char>>,
}

impl LineClusters {
    /// The offsets are those of the named clusters of `chars`.
    pub open spec fn valid(&self) -> bool {
        &&& self.starts@.len() == gcount(self.chars@)
        &&& self.clusters@.len() == gcount(self.chars@)
        &&& forall|i: int| 0 <= i < self.clusters@.len() ==> (#[trigger] self.clusters@[i])@ == grapheme_clusters(self.chars@)[i]
        &&& forall|i: int| 0 <= i < self.starts@.len() ==> #[trigger] self.starts@[i] == gstart_of(self.chars@, i)
        &&& forall|i: int| 0 <= i < gcount(self.chars@) ==> (#[trigger] grapheme_clusters(self.chars@)[i]).len() > 0
        &&& concat_all(grapheme_clusters(self.chars@)) == self.chars@
    }

    /// Character offset of grapheme column `col`.
    pub fn offset(&self, col: usize) -> (r: usize)
        requires
            self.valid(),
        ensures
            r == col_offset(self.chars@, col as int),
            r <= self.chars@.len(),
    {
        proof {
            lemma_offsets(self.chars@);
            assert(0 <= col_offset(self.chars@, col as int) <= self.chars@.len());
        }
        if col < self.starts.len() {
            self.starts[col]
        } else {
            self.chars.len()
        }
    }

    /// Number of clusters.
    pub fn count(&self) -> (r: usize)
        requires
            self.valid(),
        ensures
            r == gcount(self.chars@),
    {
        self.starts.len()
    }
}

/// Offsets of columns lie within the line and grow with the column.
pub proof fn lemma_offsets(line: Seq<char>)
    requires
        forall|i: int| 0 <= i < gcount(line) ==> (#[trigger] grapheme_clusters(line)[i]).len() > 0,
        concat_all(grapheme_clusters(line)) == line,
    ensures
        forall|c: int| #![trigger col_offset(line, c)] 0 <= col_offset(line, c) <= line.len(),
        forall|c1: int, c2: int| #![trigger col_offset(line, c1), col_offset(line, c2)]
            0 <= c1 <= c2 ==> col_offset(line, c1) <= col_offset(line, c2),
        forall|c1: int, c2: int| #![trigger col_offset(line, c1), col_offset(line, c2)]
            0 <= c1 < c2 <= gcount(line) ==> col_offset(line, c1) < col_offset(line, c2),
        col_offset(line, gcount(line)) == line.len(),
        forall|c: int| #![trigger col_offset(line, c)] 0 <= c < gcount(line) ==> col_offset(line, c) == gstart_of(line, c),
{
    let gs = grapheme_clusters(line);
    lemma_gstart_total(gs);
    assert forall|c: int| #![trigger col_offset(line, c)] 0 <= col_offset(line, c) <= line.len() by {
        if 0 <= c < gs.len() {
            lemma_gstart_facts(gs, c, gs.len() as int);
        }
    }
    assert forall|c1: int, c2: int| #![trigger col_offset(line, c1), col_offset(line, c2)]
        0 <= c1 <= c2 implies col_offset(line, c1) <= col_offset(line, c2) by {
        if c2 < gs.len() {
            lemma_gstart_facts(gs, c1, c2);
        } else if c1 < gs.len() {
            lemma_gstart_facts(gs, c1, gs.len() as int);
        }
    }
    assert forall|c1: int, c2: int| #![trigger col_offset(line, c1), col_offset(line, c2)]
        0 <= c1 < c2 <= gcount(line) implies col_offset(line, c1) < col_offset(line, c2) by {
        if c2 < gs.len() {
            lemma_gstart_facts(gs, c1, c2);
        } else {
            lemma_gstart_facts(gs, c1, gs.len() as int);
        }
    }
}

/// The characters of a string.
pub fn chars_of(s: &str) -> (r: Vec<char>)
    ensures
        r@ == s@,
{
    let mut r: Vec<char> = Vec::new();
    for c in it: s.chars()
        invariant
            it.seq() == s@,
            r@ == s@.take(it.index() as int),
    {
        r.push(c);
        assert(s@.take(it.index() as int + 1) =~= r@);
    }
    assert(s@.take(s@.len() as int) =~= s@);
    r
}

/// A string made of the given characters.
pub fn string_of(v: &[char]) -> (r: String)
    ensures
        r@ == v@,
{
    let mut r = String::new();
    let mut i: usize = 0;
    while i < v.len()
        invariant
            i <= v@.len(),
            r@ == v@.take(i as int),
        decreases v@.len() - i,
    {
        r.push(v[i]);
        i = i + 1;
        assert(r@ =~= v@.take(i as int));
    }
    assert(v@.take(v@.len() as int) =~= v@);
    r
}

/// Splits a string into its characters and the starts of its clusters.
pub fn line_clusters(s: &str) -> (r: LineClusters)
    ensures
        r.valid(),
        r.chars@ == s@,
{
    let gs = graphemes_of(s);
    let chars = chars_of(s);
    let ghost g = gs@.map_values(|x: String| x@);
    let total = chars.len();
    let mut starts: Vec<usize> = Vec::new();
    let mut clusters: Vec<Vec<char>> = Vec::new();
    let mut pos: usize = 0;
    let mut i: usize = 0;
    proof {
        lemma_gstart_total(g);
    }
    while i < gs.len()
        invariant
            g == gs@.map_values(|x: String| x@),
            g == grapheme_clusters(s@),
            concat_all(g) == s@,
            forall|k: int| 0 <= k < gs@.len() ==> (#[trigger] gs@[k])@.len() > 0,
            i <= gs@.len(),
            starts@.len() == i,
            clusters@.len() == i,
            forall|k: int| 0 <= k < i ==> (#[trigger] clusters@[k])@ == g[k],
            pos == gstart(g, i as int),
            forall|k: int| 0 <= k < i ==> #[trigger] starts@[k] == gstart(g, k),
            chars@ == s@,
            total == s@.len(),
            gstart(g, g.len() as int) == s@.len(),
        decreases gs@.len() - i,
    {
        starts.push(pos);
        let cl = chars_of(gs[i].as_str());
        clusters.push(cl);
        let n = gs[i].unicode_len();
        proof {
            assert(g[i as int] == gs@[i as int]@);
            assert forall|k: int| 0 <= k < g.len() implies (#[trigger] g[k]).len() > 0 by {
                assert(g[k] == gs@[k]@);
            }
            lemma_gstart_facts(g, i as int + 1, g.len() as int);
            assert(s@.len() == chars@.len());
            assert(gstart(g, i as int + 1) == pos + n);
            assert(pos + n <= chars@.len());
        }
        pos = pos + n;
        i = i + 1;
    }
    let r = LineClusters { chars, starts, clusters };
    proof {
        assert forall|k: int| 0 <= k < gcount(s@) implies (#[trigger] grapheme_clusters(s@)[k]).len() > 0 by {
            assert(g[k] == gs@[k]@);
        }
    }
    r
}

} // verus!

verus! {

/// Whether a character is alphabetic or numeric, as `char::is_alphanumeric`
/// decides from the Unicode tables.
pub uninterp spec fn alphanumeric(c: char) -> bool;

/// Whether a character has the Unicode `White_Space` property, as
/// `char::is_whitespace` decides.
pub uninterp spec fn white_space(c: char) -> bool;

/// Calls `char::is_alphanumeric`; the result is the named property of `c`.
#[verifier::external_body]
pub(crate) fn char_is_alphanumeric(c: char) -> (r: bool)
    ensures
        r == alphanumeric(c),
{
    c.is_alphanumeric()
}

/// Whether a character is whitespace: for ASCII the space and U+0009 to
/// U+000D, beyond it the `White_Space` property.
pub open spec fn is_ws(c: char) -> bool {
    if (c as u32) < 0x80 {
        c == ' ' || ('\u{9}' <= c && c <= '\u{d}')
    } else {
        white_space(c)
    }
}

/// Calls `char::is_whitespace`; the result is the named property of `c`.
/// Among ASCII characters the `White_Space` property holds of the space
/// and of U+0009 to U+000D (tab, line feed, vertical tab, form feed,
/// carriage return) only.
#[verifier::external_body]
pub(crate) fn char_is_whitespace(c: char) -> (r: bool)
    ensures
        r == white_space(c),
        (c as u32) < 0x80 ==> (r <==> (c == ' ' || ('\u{9}' <= c && c <= '\u{d}'))),
        r == is_ws(c),
{
    c.is_whitespace()
}

/// Number of bytes of the UTF-8 encoding of a character.
pub open spec fn utf8_len(c: char) -> int {
    if (c as u32) < 0x80 {
        1
    } else if (c as u32) < 0x800 {
        2
    } else if (c as u32) < 0x10000 {
        3
    } else {
        4
    }
}

pub fn char_utf8_len(c: char) -> (r: usize)
    ensures
        r == utf8_len(c),
{
    let v = c as u32;
    if v < 0x80 {
        1
    } else if v < 0x800 {
        2
    } else if v < 0x10000 {
        3
    } else {
        4
    }
}

/// A trailing carriage return removed.
pub open spec fn strip_cr(s: Seq<char>) -> Seq<char> {
    if s.len() > 0 && s.last() == '\r' {
        s.drop_last()
    } else {
        s
    }
}

/// Splitting `s` into lines as `str::lines` does, `cur` being the part of
/// the current line read so far: lines end at `\n` or `\r\n`, and a final
/// line ending adds no empty line.
pub open spec fn lines_acc(s: Seq<char>, cur: Seq<char>) -> Seq<Seq<char>>
    decreases s.len(),
{
    if s.len() == 0 {
        if cur.len() == 0 {
            Seq::empty()
        } else {
            seq![cur]
        }
    } else if s[0] == '\n' {
        seq![strip_cr(cur)] + lines_acc(s.drop_first(), Seq::empty())
    } else {
        lines_acc(s.drop_first(), cur.push(s[0]))
    }
}

/// The lines of a text.
pub open spec fn text_lines(s: Seq<char>) -> Seq<Seq<char>> {
    lines_acc(s, Seq::empty())
}

proof fn lemma_lines_acc_len(s: Seq<char>, cur: Seq<char>)
    ensures
        lines_acc(s, cur).len() <= s.len() + 1,
        s.len() > 0 || cur.len() > 0 ==> lines_acc(s, cur).len() >= 1,
    decreases s.len(),
{
    if s.len() > 0 {
        if s[0] == '\n' {
            lemma_lines_acc_len(s.drop_first(), Seq::empty());
        } else {
            lemma_lines_acc_len(s.drop_first(), cur.push(s[0]));
        }
    }
}

/// The lines of `text`, as `str::lines` splits it.
pub fn split_lines(text: &str) -> (r: Vec<String>)
    ensures
        r@.map_values(|l: String| l@) == text_lines(text@),
        r@.len() <= text@.len() + 1,
        text@.len() > 0 ==> r@.len() >= 1,
{
    let t = chars_of(text);
    let mut out: Vec<String> = Vec::new();
    let mut cur: Vec<char> = Vec::new();
    let mut i: usize = 0;
    proof {
        assert(t@.skip(0) =~= t@);
        lemma_lines_acc_len(t@, Seq::empty());
    }
    while i < t.len()
        invariant
            t@ == text@,
            i <= t@.len(),
            out@.map_values(|l: String| l@) + lines_acc(t@.skip(i as int), cur@) == text_lines(text@),
        decreases t@.len() - i,
    {
        let c = t[i];
        proof {
            assert(t@.skip(i as int).drop_first() =~= t@.skip(i as int + 1));
            assert(t@.skip(i as int)[0] == c);
        }
        let ghost cur_before = cur@;
        if c == '\n' {
            let mut piece = cur;
            if piece.len() > 0 && piece[piece.len() - 1] == '\r' {
                piece.pop();
            }
            let ghost old_out = out@.map_values(|l: String| l@);
            let line = string_of(piece.as_slice());
            out.push(line);
            proof {
                assert(piece@ == strip_cr(cur_before));
                assert(out@.map_values(|l: String| l@) =~= old_out.push(strip_cr(cur_before)));
                assert(lines_acc(t@.skip(i as int), cur_before)
                    == seq![strip_cr(cur_before)] + lines_acc(t@.skip(i as int + 1), Seq::empty()));
            }
            cur = Vec::new();
            proof {
                assert(cur@ =~= Seq::<char>::empty());
                assert(out@.map_values(|l: String| l@) + lines_acc(t@.skip(i as int + 1), cur@)
                    =~= old_out + lines_acc(t@.skip(i as int), cur_before));
            }
        } else {
            cur.push(c);
            proof {
                assert(lines_acc(t@.skip(i as int), cur_before) == lines_acc(t@.skip(i as int + 1), cur@));
            }
        }
        i = i + 1;
    }
    if cur.len() > 0 {
        let line = string_of(cur.as_slice());
        out.push(line);
    }
    proof {
        assert(t@.skip(t@.len() as int) =~= Seq::<char>::empty());
        assert(out@.map_values(|l: String| l@) =~= text_lines(text@));
        lemma_lines_acc_len(text@, Seq::empty());
    }
    out
}


/// The decimal digit for `d` (below 10).
pub open spec fn digit_char(d: int) -> char {
    if d == 0 { '0' } else if d == 1 { '1' } else if d == 2 { '2' } else if d == 3 { '3' }
    else if d == 4 { '4' } else if d == 5 { '5' } else if d == 6 { '6' } else if d == 7 { '7' }
    else if d == 8 { '8' } else { '9' }
}

/// `n` written in decimal, without leading zeros.
pub open spec fn decimal(n: nat) -> Seq<char>
    decreases n,
{
    if n < 10 {
        seq![digit_char(n as int)]
    } else {
        decimal(n / 10).push(digit_char((n % 10) as int))
    }
}

fn digit(d: usize) -> (c: char)
    requires
        d < 10,
    ensures
        c == digit_char(d as int),
{
    match d {
        0 => '0',
        1 => '1',
        2 => '2',
        3 => '3',
        4 => '4',
        5 => '5',
        6 => '6',
        7 => '7',
        8 => '8',
        _ => '9',
    }
}

/// Append `n` in decimal to `s`.
pub fn push_decimal(s: &mut String, n: usize)
    ensures
        final(s)@ == old(s)@ + decimal(n as nat),
    decreases n,
{
    if n >= 10 {
        push_decimal(s, n / 10);
    }
    s.push(digit(n % 10));
    proof {
        assert(final(s)@ =~= old(s)@ + decimal(n as nat));
    }
}

/// `s` without its leading whitespace.
pub open spec fn trim_start(s: Seq<char>) -> Seq<char>
    decreases s.len(),
{
    if s.len() > 0 && is_ws(s[0]) {
        trim_start(s.drop_first())
    } else {
        s
    }
}

/// `s` without its trailing whitespace.
pub open spec fn trim_end(s: Seq<char>) -> Seq<char>
    decreases s.len(),
{
    if s.len() > 0 && is_ws(s.last()) {
        trim_end(s.drop_last())
    } else {
        s
    }
}

/// `s` without leading and trailing whitespace, as `str::trim` gives it.
pub open spec fn spec_trim(s: Seq<char>) -> Seq<char> {
    trim_end(trim_start(s))
}

/// The characters of `v` from `a` to `b` as a string.
pub fn string_range(v: &Vec<char>, a: usize, b: usize) -> (r: String)
    requires
        a <= b <= v@.len(),
    ensures
        r@ == v@.subrange(a as int, b as int),
{
    let mut r = String::new();
    let mut i: usize = a;
    while i < b
        invariant
            a <= i <= b <= v@.len(),
            r@ == v@.subrange(a as int, i as int),
        decreases b - i,
    {
        r.push(v[i]);
        i = i + 1;
        assert(r@ =~= v@.subrange(a as int, i as int));
    }
    r
}

/// Position of the first and end of the last non-whitespace character.
pub fn trim_bounds(cs: &Vec<char>) -> (r: (usize, usize))
    ensures
        r.0 <= r.1 <= cs@.len(),
        spec_trim(cs@) == cs@.subrange(r.0 as int, r.1 as int),
{
    let n = cs.len();
    let mut a: usize = 0;
    assert(cs@.skip(0) =~= cs@);
    while a < n && char_is_whitespace(cs[a])
        invariant
            n == cs@.len(),
            a <= n,
            trim_start(cs@) == trim_start(cs@.skip(a as int)),
        decreases n - a,
    {
        assert(cs@.skip(a as int).drop_first() =~= cs@.skip(a as int + 1));
        a = a + 1;
    }
    let ghost ts = cs@.skip(a as int);
    assert(trim_start(cs@) == ts) by {
        if a < n {
            assert(ts[0] == cs@[a as int]);
        } else {
            assert(ts.len() == 0);
        }
    }
    let mut b: usize = n;
    assert(ts =~= cs@.subrange(a as int, n as int));
    while b > a && char_is_whitespace(cs[b - 1])
        invariant
            n == cs@.len(),
            a <= b <= n,
            trim_end(cs@.subrange(a as int, n as int)) == trim_end(cs@.subrange(a as int, b as int)),
        decreases b - a,
    {
        let ghost t = cs@.subrange(a as int, b as int);
        assert(t.last() == cs@[b - 1]);
        assert(t.drop_last() =~= cs@.subrange(a as int, b - 1));
        b = b - 1;
    }
    proof {
        let t = cs@.subrange(a as int, b as int);
        if b > a {
            assert(t.last() == cs@[b - 1]);
        }
        assert(trim_end(t) == t);
    }
    (a, b)
}

/// `s` trimmed of whitespace at both ends.
pub fn trim(s: &str) -> (r: String)
    ensures
        r@ == spec_trim(s@),
{
    let cs = chars_of(s);
    let (a, b) = trim_bounds(&cs);
    string_range(&cs, a, b)
}

/// Position of the first `c` in `s`.
pub open spec fn first_index(s: Seq<char>, c: char) -> Option<int> {
    if exists|i: int| 0 <= i < s.len() && s[i] == c {
        Some(choose|i: int| 0 <= i < s.len() && s[i] == c && forall|j: int| 0 <= j < i ==> s[j] != c)
    } else {
        None
    }
}

/// Position of the first `c` in `v`.
pub fn find_char(v: &Vec<char>, c: char) -> (r: Option<usize>)
    ensures
        match r {
            Some(i) => i < v@.len() && v@[i as int] == c
                && forall|j: int| 0 <= j < i ==> v@[j] != c,
            None => forall|j: int| 0 <= j < v@.len() ==> v@[j] != c,
        },
        r is Some <==> first_index(v@, c) is Some,
        r matches Some(i) ==> first_index(v@, c) == Some(i as int),
{
    let mut i: usize = 0;
    while i < v.len()
        invariant
            i <= v@.len(),
            forall|j: int| 0 <= j < i ==> v@[j] != c,
        decreases v@.len() - i,
    {
        if v[i] == c {
            proof {
                let w = choose|k: int| 0 <= k < v@.len() && v@[k] == c && forall|j: int| 0 <= j < k ==> v@[j] != c;
                assert(0 <= i < v@.len() && v@[i as int] == c && forall|j: int| 0 <= j < i ==> v@[j] != c);
                if w < i {
                } else if w > i {
                    assert(v@[i as int] != c);
                }
            }
            return Some(i);
        }
        i = i + 1;
    }
    None
}
} // verus!
