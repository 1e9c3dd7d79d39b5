//! Bracket matching read along the text: the document flattened into the
//! first characters of its grapheme clusters, in reading order, and the
//! law that jumping to a bracket's match lands on its nearest balanced
//! partner.

use vstd::prelude::*;
use crate::text::{gcount, grapheme_clusters};
use super::model::{
    DocView, Scan, scan_forward, scan_backward, scan_backward_at, match_target, char_at, bracket_pair,
    line_len,
};
use super::laws::positions_fit;

verus! {

/// The first character of each cluster of a line (a space for an empty
/// cluster, which no line has).
pub open spec fn first_chars(line: Seq<char>) -> Seq<char> {
    grapheme_clusters(line).map_values(|g: Seq<char>| if g.len() > 0 { g[0] } else { ' ' })
}

/// The first characters of all clusters of the document, line after line.
pub open spec fn flat_chars(lines: Seq<Seq<char>>) -> Seq<char>
    decreases lines.len(),
{
    if lines.len() == 0 {
        Seq::empty()
    } else {
        flat_chars(lines.drop_last()) + first_chars(lines.last())
    }
}

/// Where line `l` starts in `flat_chars`.
pub open spec fn line_start(lines: Seq<Seq<char>>, l: int) -> int {
    flat_chars(lines.take(l)).len() as int
}

/// The index in `flat_chars` of column `c` of line `l`.
pub open spec fn flat_index(lines: Seq<Seq<char>>, l: int, c: int) -> int {
    line_start(lines, l) + c
}

proof fn lemma_flat_prefix(lines: Seq<Seq<char>>, k: int)
    requires
        0 <= k <= lines.len(),
    ensures
        flat_chars(lines.take(k)).len() <= flat_chars(lines).len(),
        forall|i: int| 0 <= i < flat_chars(lines.take(k)).len()
            ==> #[trigger] flat_chars(lines.take(k))[i] == flat_chars(lines)[i],
    decreases lines.len(),
{
    if k == lines.len() {
        assert(lines.take(k) =~= lines);
    } else {
        let p = lines.drop_last();
        assert(lines.take(k) =~= p.take(k));
        lemma_flat_prefix(p, k);
    }
}

/// Lines start one after another, each taking as many places as it has
/// clusters.
proof fn lemma_line_start(lines: Seq<Seq<char>>, l: int)
    requires
        0 <= l < lines.len(),
    ensures
        line_start(lines, 0) == 0,
        line_start(lines, l + 1) == line_start(lines, l) + gcount(lines[l]),
        line_start(lines, lines.len() as int) == flat_chars(lines).len(),
        line_start(lines, l + 1) <= flat_chars(lines).len(),
        forall|c: int| 0 <= c < gcount(lines[l]) ==>
            #[trigger] flat_chars(lines)[flat_index(lines, l, c)] == first_chars(lines[l])[c],
{
    assert(lines.take(0) =~= Seq::<Seq<char>>::empty());
    assert(lines.take(l + 1).drop_last() =~= lines.take(l));
    assert(lines.take(l + 1).last() == lines[l]);
    assert(lines.take(lines.len() as int) =~= lines);
    lemma_flat_prefix(lines, l + 1);
    let pre = flat_chars(lines.take(l + 1));
    assert forall|c: int| 0 <= c < gcount(lines[l]) implies
        #[trigger] flat_chars(lines)[flat_index(lines, l, c)] == first_chars(lines[l])[c] by {
        assert(pre[flat_index(lines, l, c)] == first_chars(lines[l])[c]);
    }
}

/// A column of a line, or the start of an empty line.
pub open spec fn at_or_empty(lines: Seq<Seq<char>>, l: int, c: int) -> bool {
    0 <= l < lines.len() && 0 <= c && (c < gcount(lines[l]) || c == 0)
}

/// The character of a real position in `flat_chars` is the one the scans
/// read there (a space standing for a cluster they pass over).
proof fn lemma_flat_char(lines: Seq<Seq<char>>, l: int, c: int)
    requires
        0 <= l < lines.len(),
        0 <= c < gcount(lines[l]),
    ensures
        0 <= flat_index(lines, l, c) < flat_chars(lines).len(),
        match char_at(lines, l, c) {
            Some(x) => flat_chars(lines)[flat_index(lines, l, c)] == x,
            None => flat_chars(lines)[flat_index(lines, l, c)] == ' ',
        },
{
    lemma_line_start(lines, l);
    lemma_start_nonneg(lines, l);
    assert(flat_chars(lines)[flat_index(lines, l, c)] == first_chars(lines[l])[c]);
}

proof fn lemma_start_nonneg(lines: Seq<Seq<char>>, l: int)
    ensures
        line_start(lines, l) >= 0,
{
}

/// The outcome of a scan over `flat_chars`.
pub enum FlatScan {
    Found(int),
    NotFound,
    Overflow,
}

/// Scanning `f` forward from index `i` for the `close` that balances,
/// `depth` openings being pending (as `scan_forward` does along the lines).
pub open spec fn fwd(f: Seq<char>, i: int, depth: int, open: char, close: char) -> FlatScan
    decreases f.len() - i,
{
    if i < 0 || i >= f.len() {
        FlatScan::NotFound
    } else if f[i] == open {
        if depth + 1 > i32::MAX {
            FlatScan::Overflow
        } else {
            fwd(f, i + 1, depth + 1, open, close)
        }
    } else if f[i] == close {
        if depth == 0 {
            FlatScan::Found(i)
        } else {
            fwd(f, i + 1, depth - 1, open, close)
        }
    } else {
        fwd(f, i + 1, depth, open, close)
    }
}

/// The flat index of the position after `(l, c)`: one past a real column,
/// the same index for the start of an empty line.
pub open spec fn next_index(lines: Seq<Seq<char>>, l: int, c: int) -> int {
    flat_index(lines, l, c) + if c < gcount(lines[l]) { 1int } else { 0int }
}

/// `scan_forward` along the lines is `fwd` along `flat_chars`.
proof fn lemma_scan_forward_flat(lines: Seq<Seq<char>>, l: int, c: int, depth: int, open: char, close: char)
    requires
        positions_fit(lines),
        at_or_empty(lines, l, c),
        open != ' ',
        close != ' ',
        open != close,
    ensures
        match scan_forward(lines, l, c, depth, open, close) {
            Scan::Found(fl, fc) => {
                &&& 0 <= fl < lines.len() && 0 <= fc < gcount(lines[fl as int])
                &&& fwd(flat_chars(lines), next_index(lines, l, c), depth, open, close)
                    == FlatScan::Found(flat_index(lines, fl as int, fc as int))
            },
            Scan::NotFound => fwd(flat_chars(lines), next_index(lines, l, c), depth, open, close) == FlatScan::NotFound,
            Scan::Overflow => fwd(flat_chars(lines), next_index(lines, l, c), depth, open, close) == FlatScan::Overflow,
        },
    decreases lines.len() - l, line_len(lines, l) - c,
{
    let f = flat_chars(lines);
    let g = next_index(lines, l, c);
    lemma_line_start(lines, l);
    let c1 = c + 1;
    let (nl, nc) = if c1 >= line_len(lines, l) { (l + 1, 0int) } else { (l, c1) };
    // the position after (l, c) has flat index g
    if c1 >= line_len(lines, l) {
        assert(g == line_start(lines, l + 1));
    }
    if nl >= lines.len() {
        assert(g == f.len());
    } else {
        lemma_line_start(lines, nl);
        assert(flat_index(lines, nl, nc) == g);
        assert(at_or_empty(lines, nl, nc));
        if nc < gcount(lines[nl]) {
            lemma_flat_char(lines, nl, nc);
            assert(next_index(lines, nl, nc) == g + 1);
            match char_at(lines, nl, nc) {
                None => {
                    lemma_scan_forward_flat(lines, nl, nc, depth, open, close);
                },
                Some(ch) => {
                    if ch == open {
                        if depth + 1 <= i32::MAX {
                            lemma_scan_forward_flat(lines, nl, nc, depth + 1, open, close);
                        }
                    } else if ch == close {
                        if depth != 0 {
                            lemma_scan_forward_flat(lines, nl, nc, depth - 1, open, close);
                        } else {
                            assert((nl as usize) as int == nl);
                            assert((nc as usize) as int == nc);
                        }
                    } else {
                        lemma_scan_forward_flat(lines, nl, nc, depth, open, close);
                    }
                },
            }
        } else {
            assert(char_at(lines, nl, nc) is None);
            assert(next_index(lines, nl, nc) == g);
            lemma_scan_forward_flat(lines, nl, nc, depth, open, close);
        }
    }
}

/// Scanning `f` backward from just before index `i` for the `open` that
/// balances, `depth` closings being pending (as `scan_backward` does along
/// the lines).
pub open spec fn bwd(f: Seq<char>, i: int, depth: int, open: char, close: char) -> FlatScan
    decreases i,
{
    if i <= 0 || i > f.len() {
        FlatScan::NotFound
    } else if f[i - 1] == close {
        if depth + 1 > i32::MAX {
            FlatScan::Overflow
        } else {
            bwd(f, i - 1, depth + 1, open, close)
        }
    } else if f[i - 1] == open {
        if depth == 0 {
            FlatScan::Found(i - 1)
        } else {
            bwd(f, i - 1, depth - 1, open, close)
        }
    } else {
        bwd(f, i - 1, depth, open, close)
    }
}

/// A scan along the lines and one along `flat_chars` end alike.
pub open spec fn agrees(lines: Seq<Seq<char>>, s: Scan, fs: FlatScan) -> bool {
    match s {
        Scan::Found(fl, fc) => {
            &&& 0 <= fl < lines.len() && 0 <= fc < gcount(lines[fl as int])
            &&& fs == FlatScan::Found(flat_index(lines, fl as int, fc as int))
        },
        Scan::NotFound => fs == FlatScan::NotFound,
        Scan::Overflow => fs == FlatScan::Overflow,
    }
}

/// `scan_backward` along the lines is `bwd` along `flat_chars`.
proof fn lemma_scan_backward_flat(lines: Seq<Seq<char>>, l: int, c: int, depth: int, open: char, close: char)
    requires
        positions_fit(lines),
        0 <= l < lines.len(),
        0 <= c <= gcount(lines[l]),
        open != ' ',
        close != ' ',
        open != close,
    ensures
        agrees(lines, scan_backward(lines, l, c, depth, open, close),
            bwd(flat_chars(lines), flat_index(lines, l, c), depth, open, close)),
    decreases l, 2 * c,
{
    lemma_line_start(lines, l);
    if c == 0 {
        if l > 0 {
            lemma_line_start(lines, l - 1);
            let n = line_len(lines, l - 1);
            if n == 0 {
                assert(flat_index(lines, l - 1, 0) == flat_index(lines, l, 0));
                lemma_scan_backward_flat(lines, l - 1, 0, depth, open, close);
            } else {
                assert(flat_index(lines, l - 1, n - 1) + 1 == flat_index(lines, l, 0));
                lemma_scan_backward_at_flat(lines, l - 1, n - 1, depth, open, close);
            }
        } else {
            assert(flat_index(lines, 0, 0) == 0);
        }
    } else {
        lemma_scan_backward_at_flat(lines, l, c - 1, depth, open, close);
    }
}

/// `scan_backward_at` at a column is `bwd` from just after its flat index.
proof fn lemma_scan_backward_at_flat(lines: Seq<Seq<char>>, l: int, c: int, depth: int, open: char, close: char)
    requires
        positions_fit(lines),
        0 <= l < lines.len(),
        0 <= c < gcount(lines[l]),
        open != ' ',
        close != ' ',
        open != close,
    ensures
        agrees(lines, scan_backward_at(lines, l, c, depth, open, close),
            bwd(flat_chars(lines), flat_index(lines, l, c) + 1, depth, open, close)),
    decreases l, 2 * c + 1,
{
    lemma_flat_char(lines, l, c);
    match char_at(lines, l, c) {
        None => {
            lemma_scan_backward_flat(lines, l, c, depth, open, close);
        },
        Some(ch) => {
            if ch == close {
                if depth + 1 <= i32::MAX {
                    lemma_scan_backward_flat(lines, l, c, depth + 1, open, close);
                }
            } else if ch == open {
                if depth != 0 {
                    lemma_scan_backward_flat(lines, l, c, depth - 1, open, close);
                } else {
                    assert((l as usize) as int == l);
                    assert((c as usize) as int == c);
                }
            } else {
                lemma_scan_backward_flat(lines, l, c, depth, open, close);
            }
        },
    }
}

/// Openings minus closings in `f[a..b)`.
pub open spec fn net_open(f: Seq<char>, a: int, b: int, open: char, close: char) -> int
    decreases b - a,
{
    if b <= a {
        0
    } else {
        net_open(f, a, b - 1, open, close) + if f[b - 1] == open { 1int } else if f[b - 1] == close { -1int } else { 0int }
    }
}

/// Closings minus openings in `f[k..b)`.
pub open spec fn net_close(f: Seq<char>, k: int, b: int, open: char, close: char) -> int
    decreases b - k,
{
    if k >= b {
        0
    } else {
        net_close(f, k + 1, b, open, close) + if f[k] == close { 1int } else if f[k] == open { -1int } else { 0int }
    }
}

/// `j` holds the nearest balanced `close` reading forward from `a`: the
/// text from `a` up to `j` holds as many `close` as `open`, and no start of
/// it more `close` than `open`.
pub open spec fn partner_after(f: Seq<char>, a: int, j: int, open: char, close: char) -> bool {
    &&& a <= j < f.len()
    &&& f[j] == close
    &&& net_open(f, a, j, open, close) == 0
    &&& forall|k: int| a <= k <= j ==> #[trigger] net_open(f, a, k, open, close) >= 0
}

/// `j` holds the nearest balanced `open` reading backward from just before
/// `b`: the text after `j` up to `b` holds as many `open` as `close`, and
/// no end of it more `open` than `close`.
pub open spec fn partner_before(f: Seq<char>, b: int, j: int, open: char, close: char) -> bool {
    &&& 0 <= j < b <= f.len()
    &&& f[j] == open
    &&& net_close(f, j + 1, b, open, close) == 0
    &&& forall|k: int| j < k <= b ==> #[trigger] net_close(f, k, b, open, close) >= 0
}

proof fn lemma_fwd_finds_partner(f: Seq<char>, a: int, i: int, depth: int, open: char, close: char)
    requires
        0 <= a <= i,
        open != close,
        depth == net_open(f, a, i, open, close),
        forall|k: int| a <= k <= i ==> #[trigger] net_open(f, a, k, open, close) >= 0,
    ensures
        fwd(f, i, depth, open, close) matches FlatScan::Found(j) ==> partner_after(f, a, j, open, close),
        fwd(f, i, depth, open, close) is NotFound ==> forall|j: int| !#[trigger] partner_after(f, a, j, open, close),
    decreases f.len() - i,
{
    // no partner lies before i: just after it the count would be negative
    assert forall|j: int| a <= j < i && #[trigger] partner_after(f, a, j, open, close) implies false by {
        assert(net_open(f, a, j + 1, open, close) == -1);
        assert(net_open(f, a, j + 1, open, close) >= 0);
    }
    if i < f.len() {
        let d2 = if f[i] == open { depth + 1 } else if f[i] == close { depth - 1 } else { depth };
        assert(net_open(f, a, i + 1, open, close) == d2);
        if f[i] == open {
            if depth + 1 <= i32::MAX {
                lemma_fwd_finds_partner(f, a, i + 1, depth + 1, open, close);
            }
        } else if f[i] == close && depth == 0 {
        } else {
            lemma_fwd_finds_partner(f, a, i + 1, d2, open, close);
        }
    }
}

proof fn lemma_bwd_finds_partner(f: Seq<char>, b: int, i: int, depth: int, open: char, close: char)
    requires
        0 <= i <= b <= f.len(),
        open != close,
        depth == net_close(f, i, b, open, close),
        forall|k: int| i <= k <= b ==> #[trigger] net_close(f, k, b, open, close) >= 0,
    ensures
        bwd(f, i, depth, open, close) matches FlatScan::Found(j) ==> partner_before(f, b, j, open, close),
        bwd(f, i, depth, open, close) is NotFound ==> forall|j: int| !#[trigger] partner_before(f, b, j, open, close),
    decreases i,
{
    assert forall|j: int| i <= j < b && #[trigger] partner_before(f, b, j, open, close) implies false by {
        assert(net_close(f, j, b, open, close) == -1);
        assert(net_close(f, j, b, open, close) >= 0);
    }
    if i > 0 {
        let k = i - 1;
        let d2 = if f[k] == close { depth + 1 } else if f[k] == open { depth - 1 } else { depth };
        assert(net_close(f, k, b, open, close) == d2);
        if f[k] == close {
            if depth + 1 <= i32::MAX {
                lemma_bwd_finds_partner(f, b, k, depth + 1, open, close);
            }
        } else if f[k] == open && depth == 0 {
        } else {
            lemma_bwd_finds_partner(f, b, k, d2, open, close);
        }
    }
}

proof fn lemma_partner_after_unique(f: Seq<char>, a: int, j1: int, j2: int, open: char, close: char)
    requires
        open != close,
        partner_after(f, a, j1, open, close),
        partner_after(f, a, j2, open, close),
    ensures
        j1 == j2,
{
    if j1 < j2 {
        assert(net_open(f, a, j1 + 1, open, close) == -1);
        assert(net_open(f, a, j1 + 1, open, close) >= 0);
    } else if j2 < j1 {
        assert(net_open(f, a, j2 + 1, open, close) == -1);
        assert(net_open(f, a, j2 + 1, open, close) >= 0);
    }
}

proof fn lemma_partner_before_unique(f: Seq<char>, b: int, j1: int, j2: int, open: char, close: char)
    requires
        open != close,
        partner_before(f, b, j1, open, close),
        partner_before(f, b, j2, open, close),
    ensures
        j1 == j2,
{
    if j1 < j2 {
        assert(net_close(f, j2, b, open, close) == -1);
        assert(net_close(f, j2, b, open, close) >= 0);
    } else if j2 < j1 {
        assert(net_close(f, j1, b, open, close) == -1);
        assert(net_close(f, j1, b, open, close) >= 0);
    }
}

/// Jumping to the match of a bracket lands on its nearest balanced partner,
/// and moves exactly when there is one. Read along the text (the first
/// characters of the clusters, line after line, see `flat_chars`): from an
/// opening bracket, the partner is the first closing one after it with as
/// many closings as openings in between and never more on the way; from a
/// closing bracket, likewise the first opening one before it. Off a
/// bracket nothing is matched. (A scan that would count more than
/// `i32::MAX` pending brackets is left out.)
pub proof fn lemma_jump_to_nearest_partner(d: DocView)
    requires
        positions_fit(d.lines),
        (d.cursor_line as int) < d.lines.len(),
        !(match_target(d) is Overflow),
    ensures
        ({
            let f = flat_chars(d.lines);
            let i0 = flat_index(d.lines, d.cursor_line as int, d.cursor_col as int);
            match char_at(d.lines, d.cursor_line as int, d.cursor_col as int) {
                Some(b) => match bracket_pair(b) {
                    Some((open, close)) => if b == open {
                        &&& (match_target(d) is Found <==> exists|j: int| #[trigger] partner_after(f, i0 + 1, j, open, close))
                        &&& match_target(d) matches Scan::Found(l, c) ==> {
                            &&& 0 <= l < d.lines.len() && 0 <= c < gcount(d.lines[l as int])
                            &&& partner_after(f, i0 + 1, flat_index(d.lines, l as int, c as int), open, close)
                        }
                        &&& forall|j1: int, j2: int| #[trigger] partner_after(f, i0 + 1, j1, open, close)
                            && #[trigger] partner_after(f, i0 + 1, j2, open, close) ==> j1 == j2
                    } else {
                        &&& (match_target(d) is Found <==> exists|j: int| #[trigger] partner_before(f, i0, j, open, close))
                        &&& match_target(d) matches Scan::Found(l, c) ==> {
                            &&& 0 <= l < d.lines.len() && 0 <= c < gcount(d.lines[l as int])
                            &&& partner_before(f, i0, flat_index(d.lines, l as int, c as int), open, close)
                        }
                        &&& forall|j1: int, j2: int| #[trigger] partner_before(f, i0, j1, open, close)
                            && #[trigger] partner_before(f, i0, j2, open, close) ==> j1 == j2
                    },
                    None => match_target(d) is NotFound,
                },
                None => match_target(d) is NotFound,
            }
        }),
{
    let lines = d.lines;
    let l0 = d.cursor_line as int;
    let c0 = d.cursor_col as int;
    let f = flat_chars(lines);
    let i0 = flat_index(lines, l0, c0);
    match char_at(lines, l0, c0) {
        Some(b) => match bracket_pair(b) {
            Some((open, close)) => {
                assert(c0 < gcount(lines[l0]));
                lemma_flat_char(lines, l0, c0);
                lemma_start_nonneg(lines, l0);
                if b == open {
                    lemma_scan_forward_flat(lines, l0, c0, 0, open, close);
                    assert(next_index(lines, l0, c0) == i0 + 1);
                    lemma_fwd_finds_partner(f, i0 + 1, i0 + 1, 0, open, close);
                    assert forall|j1: int, j2: int| #[trigger] partner_after(f, i0 + 1, j1, open, close)
                        && #[trigger] partner_after(f, i0 + 1, j2, open, close) implies j1 == j2 by {
                        lemma_partner_after_unique(f, i0 + 1, j1, j2, open, close);
                    }
                } else {
                    lemma_scan_backward_flat(lines, l0, c0, 0, open, close);
                    lemma_bwd_finds_partner(f, i0, i0, 0, open, close);
                    assert forall|j1: int, j2: int| #[trigger] partner_before(f, i0, j1, open, close)
                        && #[trigger] partner_before(f, i0, j2, open, close) implies j1 == j2 by {
                        lemma_partner_before_unique(f, i0, j1, j2, open, close);
                    }
                }
            },
            None => {},
        },
        None => {},
    }
}

} // verus!
