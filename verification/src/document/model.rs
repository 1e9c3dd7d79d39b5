//! The mathematical model of a document and of every editing operation.
//!
//! Each executable operation of `Document` is proved to turn the model of
//! the document before the call into the model given here.

use vstd::prelude::*;
use crate::text::{alphanumeric, is_ws, col_offset, gcount, grapheme_clusters, clusters_before, utf8_len};

verus! {

/// Number of spaces inserted by `indent`.
pub const INDENT_WIDTH: usize = 4;

/// Upper bound on the number of lines of a document (a `Vec<String>` holds
/// far fewer than this).
pub open spec fn max_lines() -> int {
    (usize::MAX / 2) as int
}

/// Lines and cursor saved on the undo or redo stack.
pub struct SnapView {
    pub lines: Seq<Seq<char>>,
    pub cursor_line: usize,
    pub cursor_col: usize,
}

/// The model of a document.
pub struct DocView {
    pub path: Option<Seq<char>>,
    pub lines: Seq<Seq<char>>,
    pub cursor_line: usize,
    pub cursor_col: usize,
    pub dirty: bool,
    pub read_only: bool,
    pub id: u64,
    pub undo: Seq<SnapView>,
    pub redo: Seq<SnapView>,
}

/// A well-formed set of lines with a cursor line inside it.
pub open spec fn lines_ok(lines: Seq<Seq<char>>, cursor_line: usize) -> bool {
    1 <= lines.len() <= max_lines() && cursor_line < lines.len()
}

pub open spec fn snap_ok(s: SnapView) -> bool {
    lines_ok(s.lines, s.cursor_line)
}

/// Well-formedness of a document: at least one line, a cursor on an existing
/// line, and the same for every saved state.
pub open spec fn doc_ok(d: DocView) -> bool {
    &&& lines_ok(d.lines, d.cursor_line)
    &&& forall|i: int| 0 <= i < d.undo.len() ==> snap_ok(#[trigger] d.undo[i])
    &&& forall|i: int| 0 <= i < d.redo.len() ==> snap_ok(#[trigger] d.redo[i])
}

/// The line under the cursor.
pub open spec fn cur_line(d: DocView) -> Seq<char> {
    d.lines[d.cursor_line as int]
}

pub open spec fn snap(d: DocView) -> SnapView {
    SnapView { lines: d.lines, cursor_line: d.cursor_line, cursor_col: d.cursor_col }
}

/// The state saved before an edit: pushed on the undo stack, redo cleared.
pub open spec fn pushed(d: DocView) -> DocView {
    DocView { undo: d.undo.push(snap(d)), redo: Seq::empty(), ..d }
}

/// Replace the line under the cursor.
pub open spec fn with_cur_line(d: DocView, l: Seq<char>) -> DocView {
    DocView { lines: d.lines.update(d.cursor_line as int, l), ..d }
}

/// `s` with the characters in `[a, b)` replaced by `r`.
pub open spec fn splice(s: Seq<char>, a: int, b: int, r: Seq<char>) -> Seq<char> {
    s.take(a) + r + s.skip(b)
}

// ---------------------------------------------------------------------
// Clusters: words, spaces and punctuation
// ---------------------------------------------------------------------

/// A cluster that starts with an alphanumeric character or `_`.
pub open spec fn is_word(g: Seq<char>) -> bool {
    g.len() > 0 && (alphanumeric(g[0]) || g[0] == '_')
}

/// A cluster made only of white space.
pub open spec fn is_space(g: Seq<char>) -> bool {
    forall|i: int| 0 <= i < g.len() ==> is_ws(#[trigger] g[i])
}

/// A cluster that is neither a word character nor white space.
pub open spec fn is_punct(g: Seq<char>) -> bool {
    !is_word(g) && !is_space(g)
}

#[derive(Clone, Copy)]
pub enum Kind {
    Word,
    Space,
    Punct,
}

pub open spec fn has_kind(g: Seq<char>, k: Kind) -> bool {
    match k {
        Kind::Word => is_word(g),
        Kind::Space => is_space(g),
        Kind::Punct => is_punct(g),
    }
}

/// Moving left from `i` over clusters of kind `k`.
pub open spec fn back_while(gs: Seq<Seq<char>>, i: int, k: Kind) -> int
    decreases i,
{
    if i > 0 && i <= gs.len() && has_kind(gs[i - 1], k) {
        back_while(gs, i - 1, k)
    } else {
        i
    }
}

/// Moving right from `i` over clusters of kind `k`.
pub open spec fn fwd_while(gs: Seq<Seq<char>>, i: int, k: Kind) -> int
    decreases gs.len() - i,
{
    if 0 <= i < gs.len() && has_kind(gs[i], k) {
        fwd_while(gs, i + 1, k)
    } else {
        i
    }
}

/// Start of the word (or punctuation run) before `i`, past any spaces.
pub open spec fn word_start_before(gs: Seq<Seq<char>>, i: int) -> int {
    let j = back_while(gs, i, Kind::Space);
    if j > 0 && is_word(gs[j - 1]) {
        back_while(gs, j, Kind::Word)
    } else {
        back_while(gs, j, Kind::Punct)
    }
}

/// End of the word (or punctuation run) at `i`, and of the spaces after it.
pub open spec fn word_end_after(gs: Seq<Seq<char>>, i: int) -> int {
    let j = if i < gs.len() && is_word(gs[i]) {
        fwd_while(gs, i, Kind::Word)
    } else if i < gs.len() && !is_space(gs[i]) {
        fwd_while(gs, i, Kind::Punct)
    } else {
        i
    };
    fwd_while(gs, j, Kind::Space)
}

// ---------------------------------------------------------------------
// Plain edits
// ---------------------------------------------------------------------

/// Insert `c` at the cursor, without saving an undo state.
pub open spec fn ins_char_raw(d: DocView, c: char) -> DocView {
    let l = cur_line(d);
    let k = col_offset(l, d.cursor_col as int);
    DocView {
        cursor_col: (d.cursor_col + 1) as usize,
        dirty: true,
        ..with_cur_line(d, splice(l, k, k, seq![c]))
    }
}

/// Split the line at the cursor, without saving an undo state.
pub open spec fn ins_newline_raw(d: DocView) -> DocView {
    let l = cur_line(d);
    let k = col_offset(l, d.cursor_col as int);
    DocView {
        lines: d.lines.update(d.cursor_line as int, l.take(k)).insert(d.cursor_line + 1, l.skip(k)),
        cursor_line: (d.cursor_line + 1) as usize,
        cursor_col: 0,
        dirty: true,
        ..d
    }
}

pub open spec fn spec_insert_char(d: DocView, c: char) -> DocView {
    ins_char_raw(pushed(d), c)
}

pub open spec fn spec_insert_newline(d: DocView) -> DocView {
    ins_newline_raw(pushed(d))
}

/// Typing the characters of `t` one after the other.
pub open spec fn type_chars(d: DocView, t: Seq<char>) -> DocView
    decreases t.len(),
{
    if t.len() == 0 {
        d
    } else {
        let e = type_chars(d, t.drop_last());
        if t.last() == '\n' {
            ins_newline_raw(e)
        } else {
            ins_char_raw(e, t.last())
        }
    }
}

pub open spec fn spec_insert_text(d: DocView, t: Seq<char>) -> DocView {
    if t.len() == 0 {
        d
    } else {
        type_chars(pushed(d), t)
    }
}

/// Typing keeps the document's id, path and read-only mark.
pub proof fn lemma_insert_text_keeps_id(d: DocView, t: Seq<char>)
    ensures
        spec_insert_text(d, t).id == d.id,
        spec_insert_text(d, t).path == d.path,
        spec_insert_text(d, t).read_only == d.read_only,
{
    if t.len() > 0 {
        lemma_type_chars_keeps_id(pushed(d), t);
    }
}

proof fn lemma_type_chars_keeps_id(d: DocView, t: Seq<char>)
    ensures
        type_chars(d, t).id == d.id,
        type_chars(d, t).path == d.path,
        type_chars(d, t).read_only == d.read_only,
    decreases t.len(),
{
    if t.len() > 0 {
        lemma_type_chars_keeps_id(d, t.drop_last());
    }
}

/// `INDENT_WIDTH` spaces.
pub open spec fn indent_str() -> Seq<char> {
    seq![' ', ' ', ' ', ' ']
}

pub open spec fn spec_indent(d: DocView) -> DocView {
    let p = pushed(d);
    DocView {
        cursor_col: (d.cursor_col + INDENT_WIDTH) as usize,
        dirty: true,
        ..with_cur_line(p, indent_str() + cur_line(d))
    }
}

/// Number of leading spaces of `l`, at most `n`.
pub open spec fn lead_spaces(l: Seq<char>, n: int) -> int
    decreases n,
{
    if n <= 0 || l.len() == 0 || l[0] != ' ' {
        0
    } else {
        1 + lead_spaces(l.drop_first(), n - 1)
    }
}

pub open spec fn spec_dedent(d: DocView) -> DocView {
    let p = pushed(d);
    let r = lead_spaces(cur_line(d), INDENT_WIDTH as int);
    if r > 0 {
        DocView {
            cursor_col: if d.cursor_col >= r { (d.cursor_col - r) as usize } else { 0 },
            dirty: true,
            ..with_cur_line(p, cur_line(d).skip(r))
        }
    } else {
        p
    }
}

pub open spec fn spec_backspace(d: DocView) -> DocView {
    if d.cursor_col == 0 && d.cursor_line == 0 {
        d
    } else {
        let p = pushed(d);
        let l = cur_line(d);
        if d.cursor_col == 0 {
            let cl = d.cursor_line as int;
            let prev = d.lines[cl - 1];
            DocView {
                lines: d.lines.remove(cl).update(cl - 1, prev + l),
                cursor_line: (cl - 1) as usize,
                cursor_col: gcount(prev) as usize,
                dirty: true,
                ..p
            }
        } else {
            let a = col_offset(l, d.cursor_col - 1);
            let b = col_offset(l, d.cursor_col as int);
            DocView {
                cursor_col: (d.cursor_col - 1) as usize,
                dirty: true,
                ..with_cur_line(p, splice(l, a, b, Seq::empty()))
            }
        }
    }
}

pub open spec fn spec_delete(d: DocView) -> DocView {
    let l = cur_line(d);
    let n = gcount(l);
    let cl = d.cursor_line as int;
    if d.cursor_col == n && cl + 1 >= d.lines.len() {
        d
    } else {
        let p = pushed(d);
        if d.cursor_col == n {
            DocView {
                lines: d.lines.update(cl, l + d.lines[cl + 1]).remove(cl + 1),
                dirty: true,
                ..p
            }
        } else {
            let a = col_offset(l, d.cursor_col as int);
            let b = col_offset(l, d.cursor_col + 1);
            DocView { dirty: true, ..with_cur_line(p, splice(l, a, b, Seq::empty())) }
        }
    }
}

pub open spec fn spec_delete_word_forward(d: DocView) -> DocView {
    let l = cur_line(d);
    let gs = grapheme_clusters(l);
    let start = if d.cursor_col < gs.len() { d.cursor_col as int } else { gs.len() as int };
    let end = word_end_after(gs, start);
    DocView {
        dirty: true,
        ..with_cur_line(pushed(d), splice(l, col_offset(l, start), col_offset(l, end), Seq::empty()))
    }
}

pub open spec fn spec_delete_word_backward(d: DocView) -> DocView {
    if d.cursor_col == 0 {
        d
    } else {
        let l = cur_line(d);
        let gs = grapheme_clusters(l);
        let end = if d.cursor_col < gs.len() { d.cursor_col as int } else { gs.len() as int };
        let start = word_start_before(gs, end);
        DocView {
            cursor_col: start as usize,
            dirty: true,
            ..with_cur_line(pushed(d), splice(l, col_offset(l, start), col_offset(l, end), Seq::empty()))
        }
    }
}

pub open spec fn spec_delete_to_end_of_line(d: DocView) -> DocView {
    let l = cur_line(d);
    DocView {
        dirty: true,
        ..with_cur_line(pushed(d), l.take(col_offset(l, d.cursor_col as int)))
    }
}

pub open spec fn spec_duplicate_line(d: DocView) -> DocView {
    let p = pushed(d);
    DocView {
        lines: d.lines.insert(d.cursor_line + 1, cur_line(d)),
        cursor_line: (d.cursor_line + 1) as usize,
        dirty: true,
        ..p
    }
}

// ---------------------------------------------------------------------
// Undo and redo
// ---------------------------------------------------------------------

pub open spec fn restore(d: DocView, s: SnapView) -> DocView {
    DocView { lines: s.lines, cursor_line: s.cursor_line, cursor_col: s.cursor_col, dirty: true, ..d }
}

pub open spec fn spec_undo(d: DocView) -> DocView {
    if d.undo.len() == 0 {
        d
    } else {
        restore(DocView { undo: d.undo.drop_last(), redo: d.redo.push(snap(d)), ..d }, d.undo.last())
    }
}

pub open spec fn spec_redo(d: DocView) -> DocView {
    if d.redo.len() == 0 {
        d
    } else {
        restore(DocView { redo: d.redo.drop_last(), undo: d.undo.push(snap(d)), ..d }, d.redo.last())
    }
}

// ---------------------------------------------------------------------
// Cursor movement
// ---------------------------------------------------------------------

pub open spec fn with_cursor(d: DocView, line: int, col: int) -> DocView {
    DocView { cursor_line: line as usize, cursor_col: col as usize, ..d }
}

pub open spec fn spec_move_left(d: DocView) -> DocView {
    if d.cursor_col > 0 {
        with_cursor(d, d.cursor_line as int, d.cursor_col - 1)
    } else if d.cursor_line > 0 {
        with_cursor(d, d.cursor_line - 1, gcount(d.lines[d.cursor_line - 1]))
    } else {
        d
    }
}

pub open spec fn spec_move_right(d: DocView) -> DocView {
    if d.cursor_col < gcount(cur_line(d)) {
        with_cursor(d, d.cursor_line as int, d.cursor_col + 1)
    } else if d.cursor_line + 1 < d.lines.len() {
        with_cursor(d, d.cursor_line + 1, 0)
    } else {
        d
    }
}

pub open spec fn spec_move_word_left(d: DocView) -> DocView {
    if d.cursor_col == 0 {
        spec_move_left(d)
    } else {
        with_cursor(d, d.cursor_line as int, word_start_before(grapheme_clusters(cur_line(d)), d.cursor_col as int))
    }
}

pub open spec fn spec_move_word_right(d: DocView) -> DocView {
    let gs = grapheme_clusters(cur_line(d));
    if d.cursor_col >= gs.len() {
        spec_move_right(d)
    } else {
        with_cursor(d, d.cursor_line as int, word_end_after(gs, d.cursor_col as int))
    }
}

/// Pull the column back to the end of the line if it lies past it.
pub open spec fn clamp_col(d: DocView) -> DocView {
    let n = gcount(cur_line(d));
    if d.cursor_col > n {
        with_cursor(d, d.cursor_line as int, n)
    } else {
        d
    }
}

pub open spec fn spec_move_up(d: DocView, n: int) -> DocView {
    clamp_col(with_cursor(d, if d.cursor_line >= n { d.cursor_line - n } else { 0 }, d.cursor_col as int))
}

pub open spec fn min_int(a: int, b: int) -> int {
    if a <= b { a } else { b }
}

pub open spec fn spec_move_down(d: DocView, n: int) -> DocView {
    clamp_col(with_cursor(d, min_int(d.cursor_line + n, d.lines.len() - 1), d.cursor_col as int))
}

pub open spec fn spec_goto_line(d: DocView, line_1_indexed: int) -> DocView {
    let target = if line_1_indexed >= 1 { line_1_indexed - 1 } else { 0 };
    clamp_col(with_cursor(d, min_int(target, d.lines.len() - 1), d.cursor_col as int))
}

// ---------------------------------------------------------------------
// Search and replace
// ---------------------------------------------------------------------

/// `needle` occurs in `hay` at character offset `m`.
pub open spec fn occurs_at(hay: Seq<char>, needle: Seq<char>, m: int) -> bool {
    0 <= m && m + needle.len() <= hay.len() && hay.subrange(m, m + needle.len()) == needle
}

/// First occurrence of `needle` in `hay` at an offset `>= from`.
pub open spec fn first_match_from(hay: Seq<char>, needle: Seq<char>, from: int) -> Option<int>
    decreases hay.len() - from,
{
    if from < 0 || from + needle.len() > hay.len() {
        None
    } else if occurs_at(hay, needle, from) {
        Some(from)
    } else if from >= hay.len() {
        None
    } else {
        first_match_from(hay, needle, from + 1)
    }
}

/// Search, as `find_next` performs it, from the line `offset` lines after
/// the cursor line (wrapping round, and coming back to the cursor line last).
pub open spec fn search_from(d: DocView, needle: Seq<char>, offset: int) -> Option<(int, int)>
    decreases d.lines.len() + 1 - offset,
{
    let n = d.lines.len() as int;
    if offset < 0 || offset > n || n == 0 {
        None
    } else {
        let li = (d.cursor_line + offset) % n;
        let l = d.lines[li];
        let from = if offset == 0 { col_offset(l, d.cursor_col + 1) } else { 0 };
        match first_match_from(l, needle, from) {
            Some(m) => Some((li, m)),
            None => search_from(d, needle, offset + 1),
        }
    }
}

/// Where `find_next` lands: line and character offset of the match.
pub open spec fn find_target(d: DocView, needle: Seq<char>) -> Option<(int, int)> {
    if needle.len() == 0 {
        None
    } else {
        search_from(d, needle, 0)
    }
}

pub open spec fn spec_find_next(d: DocView, needle: Seq<char>) -> DocView {
    match find_target(d, needle) {
        Some((li, m)) => with_cursor(d, li, clusters_before(d.lines[li], m)),
        None => d,
    }
}

/// The byte length of `needle`, as `str::len` returns it.
pub open spec fn needle_bytes(needle: Seq<char>) -> int {
    (vstd::utf8::encode_utf8(needle).len() as usize) as int
}

/// End of the character span that starts at `s` and holds `b` bytes of
/// UTF-8; `None` where no character boundary lies there.
pub open spec fn span_end(l: Seq<char>, s: int, b: int) -> Option<int>
    decreases l.len() - s,
{
    if b == 0 {
        Some(s)
    } else if s < 0 || s >= l.len() || utf8_len(l[s]) > b {
        None
    } else {
        span_end(l, s + 1, b - utf8_len(l[s]))
    }
}

/// The replacement performed once `find_next` has moved the cursor: the
/// bytes from the cursor's cluster on, as many as the needle has, give way to
/// the replacement.
pub open spec fn replace_at_cursor(d: DocView, needle: Seq<char>, repl: Seq<char>) -> DocView {
    let p = pushed(d);
    let l = cur_line(d);
    let s = col_offset(l, d.cursor_col as int);
    let e = span_end(l, s, needle_bytes(needle)).unwrap();
    let nl = splice(l, s, e, repl);
    DocView {
        cursor_col: clusters_before(nl, s + repl.len()) as usize,
        dirty: true,
        ..with_cur_line(p, nl)
    }
}

/// Whether the replacement can be carried out (the byte range ends on a
/// character boundary inside the line).
pub open spec fn replace_ok(d: DocView, needle: Seq<char>) -> bool {
    let f = spec_find_next(d, needle);
    find_target(d, needle) is Some ==> span_end(
        cur_line(f),
        col_offset(cur_line(f), f.cursor_col as int),
        needle_bytes(needle),
    ) is Some
}

pub open spec fn spec_replace_next(d: DocView, needle: Seq<char>, repl: Seq<char>) -> DocView {
    if find_target(d, needle) is Some {
        replace_at_cursor(spec_find_next(d, needle), needle, repl)
    } else {
        d
    }
}

// ---------------------------------------------------------------------
// Bracket matching
// ---------------------------------------------------------------------

/// Number of clusters of line `l` (0 for a line that does not exist).
pub open spec fn line_len(lines: Seq<Seq<char>>, l: int) -> int {
    if 0 <= l < lines.len() { gcount(lines[l]) } else { 0 }
}

/// First character of the cluster at `(l, c)`.
pub open spec fn char_at(lines: Seq<Seq<char>>, l: int, c: int) -> Option<char> {
    if 0 <= l < lines.len() && 0 <= c < gcount(lines[l]) && grapheme_clusters(lines[l])[c].len() > 0 {
        Some(grapheme_clusters(lines[l])[c][0])
    } else {
        None
    }
}

#[derive(Clone, Copy, PartialEq, Eq, Structural)]
pub enum Scan {
    Found(usize, usize),
    NotFound,
    Overflow,
}

/// The bracket pair that `c` belongs to, if any.
pub open spec fn bracket_pair(c: char) -> Option<(char, char)> {
    if c == '(' || c == ')' {
        Some(('(', ')'))
    } else if c == '[' || c == ']' {
        Some(('[', ']'))
    } else if c == '{' || c == '}' {
        Some(('{', '}'))
    } else {
        None
    }
}

/// Scanning forward from the position after `(l, c)` for the `close` that
/// balances, `depth` openings being pending.
pub open spec fn scan_forward(lines: Seq<Seq<char>>, l: int, c: int, depth: int, open: char, close: char) -> Scan
    decreases lines.len() - l, line_len(lines, l) - c,
{
    if l < 0 || c < 0 || l >= lines.len() {
        Scan::NotFound
    } else {
        let c1 = c + 1;
        let (nl, nc) = if c1 >= line_len(lines, l) { (l + 1, 0int) } else { (l, c1) };
        if nl >= lines.len() {
            Scan::NotFound
        } else {
            match char_at(lines, nl, nc) {
                None => scan_forward(lines, nl, nc, depth, open, close),
                Some(ch) => if ch == open {
                    if depth + 1 > i32::MAX {
                        Scan::Overflow
                    } else {
                        scan_forward(lines, nl, nc, depth + 1, open, close)
                    }
                } else if ch == close {
                    if depth == 0 {
                        Scan::Found(nl as usize, nc as usize)
                    } else {
                        scan_forward(lines, nl, nc, depth - 1, open, close)
                    }
                } else {
                    scan_forward(lines, nl, nc, depth, open, close)
                },
            }
        }
    }
}

/// Scanning backward from the position before `(l, c)` for the `open` that
/// balances, `depth` closings being pending.
pub open spec fn scan_backward(lines: Seq<Seq<char>>, l: int, c: int, depth: int, open: char, close: char) -> Scan
    decreases l, 2 * c,
{
    if l < 0 || c < 0 || l >= lines.len() {
        Scan::NotFound
    } else if c == 0 {
        if l == 0 {
            Scan::NotFound
        } else {
            let n = line_len(lines, l - 1);
            if n == 0 {
                scan_backward(lines, l - 1, 0, depth, open, close)
            } else {
                scan_backward_at(lines, l - 1, n - 1, depth, open, close)
            }
        }
    } else {
        scan_backward_at(lines, l, c - 1, depth, open, close)
    }
}

/// Examine the cluster at `(l, c)` during a backward scan.
pub open spec fn scan_backward_at(lines: Seq<Seq<char>>, l: int, c: int, depth: int, open: char, close: char) -> Scan
    decreases l, 2 * c + 1,
{
    if l < 0 || c < 0 || l >= lines.len() {
        Scan::NotFound
    } else {
        match char_at(lines, l, c) {
            None => scan_backward(lines, l, c, depth, open, close),
            Some(ch) => if ch == close {
                if depth + 1 > i32::MAX {
                    Scan::Overflow
                } else {
                    scan_backward(lines, l, c, depth + 1, open, close)
                }
            } else if ch == open {
                if depth == 0 {
                    Scan::Found(l as usize, c as usize)
                } else {
                    scan_backward(lines, l, c, depth - 1, open, close)
                }
            } else {
                scan_backward(lines, l, c, depth, open, close)
            },
        }
    }
}

/// Where the bracket under the cursor is matched.
pub open spec fn match_target(d: DocView) -> Scan {
    match char_at(d.lines, d.cursor_line as int, d.cursor_col as int) {
        None => Scan::NotFound,
        Some(cur) => match bracket_pair(cur) {
            None => Scan::NotFound,
            Some((open, close)) => if cur == open {
                scan_forward(d.lines, d.cursor_line as int, d.cursor_col as int, 0, open, close)
            } else {
                scan_backward(d.lines, d.cursor_line as int, d.cursor_col as int, 0, open, close)
            },
        },
    }
}

pub open spec fn spec_jump_to_match(d: DocView) -> DocView {
    match match_target(d) {
        Scan::Found(l, c) => with_cursor(d, l as int, c as int),
        _ => d,
    }
}

// ---------------------------------------------------------------------
// Construction, saving and direct cursor placement
// ---------------------------------------------------------------------

/// A fresh document with the given lines (one empty line for none).
pub open spec fn fresh(path: Option<Seq<char>>, lines: Seq<Seq<char>>, read_only: bool) -> DocView {
    DocView {
        path: path,
        lines: if lines.len() == 0 { seq![Seq::empty()] } else { lines },
        cursor_line: 0,
        cursor_col: 0,
        dirty: false,
        read_only: read_only,
        id: 0,
        undo: Seq::empty(),
        redo: Seq::empty(),
    }
}

/// The lines joined by `\n`, as written to disk.
pub open spec fn join_lines(ls: Seq<Seq<char>>) -> Seq<char>
    decreases ls.len(),
{
    if ls.len() == 0 {
        Seq::empty()
    } else if ls.len() == 1 {
        ls[0]
    } else {
        join_lines(ls.drop_last()) + seq!['\n'] + ls.last()
    }
}

/// `g;ef;`: last line, column at its end (its number of grapheme
/// clusters).
pub open spec fn spec_goto_end_of_file(d: DocView) -> DocView {
    with_cursor(d, d.lines.len() - 1, gcount(d.lines.last()))
}

/// `g;sf;`: first line, first column.
pub open spec fn spec_goto_start_of_file(d: DocView) -> DocView {
    with_cursor(spec_goto_line(d, 0), 0, 0)
}

/// `g;el;`: column at the end of the current line (its number of grapheme
/// clusters).
pub open spec fn spec_goto_end_of_line(d: DocView) -> DocView {
    with_cursor(d, d.cursor_line as int, gcount(cur_line(d)))
}

/// `g;sl;`: first column.
pub open spec fn spec_goto_start_of_line(d: DocView) -> DocView {
    with_cursor(d, d.cursor_line as int, 0)
}

pub open spec fn max_int(a: int, b: int) -> int {
    if a >= b { a } else { b }
}

/// Place the cursor as a plugin asks: both coordinates clamped into the
/// document (the column counts characters).
pub open spec fn spec_set_cursor(d: DocView, line: int, col: int) -> DocView {
    let l = min_int((max_int(line, 0) as usize) as int, d.lines.len() - 1);
    let c = min_int((max_int(col, 0) as usize) as int, d.lines[l].len() as int);
    with_cursor(d, l, c)
}

/// Replace all lines as a plugin asks: cursor to the start, marked clean.
pub open spec fn spec_set_lines(d: DocView, lines: Seq<Seq<char>>) -> DocView {
    DocView {
        lines: if lines.len() == 0 { seq![Seq::empty()] } else { lines },
        cursor_line: 0,
        cursor_col: 0,
        dirty: false,
        ..d
    }
}

} // verus!
