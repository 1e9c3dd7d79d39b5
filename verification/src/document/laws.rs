//! Laws of editing: what undo, redo, search and bracket matching promise
//! across operations.

use vstd::prelude::*;
use crate::text::{gcount, grapheme_clusters, alphanumeric, is_ws};
use super::model::{
    DocView, SnapView, spec_insert_char, spec_insert_newline, spec_insert_text, spec_indent,
    spec_dedent, spec_backspace, spec_delete, spec_delete_word_forward, spec_delete_word_backward,
    spec_delete_to_end_of_line, spec_duplicate_line, cur_line, type_chars, pushed, snap, spec_undo,
    spec_redo, lead_spaces, indent_str, INDENT_WIDTH, doc_ok, spec_move_left, spec_move_right,
    spec_move_word_left, spec_move_word_right, spec_move_up, spec_move_down, spec_goto_line,
    spec_find_next, spec_jump_to_match, ins_newline_raw, Kind, fwd_while, word_end_after, is_word, is_space, join_lines, clamp_col, with_cursor, search_from, occurs_at, first_match_from, find_target,
    Scan, scan_forward, scan_backward, scan_backward_at, match_target, char_at, bracket_pair, line_len,
};

verus! {

/// The editing operations that record an undo step.
pub enum Edit {
    InsertChar(char),
    InsertNewline,
    InsertText(Seq<char>),
    Indent,
    Dedent,
    Backspace,
    Delete,
    DeleteWordForward,
    DeleteWordBackward,
    DeleteToEndOfLine,
    DuplicateLine,
}

pub open spec fn apply_edit(d: DocView, e: Edit) -> DocView {
    match e {
        Edit::InsertChar(c) => spec_insert_char(d, c),
        Edit::InsertNewline => spec_insert_newline(d),
        Edit::InsertText(t) => spec_insert_text(d, t),
        Edit::Indent => spec_indent(d),
        Edit::Dedent => spec_dedent(d),
        Edit::Backspace => spec_backspace(d),
        Edit::Delete => spec_delete(d),
        Edit::DeleteWordForward => spec_delete_word_forward(d),
        Edit::DeleteWordBackward => spec_delete_word_backward(d),
        Edit::DeleteToEndOfLine => spec_delete_to_end_of_line(d),
        Edit::DuplicateLine => spec_duplicate_line(d),
    }
}

/// The edit does something (and so records an undo step): text to insert,
/// something before the cursor to delete, something after it to delete.
pub open spec fn edit_acts(d: DocView, e: Edit) -> bool {
    match e {
        Edit::InsertText(t) => t.len() > 0,
        Edit::Backspace => !(d.cursor_col == 0 && d.cursor_line == 0),
        Edit::Delete => !(d.cursor_col == gcount(cur_line(d)) && d.cursor_line + 1 >= d.lines.len()),
        Edit::DeleteWordBackward => d.cursor_col > 0,
        _ => true,
    }
}

proof fn lemma_type_chars_keeps_history(d: DocView, t: Seq<char>)
    ensures
        type_chars(d, t).undo == d.undo,
        type_chars(d, t).redo == d.redo,
    decreases t.len(),
{
    if t.len() > 0 {
        lemma_type_chars_keeps_history(d, t.drop_last());
    }
}

proof fn lemma_edit_history(d: DocView, e: Edit)
    requires
        edit_acts(d, e),
    ensures
        apply_edit(d, e).undo == d.undo.push(snap(d)),
        apply_edit(d, e).redo == Seq::<SnapView>::empty(),
{
    if let Edit::InsertText(t) = e {
        lemma_type_chars_keeps_history(pushed(d), t);
    }
}

/// Undo after an edit gives back the lines and the cursor as they were
/// before the edit, and the undo history as it was.
pub proof fn lemma_undo_reverts_edit(d: DocView, e: Edit)
    requires
        edit_acts(d, e),
    ensures
        spec_undo(apply_edit(d, e)).lines == d.lines,
        spec_undo(apply_edit(d, e)).cursor_line == d.cursor_line,
        spec_undo(apply_edit(d, e)).cursor_col == d.cursor_col,
        spec_undo(apply_edit(d, e)).undo == d.undo,
{
    lemma_edit_history(d, e);
    let a = apply_edit(d, e);
    assert(a.undo.drop_last() =~= d.undo);
}

/// Every edit that acts clears the redo history.
pub proof fn lemma_edit_clears_redo(d: DocView, e: Edit)
    requires
        edit_acts(d, e),
    ensures
        apply_edit(d, e).redo.len() == 0,
{
    lemma_edit_history(d, e);
}

/// Redo right after undo gives back the lines and cursor that undo left.
pub proof fn lemma_redo_after_undo(d: DocView)
    requires
        d.undo.len() > 0,
    ensures
        spec_redo(spec_undo(d)).lines == d.lines,
        spec_redo(spec_undo(d)).cursor_line == d.cursor_line,
        spec_redo(spec_undo(d)).cursor_col == d.cursor_col,
        spec_redo(spec_undo(d)).redo == d.redo,
        spec_redo(spec_undo(d)).undo == d.undo,
{
    let u = spec_undo(d);
    assert(u.redo.drop_last() =~= d.redo);
    assert(u.undo.push(snap(u)).drop_last() =~= u.undo);
    assert(d.undo.drop_last().push(d.undo.last()) =~= d.undo);
}

/// Undo right after redo gives back the lines and cursor that redo left.
pub proof fn lemma_undo_after_redo(d: DocView)
    requires
        d.redo.len() > 0,
    ensures
        spec_undo(spec_redo(d)).lines == d.lines,
        spec_undo(spec_redo(d)).cursor_line == d.cursor_line,
        spec_undo(spec_redo(d)).cursor_col == d.cursor_col,
        spec_undo(spec_redo(d)).redo == d.redo,
        spec_undo(spec_redo(d)).undo == d.undo,
{
    let r = spec_redo(d);
    assert(r.undo.drop_last() =~= d.undo);
    assert(d.redo.drop_last().push(d.redo.last()) =~= d.redo);
}

proof fn lemma_lead_spaces_indent(l: Seq<char>)
    ensures
        lead_spaces(indent_str() + l, INDENT_WIDTH as int) == INDENT_WIDTH,
{
    let s = indent_str() + l;
    assert(s.drop_first() =~= seq![' ', ' ', ' '] + l);
    assert(s.drop_first().drop_first() =~= seq![' ', ' '] + l);
    assert(s.drop_first().drop_first().drop_first() =~= seq![' '] + l);
    assert(s.drop_first().drop_first().drop_first().drop_first() =~= l);
    reveal_with_fuel(lead_spaces, 5);
}

/// Dedent right after indent gives back the line and the cursor column.
pub proof fn lemma_dedent_after_indent(d: DocView)
    requires
        doc_ok(d),
        d.cursor_col + INDENT_WIDTH <= usize::MAX,
    ensures
        spec_dedent(spec_indent(d)).lines == d.lines,
        spec_dedent(spec_indent(d)).cursor_col == d.cursor_col,
        spec_dedent(spec_indent(d)).cursor_line == d.cursor_line,
{
    lemma_lead_spaces_indent(cur_line(d));
    let i = spec_indent(d);
    assert(cur_line(i) == indent_str() + cur_line(d));
    assert((indent_str() + cur_line(d)).skip(4) =~= cur_line(d));
    assert(spec_dedent(i).lines =~= d.lines);
}

/// Cursor movement leaves the text, the history and the dirty mark alone.
pub proof fn lemma_moves_keep_text(d: DocView, n: int)
    ensures
        spec_move_left(d).lines == d.lines && spec_move_left(d).undo == d.undo
            && spec_move_left(d).dirty == d.dirty,
        spec_move_right(d).lines == d.lines && spec_move_right(d).undo == d.undo
            && spec_move_right(d).dirty == d.dirty,
        spec_move_word_left(d).lines == d.lines && spec_move_word_left(d).undo == d.undo,
        spec_move_word_right(d).lines == d.lines && spec_move_word_right(d).undo == d.undo,
        spec_move_up(d, n).lines == d.lines && spec_move_down(d, n).lines == d.lines,
        spec_goto_line(d, n).lines == d.lines,
        spec_find_next(d, seq!['x']).lines == d.lines,
        spec_jump_to_match(d).lines == d.lines,
{
}

/// `duplicate_line` puts an exact copy of the line below it and moves there.
pub proof fn lemma_duplicate_line_copies(d: DocView)
    requires
        doc_ok(d),
    ensures
        spec_duplicate_line(d).lines.len() == d.lines.len() + 1,
        spec_duplicate_line(d).lines[d.cursor_line + 1] == cur_line(d),
        spec_duplicate_line(d).lines[d.cursor_line as int] == cur_line(d),
        cur_line(spec_duplicate_line(d)) == cur_line(d),
{
}

/// Where the search for `needle` stops at line offset `offset` or later,
/// `needle` occurs there.
proof fn lemma_search_sound(d: DocView, needle: Seq<char>, offset: int)
    ensures
        search_from(d, needle, offset) matches Some((li, m)) ==>
            0 <= li < d.lines.len() && occurs_at(d.lines[li], needle, m),
    decreases d.lines.len() + 1 - offset,
{
    let n = d.lines.len() as int;
    if !(offset < 0 || offset > n || n == 0) {
        let li = (d.cursor_line + offset) % n;
        let l = d.lines[li];
        let from = if offset == 0 { col_offset_of(l, d.cursor_col + 1) } else { 0 };
        lemma_first_match_sound(l, needle, from);
        lemma_search_sound(d, needle, offset + 1);
    }
}

spec fn col_offset_of(l: Seq<char>, c: int) -> int {
    crate::text::col_offset(l, c)
}

proof fn lemma_first_match_sound(hay: Seq<char>, needle: Seq<char>, from: int)
    ensures
        first_match_from(hay, needle, from) matches Some(m) ==> occurs_at(hay, needle, m) && from <= m,
    decreases hay.len() - from,
{
    if !(from < 0 || from + needle.len() > hay.len()) && !occurs_at(hay, needle, from) && from < hay.len() {
        lemma_first_match_sound(hay, needle, from + 1);
    }
}

proof fn lemma_first_match_complete(hay: Seq<char>, needle: Seq<char>, from: int, m: int)
    requires
        0 <= from <= m,
        occurs_at(hay, needle, m),
    ensures
        first_match_from(hay, needle, from) is Some,
    decreases m - from,
{
    if !occurs_at(hay, needle, from) {
        assert(from < hay.len() || needle.len() == 0);
        if from < m {
            lemma_first_match_complete(hay, needle, from + 1, m);
        }
    }
}

/// If a search from offset `offset` fails, `needle` occurs in none of the
/// lines it visits from their start.
proof fn lemma_search_complete(d: DocView, needle: Seq<char>, offset: int, k: int, m: int)
    requires
        doc_ok(d),
        1 <= offset <= k <= d.lines.len(),
        occurs_at(d.lines[(d.cursor_line + k) % (d.lines.len() as int)], needle, m),
    ensures
        search_from(d, needle, offset) is Some,
    decreases k - offset,
{
    let n = d.lines.len() as int;
    let li = (d.cursor_line + offset) % n;
    if first_match_from(d.lines[li], needle, 0) is None {
        if offset == k {
            lemma_first_match_complete(d.lines[li], needle, 0, m);
        } else {
            lemma_search_complete(d, needle, offset + 1, k, m);
        }
    }
}

/// `find_next` succeeds exactly when the needle is not empty and occurs
/// somewhere in the document, and where it stops the needle occurs.
pub proof fn lemma_find_next(d: DocView, needle: Seq<char>)
    requires
        doc_ok(d),
    ensures
        find_target(d, needle) is Some <==> (needle.len() > 0
            && exists|i: int, m: int| 0 <= i < d.lines.len() && #[trigger] occurs_at(d.lines[i], needle, m)),
        find_target(d, needle) matches Some((li, m)) ==> 0 <= li < d.lines.len()
            && occurs_at(d.lines[li], needle, m),
{
    lemma_search_sound(d, needle, 0);
    if needle.len() > 0 {
        if exists|i: int, m: int| 0 <= i < d.lines.len() && #[trigger] occurs_at(d.lines[i], needle, m) {
            let (i, m) = choose|i: int, m: int| 0 <= i < d.lines.len() && #[trigger] occurs_at(d.lines[i], needle, m);
            let n = d.lines.len() as int;
            // the line at offset k from the cursor line is line i
            let k = if i >= d.cursor_line { i - d.cursor_line } else { i + n - d.cursor_line };
            let k2 = if k == 0 { n } else { k };
            assert((d.cursor_line + k2) % n == i) by (nonlinear_arith)
                requires
                    0 <= d.cursor_line < n,
                    0 <= i < n,
                    k == if i >= d.cursor_line { i - d.cursor_line } else { i + n - d.cursor_line },
                    k2 == if k == 0 { n } else { k },
            {
            }
            if search_from(d, needle, 0) is None {
                lemma_search_complete(d, needle, 1, k2, m);
            }
        }
    }
}

/// Positions in the lines fit in `usize` (true of lines held in memory).
pub open spec fn positions_fit(lines: Seq<Seq<char>>) -> bool {
    &&& lines.len() <= usize::MAX
    &&& forall|i: int| 0 <= i < lines.len() ==> gcount(#[trigger] lines[i]) <= usize::MAX
}

/// `(l1, c1)` comes before `(l2, c2)` in the text.
pub open spec fn before(l1: int, c1: int, l2: int, c2: int) -> bool {
    l1 < l2 || (l1 == l2 && c1 < c2)
}

proof fn lemma_scan_forward_found(lines: Seq<Seq<char>>, l: int, c: int, depth: int, open: char, close: char)
    requires
        positions_fit(lines),
    ensures
        scan_forward(lines, l, c, depth, open, close) matches Scan::Found(fl, fc) ==> {
            &&& char_at(lines, fl as int, fc as int) == Some(close)
            &&& before(l, c, fl as int, fc as int)
        },
    decreases lines.len() - l, line_len(lines, l) - c,
{
    if l < 0 || c < 0 || l >= lines.len() {
    } else {
        let c1 = c + 1;
        let (nl, nc) = if c1 >= line_len(lines, l) { (l + 1, 0int) } else { (l, c1) };
        if nl < lines.len() {
            let d2 = match char_at(lines, nl, nc) {
                Some(ch) => if ch == open { depth + 1 } else if ch == close { depth - 1 } else { depth },
                None => depth,
            };
            lemma_scan_forward_found(lines, nl, nc, d2, open, close);
        }
    }
}

proof fn lemma_scan_backward_found(lines: Seq<Seq<char>>, l: int, c: int, depth: int, open: char, close: char)
    requires
        positions_fit(lines),
    ensures
        scan_backward(lines, l, c, depth, open, close) matches Scan::Found(fl, fc) ==> {
            &&& char_at(lines, fl as int, fc as int) == Some(open)
            &&& before(fl as int, fc as int, l, c)
        },
    decreases l, 2 * c,
{
    if l < 0 || c < 0 || l >= lines.len() {
    } else if c == 0 {
        if l > 0 {
            let n = line_len(lines, l - 1);
            if n == 0 {
                lemma_scan_backward_found(lines, l - 1, 0, depth, open, close);
            } else {
                lemma_scan_backward_at_found(lines, l - 1, n - 1, depth, open, close);
            }
        }
    } else {
        lemma_scan_backward_at_found(lines, l, c - 1, depth, open, close);
    }
}

proof fn lemma_scan_backward_at_found(lines: Seq<Seq<char>>, l: int, c: int, depth: int, open: char, close: char)
    requires
        positions_fit(lines),
    ensures
        scan_backward_at(lines, l, c, depth, open, close) matches Scan::Found(fl, fc) ==> {
            &&& char_at(lines, fl as int, fc as int) == Some(open)
            &&& (fl == l && fc == c) || before(fl as int, fc as int, l, c)
        },
    decreases l, 2 * c + 1,
{
    if l < 0 || c < 0 || l >= lines.len() {
    } else {
        let d2 = match char_at(lines, l, c) {
            Some(ch) => if ch == close { depth + 1 } else if ch == open { depth - 1 } else { depth },
            None => depth,
        };
        lemma_scan_backward_found(lines, l, c, d2, open, close);
    }
}

/// Jumping to the match of a bracket lands on its partner: on the closing
/// bracket after it for an opening one, on the opening bracket before it
/// for a closing one.
pub proof fn lemma_match_is_partner(d: DocView)
    requires
        positions_fit(d.lines),
    ensures
        match_target(d) matches Scan::Found(l, c) ==> {
            let cur = char_at(d.lines, d.cursor_line as int, d.cursor_col as int)->0;
            let (open, close) = bracket_pair(cur)->0;
            &&& char_at(d.lines, d.cursor_line as int, d.cursor_col as int) is Some
            &&& bracket_pair(cur) is Some
            &&& if cur == open {
                char_at(d.lines, l as int, c as int) == Some(close)
                    && before(d.cursor_line as int, d.cursor_col as int, l as int, c as int)
            } else {
                char_at(d.lines, l as int, c as int) == Some(open)
                    && before(l as int, c as int, d.cursor_line as int, d.cursor_col as int)
            }
            &&& spec_jump_to_match(d).cursor_line == l
            &&& spec_jump_to_match(d).cursor_col == c
            &&& spec_jump_to_match(d).lines == d.lines
        },
{
    match char_at(d.lines, d.cursor_line as int, d.cursor_col as int) {
        Some(cur) => match bracket_pair(cur) {
            Some((open, close)) => {
                if cur == open {
                    lemma_scan_forward_found(d.lines, d.cursor_line as int, d.cursor_col as int, 0, open, close);
                } else {
                    lemma_scan_backward_found(d.lines, d.cursor_line as int, d.cursor_col as int, 0, open, close);
                }
            },
            None => {},
        },
        None => {},
    }
}

proof fn lemma_first_match_least(hay: Seq<char>, needle: Seq<char>, from: int, m2: int)
    requires
        0 <= from <= m2,
        occurs_at(hay, needle, m2),
    ensures
        first_match_from(hay, needle, from) matches Some(m) && m <= m2,
    decreases m2 - from,
{
    if !occurs_at(hay, needle, from) {
        assert(from < hay.len() || needle.len() == 0);
        if from < m2 {
            lemma_first_match_least(hay, needle, from + 1, m2);
        }
    }
}

/// Where an occurrence at line `i`, character offset `m` comes in the order
/// in which `find_next` searches: the rest of the cursor line after the
/// cursor first (rank 0), then the following lines, wrapping round (ranks
/// 1 to n - 1), and the cursor line up to the cursor last (rank n).
pub open spec fn search_rank(d: DocView, i: int, m: int) -> int {
    let n = d.lines.len() as int;
    let cl = d.cursor_line as int;
    if i == cl {
        if m >= crate::text::col_offset(d.lines[cl], d.cursor_col + 1) { 0 } else { n }
    } else if i > cl {
        i - cl
    } else {
        i - cl + n
    }
}

/// `(i1, m1)` comes before `(i2, m2)` in the search order.
pub open spec fn searched_before(d: DocView, i1: int, m1: int, i2: int, m2: int) -> bool {
    search_rank(d, i1, m1) < search_rank(d, i2, m2)
        || (search_rank(d, i1, m1) == search_rank(d, i2, m2) && m1 < m2)
}

proof fn lemma_search_first(d: DocView, needle: Seq<char>, o: int)
    requires
        doc_ok(d),
        needle.len() > 0,
        0 <= o,
        forall|i: int, m2: int| 0 <= i < d.lines.len() && #[trigger] occurs_at(d.lines[i], needle, m2)
            ==> search_rank(d, i, m2) >= o,
    ensures
        search_from(d, needle, o) matches Some((li, m)) ==> 0 <= li < d.lines.len() && forall|i: int, m2: int|
            0 <= i < d.lines.len() && #[trigger] occurs_at(d.lines[i], needle, m2) ==> !searched_before(d, i, m2, li, m),
    decreases d.lines.len() + 1 - o,
{
    let n = d.lines.len() as int;
    let cl = d.cursor_line as int;
    if o <= n {
        let li = (cl + o) % n;
        assert(li == if o == 0 || o == n { cl } else if cl + o < n { cl + o } else { cl + o - n }) by (nonlinear_arith)
            requires
                0 <= cl < n,
                0 <= o <= n,
                li == (cl + o) % n,
        {
        }
        let l = d.lines[li];
        let from0 = crate::text::col_offset(d.lines[cl], d.cursor_col + 1);
        let from = if o == 0 { from0 } else { 0 };
        assert(from >= 0) by {
            crate::text::lemma_gstart_nonneg(grapheme_clusters(d.lines[cl]), d.cursor_col + 1);
        }
        match first_match_from(l, needle, from) {
            Some(m) => {
                lemma_first_match_sound(l, needle, from);
                assert(search_rank(d, li, m) == o);
                assert forall|i: int, m2: int| 0 <= i < d.lines.len() && #[trigger] occurs_at(d.lines[i], needle, m2)
                    implies !searched_before(d, i, m2, li, m) by {
                    if search_rank(d, i, m2) == o {
                        assert(i == li);
                        if m2 < m {
                            if m2 >= from {
                                lemma_first_match_least(l, needle, from, m2);
                            } else {
                                assert(o == n);
                                lemma_first_match_least(l, needle, 0, m2);
                            }
                        }
                    }
                }
            },
            None => {
                assert forall|i: int, m2: int| 0 <= i < d.lines.len() && #[trigger] occurs_at(d.lines[i], needle, m2)
                    implies search_rank(d, i, m2) >= o + 1 by {
                    if search_rank(d, i, m2) == o {
                        assert(i == li);
                        if m2 >= from {
                            lemma_first_match_least(l, needle, from, m2);
                        } else {
                            assert(o == n);
                            assert(m2 >= 0);
                        }
                    }
                }
                lemma_search_first(d, needle, o + 1);
            },
        }
    }
}

/// `find_next` lands on the first occurrence of the needle reading forward
/// from just after the cursor, wrapping round past the end, the cursor's
/// own position and what comes before it on its line being tried last.
pub proof fn lemma_find_next_is_first(d: DocView, needle: Seq<char>)
    requires
        doc_ok(d),
    ensures
        find_target(d, needle) matches Some((li, m)) ==> forall|i: int, m2: int|
            0 <= i < d.lines.len() && #[trigger] occurs_at(d.lines[i], needle, m2)
            ==> !searched_before(d, i, m2, li, m),
{
    if needle.len() > 0 {
        lemma_search_first(d, needle, 0);
    }
}

/// Undo for every edit, in one statement: an edit that does not act leaves
/// the document exactly as it was; one that acts is undone exactly, the
/// document coming back whole (its id, path, lines, cursor and undo
/// history), marked modified, with the edited state as the only step to
/// redo.
pub proof fn lemma_undo_any_edit(d: DocView, e: Edit)
    ensures
        !edit_acts(d, e) ==> apply_edit(d, e) == d,
        edit_acts(d, e) ==> spec_undo(apply_edit(d, e))
            == (DocView { dirty: true, redo: seq![snap(apply_edit(d, e))], ..d }),
{
    if edit_acts(d, e) {
        lemma_edit_history(d, e);
        let a = apply_edit(d, e);
        assert(a.undo.drop_last() =~= d.undo);
        assert(a.redo.push(snap(a)) =~= seq![snap(a)]);
        if let Edit::InsertText(t) = e {
            super::model::lemma_insert_text_keeps_id(d, t);
        }
    }
}

/// Redo and undo undo each other, in one statement: redo right after undo,
/// and undo right after redo, give back the whole document, marked
/// modified.
pub proof fn lemma_redo_undo_inverse(d: DocView)
    ensures
        d.undo.len() > 0 ==> spec_redo(spec_undo(d)) == (DocView { dirty: true, ..d }),
        d.redo.len() > 0 ==> spec_undo(spec_redo(d)) == (DocView { dirty: true, ..d }),
{
    if d.undo.len() > 0 {
        lemma_redo_after_undo(d);
    }
    if d.redo.len() > 0 {
        lemma_undo_after_redo(d);
    }
}

/// A backspace right after a line break takes the break out again: the
/// lines are as before and the cursor is back on its line. (That a
/// backspace takes back a typed character is not stated: the typed
/// character may join the cluster before it, and the split into clusters
/// is only named.) The cursor line's clusters are taken to be as the
/// split gives them: non-empty, and covering the line.
pub proof fn lemma_backspace_undoes_newline(d: DocView)
    requires
        doc_ok(d),
        d.cursor_line + 1 <= usize::MAX,
        forall|i: int| 0 <= i < gcount(cur_line(d)) ==> (#[trigger] grapheme_clusters(cur_line(d))[i]).len() > 0,
        crate::text::concat_all(grapheme_clusters(cur_line(d))) == cur_line(d),
    ensures
        spec_backspace(spec_insert_newline(d)).lines == d.lines,
        spec_backspace(spec_insert_newline(d)).cursor_line == d.cursor_line,
{
    let cl = d.cursor_line as int;
    let l = cur_line(d);
    let k = crate::text::col_offset(l, d.cursor_col as int);
    crate::text::lemma_offsets(l);
    assert(0 <= k <= l.len());
    let e = spec_insert_newline(d);
    assert(e.lines[cl + 1] == l.skip(k));
    assert(e.lines[cl] == l.take(k));
    assert(l.take(k) + l.skip(k) =~= l);
    assert(e.lines.remove(cl + 1).update(cl, l.take(k) + l.skip(k)) =~= d.lines);
}

/// Moving up `n` lines lands exactly `n` lines higher, or on the first line
/// when there are fewer than `n` above; the text stays and the column is
/// kept as far as the new line allows.
pub proof fn lemma_move_up_counts(d: DocView, n: int)
    requires
        doc_ok(d),
        n >= 0,
    ensures
        spec_move_up(d, n).lines == d.lines,
        n <= d.cursor_line ==> spec_move_up(d, n).cursor_line + n == d.cursor_line,
        n > d.cursor_line ==> spec_move_up(d, n).cursor_line == 0,
        spec_move_up(d, n).cursor_col == if d.cursor_col <= gcount(d.lines[spec_move_up(d, n).cursor_line as int]) {
            d.cursor_col as int
        } else {
            gcount(d.lines[spec_move_up(d, n).cursor_line as int])
        },
{
}

/// The number of line breaks in a text.
pub open spec fn newlines(s: Seq<char>) -> int
    decreases s.len(),
{
    if s.len() == 0 {
        0
    } else {
        newlines(s.drop_last()) + if s.last() == '\n' { 1int } else { 0int }
    }
}

/// The total length of the lines.
pub open spec fn total_len(ls: Seq<Seq<char>>) -> int
    decreases ls.len(),
{
    if ls.len() == 0 {
        0
    } else {
        total_len(ls.drop_last()) + ls.last().len()
    }
}

proof fn lemma_newlines_concat(a: Seq<char>, b: Seq<char>)
    ensures
        newlines(a + b) == newlines(a) + newlines(b),
    decreases b.len(),
{
    if b.len() == 0 {
        assert(a + b =~= a);
    } else {
        lemma_newlines_concat(a, b.drop_last());
        assert((a + b).drop_last() =~= a + b.drop_last());
    }
}

/// Saving loses no line and adds none: the saved text of lines holding no
/// line break has exactly one break between each two lines (blank lines
/// included), and its length is that of the lines plus those breaks.
pub proof fn lemma_save_keeps_every_line(ls: Seq<Seq<char>>)
    requires
        ls.len() > 0,
        forall|i: int, k: int| 0 <= i < ls.len() && 0 <= k < ls[i].len() ==> (#[trigger] ls[i][k]) != '\n',
    ensures
        newlines(join_lines(ls)) == ls.len() - 1,
        join_lines(ls).len() == total_len(ls) + ls.len() - 1,
    decreases ls.len(),
{
    lemma_no_newline(ls.last());
    if ls.len() == 1 {
        assert(join_lines(ls) == ls[0]);
        assert(ls.last() == ls[0]);
        assert(total_len(ls.drop_last()) == 0);
    } else {
        let p = ls.drop_last();
        assert forall|i: int, k: int| 0 <= i < p.len() && 0 <= k < p[i].len() implies (#[trigger] p[i][k]) != '\n' by {
            assert(p[i] == ls[i]);
        }
        lemma_save_keeps_every_line(p);
        lemma_newlines_concat(join_lines(p), seq!['\n']);
        lemma_newlines_concat(join_lines(p) + seq!['\n'], ls.last());
        assert(seq!['\n'].drop_last() =~= Seq::<char>::empty());
        assert(newlines(seq!['\n']) == 1) by {
            let one = seq!['\n'];
            assert(one.len() == 1 && one.last() == '\n');
            assert(newlines(one.drop_last()) == 0);
        }
        assert(join_lines(ls) == join_lines(p) + seq!['\n'] + ls.last());
        assert(total_len(ls) == total_len(p) + ls.last().len());
    }
}

proof fn lemma_no_newline(l: Seq<char>)
    requires
        forall|k: int| 0 <= k < l.len() ==> l[k] != '\n',
    ensures
        newlines(l) == 0,
    decreases l.len(),
{
    if l.len() > 0 {
        lemma_no_newline(l.drop_last());
    }
}

proof fn lemma_fwd_while_run(gs: Seq<Seq<char>>, i: int, m: int, k: Kind)
    requires
        0 <= i <= m <= gs.len(),
        forall|j: int| i <= j < m ==> #[trigger] super::model::has_kind(gs[j], k),
        m < gs.len() ==> !super::model::has_kind(gs[m], k),
    ensures
        fwd_while(gs, i, k) == m,
    decreases m - i,
{
    if i < m {
        lemma_fwd_while_run(gs, i + 1, m, k);
    }
}

/// A word-forward move (Ctrl-Right) from the start of a word goes past the
/// whole word and the white space after it. Stated over the line's
/// clusters: a run `ws` of clusters each beginning with a letter, a digit
/// or `_`, then a white-space cluster `sp`, then clusters `rs` that do not
/// begin with white space; from column 0 the cursor lands on column
/// `|ws| + 1`, the start of `rs`.
pub proof fn lemma_word_right_skips_word_and_space(d: DocView, ws: Seq<Seq<char>>, sp: Seq<char>, rs: Seq<Seq<char>>)
    requires
        d.cursor_col == 0,
        grapheme_clusters(cur_line(d)) == ws + seq![sp] + rs,
        0 < ws.len() < usize::MAX,
        forall|i: int| 0 <= i < ws.len() ==> (#[trigger] ws[i]).len() > 0
            && (alphanumeric(ws[i][0]) || ws[i][0] == '_'),
        sp.len() > 0,
        forall|k: int| 0 <= k < sp.len() ==> is_ws(#[trigger] sp[k]),
        !alphanumeric(sp[0]),
        rs.len() > 0 ==> rs[0].len() > 0 && !is_ws(rs[0][0]),
    ensures
        spec_move_word_right(d).cursor_col == ws.len() + 1,
        spec_move_word_right(d).cursor_line == d.cursor_line,
        spec_move_word_right(d).lines == d.lines,
{
    let gs = grapheme_clusters(cur_line(d));
    let w = ws.len() as int;
    assert forall|j: int| 0 <= j < w implies #[trigger] super::model::has_kind(gs[j], Kind::Word) by {
        assert(gs[j] == ws[j]);
    }
    assert(gs[w] == sp);
    assert(!is_word(sp)) by {
        assert(is_ws(sp[0]));
        assert(sp[0] != '_');
    }
    lemma_fwd_while_run(gs, 0, w, Kind::Word);
    assert(is_space(gs[w]));
    if w + 1 < gs.len() {
        assert(gs[w + 1] == rs[0]);
        assert(!is_space(gs[w + 1]));
    }
    assert forall|j: int| w <= j < w + 1 implies #[trigger] super::model::has_kind(gs[j], Kind::Space) by {}
    lemma_fwd_while_run(gs, w, w + 1, Kind::Space);
    assert(is_word(gs[0]));
    assert(word_end_after(gs, 0) == w + 1);
}

proof fn lemma_concat_all_add(a: Seq<Seq<char>>, b: Seq<Seq<char>>)
    ensures
        crate::text::concat_all(a + b) == crate::text::concat_all(a) + crate::text::concat_all(b),
    decreases b.len(),
{
    if b.len() == 0 {
        assert(a + b =~= a);
        assert(crate::text::concat_all(a) + crate::text::concat_all(b) =~= crate::text::concat_all(a));
    } else {
        lemma_concat_all_add(a, b.drop_last());
        assert((a + b).drop_last() =~= a + b.drop_last());
        assert((a + b).last() == b.last());
        assert(crate::text::concat_all(a) + crate::text::concat_all(b)
            =~= crate::text::concat_all(a) + crate::text::concat_all(b.drop_last()) + b.last());
    }
}

proof fn lemma_gstart_prefix_len(gs: Seq<Seq<char>>, i: int)
    requires
        0 <= i <= gs.len(),
    ensures
        crate::text::gstart(gs, i) == crate::text::concat_all(gs.take(i)).len(),
    decreases i,
{
    if i > 0 {
        lemma_gstart_prefix_len(gs, i - 1);
        assert(gs.take(i).drop_last() =~= gs.take(i - 1));
        assert(gs.take(i).last() == gs[i - 1]);
    } else {
        assert(gs.take(0) =~= Seq::<Seq<char>>::empty());
    }
}

/// Deleting a word forward (Alt-D, Ctrl-Delete) from the start of a word
/// takes out the whole word and the white space after it, and nothing
/// else: with the line's clusters as in `lemma_word_right_skips_word_and_space`
/// (and covering the line, as the split gives them), the line becomes the
/// text of the clusters `rs` after the white space.
pub proof fn lemma_delete_word_forward_takes_word_and_space(d: DocView, ws: Seq<Seq<char>>, sp: Seq<char>, rs: Seq<Seq<char>>)
    requires
        doc_ok(d),
        d.cursor_col == 0,
        grapheme_clusters(cur_line(d)) == ws + seq![sp] + rs,
        crate::text::concat_all(grapheme_clusters(cur_line(d))) == cur_line(d),
        0 < ws.len() < usize::MAX,
        forall|i: int| 0 <= i < ws.len() ==> (#[trigger] ws[i]).len() > 0
            && (alphanumeric(ws[i][0]) || ws[i][0] == '_'),
        sp.len() > 0,
        forall|k: int| 0 <= k < sp.len() ==> is_ws(#[trigger] sp[k]),
        !alphanumeric(sp[0]),
        rs.len() > 0 ==> rs[0].len() > 0 && !is_ws(rs[0][0]),
    ensures
        spec_delete_word_forward(d).lines[d.cursor_line as int] == crate::text::concat_all(rs),
{
    let l = cur_line(d);
    let gs = grapheme_clusters(l);
    let w = ws.len() as int;
    assert forall|j: int| 0 <= j < w implies #[trigger] super::model::has_kind(gs[j], Kind::Word) by {
        assert(gs[j] == ws[j]);
    }
    assert(gs[w] == sp);
    assert(!is_word(sp)) by {
        assert(is_ws(sp[0]));
        assert(sp[0] != '_');
    }
    lemma_fwd_while_run(gs, 0, w, Kind::Word);
    assert(is_space(gs[w]));
    if w + 1 < gs.len() {
        assert(gs[w + 1] == rs[0]);
        assert(!is_space(gs[w + 1]));
    }
    assert forall|j: int| w <= j < w + 1 implies #[trigger] super::model::has_kind(gs[j], Kind::Space) by {}
    lemma_fwd_while_run(gs, w, w + 1, Kind::Space);
    assert(is_word(gs[0]));
    let e = w + 1;
    assert(word_end_after(gs, 0) == e);
    // the text up to the end of `sp`, and what follows it
    lemma_concat_all_add(gs.take(e), gs.skip(e));
    assert(gs.take(e) + gs.skip(e) =~= gs);
    assert(gs.skip(e) =~= rs);
    lemma_gstart_prefix_len(gs, e);
    lemma_gstart_prefix_len(gs, 0);
    let pre = crate::text::concat_all(gs.take(e));
    assert(l == pre + crate::text::concat_all(rs));
    let s = crate::text::col_offset(l, 0);
    let t = crate::text::col_offset(l, e);
    assert(s == 0);
    assert(t == pre.len()) by {
        if e >= gs.len() {
            assert(rs.len() == 0);
            assert(crate::text::concat_all(rs) =~= Seq::<char>::empty());
        }
    }
    assert(super::model::splice(l, s, t, Seq::empty()) =~= crate::text::concat_all(rs));
}

} // verus!
