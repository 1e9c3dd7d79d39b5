//! A document: one open buffer with its lines, cursor and undo history.
//!
//! Columns count grapheme clusters; every operation is proved to act on the
//! model `DocView` as the spec function of the same name in `model` says.

pub mod model;
pub mod laws;
pub mod brackets;

use vstd::prelude::*;
use crate::text::{
    LineClusters, line_clusters, chars_of, string_of, col_offset, gcount, grapheme_clusters,
};
use crate::text_ops::{splice_string, clone_strings, line_chars};
use self::model::{
    DocView, SnapView, doc_ok, snap, pushed, cur_line, with_cur_line, splice, lines_ok, snap_ok,
    ins_char_raw, ins_newline_raw, spec_insert_char, spec_insert_newline, spec_undo, spec_redo,
    restore, max_lines, spec_indent, spec_dedent, indent_str, lead_spaces, spec_backspace,
    spec_delete, type_chars, spec_insert_text, INDENT_WIDTH, Kind, has_kind, is_word, is_space,
    is_punct, back_while, fwd_while, word_start_before, word_end_after, spec_move_left,
    spec_move_right, spec_move_word_left, spec_move_word_right, clamp_col, spec_move_up,
    spec_move_down, spec_goto_line, with_cursor, min_int, spec_delete_word_forward,
    spec_delete_word_backward, spec_delete_to_end_of_line, spec_duplicate_line, search_from,
    find_target, spec_find_next, first_match_from, span_end, replace_ok, spec_replace_next,
    replace_at_cursor, Scan, scan_forward, scan_backward, scan_backward_at, match_target,
    spec_jump_to_match, char_at, line_len, bracket_pair, fresh, join_lines,
    spec_goto_end_of_file, spec_goto_start_of_file, spec_goto_end_of_line, spec_goto_start_of_line,
    spec_set_cursor, spec_set_lines, max_int,
};
use crate::text::{split_lines, text_lines};
use crate::text::{clusters_before, count_starts_before, char_utf8_len, gstart, utf8_len};
use crate::text_ops::first_match_exec;
use crate::text::{char_is_alphanumeric, char_is_whitespace};

verus! {

/// Lines and cursor saved for undo and redo.
struct Snapshot {
    lines: Vec<String>,
    cursor_line: usize,
    cursor_col: usize,
}

/// The characters of each line.
pub open spec fn lines_view(v: Seq<String>) -> Seq<Seq<char>> {
    v.map_values(|s: String| s@)
}

pub open spec fn path_view(p: Option<String>) -> Option<Seq<char>> {
    match p {
        Some(s) => Some(s@),
        None => None,
    }
}

impl Snapshot {
    spec fn view(&self) -> SnapView {
        SnapView { lines: lines_view(self.lines@), cursor_line: self.cursor_line, cursor_col: self.cursor_col }
    }
}

spec fn snaps_view(v: Seq<Snapshot>) -> Seq<SnapView> {
    v.map_values(|s: Snapshot| s.view())
}

/// One open buffer.
pub struct Document {
    pub path: Option<String>,
    pub lines: Vec<String>,
    pub cursor_line: usize,
    pub cursor_col: usize,
    pub dirty: bool,
    pub read_only: bool,
    pub id: u64,
    undo_stack: Vec<Snapshot>,
    redo_stack: Vec<Snapshot>,
}

impl View for Document {
    type V = DocView;

    closed spec fn view(&self) -> DocView {
        DocView {
            path: path_view(self.path),
            lines: lines_view(self.lines@),
            cursor_line: self.cursor_line,
            cursor_col: self.cursor_col,
            dirty: self.dirty,
            read_only: self.read_only,
            id: self.id,
            undo: snaps_view(self.undo_stack@),
            redo: snaps_view(self.redo_stack@),
        }
    }
}

impl Document {
    /// The document is well formed.
    pub open spec fn wf(&self) -> bool {
        doc_ok(self@)
    }

    /// A document with one empty line and no path.
    pub fn new_empty() -> (r: Self)
        ensures
            r@ == (DocView {
                path: None,
                lines: seq![Seq::empty()],
                cursor_line: 0,
                cursor_col: 0,
                dirty: false,
                read_only: false,
                id: 0,
                undo: Seq::empty(),
                redo: Seq::empty(),
            }),
            r.wf(),
    {
        let mut lines: Vec<String> = Vec::new();
        lines.push(String::new());
        let r = Self {
            path: None,
            lines,
            cursor_line: 0,
            cursor_col: 0,
            dirty: false,
            read_only: false,
            id: 0,
            undo_stack: Vec::new(),
            redo_stack: Vec::new(),
        };
        assert(r@.lines =~= seq![Seq::<char>::empty()]);
        assert(r@.undo =~= Seq::<SnapView>::empty());
        assert(r@.redo =~= Seq::<SnapView>::empty());
        r
    }

    fn snapshot(&self) -> (r: Snapshot)
        ensures
            r.view() == snap(self@),
    {
        Snapshot { lines: clone_strings(&self.lines), cursor_line: self.cursor_line, cursor_col: self.cursor_col }
    }

    fn push_undo(&mut self)
        requires
            old(self).wf(),
        ensures
            final(self)@ == pushed(old(self)@),
            final(self).wf(),
    {
        let s = self.snapshot();
        self.undo_stack.push(s);
        self.redo_stack.clear();
        proof {
            assert(self@.undo =~= old(self)@.undo.push(snap(old(self)@)));
            assert(self@.redo =~= Seq::<SnapView>::empty());
            assert(self@ == pushed(old(self)@));
        }
    }

    fn restore_snapshot(&mut self, s: Snapshot)
        ensures
            final(self)@ == restore(old(self)@, s.view()),
    {
        self.lines = s.lines;
        self.cursor_line = s.cursor_line;
        self.cursor_col = s.cursor_col;
        self.dirty = true;
    }

    /// Go back to the state before the last edit.
    pub fn undo(&mut self)
        requires
            old(self).wf(),
        ensures
            final(self)@ == spec_undo(old(self)@),
            final(self).wf(),
    {
        if let Some(s) = self.undo_stack.pop() {
            let cur = self.snapshot();
            self.redo_stack.push(cur);
            proof {
                assert(snaps_view(self.undo_stack@) =~= old(self)@.undo.drop_last());
                assert(snaps_view(self.redo_stack@) =~= old(self)@.redo.push(snap(old(self)@)));
                assert(s.view() == old(self)@.undo.last());
            }
            self.restore_snapshot(s);
            proof {
                let o = old(self)@;
                assert forall|i: int| 0 <= i < self@.undo.len() implies snap_ok(#[trigger] self@.undo[i]) by {
                    assert(self@.undo[i] == o.undo[i]);
                }
                assert forall|i: int| 0 <= i < self@.redo.len() implies snap_ok(#[trigger] self@.redo[i]) by {
                    if i < o.redo.len() {
                        assert(self@.redo[i] == o.redo[i]);
                    }
                }
                assert(snap_ok(o.undo[o.undo.len() - 1]));
            }
        }
    }

    /// Re-apply the last undone edit.
    pub fn redo(&mut self)
        requires
            old(self).wf(),
        ensures
            final(self)@ == spec_redo(old(self)@),
            final(self).wf(),
    {
        if let Some(s) = self.redo_stack.pop() {
            let cur = self.snapshot();
            self.undo_stack.push(cur);
            proof {
                assert(snaps_view(self.redo_stack@) =~= old(self)@.redo.drop_last());
                assert(snaps_view(self.undo_stack@) =~= old(self)@.undo.push(snap(old(self)@)));
                assert(s.view() == old(self)@.redo.last());
            }
            self.restore_snapshot(s);
            proof {
                let o = old(self)@;
                assert forall|i: int| 0 <= i < self@.redo.len() implies snap_ok(#[trigger] self@.redo[i]) by {
                    assert(self@.redo[i] == o.redo[i]);
                }
                assert forall|i: int| 0 <= i < self@.undo.len() implies snap_ok(#[trigger] self@.undo[i]) by {
                    if i < o.undo.len() {
                        assert(self@.undo[i] == o.undo[i]);
                    }
                }
                assert(snap_ok(o.redo[o.redo.len() - 1]));
            }
        }
    }

    /// The clusters of the line under the cursor.
    fn cur_clusters(&self) -> (r: LineClusters)
        requires
            self.wf(),
        ensures
            r.valid(),
            r.chars@ == cur_line(self@),
    {
        line_clusters(self.lines[self.cursor_line].as_str())
    }

    /// Replace the line under the cursor.
    fn set_cur_line(&mut self, l: String)
        requires
            old(self).wf(),
        ensures
            final(self)@ == with_cur_line(old(self)@, l@),
            final(self).wf(),
    {
        let cl = self.cursor_line;
        self.lines.set(cl, l);
        proof {
            assert(self@.lines =~= old(self)@.lines.update(cl as int, l@));
        }
    }

    fn insert_char_raw(&mut self, c: char)
        requires
            old(self).wf(),
            old(self)@.cursor_col < usize::MAX,
        ensures
            final(self)@ == ins_char_raw(old(self)@, c),
            final(self).wf(),
    {
        let lc = self.cur_clusters();
        let k = lc.offset(self.cursor_col);
        let ins = [c];
        let nl = splice_string(&lc.chars, k, k, &ins);
        proof {
            assert(ins@ =~= seq![c]);
        }
        self.set_cur_line(nl);
        self.cursor_col = self.cursor_col + 1;
        self.dirty = true;
    }

    fn insert_newline_raw(&mut self)
        requires
            old(self).wf(),
            old(self)@.lines.len() < max_lines(),
        ensures
            final(self)@ == ins_newline_raw(old(self)@),
            final(self).wf(),
    {
        let lc = self.cur_clusters();
        let k = lc.offset(self.cursor_col);
        let empty: [char; 0] = [];
        let head = splice_string(&lc.chars, k, lc.chars.len(), &empty);
        let tail = splice_string(&lc.chars, 0, k, &empty);
        let cl = self.cursor_line;
        self.lines.set(cl, head);
        self.lines.insert(cl + 1, tail);
        self.cursor_line = cl + 1;
        self.cursor_col = 0;
        self.dirty = true;
        proof {
            let l = cur_line(old(self)@);
            assert(head@ =~= l.take(k as int));
            assert(tail@ =~= l.skip(k as int));
            assert(self@.lines =~= old(self)@.lines.update(cl as int, l.take(k as int)).insert(cl + 1, l.skip(k as int)));
        }
    }

    /// Insert a character at the cursor.
    pub fn insert_char(&mut self, c: char)
        requires
            old(self).wf(),
            old(self)@.cursor_col < usize::MAX,
        ensures
            final(self)@ == spec_insert_char(old(self)@, c),
            final(self).wf(),
    {
        self.push_undo();
        self.insert_char_raw(c);
    }

    /// Split the line at the cursor.
    pub fn insert_newline(&mut self)
        requires
            old(self).wf(),
            old(self)@.lines.len() < max_lines(),
        ensures
            final(self)@ == spec_insert_newline(old(self)@),
            final(self).wf(),
    {
        self.push_undo();
        self.insert_newline_raw();
    }

    /// Insert the characters of `text` at the cursor, a newline splitting the
    /// line; one undo step for the whole text.
    pub fn insert_text(&mut self, text: &str)
        requires
            old(self).wf(),
            old(self)@.cursor_col + text@.len() < usize::MAX,
            old(self)@.lines.len() + text@.len() < max_lines(),
        ensures
            final(self)@ == spec_insert_text(old(self)@, text@),
            final(self).wf(),
    {
        let t = chars_of(text);
        if t.len() == 0 {
            return;
        }
        self.push_undo();
        let ghost start = self@;
        let mut i: usize = 0;
        while i < t.len()
            invariant
                self.wf(),
                t@ == text@,
                i <= t@.len(),
                start == pushed(old(self)@),
                self@ == type_chars(start, t@.take(i as int)),
                self@.cursor_col <= start.cursor_col + i,
                self@.lines.len() <= start.lines.len() + i,
                start.cursor_col + t@.len() < usize::MAX,
                start.lines.len() + t@.len() < max_lines(),
            decreases t@.len() - i,
        {
            let c = t[i];
            proof {
                assert(t@.take(i as int + 1).drop_last() =~= t@.take(i as int));
                assert(t@.take(i as int + 1).last() == c);
            }
            if c == '\n' {
                self.insert_newline_raw();
            } else {
                self.insert_char_raw(c);
            }
            i = i + 1;
        }
        proof {
            assert(t@.take(t@.len() as int) =~= t@);
        }
    }

    /// Insert `INDENT_WIDTH` spaces at the start of the line.
    pub fn indent(&mut self)
        requires
            old(self).wf(),
            old(self)@.cursor_col + INDENT_WIDTH <= usize::MAX,
        ensures
            final(self)@ == spec_indent(old(self)@),
            final(self).wf(),
    {
        self.push_undo();
        let line = line_chars(&self.lines, self.cursor_line);
        let ind = [' ', ' ', ' ', ' '];
        let nl = splice_string(&line, 0, 0, &ind);
        proof {
            assert(nl@ =~= indent_str() + cur_line(old(self)@));
        }
        self.set_cur_line(nl);
        self.cursor_col = self.cursor_col + INDENT_WIDTH;
        self.dirty = true;
    }

    /// Remove up to `INDENT_WIDTH` spaces from the start of the line.
    pub fn dedent(&mut self)
        requires
            old(self).wf(),
        ensures
            final(self)@ == spec_dedent(old(self)@),
            final(self).wf(),
    {
        self.push_undo();
        let line = line_chars(&self.lines, self.cursor_line);
        let mut r: usize = 0;
        assert(line@.skip(0) =~= line@);
        while r < INDENT_WIDTH && r < line.len() && line[r] == ' '
            invariant
                r <= INDENT_WIDTH,
                r <= line@.len(),
                lead_spaces(line@, INDENT_WIDTH as int) == r + lead_spaces(line@.skip(r as int), INDENT_WIDTH - r),
            decreases INDENT_WIDTH - r,
        {
            proof {
                assert(line@.skip(r as int).drop_first() =~= line@.skip(r as int + 1));
            }
            r = r + 1;
        }
        proof {
            assert(lead_spaces(line@.skip(r as int), INDENT_WIDTH - r) == 0);
        }
        if r > 0 {
            let empty: [char; 0] = [];
            let nl = splice_string(&line, 0, r, &empty);
            proof {
                assert(nl@ =~= line@.skip(r as int));
            }
            self.set_cur_line(nl);
            self.cursor_col = if self.cursor_col >= r { self.cursor_col - r } else { 0 };
            self.dirty = true;
        }
    }

    /// Delete the cluster before the cursor, or join the line to the one above.
    pub fn backspace(&mut self)
        requires
            old(self).wf(),
        ensures
            final(self)@ == spec_backspace(old(self)@),
            final(self).wf(),
    {
        if self.cursor_col == 0 && self.cursor_line == 0 {
            return;
        }
        self.push_undo();
        if self.cursor_col == 0 {
            let cl = self.cursor_line;
            let cur = self.lines.remove(cl);
            let prev = line_chars(&self.lines, cl - 1);
            let lc = line_clusters(self.lines[cl - 1].as_str());
            let n = lc.count();
            let curc = chars_of(cur.as_str());
            let joined = splice_string(&prev, prev.len(), prev.len(), curc.as_slice());
            self.lines.set(cl - 1, joined);
            self.cursor_line = cl - 1;
            self.cursor_col = n;
            proof {
                let o = old(self)@;
                assert(joined@ =~= o.lines[cl - 1] + o.lines[cl as int]);
                assert(self@.lines =~= o.lines.remove(cl as int).update(cl - 1, o.lines[cl - 1] + o.lines[cl as int]));
            }
        } else {
            let lc = self.cur_clusters();
            let a = lc.offset(self.cursor_col - 1);
            let b = lc.offset(self.cursor_col);
            proof {
                crate::text::lemma_offsets(lc.chars@);
                assert(col_offset(lc.chars@, self.cursor_col - 1) <= col_offset(lc.chars@, self.cursor_col as int));
            }
            let empty: [char; 0] = [];
            let nl = splice_string(&lc.chars, a, b, &empty);
            self.set_cur_line(nl);
            self.cursor_col = self.cursor_col - 1;
        }
        self.dirty = true;
    }

    /// Delete the cluster under the cursor, or join the next line to this one.
    pub fn delete(&mut self)
        requires
            old(self).wf(),
            old(self)@.cursor_col < usize::MAX,
        ensures
            final(self)@ == spec_delete(old(self)@),
            final(self).wf(),
    {
        let lc = self.cur_clusters();
        let len = lc.count();
        if self.cursor_col == len && self.cursor_line + 1 >= self.lines.len() {
            return;
        }
        self.push_undo();
        let cl = self.cursor_line;
        if self.cursor_col == len {
            let next = self.lines.remove(cl + 1);
            let nextc = chars_of(next.as_str());
            let joined = splice_string(&lc.chars, lc.chars.len(), lc.chars.len(), nextc.as_slice());
            self.lines.set(cl, joined);
            proof {
                let o = old(self)@;
                assert(joined@ =~= o.lines[cl as int] + o.lines[cl + 1]);
                assert(self@.lines =~= o.lines.update(cl as int, o.lines[cl as int] + o.lines[cl + 1]).remove(cl + 1));
            }
        } else {
            let a = lc.offset(self.cursor_col);
            let b = lc.offset(self.cursor_col + 1);
            proof {
                crate::text::lemma_offsets(lc.chars@);
                assert(col_offset(lc.chars@, self.cursor_col as int) <= col_offset(lc.chars@, self.cursor_col + 1));
            }
            let empty: [char; 0] = [];
            let nl = splice_string(&lc.chars, a, b, &empty);
            self.set_cur_line(nl);
        }
        self.dirty = true;
    }

    /// Move one cluster left, or to the end of the line above.
    pub fn move_left(&mut self)
        requires
            old(self).wf(),
        ensures
            final(self)@ == spec_move_left(old(self)@),
            final(self).wf(),
    {
        if self.cursor_col > 0 {
            self.cursor_col = self.cursor_col - 1;
        } else if self.cursor_line > 0 {
            self.cursor_line = self.cursor_line - 1;
            let lc = self.cur_clusters();
            self.cursor_col = lc.count();
        }
    }

    /// Move one cluster right, or to the start of the line below.
    pub fn move_right(&mut self)
        requires
            old(self).wf(),
        ensures
            final(self)@ == spec_move_right(old(self)@),
            final(self).wf(),
    {
        let lc = self.cur_clusters();
        let len = lc.count();
        if self.cursor_col < len {
            self.cursor_col = self.cursor_col + 1;
        } else if self.cursor_line + 1 < self.lines.len() {
            self.cursor_line = self.cursor_line + 1;
            self.cursor_col = 0;
        }
    }

    fn clamp_col(&mut self)
        requires
            old(self).wf(),
        ensures
            final(self)@ == clamp_col(old(self)@),
            final(self).wf(),
    {
        let lc = self.cur_clusters();
        let len = lc.count();
        if self.cursor_col > len {
            self.cursor_col = len;
        }
    }

    /// Move `n` lines up (stopping at the first line).
    pub fn move_up(&mut self, n: usize)
        requires
            old(self).wf(),
        ensures
            final(self)@ == spec_move_up(old(self)@, n as int),
            final(self).wf(),
    {
        self.cursor_line = if self.cursor_line >= n { self.cursor_line - n } else { 0 };
        self.clamp_col();
    }

    /// Move `n` lines down, stopping at the last line (for any `n`: the
    /// line is the smaller of the cursor line plus `n` and the last line).
    pub fn move_down(&mut self, n: usize)
        requires
            old(self).wf(),
        ensures
            final(self)@ == spec_move_down(old(self)@, n as int),
            final(self).wf(),
    {
        let last = self.lines.len() - 1;
        self.cursor_line = if n <= last - self.cursor_line { self.cursor_line + n } else { last };
        self.clamp_col();
    }

    /// Go to a line counted from 1 (0 also means the first line).
    pub fn goto_line(&mut self, line_1_indexed: usize)
        requires
            old(self).wf(),
        ensures
            final(self)@ == spec_goto_line(old(self)@, line_1_indexed as int),
            final(self).wf(),
    {
        let target = if line_1_indexed >= 1 { line_1_indexed - 1 } else { 0 };
        let last = self.lines.len() - 1;
        self.cursor_line = if target <= last { target } else { last };
        self.clamp_col();
    }

    /// Move to the start of the previous word.
    pub fn move_word_left(&mut self)
        requires
            old(self).wf(),
            old(self)@.cursor_col <= gcount(cur_line(old(self)@)),
        ensures
            final(self)@ == spec_move_word_left(old(self)@),
            final(self).wf(),
    {
        if self.cursor_col == 0 {
            self.move_left();
            return;
        }
        let lc = self.cur_clusters();
        proof { lemma_clusters(&lc); }
        self.cursor_col = word_start_exec(&lc.clusters, self.cursor_col);
    }

    /// Move past the current word and the spaces after it.
    pub fn move_word_right(&mut self)
        requires
            old(self).wf(),
        ensures
            final(self)@ == spec_move_word_right(old(self)@),
            final(self).wf(),
    {
        let lc = self.cur_clusters();
        let len = lc.count();
        if self.cursor_col >= len {
            self.move_right();
            return;
        }
        proof { lemma_clusters(&lc); }
        self.cursor_col = word_end_exec(&lc.clusters, self.cursor_col);
    }

    /// Delete from the cursor to the end of the word and the spaces after it.
    pub fn delete_word_forward(&mut self)
        requires
            old(self).wf(),
        ensures
            final(self)@ == spec_delete_word_forward(old(self)@),
            final(self).wf(),
    {
        self.push_undo();
        let lc = self.cur_clusters();
        let len = lc.count();
        let start = if self.cursor_col < len { self.cursor_col } else { len };
        proof { lemma_clusters(&lc); }
        let end = word_end_exec(&lc.clusters, start);
        let a = lc.offset(start);
        let b = lc.offset(end);
        proof {
            crate::text::lemma_offsets(lc.chars@);
            assert(col_offset(lc.chars@, start as int) <= col_offset(lc.chars@, end as int));
        }
        let empty: [char; 0] = [];
        let nl = splice_string(&lc.chars, a, b, &empty);
        self.set_cur_line(nl);
        self.dirty = true;
    }

    /// Delete from the start of the previous word to the cursor.
    pub fn delete_word_backward(&mut self)
        requires
            old(self).wf(),
        ensures
            final(self)@ == spec_delete_word_backward(old(self)@),
            final(self).wf(),
    {
        if self.cursor_col == 0 {
            return;
        }
        self.push_undo();
        let lc = self.cur_clusters();
        let len = lc.count();
        let end = if self.cursor_col < len { self.cursor_col } else { len };
        proof { lemma_clusters(&lc); }
        let start = word_start_exec(&lc.clusters, end);
        let a = lc.offset(start);
        let b = lc.offset(end);
        proof {
            crate::text::lemma_offsets(lc.chars@);
            assert(col_offset(lc.chars@, start as int) <= col_offset(lc.chars@, end as int));
        }
        let empty: [char; 0] = [];
        let nl = splice_string(&lc.chars, a, b, &empty);
        self.set_cur_line(nl);
        self.cursor_col = start;
        self.dirty = true;
    }

    /// Delete from the cursor to the end of the line.
    pub fn delete_to_end_of_line(&mut self)
        requires
            old(self).wf(),
        ensures
            final(self)@ == spec_delete_to_end_of_line(old(self)@),
            final(self).wf(),
    {
        self.push_undo();
        let lc = self.cur_clusters();
        let a = lc.offset(self.cursor_col);
        let empty: [char; 0] = [];
        let nl = splice_string(&lc.chars, a, lc.chars.len(), &empty);
        proof {
            assert(nl@ =~= lc.chars@.take(a as int));
        }
        self.set_cur_line(nl);
        self.dirty = true;
    }

    /// Insert a copy of the current line below it and move onto the copy.
    pub fn duplicate_line(&mut self)
        requires
            old(self).wf(),
            old(self)@.lines.len() < max_lines(),
        ensures
            final(self)@ == spec_duplicate_line(old(self)@),
            final(self).wf(),
    {
        self.push_undo();
        let cl = self.cursor_line;
        let current = self.lines[cl].clone();
        self.lines.insert(cl + 1, current);
        self.cursor_line = cl + 1;
        self.dirty = true;
        proof {
            assert(self@.lines =~= old(self)@.lines.insert(cl + 1, cur_line(old(self)@)));
        }
    }
}

/// Whether a cluster is a word character.
fn is_word_exec(g: &Vec<char>) -> (r: bool)
    ensures
        r == is_word(g@),
{
    if g.len() == 0 {
        return false;
    }
    let c = g[0];
    char_is_alphanumeric(c) || c == '_'
}

/// Whether a cluster is white space only.
fn is_space_exec(g: &Vec<char>) -> (r: bool)
    ensures
        r == is_space(g@),
{
    let mut i: usize = 0;
    while i < g.len()
        invariant
            i <= g@.len(),
            forall|k: int| 0 <= k < i ==> crate::text::is_ws(#[trigger] g@[k]),
        decreases g@.len() - i,
    {
        if !char_is_whitespace(g[i]) {
            return false;
        }
        i = i + 1;
    }
    true
}

fn has_kind_exec(g: &Vec<char>, k: Kind) -> (r: bool)
    ensures
        r == has_kind(g@, k),
{
    match k {
        Kind::Word => is_word_exec(g),
        Kind::Space => is_space_exec(g),
        Kind::Punct => !is_word_exec(g) && !is_space_exec(g),
    }
}

pub open spec fn clusters_view(v: Seq<Vec<char>>) -> Seq<Seq<char>> {
    v.map_values(|g: Vec<char>| g@)
}

proof fn lemma_clusters(lc: &LineClusters)
    requires
        lc.valid(),
    ensures
        clusters_view(lc.clusters@) == grapheme_clusters(lc.chars@),
{
    assert(clusters_view(lc.clusters@) =~= grapheme_clusters(lc.chars@));
}

fn back_while_exec(gs: &Vec<Vec<char>>, i: usize, k: Kind) -> (r: usize)
    requires
        i <= gs@.len(),
    ensures
        r == back_while(clusters_view(gs@), i as int, k),
        r <= i,
{
    let ghost v = clusters_view(gs@);
    let mut j = i;
    while j > 0 && has_kind_exec(&gs[j - 1], k)
        invariant
            j <= i <= gs@.len(),
            v == clusters_view(gs@),
            back_while(v, i as int, k) == back_while(v, j as int, k),
        decreases j,
    {
        proof {
            assert(v[j - 1] == gs@[j - 1]@);
        }
        j = j - 1;
    }
    proof {
        if j > 0 {
            assert(v[j - 1] == gs@[j - 1]@);
        }
    }
    j
}

fn fwd_while_exec(gs: &Vec<Vec<char>>, i: usize, k: Kind) -> (r: usize)
    requires
        i <= gs@.len(),
    ensures
        r == fwd_while(clusters_view(gs@), i as int, k),
        i <= r <= gs@.len(),
{
    let ghost v = clusters_view(gs@);
    let mut j = i;
    while j < gs.len() && has_kind_exec(&gs[j], k)
        invariant
            i <= j <= gs@.len(),
            v == clusters_view(gs@),
            fwd_while(v, i as int, k) == fwd_while(v, j as int, k),
        decreases gs@.len() - j,
    {
        proof {
            assert(v[j as int] == gs@[j as int]@);
        }
        j = j + 1;
    }
    proof {
        if j < gs@.len() {
            assert(v[j as int] == gs@[j as int]@);
        }
    }
    j
}

fn word_start_exec(gs: &Vec<Vec<char>>, i: usize) -> (r: usize)
    requires
        i <= gs@.len(),
    ensures
        r == word_start_before(clusters_view(gs@), i as int),
        r <= i,
{
    let ghost v = clusters_view(gs@);
    let j = back_while_exec(gs, i, Kind::Space);
    if j > 0 && is_word_exec(&gs[j - 1]) {
        proof { assert(v[j - 1] == gs@[j - 1]@); }
        back_while_exec(gs, j, Kind::Word)
    } else {
        proof { if j > 0 { assert(v[j - 1] == gs@[j - 1]@); } }
        back_while_exec(gs, j, Kind::Punct)
    }
}

fn word_end_exec(gs: &Vec<Vec<char>>, i: usize) -> (r: usize)
    requires
        i <= gs@.len(),
    ensures
        r == word_end_after(clusters_view(gs@), i as int),
        i <= r <= gs@.len(),
{
    let ghost v = clusters_view(gs@);
    let j = if i < gs.len() && is_word_exec(&gs[i]) {
        proof { assert(v[i as int] == gs@[i as int]@); }
        fwd_while_exec(gs, i, Kind::Word)
    } else if i < gs.len() && !is_space_exec(&gs[i]) {
        proof { assert(v[i as int] == gs@[i as int]@); }
        fwd_while_exec(gs, i, Kind::Punct)
    } else {
        proof { if i < gs@.len() { assert(v[i as int] == gs@[i as int]@); } }
        i
    };
    fwd_while_exec(gs, j, Kind::Space)
}


impl Document {
    /// Where `find_next` would land: line and character offset of the match.
    fn search(&self, nd: &Vec<char>) -> (r: Option<(usize, usize)>)
        requires
            self.wf(),
            self@.cursor_col < usize::MAX,
        ensures
            r is Some <==> search_from(self@, nd@, 0) is Some,
            r matches Some((li, m)) ==> search_from(self@, nd@, 0) == Some((li as int, m as int))
                && li < self@.lines.len() && m <= self@.lines[li as int].len(),
    {
        let n = self.lines.len();
        let mut offset: usize = 0;
        while offset <= n
            invariant
                self.wf(),
                n == self@.lines.len(),
                self@.cursor_col < usize::MAX,
                offset <= n + 1,
                search_from(self@, nd@, 0) == search_from(self@, nd@, offset as int),
            decreases n + 1 - offset,
        {
            let li = (self.cursor_line + offset) % n;
            let lc = line_clusters(self.lines[li].as_str());
            let from = if offset == 0 { lc.offset(self.cursor_col + 1) } else { 0 };
            match first_match_exec(&lc.chars, nd, from) {
                Some(m) => {
                    return Some((li, m));
                },
                None => {},
            }
            offset = offset + 1;
        }
        None
    }

    /// Move the cursor to the next occurrence of `needle` after it, wrapping
    /// round the document; `false` (cursor unchanged) when there is none.
    pub fn find_next(&mut self, needle: &str) -> (found: bool)
        requires
            old(self).wf(),
            old(self)@.cursor_col < usize::MAX,
        ensures
            final(self)@ == spec_find_next(old(self)@, needle@),
            found == find_target(old(self)@, needle@) is Some,
            final(self).wf(),
    {
        let nd = chars_of(needle);
        if nd.len() == 0 {
            return false;
        }
        match self.search(&nd) {
            Some((li, m)) => {
                let lc = line_clusters(self.lines[li].as_str());
                let col = count_before_exec(&lc, m);
                proof {
                    let d = old(self)@;
                    assert(find_target(d, needle@) == search_from(d, nd@, 0));
                    let (sl, sm) = find_target(d, needle@).unwrap();
                    assert(sl == li && sm == m);
                    assert(lc.chars@ == d.lines[li as int]);
                }
                self.cursor_line = li;
                self.cursor_col = col;
                proof {
                    let d = old(self)@;
                    assert(self@ == with_cursor(d, li as int, col as int));
                }
                true
            },
            None => false,
        }
    }

    /// Whether the replacement that `replace_next` would make stays on
    /// character boundaries (slicing inside a character panics).
    pub fn can_replace_next(&self, needle: &str) -> (r: bool)
        requires
            self.wf(),
            self@.cursor_col < usize::MAX,
        ensures
            r == replace_ok(self@, needle@),
    {
        let nd = chars_of(needle);
        if nd.len() == 0 {
            return true;
        }
        match self.search(&nd) {
            Some((li, m)) => {
                let lc = line_clusters(self.lines[li].as_str());
                let col = count_before_exec(&lc, m);
                let s = lc.offset(col);
                let r = span_end_exec(&lc.chars, s, needle.len()).is_some();
                proof {
                    let d = self@;
                    assert(find_target(d, needle@) == search_from(d, nd@, 0));
                    let (sl, sm) = find_target(d, needle@).unwrap();
                    assert(sl == li && sm == m);
                    assert(lc.chars@ == d.lines[li as int]);
                    let f = spec_find_next(d, needle@);
                    assert(f == with_cursor(d, li as int, col as int));
                    assert(cur_line(f) == lc.chars@);
                }
                r
            },
            None => true,
        }
    }

    /// Replace the next occurrence of `needle` (as `find_next` finds it) by
    /// `replacement`; `false` when there is none.
    pub fn replace_next(&mut self, needle: &str, replacement: &str) -> (found: bool)
        requires
            old(self).wf(),
            old(self)@.cursor_col < usize::MAX,
            replace_ok(old(self)@, needle@),
        ensures
            final(self)@ == spec_replace_next(old(self)@, needle@, replacement@),
            found == find_target(old(self)@, needle@) is Some,
            final(self).wf(),
    {
        if !self.find_next(needle) {
            return false;
        }
        self.push_undo();
        let lc = self.cur_clusters();
        let s = lc.offset(self.cursor_col);
        let rep = chars_of(replacement);
        match span_end_exec(&lc.chars, s, needle.len()) {
            Some(e) => {
                let v = crate::text_ops::splice_chars(&lc.chars, s, e, rep.as_slice());
                let rl = rep.len();
                let vl = v.len();
                assert(s + rl <= vl);
                let nl = string_of(v.as_slice());
                let nlc = line_clusters(nl.as_str());
                let col = count_before_exec(&nlc, s + rl);
                self.set_cur_line(nl);
                self.cursor_col = col;
                self.dirty = true;
                true
            },
            None => {
                proof {
                    assert(false);
                }
                true
            },
        }
    }

    /// What bracket matching finds from the cursor.
    pub fn match_scan(&self) -> (r: Scan)
        requires
            self.wf(),
        ensures
            r == match_target(self@),
            match r {
                Scan::Found(l, _) => l < self@.lines.len(),
                _ => true,
            },
    {
        let cur = match char_at_exec(&self.lines, self.cursor_line, self.cursor_col) {
            Some(c) => c,
            None => return Scan::NotFound,
        };
        let (open, close) = if cur == '(' || cur == ')' {
            ('(', ')')
        } else if cur == '[' || cur == ']' {
            ('[', ']')
        } else if cur == '{' || cur == '}' {
            ('{', '}')
        } else {
            return Scan::NotFound;
        };
        if cur == open {
            scan_forward_exec(&self.lines, self.cursor_line, self.cursor_col, open, close)
        } else {
            scan_backward_exec(&self.lines, self.cursor_line, self.cursor_col, open, close)
        }
    }

    /// Move to the bracket that matches the one under the cursor.
    pub fn jump_to_match(&mut self) -> (found: bool)
        requires
            old(self).wf(),
            !(match_target(old(self)@) is Overflow),
        ensures
            final(self)@ == spec_jump_to_match(old(self)@),
            found == match_target(old(self)@) is Found,
            final(self).wf(),
    {
        let sc = self.match_scan();
        match sc {
            Scan::Found(l, c) => {
                self.cursor_line = l;
                self.cursor_col = c;
                proof {
                    assert(self@ == with_cursor(old(self)@, l as int, c as int));
                }
                true
            },
            _ => false,
        }
    }
}

/// Number of clusters starting before character offset `k`.
fn count_before_exec(lc: &LineClusters, k: usize) -> (r: usize)
    requires
        lc.valid(),
    ensures
        r == clusters_before(lc.chars@, k as int),
        r <= gcount(lc.chars@),
{
    let mut i: usize = 0;
    let mut cnt: usize = 0;
    while i < lc.starts.len()
        invariant
            lc.valid(),
            i <= lc.starts@.len(),
            cnt <= i,
            cnt == count_starts_before(grapheme_clusters(lc.chars@), i as int, k as int),
        decreases lc.starts@.len() - i,
    {
        if lc.starts[i] < k {
            cnt = cnt + 1;
        }
        i = i + 1;
    }
    cnt
}

/// End of the span starting at `s` that holds `b` bytes.
fn span_end_exec(l: &Vec<char>, s: usize, b: usize) -> (r: Option<usize>)
    requires
        s <= l@.len(),
    ensures
        r matches Some(e) ==> span_end(l@, s as int, b as int) == Some(e as int) && s <= e <= l@.len(),
        r is None <==> span_end(l@, s as int, b as int) is None,
{
    let mut i = s;
    let mut rem = b;
    while rem > 0
        invariant
            s <= i <= l@.len(),
            span_end(l@, s as int, b as int) == span_end(l@, i as int, rem as int),
        decreases rem,
    {
        if i >= l.len() {
            return None;
        }
        let w = char_utf8_len(l[i]);
        if w > rem {
            return None;
        }
        proof {
            assert(utf8_len(l@[i as int]) >= 1);
        }
        rem = rem - w;
        i = i + 1;
    }
    Some(i)
}

/// First character of the cluster at `(l, c)`.
fn char_at_exec(lines: &Vec<String>, l: usize, c: usize) -> (r: Option<char>)
    ensures
        r == char_at(lines_view(lines@), l as int, c as int),
{
    if l >= lines.len() {
        return None;
    }
    let lc = line_clusters(lines[l].as_str());
    if c < lc.clusters.len() && lc.clusters[c].len() > 0 {
        Some(lc.clusters[c][0])
    } else {
        None
    }
}

fn line_len_exec(lines: &Vec<String>, l: usize) -> (r: usize)
    requires
        l < lines@.len(),
    ensures
        r == line_len(lines_view(lines@), l as int),
{
    let lc = line_clusters(lines[l].as_str());
    lc.count()
}

fn scan_forward_exec(lines: &Vec<String>, l0: usize, c0: usize, open: char, close: char) -> (r: Scan)
    requires
        l0 < lines@.len(),
        c0 < line_len(lines_view(lines@), l0 as int),
    ensures
        r == scan_forward(lines_view(lines@), l0 as int, c0 as int, 0, open, close),
        match r {
            Scan::Found(l, _) => l < lines@.len(),
            _ => true,
        },
{
    let ghost lv = lines_view(lines@);
    let n = lines.len();
    let mut l = l0;
    let mut c = c0;
    let mut depth: i32 = 0;
    loop
        invariant
            lv == lines_view(lines@),
            n == lines@.len(),
            l < n,
            c == 0 || c < line_len(lv, l as int),
            depth >= 0,
            scan_forward(lv, l0 as int, c0 as int, 0, open, close)
                == scan_forward(lv, l as int, c as int, depth as int, open, close),
        decreases n - l, line_len(lv, l as int) - c,
    {
        let len = line_len_exec(lines, l);
        let c1 = c + 1;
        if c1 >= len {
            if l + 1 >= n {
                return Scan::NotFound;
            }
            l = l + 1;
            c = 0;
        } else {
            c = c1;
        }
        match char_at_exec(lines, l, c) {
            None => {},
            Some(ch) => {
                if ch == open {
                    if depth == i32::MAX {
                        return Scan::Overflow;
                    }
                    depth = depth + 1;
                } else if ch == close {
                    if depth == 0 {
                        return Scan::Found(l, c);
                    }
                    depth = depth - 1;
                }
            },
        }
    }
}

fn scan_backward_exec(lines: &Vec<String>, l0: usize, c0: usize, open: char, close: char) -> (r: Scan)
    requires
        l0 < lines@.len(),
    ensures
        r == scan_backward(lines_view(lines@), l0 as int, c0 as int, 0, open, close),
        match r {
            Scan::Found(l, _) => l < lines@.len(),
            _ => true,
        },
{
    let ghost lv = lines_view(lines@);
    let n = lines.len();
    let mut l = l0;
    let mut c = c0;
    let mut depth: i32 = 0;
    loop
        invariant
            lv == lines_view(lines@),
            n == lines@.len(),
            l < n,
            depth >= 0,
            scan_backward(lv, l0 as int, c0 as int, 0, open, close)
                == scan_backward(lv, l as int, c as int, depth as int, open, close),
        decreases l, c,
    {
        let ghost target = scan_backward(lv, l as int, c as int, depth as int, open, close);
        if c == 0 {
            if l == 0 {
                return Scan::NotFound;
            }
            l = l - 1;
            let len = line_len_exec(lines, l);
            if len == 0 {
                c = 0;
                continue;
            }
            c = len - 1;
        } else {
            c = c - 1;
        }
        assert(target == scan_backward_at(lv, l as int, c as int, depth as int, open, close));
        match char_at_exec(lines, l, c) {
            None => {},
            Some(ch) => {
                if ch == close {
                    if depth == i32::MAX {
                        return Scan::Overflow;
                    }
                    depth = depth + 1;
                } else if ch == open {
                    if depth == 0 {
                        return Scan::Found(l, c);
                    }
                    depth = depth - 1;
                }
            },
        }
    }
}


/// Why a document cannot be saved.
#[derive(Clone, Copy, PartialEq, Eq, Debug, Structural)]
pub enum SaveError {
    /// No path is associated with the document.
    NoPath,
    /// The document is read-only.
    ReadOnly,
}

impl SaveError {
    /// The message shown to the user.
    pub fn message(&self) -> (r: String)
        ensures
            r@ == match self {
                SaveError::NoPath => "no path associated with this document; use n to set one"@,
                SaveError::ReadOnly => "document is read-only (use s! to override)"@,
            },
    {
        match self {
            SaveError::NoPath => String::from_str("no path associated with this document; use n to set one"),
            SaveError::ReadOnly => String::from_str("document is read-only (use s! to override)"),
        }
    }
}

/// What to write where when a document is saved.
pub struct SaveRequest {
    pub path: String,
    pub contents: String,
}

/// The lines joined by `\n`.
pub fn join_strings(lines: &Vec<String>) -> (r: String)
    ensures
        r@ == join_lines(lines_view(lines@)),
{
    let ghost lv = lines_view(lines@);
    let mut out = String::new();
    let mut i: usize = 0;
    while i < lines.len()
        invariant
            lv == lines_view(lines@),
            i <= lines@.len(),
            out@ == join_lines(lv.take(i as int)),
        decreases lines@.len() - i,
    {
        proof {
            assert(lv.take(i as int + 1).drop_last() =~= lv.take(i as int));
            assert(lv.take(i as int + 1).last() == lines@[i as int]@);
        }
        if i > 0 {
            out.append("\n");
            proof {
                reveal_strlit("\n");
            }
        }
        out.append(lines[i].as_str());
        i = i + 1;
        proof {
            if i == 1 {
                assert(out@ =~= join_lines(lv.take(1)));
            } else {
                assert(out@ =~= join_lines(lv.take(i as int)));
            }
        }
    }
    proof {
        assert(lv.take(lines@.len() as int) =~= lv);
    }
    out
}

impl Document {
    fn with_lines(path: Option<String>, lines: Vec<String>, read_only: bool) -> (r: Self)
        requires
            lines@.len() <= max_lines(),
        ensures
            r@ == fresh(path_view(path), lines_view(lines@), read_only),
            r.wf(),
    {
        let ghost given = lines_view(lines@);
        let mut lines = lines;
        if lines.len() == 0 {
            lines.push(String::new());
            proof {
                assert(lines_view(lines@) =~= seq![Seq::<char>::empty()]);
            }
        }
        let r = Self {
            path,
            lines,
            cursor_line: 0,
            cursor_col: 0,
            dirty: false,
            read_only,
            id: 0,
            undo_stack: Vec::new(),
            redo_stack: Vec::new(),
        };
        assert(r@.undo =~= Seq::<SnapView>::empty());
        assert(r@.redo =~= Seq::<SnapView>::empty());
        r
    }

    /// A document holding `text`, named `name` (used for generated buffers).
    pub fn from_text(name: String, text: String) -> (r: Self)
        requires
            text@.len() < max_lines(),
        ensures
            r@ == fresh(Some(name@), text_lines(text@), false),
            r.wf(),
    {
        let lines = split_lines(text.as_str());
        Self::with_lines(Some(name), lines, false)
    }

    /// A document for the file at `path`, given the file's contents (empty
    /// when it could not be read) and whether it is read-only.
    pub fn open(path: String, content: String, read_only: bool) -> (r: Self)
        requires
            content@.len() < max_lines(),
        ensures
            r@ == fresh(Some(path@), text_lines(content@), read_only),
            r.wf(),
    {
        let lines = split_lines(content.as_str());
        Self::with_lines(Some(path), lines, read_only)
    }

    /// What saving writes, or why it cannot.
    pub fn save(&self) -> (r: Result<SaveRequest, SaveError>)
        ensures
            match r {
                Ok(req) => self@.path == Some(req.path@) && !self@.read_only
                    && req.contents@ == join_lines(self@.lines),
                Err(SaveError::NoPath) => self@.path is None,
                Err(SaveError::ReadOnly) => self@.path is Some && self@.read_only,
            },
    {
        let path = match &self.path {
            Some(p) => p.clone(),
            None => return Err(SaveError::NoPath),
        };
        if self.read_only {
            return Err(SaveError::ReadOnly);
        }
        Ok(SaveRequest { path, contents: join_strings(&self.lines) })
    }

    /// Clear the read-only mark, then save.
    pub fn save_forced(&mut self) -> (r: Result<SaveRequest, SaveError>)
        requires
            old(self).wf(),
        ensures
            final(self)@ == (DocView { read_only: false, ..old(self)@ }),
            match r {
                Ok(req) => old(self)@.path == Some(req.path@) && req.contents@ == join_lines(old(self)@.lines),
                Err(e) => e == SaveError::NoPath && old(self)@.path is None,
            },
            final(self).wf(),
    {
        self.read_only = false;
        self.save()
    }

    /// The file was written: the document is clean.
    pub fn mark_saved(&mut self)
        requires
            old(self).wf(),
        ensures
            final(self)@ == (DocView { dirty: false, ..old(self)@ }),
            final(self).wf(),
    {
        self.dirty = false;
    }

    pub fn id(&self) -> (r: u64)
        ensures
            r == self@.id,
    {
        self.id
    }

    pub fn set_id(&mut self, id: u64)
        requires
            old(self).wf(),
        ensures
            final(self)@ == (DocView { id, ..old(self)@ }),
            final(self).wf(),
    {
        self.id = id;
    }

    pub fn is_dirty(&self) -> (r: bool)
        ensures
            r == self@.dirty,
    {
        self.dirty
    }

    pub fn is_read_only(&self) -> (r: bool)
        ensures
            r == self@.read_only,
    {
        self.read_only
    }

    pub fn set_read_only(&mut self, read_only: bool)
        requires
            old(self).wf(),
        ensures
            final(self)@ == (DocView { read_only, ..old(self)@ }),
            final(self).wf(),
    {
        self.read_only = read_only;
    }

    /// Associate a path with the document (the `n` command).
    pub fn set_path(&mut self, path: String)
        requires
            old(self).wf(),
        ensures
            final(self)@ == (DocView { path: Some(path@), ..old(self)@ }),
            final(self).wf(),
    {
        self.path = Some(path);
    }

    pub fn path(&self) -> (r: Option<String>)
        ensures
            path_view(r) == self@.path,
    {
        match &self.path {
            Some(p) => Some(p.clone()),
            None => None,
        }
    }

    pub fn cursor_line(&self) -> (r: usize)
        ensures
            r == self@.cursor_line,
    {
        self.cursor_line
    }

    pub fn cursor_col(&self) -> (r: usize)
        ensures
            r == self@.cursor_col,
    {
        self.cursor_col
    }

    pub fn line_count(&self) -> (r: usize)
        ensures
            r == self@.lines.len(),
    {
        self.lines.len()
    }

    /// A copy of line `i`.
    pub fn line(&self, i: usize) -> (r: String)
        requires
            i < self@.lines.len(),
        ensures
            r@ == self@.lines[i as int],
    {
        self.lines[i].clone()
    }

    /// Copies of all lines.
    pub fn lines_copy(&self) -> (r: Vec<String>)
        ensures
            lines_view(r@) == self@.lines,
    {
        clone_strings(&self.lines)
    }

    /// Whether the cursor column lies within the current line (operations
    /// that index clusters by the column need it).
    pub fn cursor_within_line(&self) -> (r: bool)
        requires
            self.wf(),
        ensures
            r == (self@.cursor_col <= gcount(cur_line(self@))),
    {
        let lc = self.cur_clusters();
        self.cursor_col <= lc.count()
    }

    /// Go to the end of the last line.
    pub fn goto_end_of_file(&mut self)
        requires
            old(self).wf(),
        ensures
            final(self)@ == spec_goto_end_of_file(old(self)@),
            final(self).wf(),
    {
        let last = self.lines.len() - 1;
        let lc = line_clusters(self.lines[last].as_str());
        let n = lc.count();
        self.cursor_line = last;
        self.cursor_col = n;
    }

    /// Go to the first column of the first line.
    pub fn goto_start_of_file(&mut self)
        requires
            old(self).wf(),
        ensures
            final(self)@ == spec_goto_start_of_file(old(self)@),
            final(self).wf(),
    {
        self.goto_line(0);
        self.cursor_col = 0;
    }

    /// Go to the end of the current line.
    pub fn goto_end_of_line(&mut self)
        requires
            old(self).wf(),
        ensures
            final(self)@ == spec_goto_end_of_line(old(self)@),
            final(self).wf(),
    {
        let lc = self.cur_clusters();
        let n = lc.count();
        self.cursor_col = n;
    }

    /// Go to the first column.
    pub fn goto_start_of_line(&mut self)
        requires
            old(self).wf(),
        ensures
            final(self)@ == spec_goto_start_of_line(old(self)@),
            final(self).wf(),
    {
        self.cursor_col = 0;
    }

    /// Place the cursor, clamping both coordinates into the document.
    pub fn set_cursor(&mut self, line: i64, col: i64)
        requires
            old(self).wf(),
        ensures
            final(self)@ == spec_set_cursor(old(self)@, line as int, col as int),
            final(self).wf(),
    {
        let max_line = self.lines.len() - 1;
        let l0 = if line >= 0 { line } else { 0 };
        let l1 = l0 as usize;
        let l = if l1 <= max_line { l1 } else { max_line };
        let line_len = self.lines[l].unicode_len();
        let c0 = if col >= 0 { col } else { 0 };
        let c1 = c0 as usize;
        let c = if c1 <= line_len { c1 } else { line_len };
        self.cursor_line = l;
        self.cursor_col = c;
    }

    /// Replace all lines, moving the cursor to the start and marking the
    /// document clean.
    pub fn set_lines(&mut self, lines: Vec<String>)
        requires
            old(self).wf(),
            lines@.len() <= max_lines(),
        ensures
            final(self)@ == spec_set_lines(old(self)@, lines_view(lines@)),
            final(self).wf(),
    {
        let ghost given = lines_view(lines@);
        let mut lines = lines;
        if lines.len() == 0 {
            lines.push(String::new());
            proof {
                assert(lines_view(lines@) =~= seq![Seq::<char>::empty()]);
            }
        }
        self.lines = lines;
        self.cursor_line = 0;
        self.cursor_col = 0;
        self.dirty = false;
    }
}


impl Snapshot {
    fn copy(&self) -> (r: Snapshot)
        ensures
            r.view() == self.view(),
    {
        Snapshot { lines: clone_strings(&self.lines), cursor_line: self.cursor_line, cursor_col: self.cursor_col }
    }
}

fn copy_snaps(v: &Vec<Snapshot>) -> (r: Vec<Snapshot>)
    ensures
        snaps_view(r@) == snaps_view(v@),
{
    let mut out: Vec<Snapshot> = Vec::new();
    let mut i: usize = 0;
    while i < v.len()
        invariant
            i <= v@.len(),
            out@.len() == i,
            forall|k: int| 0 <= k < i ==> (#[trigger] out@[k]).view() == v@[k].view(),
        decreases v@.len() - i,
    {
        out.push(v[i].copy());
        i = i + 1;
    }
    assert(snaps_view(out@) =~= snaps_view(v@));
    out
}

impl Clone for Document {
    /// A copy with the same model.
    fn clone(&self) -> (r: Self)
        ensures
            r@ == self@,
    {
        let r = Document {
            path: self.path(),
            lines: clone_strings(&self.lines),
            cursor_line: self.cursor_line,
            cursor_col: self.cursor_col,
            dirty: self.dirty,
            read_only: self.read_only,
            id: self.id,
            undo_stack: copy_snaps(&self.undo_stack),
            redo_stack: copy_snaps(&self.redo_stack),
        };
        r
    }
}

} // verus!
