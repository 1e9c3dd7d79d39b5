//! What the terminal shows: the text rows, the status line, the command
//! bar and the warning line, laid out for a screen of a given size, and
//! where the cursor goes. Writing it to the terminal is left to the
//! program.

use vstd::prelude::*;
use crate::document::{Document, lines_view, path_view};
use crate::document::model::{DocView, doc_ok};
use crate::path::{spec_file_name, file_name};
use crate::text::{chars_of, decimal, push_decimal};
use crate::warn::{WarnPopup, warn_text};

verus! {

/// The displayed width of a string in terminal columns, as
/// `unicode_width::UnicodeWidthStr::width` measures it.
pub uninterp spec fn str_width(s: Seq<char>) -> usize;

/// Calls `UnicodeWidthStr::width` of the `unicode-width` crate; the result
/// is the named width of `s`.
#[verifier::external_body]
fn display_width(s: &str) -> (r: usize)
    ensures
        r == str_width(s@),
{
    unicode_width::UnicodeWidthStr::width(s)
}

/// The width of one character drawn on its own.
pub open spec fn char_width(c: char) -> usize {
    str_width(seq![c])
}

/// How many characters of `cs` fit, taken in order, in `max` columns when
/// `w` columns are already used.
pub open spec fn fit_count(cs: Seq<char>, max: int, w: int) -> nat
    decreases cs.len(),
{
    if cs.len() == 0 {
        0
    } else if w + char_width(cs[0]) > max {
        0
    } else {
        1 + fit_count(cs.drop_first(), max, w + char_width(cs[0]))
    }
}

/// The longest start of `s` whose characters fit in `max` columns,
/// stopping at the first that does not.
pub open spec fn spec_truncate(s: Seq<char>, max: int) -> Seq<char> {
    s.take(fit_count(s, max, 0) as int)
}

/// The columns the characters take, each drawn on its own.
pub open spec fn width_sum(cs: Seq<char>) -> int
    decreases cs.len(),
{
    if cs.len() == 0 { 0 } else { char_width(cs[0]) + width_sum(cs.drop_first()) }
}

proof fn lemma_fit_width(cs: Seq<char>, max: int, w: int)
    requires
        w <= max,
    ensures
        w + width_sum(cs.take(fit_count(cs, max, w) as int)) <= max,
    decreases cs.len(),
{
    let k = fit_count(cs, max, w);
    if cs.len() == 0 || w + char_width(cs[0]) > max {
        assert(cs.take(k as int) =~= Seq::<char>::empty());
    } else {
        let w2 = w + char_width(cs[0]);
        lemma_fit_width(cs.drop_first(), max, w2);
        lemma_fit_count_le(cs.drop_first(), max, w2);
        let t = cs.take(k as int);
        assert(t.drop_first() =~= cs.drop_first().take(fit_count(cs.drop_first(), max, w2) as int));
        assert(t[0] == cs[0]);
    }
}

/// What truncation keeps fits: its characters take at most `max` columns.
pub proof fn lemma_truncate_fits(s: Seq<char>, max: int)
    requires
        max >= 0,
    ensures
        width_sum(spec_truncate(s, max)) <= max,
        spec_truncate(s, max).len() <= s.len(),
{
    lemma_fit_width(s, max, 0);
    lemma_fit_count_le(s, max, 0);
}

proof fn lemma_fit_count_le(cs: Seq<char>, max: int, w: int)
    ensures
        fit_count(cs, max, w) <= cs.len(),
    decreases cs.len(),
{
    if cs.len() > 0 && w + char_width(cs[0]) <= max {
        lemma_fit_count_le(cs.drop_first(), max, w + char_width(cs[0]));
    }
}

/// Cut `s` to what fits in `max_width` columns (see `spec_truncate`).
pub fn truncate_to_width(s: &str, max_width: usize) -> (r: String)
    ensures
        r@ == spec_truncate(s@, max_width as int),
{
    let cs = chars_of(s);
    let mut out = String::new();
    let mut w: usize = 0;
    let mut i: usize = 0;
    proof {
        assert(cs@.skip(0) =~= cs@);
        lemma_fit_count_le(cs@, max_width as int, 0);
    }
    while i < cs.len()
        invariant
            cs@ == s@,
            i <= cs@.len(),
            w <= max_width,
            out@ == cs@.take(i as int),
            fit_count(cs@, max_width as int, 0) == i + fit_count(cs@.skip(i as int), max_width as int, w as int),
        ensures
            fit_count(cs@, max_width as int, 0) == i,
            out@ == cs@.take(i as int),
        decreases cs@.len() - i,
    {
        let c = cs[i];
        let mut one = String::new();
        one.push(c);
        assert(one@ =~= seq![c]);
        let cw = display_width(one.as_str());
        proof {
            assert(cs@.skip(i as int)[0] == c);
            assert(cs@.skip(i as int).drop_first() =~= cs@.skip(i as int + 1));
        }
        if cw > max_width - w {
            proof {
                assert(char_width(c) == cw);
                assert(fit_count(cs@.skip(i as int), max_width as int, w as int) == 0);
            }
            break;
        }
        out.push(c);
        w = w + cw;
        i = i + 1;
        assert(out@ =~= cs@.take(i as int));
        proof {
            if i == cs@.len() {
                assert(cs@.skip(i as int) =~= Seq::<char>::empty());
            }
        }
    }
    out
}

/// The screen's size in columns and rows, and the viewport: the first
/// document line shown on the text rows.
pub struct Screen {
    pub width: u16,
    pub height: u16,
    pub scroll: usize,
}

/// The viewport after following the cursor: unchanged while the cursor
/// line is among the `n` lines shown from `scroll`, else moved just far
/// enough to show it (at the top when it is above, at the bottom when it
/// is below). With no text rows it starts at the cursor line.
pub open spec fn spec_scroll(scroll: int, cursor_line: int, n: int) -> int {
    if n <= 0 {
        cursor_line
    } else if cursor_line < scroll {
        cursor_line
    } else if cursor_line >= scroll + n {
        cursor_line - n + 1
    } else {
        scroll
    }
}

/// What one redraw shows.
pub struct Frame {
    /// The warning, on the top row.
    pub warning: Option<String>,
    /// The text rows, from `Screen::text_start_row` down: a document line
    /// or `~` past the end of the document.
    pub rows: Vec<String>,
    pub status_row: u16,
    /// File name, `*` when modified, ` [ro]` when read-only, and the
    /// cursor's line and column counted from 1.
    pub status: String,
    pub bottom_row: u16,
    /// The command bar, `:` and what has been typed, when it is open.
    pub command: Option<String>,
    pub cursor_col: u16,
    pub cursor_row: u16,
}

/// The name shown for a document.
pub open spec fn shown_name(d: DocView) -> Seq<char> {
    match d.path {
        Some(p) => match spec_file_name(p) {
            Some(n) => n,
            None => "[no name]"@,
        },
        None => "[no name]"@,
    }
}

/// The status line before truncation.
pub open spec fn status_text(d: DocView) -> Seq<char> {
    shown_name(d) + (if d.dirty { "*"@ } else { Seq::empty() }) + (if d.read_only { " [ro]"@ } else { Seq::empty() })
        + " -- "@ + decimal((d.cursor_line + 1) as nat) + ":"@ + decimal((d.cursor_col + 1) as nat)
}

/// Document line `i` as a text row: the line cut to the width, or `~`
/// past the end of the document.
pub open spec fn row_text(d: DocView, i: int, width: int) -> Seq<char> {
    if i < d.lines.len() { spec_truncate(d.lines[i], width) } else { "~"@ }
}

pub open spec fn opt_text(o: Option<String>) -> Option<Seq<char>> {
    match o {
        Some(s) => Some(s@),
        None => None,
    }
}

impl Screen {
    /// A screen of the given size (the program reads it from the terminal),
    /// showing the document from its first line.
    pub fn new(width: u16, height: u16) -> (r: Self)
        ensures
            r.width == width && r.height == height && r.scroll == 0,
    {
        Screen { width, height, scroll: 0 }
    }

    /// Take the terminal's new size.
    pub fn refresh_size(&mut self, width: u16, height: u16)
        ensures
            final(self).width == width && final(self).height == height,
            final(self).scroll == old(self).scroll,
    {
        self.width = width;
        self.height = height;
    }

    /// Rows left for text: all but the warning, status and command rows.
    pub fn text_rows(&self) -> (r: u16)
        ensures
            r == (if self.height >= 3 { self.height - 3 } else { 0 }),
    {
        self.height.saturating_sub(3)
    }

    /// The row of the first text line.
    pub fn text_start_row(&self) -> (r: u16)
        ensures
            r == 1,
    {
        1
    }

    /// Whether a redraw would overflow: the cursor's column counted from
    /// 1, or the command bar's cursor column.
    pub open spec fn draw_overflows(&self, d: DocView, command_bar: Option<Seq<char>>) -> bool {
        ||| d.cursor_col == usize::MAX
        ||| (command_bar matches Some(c) && str_width(c) == usize::MAX)
    }

    /// The number of text rows.
    pub open spec fn spec_text_rows(&self) -> int {
        if self.height >= 3 { self.height - 3 } else { 0 }
    }

    /// Lay out the screen for a document, the command bar's text when it
    /// is open, and the warning shown; `None` when the layout would
    /// overflow (see `draw_overflows`). The viewport first follows the
    /// cursor (see `spec_scroll`); the text rows show the document from
    /// the viewport's first line, and the cursor stands on its line's row.
    pub fn draw(&mut self, doc: &Document, command_bar: Option<&str>, warn: &WarnPopup) -> (r: Option<Frame>)
        requires
            doc.wf(),
        ensures
            final(self).width == old(self).width,
            final(self).height == old(self).height,
            r is None <==> old(self).draw_overflows(doc@, match command_bar { Some(c) => Some(c@), None => None }),
            r is None ==> final(self).scroll == old(self).scroll,
            r matches Some(f) ==> {
                let w = old(self).width as int;
                let h = old(self).height;
                let n = old(self).spec_text_rows();
                let top = final(self).scroll as int;
                &&& top == spec_scroll(old(self).scroll as int, doc@.cursor_line as int, n)
                &&& opt_text(f.warning) == match warn@.current {
                    Some((m, _)) => Some(spec_truncate(warn_text(m), w)),
                    None => None,
                }
                &&& f.rows@.len() == n
                &&& forall|i: int| 0 <= i < f.rows@.len() ==> (#[trigger] f.rows@[i])@ == row_text(doc@, top + i, w)
                &&& f.status_row == (if h >= 2 { h - 2 } else { 0 })
                &&& f.status@ == spec_truncate(status_text(doc@), w)
                &&& f.bottom_row == (if h >= 1 { h - 1 } else { 0 })
                &&& opt_text(f.command) == match command_bar {
                    Some(c) => Some(":"@ + c@),
                    None => None,
                }
                &&& match command_bar {
                    Some(c) => f.cursor_col == ((1 + str_width(c@)) as usize) as u16 && f.cursor_row == f.bottom_row,
                    None => f.cursor_col == (doc@.cursor_col as u16) && f.cursor_row == 1 + doc@.cursor_line - top,
                }
            },
    {
        let width = self.width as usize;
        let line = doc.cursor_line();
        let col = doc.cursor_col();
        if col == usize::MAX {
            return None;
        }
        let n = self.text_rows();
        let nn = n as usize;
        let top: usize = if nn == 0 {
            line
        } else if line < self.scroll {
            line
        } else if line - self.scroll >= nn {
            line - nn + 1
        } else {
            self.scroll
        };
        let (cursor_col, cursor_row) = match command_bar {
            Some(c) => {
                let w = display_width(c);
                if w == usize::MAX {
                    return None;
                }
                ((1 + w) as u16, self.height.saturating_sub(1))
            },
            None => {
                let off = (line - top) as u16;
                (col as u16, 1 + off)
            },
        };
        let warning = match warn.render_text() {
            Some(w) => Some(truncate_to_width(w.as_str(), width)),
            None => None,
        };
        let mut rows: Vec<String> = Vec::new();
        let mut i: u16 = 0;
        while i < n
            invariant
                i <= n,
                doc.wf(),
                width == self.width as usize,
                rows@.len() == i,
                forall|k: int| 0 <= k < i ==> (#[trigger] rows@[k])@ == row_text(doc@, top + k, width as int),
            decreases n - i,
        {
            if (i as usize) < doc.line_count() && top < doc.line_count() - (i as usize) {
                let l = doc.line(top + i as usize);
                rows.push(truncate_to_width(l.as_str(), width));
            } else {
                rows.push(String::from_str("~"));
            }
            i = i + 1;
        }
        let mut status = match doc.path() {
            Some(p) => match file_name(p.as_str()) {
                Some(nm) => nm,
                None => String::from_str("[no name]"),
            },
            None => String::from_str("[no name]"),
        };
        if doc.is_dirty() {
            status.append("*");
        }
        if doc.is_read_only() {
            status.append(" [ro]");
        }
        status.append(" -- ");
        push_decimal(&mut status, line + 1);
        status.append(":");
        push_decimal(&mut status, col + 1);
        proof {
            let d = doc@;
            assert(status@ =~= status_text(d));
        }
        let status = truncate_to_width(status.as_str(), width);
        let command = match command_bar {
            Some(c) => {
                let mut s = String::from_str(":");
                s.append(c);
                Some(s)
            },
            None => None,
        };
        self.scroll = top;
        Some(Frame {
            warning,
            rows,
            status_row: self.height.saturating_sub(2),
            status,
            bottom_row: self.height.saturating_sub(1),
            command,
            cursor_col,
            cursor_row,
        })
    }
}

/// The viewport follows the cursor: with at least one text row, the cursor
/// line is among the rows shown after a redraw, so the cursor stands on one
/// of the text rows `1..=n`; and a cursor already in view does not scroll.
pub proof fn lemma_viewport_shows_cursor(scroll: int, cursor_line: int, n: int)
    requires
        n > 0,
        0 <= scroll,
        0 <= cursor_line,
    ensures
        0 <= spec_scroll(scroll, cursor_line, n) <= cursor_line < spec_scroll(scroll, cursor_line, n) + n,
        1 <= 1 + cursor_line - spec_scroll(scroll, cursor_line, n) <= n,
        scroll <= cursor_line < scroll + n ==> spec_scroll(scroll, cursor_line, n) == scroll,
{
}

} // verus!
