//! The commands of the command language, and what each does to the editor.
//!
//! A command that needs the outside world (the file system, a shell, the
//! clipboard) does not do the work itself: it returns an `Effect` naming
//! the work, the program carries it out, and hands the result back to the
//! matching `finish_*` method of `ExecContext`.

use vstd::prelude::*;
use super::ast::{Arg, SArg, arg_text, arg_view, args_view};
use super::parser::{is_ascii_digit, parse_usize, parse_digits};
use crate::document::Document;
use crate::document::model::{
    DocView, cur_line, max_lines, spec_find_next, find_target, replace_ok, spec_replace_next,
    spec_goto_end_of_file, spec_goto_start_of_file, spec_goto_end_of_line, spec_goto_start_of_line,
    spec_goto_line, spec_undo, spec_redo, spec_delete_to_end_of_line, Scan, match_target,
    spec_jump_to_match, spec_duplicate_line, join_lines, fresh, spec_insert_text,
    lemma_insert_text_keeps_id,
};
use crate::editor::{
    Editor, EditorView, active_doc, with_active, spec_open, spec_close, spec_next, spec_previous,
    has_dirty, editor_ok, spec_mark_saved, lemma_with_active_ok,
};
use crate::text::text_lines;
use crate::warn::{WarnPopup, WarnView};

verus! {

/// The commands, each named by one letter.
#[derive(Debug, Clone, Copy, PartialEq, Eq, Structural)]
pub enum CommandKind {
    Save,
    Quit,
    Exit,
    Edit,
    Find,
    Replace,
    Goto,
    Undo,
    Redo,
    Execute,
    Copy,
    Paste,
    Delete,
    Match,
    PreviousFile,
    NextFile,
    Name,
    Yank,
}

/// The command a letter names.
pub open spec fn kind_of_letter(c: char) -> Option<CommandKind> {
    if c == 's' { Some(CommandKind::Save) }
    else if c == 'q' { Some(CommandKind::Quit) }
    else if c == 'Q' { Some(CommandKind::Exit) }
    else if c == 'e' { Some(CommandKind::Edit) }
    else if c == 'f' { Some(CommandKind::Find) }
    else if c == 'R' { Some(CommandKind::Replace) }
    else if c == 'g' { Some(CommandKind::Goto) }
    else if c == 'u' { Some(CommandKind::Undo) }
    else if c == 'r' { Some(CommandKind::Redo) }
    else if c == 'x' { Some(CommandKind::Execute) }
    else if c == 'c' { Some(CommandKind::Copy) }
    else if c == 'p' { Some(CommandKind::Paste) }
    else if c == 'd' { Some(CommandKind::Delete) }
    else if c == 'm' { Some(CommandKind::Match) }
    else if c == 'A' { Some(CommandKind::PreviousFile) }
    else if c == 'D' { Some(CommandKind::NextFile) }
    else if c == 'n' { Some(CommandKind::Name) }
    else if c == 'y' { Some(CommandKind::Yank) }
    else { None }
}

/// The commands that can change a document.
pub open spec fn kind_triggers_change(k: CommandKind) -> bool {
    match k {
        CommandKind::Replace | CommandKind::Undo | CommandKind::Redo | CommandKind::Paste
        | CommandKind::Delete | CommandKind::Yank => true,
        _ => false,
    }
}

/// The one-line description of each command.
pub open spec fn kind_help(k: CommandKind) -> Seq<char> {
    match k {
        CommandKind::Save => "[s] save the current document (s! to override read-only, might need root privilages)"@,
        CommandKind::Quit => "[q] close file (q! to force close with unsaved changes)"@,
        CommandKind::Exit => "[Q] quit ink"@,
        CommandKind::Edit => "[e]{path} open/edit a file"@,
        CommandKind::Find => "[f]{find} find next occurrence of find, wrapping to the start if needed"@,
        CommandKind::Replace => "[R]{find}{replace} replace the next occurrence of find with replace"@,
        CommandKind::Goto => "[g]{N/arg} go to line N (or: sl-startOfLine, el-endOfLine, sf-startOfFile, ef-endOfFile)"@,
        CommandKind::Undo => "[u] undo"@,
        CommandKind::Redo => "[r] redo"@,
        CommandKind::Execute => "[x]{command} execute a shell command"@,
        CommandKind::Copy => "[c] copy current line to the system clipboard"@,
        CommandKind::Paste => "[p] paste from the system clipboard"@,
        CommandKind::Delete => "[d] delete to end of line from the cursor"@,
        CommandKind::Match => "[m] match to the relevant delimiter"@,
        CommandKind::PreviousFile => "[A] go to the previous file in the editor"@,
        CommandKind::NextFile => "[D] go to the next file in the editor"@,
        CommandKind::Name => "[n] set the name of the currently selected file."@,
        CommandKind::Yank => "[y] duplicate the current line"@,
    }
}

impl CommandKind {
    /// The command named by a letter.
    pub fn from_char(c: char) -> (r: Option<Self>)
        ensures
            r == kind_of_letter(c),
    {
        match c {
            's' => Some(CommandKind::Save),
            'q' => Some(CommandKind::Quit),
            'Q' => Some(CommandKind::Exit),
            'e' => Some(CommandKind::Edit),
            'f' => Some(CommandKind::Find),
            'R' => Some(CommandKind::Replace),
            'g' => Some(CommandKind::Goto),
            'u' => Some(CommandKind::Undo),
            'r' => Some(CommandKind::Redo),
            'x' => Some(CommandKind::Execute),
            'c' => Some(CommandKind::Copy),
            'p' => Some(CommandKind::Paste),
            'd' => Some(CommandKind::Delete),
            'm' => Some(CommandKind::Match),
            'A' => Some(CommandKind::PreviousFile),
            'D' => Some(CommandKind::NextFile),
            'n' => Some(CommandKind::Name),
            'y' => Some(CommandKind::Yank),
            _ => None,
        }
    }

    /// Whether the command can change a document.
    pub fn trigger_change(&self) -> (r: bool)
        ensures
            r == kind_triggers_change(*self),
    {
        match self {
            CommandKind::Replace | CommandKind::Undo | CommandKind::Redo | CommandKind::Paste
            | CommandKind::Delete | CommandKind::Yank => true,
            _ => false,
        }
    }

    /// The command's description, shown by its help.
    pub fn help(&self) -> (r: &'static str)
        ensures
            r@ == kind_help(*self),
    {
        match self {
            CommandKind::Save => "[s] save the current document (s! to override read-only, might need root privilages)",
            CommandKind::Quit => "[q] close file (q! to force close with unsaved changes)",
            CommandKind::Exit => "[Q] quit ink",
            CommandKind::Edit => "[e]{path} open/edit a file",
            CommandKind::Find => "[f]{find} find next occurrence of find, wrapping to the start if needed",
            CommandKind::Replace => "[R]{find}{replace} replace the next occurrence of find with replace",
            CommandKind::Goto => "[g]{N/arg} go to line N (or: sl-startOfLine, el-endOfLine, sf-startOfFile, ef-endOfFile)",
            CommandKind::Undo => "[u] undo",
            CommandKind::Redo => "[r] redo",
            CommandKind::Execute => "[x]{command} execute a shell command",
            CommandKind::Copy => "[c] copy current line to the system clipboard",
            CommandKind::Paste => "[p] paste from the system clipboard",
            CommandKind::Delete => "[d] delete to end of line from the cursor",
            CommandKind::Match => "[m] match to the relevant delimiter",
            CommandKind::PreviousFile => "[A] go to the previous file in the editor",
            CommandKind::NextFile => "[D] go to the next file in the editor",
            CommandKind::Name => "[n] set the name of the currently selected file.",
            CommandKind::Yank => "[y] duplicate the current line",
        }
    }
}


// ---------------------------------------------------------------------
// Execution context
// ---------------------------------------------------------------------

/// What commands act on: the editor, the warning line, whether the program
/// is to quit, and the time (in nanoseconds) at which warnings are shown.
pub struct ExecContext {
    pub editor: Editor,
    pub warn: WarnPopup,
    pub should_quit: bool,
    pub now_ns: u64,
}

/// The model of an execution context.
pub struct CtxView {
    pub editor: EditorView,
    pub warn: WarnView,
    pub should_quit: bool,
    pub now_ns: u64,
}

impl View for ExecContext {
    type V = CtxView;

    open spec fn view(&self) -> CtxView {
        CtxView { editor: self.editor@, warn: self.warn@, should_quit: self.should_quit, now_ns: self.now_ns }
    }
}

/// Work in the outside world that a command asks for.
pub enum Effect {
    /// Write `contents` to the file at `path`, then `finish_write`
    /// for the document `id`.
    Write { id: u64, path: String, contents: String },
    /// Read the file at `path`, then `finish_open`.
    Open { path: String },
    /// Run `command` with `sh -c`, then `finish_shell`.
    Shell { command: String },
    /// Put `text` on the system clipboard, then `finish_copy`.
    Copy { text: String },
    /// Read the system clipboard, then `finish_paste`.
    Paste,
}

/// How a command ended.
pub enum Outcome {
    /// The command is done.
    Done,
    /// The command asks for outside work.
    Effect(Effect),
    /// The command cannot be carried out on this state (no document is
    /// open, or a count or position would overflow); nothing was changed.
    Halted,
}

pub enum SEffect {
    Write { id: u64, path: Seq<char>, contents: Seq<char> },
    Open { path: Seq<char> },
    Shell { command: Seq<char> },
    Copy { text: Seq<char> },
    Paste,
}

pub enum SOutcome {
    Done,
    Effect(SEffect),
    Halted,
}

pub open spec fn effect_view(e: Effect) -> SEffect {
    match e {
        Effect::Write { id, path, contents } => SEffect::Write { id, path: path@, contents: contents@ },
        Effect::Open { path } => SEffect::Open { path: path@ },
        Effect::Shell { command } => SEffect::Shell { command: command@ },
        Effect::Copy { text } => SEffect::Copy { text: text@ },
        Effect::Paste => SEffect::Paste,
    }
}

pub open spec fn outcome_view(o: Outcome) -> SOutcome {
    match o {
        Outcome::Done => SOutcome::Done,
        Outcome::Effect(e) => SOutcome::Effect(effect_view(e)),
        Outcome::Halted => SOutcome::Halted,
    }
}

pub open spec fn ctx_ok(c: CtxView) -> bool {
    editor_ok(c.editor)
}

/// Show a warning at the context's time.
pub open spec fn warned(c: CtxView, msg: Seq<char>) -> CtxView {
    CtxView { warn: WarnView { current: Some((msg, c.now_ns)) }, ..c }
}

pub open spec fn with_editor(c: CtxView, e: EditorView) -> CtxView {
    CtxView { editor: e, ..c }
}

/// Replace the active document.
pub open spec fn on_doc(c: CtxView, d: DocView) -> CtxView {
    with_editor(c, with_active(c.editor, d))
}

pub open spec fn cur(c: CtxView) -> DocView {
    active_doc(c.editor)
}

/// The text of argument `i`, if there is one.
pub open spec fn arg_at(args: Seq<SArg>, i: int) -> Option<Seq<char>> {
    if 0 <= i < args.len() { Some(arg_text(args[i])) } else { None }
}

/// `s` read as a line number, as `str::parse::<usize>` reads it: an
/// optional `+` followed by at least one decimal digit, the value fitting
/// in a `usize`.
pub open spec fn spec_line_number(s: Seq<char>) -> Option<usize> {
    let d = number_digits(s);
    if d.len() > 0 && all_digits(d) {
        parse_usize(d)
    } else {
        None
    }
}

/// `s` without a leading `+` sign (kept when it is all there is).
pub open spec fn number_digits(s: Seq<char>) -> Seq<char> {
    if s.len() > 1 && s[0] == '+' { s.drop_first() } else { s }
}

pub open spec fn all_digits(d: Seq<char>) -> bool {
    forall|i: int| 0 <= i < d.len() ==> is_ascii_digit(#[trigger] d[i])
}

/// The document an empty `e` opens.
pub open spec fn empty_doc() -> DocView {
    fresh(None, seq![Seq::empty()], false)
}

pub open spec fn spec_save(c: CtxView, forced: bool) -> (CtxView, SOutcome) {
    let d = cur(c);
    let c1 = if forced { on_doc(c, DocView { read_only: false, ..d }) } else { c };
    match d.path {
        None => (warned(c1, "no path associated with this document; use n to set one"@), SOutcome::Done),
        Some(p) => if d.read_only && !forced {
            (warned(c1, "document is read-only (use s! to override)"@), SOutcome::Done)
        } else {
            (c1, SOutcome::Effect(SEffect::Write { id: d.id, path: p, contents: join_lines(d.lines) }))
        },
    }
}

pub open spec fn spec_quit(c: CtxView, forced: bool) -> CtxView {
    if cur(c).dirty && !forced {
        warned(c, "unsaved changes. use q! to force quit"@)
    } else {
        let e = spec_close(c.editor);
        CtxView { editor: e, should_quit: if e.docs.len() == 0 { true } else { c.should_quit }, ..c }
    }
}

pub open spec fn spec_exit(c: CtxView, forced: bool) -> CtxView {
    if has_dirty(c.editor) && !forced {
        warned(c, "unsaved changes in a file. use Q! to force quit"@)
    } else {
        CtxView { should_quit: true, ..c }
    }
}

pub open spec fn spec_edit(c: CtxView, args: Seq<SArg>) -> (CtxView, SOutcome) {
    match arg_at(args, 0) {
        Some(p) => (c, SOutcome::Effect(SEffect::Open { path: p })),
        None => if c.editor.next_id < u64::MAX {
            (with_editor(c, spec_open(c.editor, empty_doc())), SOutcome::Done)
        } else {
            (c, SOutcome::Halted)
        },
    }
}

pub open spec fn spec_find(c: CtxView, args: Seq<SArg>) -> (CtxView, SOutcome) {
    let d = cur(c);
    match arg_at(args, 0) {
        Some(n) => if d.cursor_col < usize::MAX {
            let c1 = on_doc(c, spec_find_next(d, n));
            if find_target(d, n) is Some {
                (c1, SOutcome::Done)
            } else {
                (warned(c1, "not found: "@ + n), SOutcome::Done)
            }
        } else {
            (c, SOutcome::Halted)
        },
        None => (warned(c, "f requires a search term, e.g. f;needle;"@), SOutcome::Done),
    }
}

pub open spec fn spec_replace(c: CtxView, args: Seq<SArg>) -> (CtxView, SOutcome) {
    let d = cur(c);
    match (arg_at(args, 0), arg_at(args, 1)) {
        (Some(n), Some(r)) => if d.cursor_col < usize::MAX && replace_ok(d, n) {
            let c1 = on_doc(c, spec_replace_next(d, n, r));
            if find_target(d, n) is Some {
                (c1, SOutcome::Done)
            } else {
                (warned(c1, "not found: "@ + n), SOutcome::Done)
            }
        } else {
            (c, SOutcome::Halted)
        },
        _ => (warned(c, "R requires two arguments, e.g. R;needle:replacement;"@), SOutcome::Done),
    }
}

pub open spec fn goto_usage() -> Seq<char> {
    "g requires a line number or position, g;N; / g;ef/sf; g;el/sl;"@
}

pub open spec fn spec_goto(c: CtxView, args: Seq<SArg>) -> CtxView {
    let d = cur(c);
    match arg_at(args, 0) {
        Some(a) => if a == "ef"@ {
            on_doc(c, spec_goto_end_of_file(d))
        } else if a == "sf"@ {
            on_doc(c, spec_goto_start_of_file(d))
        } else if a == "el"@ {
            on_doc(c, spec_goto_end_of_line(d))
        } else if a == "sl"@ {
            on_doc(c, spec_goto_start_of_line(d))
        } else {
            match spec_line_number(a) {
                Some(n) => on_doc(c, spec_goto_line(d, n as int)),
                None => warned(c, goto_usage()),
            }
        },
        None => warned(c, goto_usage()),
    }
}

pub open spec fn spec_execute(c: CtxView, args: Seq<SArg>) -> (CtxView, SOutcome) {
    match arg_at(args, 0) {
        Some(cmd) => (c, SOutcome::Effect(SEffect::Shell { command: cmd })),
        None => (warned(c, "x requires a command, e.g. x;cargo check;"@), SOutcome::Done),
    }
}

pub open spec fn spec_name(c: CtxView, args: Seq<SArg>) -> CtxView {
    match arg_at(args, 0) {
        Some(a) => on_doc(c, DocView { path: Some(a), ..cur(c) }),
        None => warned(c, "n requires a filename, e.g. n;file.txt;"@),
    }
}

/// Open a new document named `name` holding `text`.
pub open spec fn spec_open_text(c: CtxView, name: Seq<char>, text: Seq<char>, read_only: bool) -> (CtxView, SOutcome) {
    if text.len() < max_lines() && c.editor.next_id < u64::MAX {
        (with_editor(c, spec_open(c.editor, fresh(Some(name), text_lines(text), read_only))), SOutcome::Done)
    } else {
        (c, SOutcome::Halted)
    }
}

/// What a shell command printed: its standard output, then its error
/// output on a line of its own.
pub open spec fn spec_shell_text(out: Seq<char>, err: Seq<char>) -> Seq<char> {
    if err.len() > 0 {
        (if out.len() > 0 && out.last() != '\n' { out.push('\n') } else { out }) + err
    } else {
        out
    }
}

pub open spec fn spec_finish_write(c: CtxView, id: u64, result: Result<(), Seq<char>>) -> CtxView {
    match result {
        Ok(_) => with_editor(c, spec_mark_saved(c.editor, id)),
        Err(m) => warned(c, m),
    }
}

pub open spec fn spec_finish_shell(c: CtxView, result: Result<(Seq<char>, Seq<char>), Seq<char>>) -> (CtxView, SOutcome) {
    match result {
        Ok((out, err)) => {
            let t = spec_shell_text(out, err);
            if t.len() == 0 {
                (c, SOutcome::Done)
            } else {
                spec_open_text(c, "out"@, t, true)
            }
        },
        Err(e) => (warned(c, "failed to run command: "@ + e), SOutcome::Done),
    }
}

pub open spec fn spec_finish_paste(c: CtxView, result: Result<Seq<char>, Seq<char>>) -> (CtxView, SOutcome) {
    match result {
        Ok(text) => if c.editor.docs.len() > 0 && cur(c).cursor_col + text.len() < usize::MAX
            && cur(c).lines.len() + text.len() < max_lines() {
            (on_doc(c, spec_insert_text(cur(c), text)), SOutcome::Done)
        } else {
            (c, SOutcome::Halted)
        },
        Err(e) => (warned(c, e), SOutcome::Done),
    }
}

pub open spec fn string_result(r: Result<String, String>) -> Result<Seq<char>, Seq<char>> {
    match r {
        Ok(s) => Ok(s@),
        Err(e) => Err(e@),
    }
}

pub open spec fn unit_result(r: Result<(), String>) -> Result<(), Seq<char>> {
    match r {
        Ok(_) => Ok(()),
        Err(e) => Err(e@),
    }
}

pub open spec fn pair_result(r: Result<(String, String), String>) -> Result<(Seq<char>, Seq<char>), Seq<char>> {
    match r {
        Ok((a, b)) => Ok((a@, b@)),
        Err(e) => Err(e@),
    }
}

/// Whether the command reads or changes the active document (and so needs
/// one to be open): all but quitting everything, opening a file and running
/// a shell command.
pub open spec fn needs_doc(k: CommandKind) -> bool {
    !(k is Exit || k is Edit || k is Execute)
}

/// What running command `k` does to the context, and how it ends.
pub open spec fn spec_run(k: CommandKind, args: Seq<SArg>, forced: bool, c: CtxView) -> (CtxView, SOutcome) {
    let d = cur(c);
    if needs_doc(k) && c.editor.docs.len() == 0 {
        (c, SOutcome::Halted)
    } else {
        match k {
            CommandKind::Save => spec_save(c, forced),
            CommandKind::Quit => (spec_quit(c, forced), SOutcome::Done),
            CommandKind::Exit => (spec_exit(c, forced), SOutcome::Done),
            CommandKind::Edit => spec_edit(c, args),
            CommandKind::Find => spec_find(c, args),
            CommandKind::Replace => spec_replace(c, args),
            CommandKind::Goto => (spec_goto(c, args), SOutcome::Done),
            CommandKind::Undo => (on_doc(c, spec_undo(d)), SOutcome::Done),
            CommandKind::Redo => (on_doc(c, spec_redo(d)), SOutcome::Done),
            CommandKind::Execute => spec_execute(c, args),
            CommandKind::Copy => (c, SOutcome::Effect(SEffect::Copy { text: cur_line(d) })),
            CommandKind::Paste => (c, SOutcome::Effect(SEffect::Paste)),
            CommandKind::Delete => (on_doc(c, spec_delete_to_end_of_line(d)), SOutcome::Done),
            CommandKind::Match => if match_target(d) is Overflow {
                (c, SOutcome::Halted)
            } else {
                (on_doc(c, spec_jump_to_match(d)), SOutcome::Done)
            },
            CommandKind::PreviousFile => (with_editor(c, spec_previous(c.editor)), SOutcome::Done),
            CommandKind::NextFile => (with_editor(c, spec_next(c.editor)), SOutcome::Done),
            CommandKind::Name => (spec_name(c, args), SOutcome::Done),
            CommandKind::Yank => if d.lines.len() < max_lines() {
                (on_doc(c, spec_duplicate_line(d)), SOutcome::Done)
            } else {
                (c, SOutcome::Halted)
            },
        }
    }
}


/// `s` read as a line number (see `spec_line_number`).
pub fn line_number(s: &str) -> (r: Option<usize>)
    ensures
        r == spec_line_number(s@),
{
    let cs = crate::text::chars_of(s);
    let n = cs.len();
    let start: usize = if n > 1 && cs[0] == '+' { 1 } else { 0 };
    let ghost d = number_digits(s@);
    let mut digits: Vec<char> = Vec::new();
    let mut i: usize = start;
    while i < n
        invariant
            cs@ == s@,
            n == cs@.len(),
            start <= i <= n,
            d == cs@.subrange(start as int, n as int),
            d == number_digits(s@),
            digits@ == cs@.subrange(start as int, i as int),
            forall|k: int| 0 <= k < digits@.len() ==> is_ascii_digit(#[trigger] digits@[k]),
        decreases n - i,
    {
        let c = cs[i];
        if !('0' <= c && c <= '9') {
            proof {
                assert(d[i - start] == c);
                assert(!is_ascii_digit(d[i - start]));
            }
            return None;
        }
        digits.push(c);
        i = i + 1;
        proof {
            assert(digits@ =~= cs@.subrange(start as int, i as int));
        }
    }
    proof {
        assert(digits@ =~= d);
    }
    if digits.len() == 0 {
        return None;
    }
    parse_digits(&digits)
}

impl ExecContext {
    /// Show a warning now.
    fn warn_now(&mut self, msg: String)
        ensures
            final(self)@ == warned(old(self)@, msg@),
    {
        let t = self.now_ns;
        self.warn.show(msg, t);
    }

    fn run_save(&mut self, forced: bool) -> (r: Outcome)
        requires
            ctx_ok(old(self)@),
            old(self)@.editor.docs.len() > 0,
        ensures
            (final(self)@, outcome_view(r)) == spec_save(old(self)@, forced),
            ctx_ok(final(self)@),
    {
        let id = self.editor.active_id();
        let result = if forced {
            self.editor.doc_mut().save_forced()
        } else {
            self.editor.doc().save()
        };
        match result {
            Ok(req) => Outcome::Effect(Effect::Write { id, path: req.path, contents: req.contents }),
            Err(e) => {
                let m = e.message();
                self.warn_now(m);
                Outcome::Done
            },
        }
    }
}

/// `prefix` followed by `rest`.
pub fn prefixed(prefix: &str, rest: &str) -> (r: String)
    ensures
        r@ == prefix@ + rest@,
{
    let mut out = String::from_str(prefix);
    out.append(rest);
    out
}

impl ExecContext {
    fn run_quit(&mut self, forced: bool)
        requires
            ctx_ok(old(self)@),
            old(self)@.editor.docs.len() > 0,
        ensures
            final(self)@ == spec_quit(old(self)@, forced),
            ctx_ok(final(self)@),
    {
        let dirty = self.editor.doc().is_dirty();
        if dirty && !forced {
            self.warn_now(String::from_str("unsaved changes. use q! to force quit"));
        } else {
            self.editor.close();
            if self.editor.get_docs_len() == 0 {
                self.should_quit = true;
            }
        }
    }

    fn run_exit(&mut self, forced: bool)
        requires
            ctx_ok(old(self)@),
        ensures
            final(self)@ == spec_exit(old(self)@, forced),
            ctx_ok(final(self)@),
    {
        if self.editor.has_dirty() && !forced {
            self.warn_now(String::from_str("unsaved changes in a file. use Q! to force quit"));
        } else {
            self.should_quit = true;
        }
    }

    fn run_edit(&mut self, args: &[Arg]) -> (r: Outcome)
        requires
            ctx_ok(old(self)@),
        ensures
            (final(self)@, outcome_view(r)) == spec_edit(old(self)@, args_view(args@)),
            ctx_ok(final(self)@),
    {
        if args.len() > 0 {
            let path = String::from_str(args[0].as_str());
            Outcome::Effect(Effect::Open { path })
        } else if self.editor.next_id() < u64::MAX {
            self.editor.open(Document::new_empty());
            Outcome::Done
        } else {
            Outcome::Halted
        }
    }

    fn run_find(&mut self, args: &[Arg]) -> (r: Outcome)
        requires
            ctx_ok(old(self)@),
            old(self)@.editor.docs.len() > 0,
        ensures
            (final(self)@, outcome_view(r)) == spec_find(old(self)@, args_view(args@)),
            ctx_ok(final(self)@),
    {
        if args.len() == 0 {
            self.warn_now(String::from_str("f requires a search term, e.g. f;needle;"));
            return Outcome::Done;
        }
        let needle = args[0].as_str();
        if self.editor.doc().cursor_col() == usize::MAX {
            return Outcome::Halted;
        }
        let found = self.editor.doc_mut().find_next(needle);
        if !found {
            self.warn_now(prefixed("not found: ", needle));
        }
        Outcome::Done
    }

    fn run_replace(&mut self, args: &[Arg]) -> (r: Outcome)
        requires
            ctx_ok(old(self)@),
            old(self)@.editor.docs.len() > 0,
        ensures
            (final(self)@, outcome_view(r)) == spec_replace(old(self)@, args_view(args@)),
            ctx_ok(final(self)@),
    {
        if args.len() < 2 {
            self.warn_now(String::from_str("R requires two arguments, e.g. R;needle:replacement;"));
            return Outcome::Done;
        }
        let needle = args[0].as_str();
        let replacement = args[1].as_str();
        if self.editor.doc().cursor_col() == usize::MAX {
            return Outcome::Halted;
        }
        if !self.editor.doc().can_replace_next(needle) {
            return Outcome::Halted;
        }
        let found = self.editor.doc_mut().replace_next(needle, replacement);
        if !found {
            self.warn_now(prefixed("not found: ", needle));
        }
        Outcome::Done
    }

    fn run_goto(&mut self, args: &[Arg])
        requires
            ctx_ok(old(self)@),
            old(self)@.editor.docs.len() > 0,
        ensures
            final(self)@ == spec_goto(old(self)@, args_view(args@)),
            ctx_ok(final(self)@),
    {
        if args.len() == 0 {
            self.warn_now(String::from_str("g requires a line number or position, g;N; / g;ef/sf; g;el/sl;"));
            return;
        }
        let a = String::from_str(args[0].as_str());
        if a == String::from_str("ef") {
            self.editor.doc_mut().goto_end_of_file();
        } else if a == String::from_str("sf") {
            self.editor.doc_mut().goto_start_of_file();
        } else if a == String::from_str("el") {
            self.editor.doc_mut().goto_end_of_line();
        } else if a == String::from_str("sl") {
            self.editor.doc_mut().goto_start_of_line();
        } else {
            match line_number(a.as_str()) {
                Some(n) => self.editor.doc_mut().goto_line(n),
                None => self.warn_now(String::from_str("g requires a line number or position, g;N; / g;ef/sf; g;el/sl;")),
            }
        }
    }

    fn run_execute(&mut self, args: &[Arg]) -> (r: Outcome)
        requires
            ctx_ok(old(self)@),
        ensures
            (final(self)@, outcome_view(r)) == spec_execute(old(self)@, args_view(args@)),
            ctx_ok(final(self)@),
    {
        if args.len() == 0 {
            self.warn_now(String::from_str("x requires a command, e.g. x;cargo check;"));
            return Outcome::Done;
        }
        Outcome::Effect(Effect::Shell { command: String::from_str(args[0].as_str()) })
    }

    fn run_name(&mut self, args: &[Arg])
        requires
            ctx_ok(old(self)@),
            old(self)@.editor.docs.len() > 0,
        ensures
            final(self)@ == spec_name(old(self)@, args_view(args@)),
            ctx_ok(final(self)@),
    {
        if args.len() == 0 {
            self.warn_now(String::from_str("n requires a filename, e.g. n;file.txt;"));
            return;
        }
        let path = String::from_str(args[0].as_str());
        self.editor.doc_mut().set_path(path);
    }
}

impl CommandKind {
    /// Run the command with its arguments on the context. Work in the
    /// outside world is returned as an effect, to be finished by the caller.
    pub fn run(&self, args: &[Arg], forced: bool, ctx: &mut ExecContext) -> (r: Outcome)
        requires
            ctx_ok(old(ctx)@),
        ensures
            (final(ctx)@, outcome_view(r)) == spec_run(*self, args_view(args@), forced, old(ctx)@),
            ctx_ok(final(ctx)@),
    {
        let kind = *self;
        if !(kind == CommandKind::Exit || kind == CommandKind::Edit || kind == CommandKind::Execute)
            && ctx.editor.get_docs_len() == 0 {
            return Outcome::Halted;
        }
        match kind {
            CommandKind::Save => ctx.run_save(forced),
            CommandKind::Quit => {
                ctx.run_quit(forced);
                Outcome::Done
            },
            CommandKind::Exit => {
                ctx.run_exit(forced);
                Outcome::Done
            },
            CommandKind::Edit => ctx.run_edit(args),
            CommandKind::Find => ctx.run_find(args),
            CommandKind::Replace => ctx.run_replace(args),
            CommandKind::Goto => {
                ctx.run_goto(args);
                Outcome::Done
            },
            CommandKind::Undo => {
                ctx.editor.doc_mut().undo();
                Outcome::Done
            },
            CommandKind::Redo => {
                ctx.editor.doc_mut().redo();
                Outcome::Done
            },
            CommandKind::Execute => ctx.run_execute(args),
            CommandKind::Copy => {
                let d = ctx.editor.doc();
                let text = d.line(d.cursor_line());
                Outcome::Effect(Effect::Copy { text })
            },
            CommandKind::Paste => Outcome::Effect(Effect::Paste),
            CommandKind::Delete => {
                ctx.editor.doc_mut().delete_to_end_of_line();
                Outcome::Done
            },
            CommandKind::Match => {
                match ctx.editor.doc().match_scan() {
                    Scan::Overflow => Outcome::Halted,
                    _ => {
                        ctx.editor.doc_mut().jump_to_match();
                        Outcome::Done
                    },
                }
            },
            CommandKind::PreviousFile => {
                ctx.editor.previous();
                Outcome::Done
            },
            CommandKind::NextFile => {
                ctx.editor.next();
                Outcome::Done
            },
            CommandKind::Name => {
                ctx.run_name(args);
                Outcome::Done
            },
            CommandKind::Yank => {
                if ctx.editor.doc().line_count() < usize::MAX / 2 {
                    ctx.editor.doc_mut().duplicate_line();
                    Outcome::Done
                } else {
                    Outcome::Halted
                }
            },
        }
    }
}

/// What a shell command printed (see `spec_shell_text`).
pub fn shell_text(stdout: &str, stderr: &str) -> (r: String)
    ensures
        r@ == spec_shell_text(stdout@, stderr@),
{
    let mut text = String::from_str(stdout);
    if stderr.unicode_len() > 0 {
        let n = stdout.unicode_len();
        if n > 0 && stdout.get_char(n - 1) != '\n' {
            text.push('\n');
        }
        text.append(stderr);
    }
    text
}

impl ExecContext {
    /// Open a new document named `name` holding `text`.
    pub fn open_text(&mut self, name: String, text: String, read_only: bool) -> (r: Outcome)
        requires
            ctx_ok(old(self)@),
        ensures
            (final(self)@, outcome_view(r)) == spec_open_text(old(self)@, name@, text@, read_only),
            ctx_ok(final(self)@),
    {
        if text.as_str().unicode_len() >= usize::MAX / 2 || self.editor.next_id() == u64::MAX {
            return Outcome::Halted;
        }
        let mut doc = Document::from_text(name, text);
        if read_only {
            doc.set_read_only(true);
        }
        self.editor.open(doc);
        Outcome::Done
    }

    /// The file of document `id` was written (`Ok`), or writing failed
    /// with the given message.
    pub fn finish_write(&mut self, id: u64, result: Result<(), String>)
        requires
            ctx_ok(old(self)@),
        ensures
            final(self)@ == spec_finish_write(old(self)@, id, unit_result(result)),
            ctx_ok(final(self)@),
    {
        match result {
            Ok(()) => {
                self.editor.mark_saved(id);
            },
            Err(m) => self.warn_now(m),
        }
    }

    /// The file at `path` was read: its contents (empty when it could not
    /// be read) and whether it is read-only.
    pub fn finish_open(&mut self, path: String, content: String, read_only: bool) -> (r: Outcome)
        requires
            ctx_ok(old(self)@),
        ensures
            (final(self)@, outcome_view(r)) == spec_open_text(old(self)@, path@, content@, read_only),
            ctx_ok(final(self)@),
    {
        self.open_text(path, content, read_only)
    }

    /// The shell command ran and printed the given output and error
    /// output, or it could not be started.
    pub fn finish_shell(&mut self, result: Result<(String, String), String>) -> (r: Outcome)
        requires
            ctx_ok(old(self)@),
        ensures
            (final(self)@, outcome_view(r)) == spec_finish_shell(old(self)@, pair_result(result)),
            ctx_ok(final(self)@),
    {
        match result {
            Ok((out, err)) => {
                let t = shell_text(out.as_str(), err.as_str());
                if t.as_str().unicode_len() == 0 {
                    Outcome::Done
                } else {
                    self.open_text(String::from_str("out"), t, true)
                }
            },
            Err(e) => {
                self.warn_now(prefixed("failed to run command: ", e.as_str()));
                Outcome::Done
            },
        }
    }

    /// The clipboard took the text, or failed with the given message.
    pub fn finish_copy(&mut self, result: Result<(), String>)
        requires
            ctx_ok(old(self)@),
        ensures
            final(self)@ == match unit_result(result) {
                Ok(_) => old(self)@,
                Err(e) => warned(old(self)@, e),
            },
            ctx_ok(final(self)@),
    {
        match result {
            Ok(()) => {},
            Err(e) => self.warn_now(e),
        }
    }

    /// The clipboard held `text`, or reading it failed with the given
    /// message.
    pub fn finish_paste(&mut self, result: Result<String, String>) -> (r: Outcome)
        requires
            ctx_ok(old(self)@),
        ensures
            (final(self)@, outcome_view(r)) == spec_finish_paste(old(self)@, string_result(result)),
            ctx_ok(final(self)@),
    {
        match result {
            Ok(text) => {
                if self.editor.get_docs_len() == 0 {
                    return Outcome::Halted;
                }
                let n = text.as_str().unicode_len();
                let d = self.editor.doc();
                if n >= usize::MAX / 2 || d.cursor_col() >= usize::MAX - n
                    || d.line_count() >= usize::MAX / 2 - n {
                    return Outcome::Halted;
                }
                let ghost e0 = self.editor@;
                self.editor.doc_mut().insert_text(text.as_str());
                proof {
                    lemma_insert_text_keeps_id(active_doc(e0), text@);
                    lemma_with_active_ok(e0, spec_insert_text(active_doc(e0), text@));
                }
                Outcome::Done
            },
            Err(e) => {
                self.warn_now(e);
                Outcome::Done
            },
        }
    }
}
/// Each command has exactly one letter, and its help text opens with that
/// letter in brackets.
pub proof fn lemma_help_names_the_letter(c: char)
    requires
        kind_of_letter(c) is Some,
    ensures
        kind_help(kind_of_letter(c)->0).len() >= 3,
        kind_help(kind_of_letter(c)->0)[0] == '[',
        kind_help(kind_of_letter(c)->0)[1] == c,
        kind_help(kind_of_letter(c)->0)[2] == ']',
        forall|c2: char| #[trigger] kind_of_letter(c2) == kind_of_letter(c) ==> c2 == c,
{
    reveal_strlit("[s] save the current document (s! to override read-only, might need root privilages)");
    reveal_strlit("[q] close file (q! to force close with unsaved changes)");
    reveal_strlit("[Q] quit ink");
    reveal_strlit("[e]{path} open/edit a file");
    reveal_strlit("[f]{find} find next occurrence of find, wrapping to the start if needed");
    reveal_strlit("[R]{find}{replace} replace the next occurrence of find with replace");
    reveal_strlit("[g]{N/arg} go to line N (or: sl-startOfLine, el-endOfLine, sf-startOfFile, ef-endOfFile)");
    reveal_strlit("[u] undo");
    reveal_strlit("[r] redo");
    reveal_strlit("[x]{command} execute a shell command");
    reveal_strlit("[c] copy current line to the system clipboard");
    reveal_strlit("[p] paste from the system clipboard");
    reveal_strlit("[d] delete to end of line from the cursor");
    reveal_strlit("[m] match to the relevant delimiter");
    reveal_strlit("[A] go to the previous file in the editor");
    reveal_strlit("[D] go to the next file in the editor");
    reveal_strlit("[n] set the name of the currently selected file.");
    reveal_strlit("[y] duplicate the current line");
}

} // verus!
