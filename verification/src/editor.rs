//! The editor: the set of open documents, the active one, and the history
//! of commands entered in the command bar.

use vstd::prelude::*;
use crate::document::{Document, path_view};
use crate::document::model::{
    DocView, doc_ok, spec_indent, spec_dedent, spec_delete_word_forward, spec_delete_word_backward,
    spec_insert_char, spec_insert_newline, spec_backspace, spec_delete, spec_move_word_left,
    spec_move_left, spec_move_word_right, spec_move_right, spec_move_up, spec_move_down, cur_line,
    max_lines, INDENT_WIDTH, spec_set_lines,
};
use crate::text::gcount;

verus! {

/// The model of the editor.
pub struct EditorView {
    pub docs: Seq<DocView>,
    pub active: usize,
    pub history: Seq<Seq<char>>,
    pub history_idx: Option<usize>,
    pub next_id: u64,
}

/// Well-formedness: documents well formed with distinct positive ids below
/// the next id to hand out, an active index inside the list (0 when it is
/// empty), and a history position inside the history.
pub open spec fn editor_ok(e: EditorView) -> bool {
    &&& forall|i: int| 0 <= i < e.docs.len() ==> doc_ok(#[trigger] e.docs[i])
    &&& forall|i: int| 0 <= i < e.docs.len() ==> 1 <= (#[trigger] e.docs[i]).id < e.next_id
    &&& forall|i: int, j: int| 0 <= i < e.docs.len() && 0 <= j < e.docs.len() && i != j
        ==> (#[trigger] e.docs[i]).id != (#[trigger] e.docs[j]).id
    &&& e.docs.len() > 0 ==> e.active < e.docs.len()
    &&& e.docs.len() == 0 ==> e.active == 0
    &&& e.history_idx matches Some(k) ==> k < e.history.len()
    &&& e.next_id >= 1
}

/// `i` is the first position of a document with the given id.
pub open spec fn first_with_id(docs: Seq<DocView>, id: u64, i: int) -> bool {
    &&& 0 <= i < docs.len()
    &&& docs[i].id == id
    &&& forall|j: int| 0 <= j < i ==> (#[trigger] docs[j]).id != id
}

/// Position of the (first) document with the given id.
pub open spec fn index_of_id(docs: Seq<DocView>, id: u64) -> Option<int> {
    if exists|i: int| #[trigger] first_with_id(docs, id, i) {
        Some(choose|i: int| #[trigger] first_with_id(docs, id, i))
    } else {
        None
    }
}

pub open spec fn active_doc(e: EditorView) -> DocView {
    e.docs[e.active as int]
}

/// Replace the active document.
pub open spec fn with_active(e: EditorView, d: DocView) -> EditorView {
    EditorView { docs: e.docs.update(e.active as int, d), ..e }
}

pub open spec fn spec_new_editor(d: DocView) -> EditorView {
    EditorView {
        docs: seq![DocView { id: 1, ..d }],
        active: 0,
        history: Seq::empty(),
        history_idx: None,
        next_id: 2,
    }
}

pub open spec fn spec_add_command_history(e: EditorView, c: Seq<char>) -> EditorView {
    if c.len() == 0 {
        e
    } else if e.history.len() > 0 && e.history.last() == c {
        EditorView { history_idx: None, ..e }
    } else {
        EditorView { history: e.history.push(c), history_idx: None, ..e }
    }
}

/// Position `previous_command` moves the history to.
pub open spec fn previous_index(e: EditorView) -> int {
    match e.history_idx {
        Some(k) => if k >= 1 { k - 1 } else { 0 },
        None => e.history.len() - 1,
    }
}

pub open spec fn spec_previous_command(e: EditorView) -> (EditorView, Option<Seq<char>>) {
    if e.history.len() == 0 {
        (e, None)
    } else {
        let k = previous_index(e);
        (EditorView { history_idx: Some(k as usize), ..e }, Some(e.history[k]))
    }
}

pub open spec fn spec_next_command(e: EditorView) -> (EditorView, Option<Seq<char>>) {
    match e.history_idx {
        Some(k) => if k + 1 < e.history.len() {
            (EditorView { history_idx: Some((k + 1) as usize), ..e }, Some(e.history[k + 1]))
        } else {
            (EditorView { history_idx: None, ..e }, None)
        },
        None => (EditorView { history_idx: None, ..e }, None),
    }
}

pub open spec fn spec_open(e: EditorView, d: DocView) -> EditorView {
    EditorView {
        docs: e.docs.push(DocView { id: e.next_id, ..d }),
        active: e.docs.len() as usize,
        next_id: (e.next_id + 1) as u64,
        ..e
    }
}

/// Where the active index goes when the document at `idx` is removed.
pub open spec fn active_after_removal(e: EditorView, idx: int) -> usize {
    let n = e.docs.len() - 1;
    if n == 0 {
        0
    } else if e.active > idx {
        (e.active - 1) as usize
    } else if e.active >= n {
        (n - 1) as usize
    } else {
        e.active
    }
}

pub open spec fn spec_close_doc(e: EditorView, id: u64) -> EditorView {
    match index_of_id(e.docs, id) {
        Some(idx) => EditorView {
            docs: e.docs.remove(idx),
            active: active_after_removal(e, idx),
            ..e
        },
        None => e,
    }
}

pub open spec fn spec_set_doc_by_id(e: EditorView, id: u64, d: DocView) -> EditorView {
    match index_of_id(e.docs, id) {
        Some(idx) => EditorView { docs: e.docs.update(idx, DocView { id, ..d }), ..e },
        None => e,
    }
}

pub open spec fn spec_next(e: EditorView) -> EditorView {
    if e.docs.len() > 1 {
        EditorView { active: ((e.active + 1) % (e.docs.len() as int)) as usize, ..e }
    } else {
        e
    }
}

pub open spec fn spec_previous(e: EditorView) -> EditorView {
    if e.docs.len() > 1 {
        EditorView { active: if e.active >= 1 { (e.active - 1) as usize } else { (e.docs.len() - 1) as usize }, ..e }
    } else {
        e
    }
}

pub open spec fn spec_close(e: EditorView) -> EditorView {
    if e.docs.len() == 0 {
        e
    } else {
        spec_close_doc(e, active_doc(e).id)
    }
}

/// The document with the given id marked clean (it was written to disk).
pub open spec fn spec_mark_saved(e: EditorView, id: u64) -> EditorView {
    match index_of_id(e.docs, id) {
        Some(i) => EditorView { docs: e.docs.update(i, DocView { dirty: false, ..e.docs[i] }), ..e },
        None => e,
    }
}

/// The lines of the document with the given id replaced (see
/// `spec_set_lines`).
pub open spec fn spec_set_doc_lines(e: EditorView, id: u64, lines: Seq<Seq<char>>) -> EditorView {
    match index_of_id(e.docs, id) {
        Some(i) => EditorView { docs: e.docs.update(i, spec_set_lines(e.docs[i], lines)), ..e },
        None => e,
    }
}

pub open spec fn has_dirty(e: EditorView) -> bool {
    exists|i: int| 0 <= i < e.docs.len() && (#[trigger] e.docs[i]).dirty
}

/// The collection of open documents.
pub struct Editor {
    pub documents: Vec<Document>,
    pub active: usize,
    pub command_history: Vec<String>,
    pub history_idx: Option<usize>,
    next_document_id: u64,
}

pub open spec fn docs_view(v: Seq<Document>) -> Seq<DocView> {
    v.map_values(|d: Document| d@)
}

pub open spec fn strings_view(v: Seq<String>) -> Seq<Seq<char>> {
    v.map_values(|s: String| s@)
}

impl View for Editor {
    type V = EditorView;

    closed spec fn view(&self) -> EditorView {
        EditorView {
            docs: docs_view(self.documents@),
            active: self.active,
            history: strings_view(self.command_history@),
            history_idx: self.history_idx,
            next_id: self.next_document_id,
        }
    }
}

/// Keys the editor reacts to.
#[derive(Clone, Copy, PartialEq, Eq, Debug, Structural)]
pub enum KeyCode {
    Tab,
    BackTab,
    Delete,
    Char(char),
    Enter,
    Backspace,
    Left,
    Right,
    Up,
    Down,
    Esc,
    Other,
}

/// A key press with the modifiers the editor looks at.
#[derive(Clone, Copy, PartialEq, Eq, Debug, Structural)]
pub struct KeyEvent {
    pub code: KeyCode,
    pub ctrl: bool,
    pub alt: bool,
}

/// What a key press did.
#[derive(Clone, Copy, PartialEq, Eq, Debug, Structural)]
pub enum EditResult {
    /// The document with this id was edited.
    Changed(u64),
    /// Nothing to report (cursor movement, ignored key).
    Nothing,
    /// The command bar is to be opened.
    CommandBar,
}

/// What a key press does to the active document, and what it reports.
pub open spec fn spec_handle_key(e: EditorView, key: KeyEvent) -> (EditorView, EditResult) {
    let d = active_doc(e);
    let id = d.id;
    match key.code {
        KeyCode::Tab => (with_active(e, spec_indent(d)), EditResult::Changed(id)),
        KeyCode::BackTab => (with_active(e, spec_dedent(d)), EditResult::Changed(id)),
        KeyCode::Delete if key.ctrl => (with_active(e, spec_delete_word_forward(d)), EditResult::Changed(id)),
        KeyCode::Char(c) if c == 'd' && key.alt => (with_active(e, spec_delete_word_forward(d)), EditResult::Changed(id)),
        KeyCode::Char(c) if c == 'w' && key.ctrl => (with_active(e, spec_delete_word_backward(d)), EditResult::Changed(id)),
        KeyCode::Char(c) => if !key.ctrl {
            (with_active(e, spec_insert_char(d, c)), EditResult::Changed(id))
        } else {
            (e, EditResult::Nothing)
        },
        KeyCode::Enter => (with_active(e, spec_insert_newline(d)), EditResult::Changed(id)),
        KeyCode::Backspace => (with_active(e, spec_backspace(d)), EditResult::Changed(id)),
        KeyCode::Delete => (with_active(e, spec_delete(d)), EditResult::Changed(id)),
        KeyCode::Left => (with_active(e, if key.ctrl { spec_move_word_left(d) } else { spec_move_left(d) }), EditResult::Nothing),
        KeyCode::Right => (with_active(e, if key.ctrl { spec_move_word_right(d) } else { spec_move_right(d) }), EditResult::Nothing),
        KeyCode::Up => (with_active(e, spec_move_up(d, 1)), EditResult::Nothing),
        KeyCode::Down => (with_active(e, spec_move_down(d, 1)), EditResult::Nothing),
        KeyCode::Esc => (e, EditResult::CommandBar),
        KeyCode::Other => (e, EditResult::Nothing),
    }
}

/// The key can be handled without the arithmetic or indexing failures the
/// operations exclude.
pub open spec fn key_ok(e: EditorView, key: KeyEvent) -> bool {
    let d = active_doc(e);
    match key.code {
        KeyCode::Tab => d.cursor_col + INDENT_WIDTH <= usize::MAX,
        KeyCode::Char(c) => key.ctrl || d.cursor_col < usize::MAX,
        KeyCode::Enter => d.lines.len() < max_lines(),
        KeyCode::Delete => key.ctrl || d.cursor_col < usize::MAX,
        KeyCode::Left => !key.ctrl || d.cursor_col <= gcount(cur_line(d)),
        _ => true,
    }
}


/// The position found for an id is its first position.
pub proof fn lemma_index_of_id(docs: Seq<DocView>, id: u64)
    ensures
        index_of_id(docs, id) matches Some(i) ==> first_with_id(docs, id, i),
        index_of_id(docs, id) is None ==> forall|i: int| 0 <= i < docs.len() ==> (#[trigger] docs[i]).id != id,
{
    if exists|i: int| #[trigger] first_with_id(docs, id, i) {
        let k = choose|i: int| #[trigger] first_with_id(docs, id, i);
        assert(first_with_id(docs, id, k));
    } else {
        assert forall|i: int| 0 <= i < docs.len() implies (#[trigger] docs[i]).id != id by {
            if docs[i].id == id {
                lemma_first_exists(docs, id, i);
            }
        }
    }
}

proof fn lemma_first_exists(docs: Seq<DocView>, id: u64, i: int)
    requires
        0 <= i < docs.len(),
        docs[i].id == id,
    ensures
        exists|k: int| #[trigger] first_with_id(docs, id, k),
    decreases i,
{
    if forall|j: int| 0 <= j < i ==> (#[trigger] docs[j]).id != id {
        assert(first_with_id(docs, id, i));
    } else {
        let j = choose|j: int| 0 <= j < i && (#[trigger] docs[j]).id == id;
        lemma_first_exists(docs, id, j);
    }
}

pub broadcast proof fn lemma_docs_view_update(s: Seq<Document>, i: int, d: Document)
    requires
        0 <= i < s.len(),
    ensures
        #[trigger] docs_view(s.update(i, d)) == docs_view(s).update(i, d@),
{
    assert(docs_view(s.update(i, d)) =~= docs_view(s).update(i, d@));
}

proof fn lemma_first_unique(docs: Seq<DocView>, id: u64, i: int, j: int)
    requires
        first_with_id(docs, id, i),
        first_with_id(docs, id, j),
    ensures
        i == j,
{
    if i < j {
        assert(docs[i].id != id);
    } else if j < i {
        assert(docs[j].id != id);
    }
}

/// Replacing the active document by a well-formed one with the same id keeps
/// the editor well formed.
pub proof fn lemma_with_active_ok(e: EditorView, d: DocView)
    requires
        editor_ok(e),
        e.docs.len() > 0,
        doc_ok(d),
        d.id == active_doc(e).id,
    ensures
        editor_ok(with_active(e, d)),
{
    let n = with_active(e, d);
    assert forall|i: int, j: int| 0 <= i < n.docs.len() && 0 <= j < n.docs.len() && i != j
        implies (#[trigger] n.docs[i]).id != (#[trigger] n.docs[j]).id by {
        assert(n.docs[i].id == e.docs[i].id);
        assert(n.docs[j].id == e.docs[j].id);
    }
    assert forall|i: int| 0 <= i < n.docs.len() implies 1 <= (#[trigger] n.docs[i]).id < n.next_id by {
        assert(n.docs[i].id == e.docs[i].id);
    }
}

impl Editor {
    pub open spec fn wf(&self) -> bool {
        editor_ok(self@)
    }

    /// An editor holding `document`, which gets id 1.
    pub fn new(document: Document) -> (r: Self)
        requires
            document.wf(),
        ensures
            r@ == spec_new_editor(document@),
            r.wf(),
    {
        let mut document = document;
        document.set_id(1);
        let mut documents: Vec<Document> = Vec::new();
        documents.push(document);
        let r = Self {
            documents,
            active: 0,
            command_history: Vec::new(),
            history_idx: None,
            next_document_id: 2,
        };
        proof {
            assert(r@.docs =~= spec_new_editor(document@).docs);
            assert(r@.history =~= Seq::<Seq<char>>::empty());
        }
        r
    }

    fn swap_active(&mut self, d: &mut Document)
        requires
            old(self).active < old(self).documents@.len(),
        ensures
            final(self).documents@ == old(self).documents@.update(old(self).active as int, *old(d)),
            *final(d) == old(self).documents@[old(self).active as int],
            final(self).active == old(self).active,
            final(self).command_history == old(self).command_history,
            final(self).history_idx == old(self).history_idx,
            final(self).next_document_id == old(self).next_document_id,
    {
        let a = self.active;
        self.documents.set_and_swap(a, d);
    }

    /// Record a command entered in the command bar (empty commands and
    /// repeats of the last one are not recorded) and leave history browsing.
    pub fn add_command_history(&mut self, command: String)
        requires
            old(self).wf(),
        ensures
            final(self)@ == spec_add_command_history(old(self)@, command@),
            final(self).wf(),
    {
        if command.unicode_len() == 0 {
            return;
        }
        let n = self.command_history.len();
        if n > 0 && self.command_history[n - 1] == command {
            self.history_idx = None;
            return;
        }
        self.command_history.push(command);
        self.history_idx = None;
        proof {
            assert(self@.history =~= old(self)@.history.push(command@));
        }
    }

    /// Step back in the command history.
    pub fn previous_command(&mut self) -> (r: Option<String>)
        requires
            old(self).wf(),
        ensures
            final(self)@ == spec_previous_command(old(self)@).0,
            match (r, spec_previous_command(old(self)@).1) {
                (Some(s), Some(t)) => s@ == t,
                (None, None) => true,
                _ => false,
            },
            final(self).wf(),
    {
        if self.command_history.len() == 0 {
            return None;
        }
        let index = match self.history_idx {
            Some(index) => if index >= 1 { index - 1 } else { 0 },
            None => self.command_history.len() - 1,
        };
        self.history_idx = Some(index);
        Some(self.command_history[index].clone())
    }

    /// Step forward in the command history; `None` (and leaving history
    /// browsing) past its end.
    pub fn next_command(&mut self) -> (r: Option<String>)
        requires
            old(self).wf(),
        ensures
            final(self)@ == spec_next_command(old(self)@).0,
            match (r, spec_next_command(old(self)@).1) {
                (Some(s), Some(t)) => s@ == t,
                (None, None) => true,
                _ => false,
            },
            final(self).wf(),
    {
        let hl = self.command_history.len();
        let index = match self.history_idx {
            Some(index) if index + 1 < hl => index + 1,
            _ => {
                self.history_idx = None;
                return None;
            },
        };
        self.history_idx = Some(index);
        Some(self.command_history[index].clone())
    }

    /// Position of the document with the given id.
    pub fn find_doc_index(&self, id: u64) -> (r: Option<usize>)
        ensures
            r is Some <==> index_of_id(self@.docs, id) is Some,
            r matches Some(i) ==> index_of_id(self@.docs, id) == Some(i as int) && i < self@.docs.len(),
    {
        let mut i: usize = 0;
        while i < self.documents.len()
            invariant
                i <= self.documents@.len(),
                forall|j: int| 0 <= j < i ==> (#[trigger] self@.docs[j]).id != id,
            decreases self.documents@.len() - i,
        {
            if self.documents[i].id() == id {
                proof {
                    assert(first_with_id(self@.docs, id, i as int));
                    let k = choose|k: int| #[trigger] first_with_id(self@.docs, id, k);
                    lemma_first_unique(self@.docs, id, i as int, k);
                }
                return Some(i);
            }
            i = i + 1;
        }
        proof {
            assert forall|k: int| !#[trigger] first_with_id(self@.docs, id, k) by {
                if 0 <= k < self@.docs.len() {
                    assert(self@.docs[k].id != id);
                }
            }
        }
        None
    }

    pub fn get_docs_len(&self) -> (r: usize)
        ensures
            r == self@.docs.len(),
    {
        self.documents.len()
    }

    /// The document with the given id.
    pub fn get_doc_by_id(&self, id: u64) -> (r: Option<&Document>)
        ensures
            r is Some <==> index_of_id(self@.docs, id) is Some,
            r matches Some(d) ==> d@ == self@.docs[index_of_id(self@.docs, id)->0],
    {
        proof {
            lemma_index_of_id(self@.docs, id);
        }
        match self.find_doc_index(id) {
            Some(i) => Some(&self.documents[i]),
            None => None,
        }
    }

    /// Replace the document with the given id, the new one taking that id;
    /// `false` when there is none.
    pub fn set_doc_by_id(&mut self, id: u64, document: Document) -> (r: bool)
        requires
            old(self).wf(),
            document.wf(),
        ensures
            final(self)@ == spec_set_doc_by_id(old(self)@, id, document@),
            r == index_of_id(old(self)@.docs, id) is Some,
            final(self).wf(),
    {
        proof {
            lemma_index_of_id(self@.docs, id);
        }
        let index = match self.find_doc_index(id) {
            Some(i) => i,
            None => return false,
        };
        let mut document = document;
        document.set_id(id);
        let ghost nd = document@;
        self.documents.set(index, document);
        proof {
            let o = old(self)@;
            assert(first_with_id(o.docs, id, index as int));
            assert(self@.docs =~= o.docs.update(index as int, nd));
            let n = self@;
            assert forall|i: int, j: int| 0 <= i < n.docs.len() && 0 <= j < n.docs.len() && i != j
                implies (#[trigger] n.docs[i]).id != (#[trigger] n.docs[j]).id by {
                if i != index && j != index {
                    assert(n.docs[i].id == o.docs[i].id);
                    assert(n.docs[j].id == o.docs[j].id);
                } else if i == index {
                    assert(n.docs[j].id == o.docs[j].id);
                    assert(o.docs[index as int].id == id);
                } else {
                    assert(n.docs[i].id == o.docs[i].id);
                    assert(o.docs[index as int].id == id);
                }
            }
            assert forall|i: int| 0 <= i < n.docs.len() implies 1 <= (#[trigger] n.docs[i]).id < n.next_id by {
                if i != index {
                    assert(n.docs[i].id == o.docs[i].id);
                } else {
                    assert(o.docs[index as int].id == id);
                }
            }
            assert forall|i: int| 0 <= i < n.docs.len() implies doc_ok(#[trigger] n.docs[i]) by {
                if i != index {
                    assert(n.docs[i] == o.docs[i]);
                }
            }
        }
        true
    }
}


impl Editor {
    /// Close the document with the given id; `false` when there is none.
    /// The active index keeps pointing at the same document where it can.
    pub fn close_doc(&mut self, id: u64) -> (r: bool)
        requires
            old(self).wf(),
        ensures
            final(self)@ == spec_close_doc(old(self)@, id),
            r == index_of_id(old(self)@.docs, id) is Some,
            final(self).wf(),
    {
        proof {
            lemma_index_of_id(self@.docs, id);
        }
        let index = match self.find_doc_index(id) {
            Some(i) => i,
            None => return false,
        };
        self.documents.remove(index);
        if self.documents.len() == 0 {
            self.active = 0;
        } else if self.active > index {
            self.active = self.active - 1;
        } else if self.active >= self.documents.len() {
            self.active = self.documents.len() - 1;
        }
        proof {
            let o = old(self)@;
            let n = self@;
            assert(n.docs =~= o.docs.remove(index as int));
            assert forall|i: int, j: int| 0 <= i < n.docs.len() && 0 <= j < n.docs.len() && i != j
                implies (#[trigger] n.docs[i]).id != (#[trigger] n.docs[j]).id by {
                let oi = if i < index { i } else { i + 1 };
                let oj = if j < index { j } else { j + 1 };
                assert(n.docs[i] == o.docs[oi]);
                assert(n.docs[j] == o.docs[oj]);
            }
            assert forall|i: int| 0 <= i < n.docs.len() implies 1 <= (#[trigger] n.docs[i]).id < n.next_id by {
                let oi = if i < index { i } else { i + 1 };
                assert(n.docs[i] == o.docs[oi]);
            }
            assert forall|i: int| 0 <= i < n.docs.len() implies doc_ok(#[trigger] n.docs[i]) by {
                let oi = if i < index { i } else { i + 1 };
                assert(n.docs[i] == o.docs[oi]);
            }
        }
        true
    }

    /// The active document.
    pub fn doc(&self) -> (r: &Document)
        requires
            self.wf(),
            self@.docs.len() > 0,
        ensures
            r@ == active_doc(self@),
            r.wf(),
    {
        &self.documents[self.active]
    }

    /// The active document, to be changed in place.
    pub fn doc_mut(&mut self) -> (r: &mut Document)
        requires
            old(self).wf(),
            old(self)@.docs.len() > 0,
        ensures
            r@ == active_doc(old(self)@),
            r.wf(),
            final(self)@ == with_active(old(self)@, final(r)@),
    {
        broadcast use lemma_docs_view_update;
        let a = self.active;
        &mut self.documents[a]
    }

    /// Id of the active document.
    pub fn active_id(&self) -> (r: u64)
        requires
            self.wf(),
            self@.docs.len() > 0,
        ensures
            r == active_doc(self@).id,
    {
        self.documents[self.active].id()
    }

    /// Mark the document with the given id clean; `false` when there is none.
    pub fn mark_saved(&mut self, id: u64) -> (r: bool)
        requires
            old(self).wf(),
        ensures
            final(self)@ == spec_mark_saved(old(self)@, id),
            r == index_of_id(old(self)@.docs, id) is Some,
            final(self).wf(),
    {
        broadcast use lemma_docs_view_update;
        proof {
            lemma_index_of_id(self@.docs, id);
        }
        let index = match self.find_doc_index(id) {
            Some(i) => i,
            None => return false,
        };
        self.documents[index].mark_saved();
        proof {
            let o = old(self)@;
            let n = self@;
            assert(n.docs =~= o.docs.update(index as int, DocView { dirty: false, ..o.docs[index as int] }));
            assert forall|i: int, j: int| 0 <= i < n.docs.len() && 0 <= j < n.docs.len() && i != j
                implies (#[trigger] n.docs[i]).id != (#[trigger] n.docs[j]).id by {
                assert(n.docs[i].id == o.docs[i].id);
                assert(n.docs[j].id == o.docs[j].id);
            }
            assert forall|i: int| 0 <= i < n.docs.len() implies 1 <= (#[trigger] n.docs[i]).id < n.next_id by {
                assert(n.docs[i].id == o.docs[i].id);
            }
            assert forall|i: int| 0 <= i < n.docs.len() implies doc_ok(#[trigger] n.docs[i]) by {
                assert(doc_ok(o.docs[i]));
            }
        }
        true
    }

    /// Replace the lines of the document with the given id (as a plugin
    /// does); `false` when there is none.
    pub fn set_doc_lines(&mut self, id: u64, lines: Vec<String>) -> (r: bool)
        requires
            old(self).wf(),
            lines@.len() <= max_lines(),
        ensures
            final(self)@ == spec_set_doc_lines(old(self)@, id, strings_view(lines@)),
            r == index_of_id(old(self)@.docs, id) is Some,
            final(self).wf(),
    {
        broadcast use lemma_docs_view_update;
        proof {
            lemma_index_of_id(self@.docs, id);
        }
        let index = match self.find_doc_index(id) {
            Some(i) => i,
            None => return false,
        };
        self.documents[index].set_lines(lines);
        proof {
            let o = old(self)@;
            let n = self@;
            assert(crate::document::lines_view(lines@) == strings_view(lines@));
            assert(n.docs =~= o.docs.update(index as int, spec_set_lines(o.docs[index as int], strings_view(lines@))));
            assert forall|i: int, j: int| 0 <= i < n.docs.len() && 0 <= j < n.docs.len() && i != j
                implies (#[trigger] n.docs[i]).id != (#[trigger] n.docs[j]).id by {
                assert(n.docs[i].id == o.docs[i].id);
                assert(n.docs[j].id == o.docs[j].id);
            }
            assert forall|i: int| 0 <= i < n.docs.len() implies 1 <= (#[trigger] n.docs[i]).id < n.next_id by {
                assert(n.docs[i].id == o.docs[i].id);
            }
        }
        true
    }

    /// The id the next opened document gets.
    pub fn next_id(&self) -> (r: u64)
        ensures
            r == self@.next_id,
    {
        self.next_document_id
    }

    /// Whether some document has unsaved changes.
    pub fn has_dirty(&self) -> (r: bool)
        ensures
            r == has_dirty(self@),
    {
        let mut i: usize = 0;
        while i < self.documents.len()
            invariant
                i <= self.documents@.len(),
                forall|j: int| 0 <= j < i ==> !(#[trigger] self@.docs[j]).dirty,
            decreases self.documents@.len() - i,
        {
            if self.documents[i].is_dirty() {
                assert(self@.docs[i as int].dirty);
                return true;
            }
            i = i + 1;
        }
        false
    }

    /// Add a document, give it the next id, make it active and return the id.
    pub fn open(&mut self, document: Document) -> (id: u64)
        requires
            old(self).wf(),
            document.wf(),
            old(self)@.next_id < u64::MAX,
        ensures
            final(self)@ == spec_open(old(self)@, document@),
            id == old(self)@.next_id,
            final(self).wf(),
    {
        let id = self.next_document_id;
        self.next_document_id = id + 1;
        let mut document = document;
        document.set_id(id);
        self.documents.push(document);
        self.active = self.documents.len() - 1;
        proof {
            let o = old(self)@;
            let n = self@;
            assert(n.docs =~= o.docs.push(DocView { id, ..document@ }));
            assert forall|i: int, j: int| 0 <= i < n.docs.len() && 0 <= j < n.docs.len() && i != j
                implies (#[trigger] n.docs[i]).id != (#[trigger] n.docs[j]).id by {
                if i < o.docs.len() {
                    assert(n.docs[i] == o.docs[i]);
                }
                if j < o.docs.len() {
                    assert(n.docs[j] == o.docs[j]);
                }
            }
            assert forall|i: int| 0 <= i < n.docs.len() implies 1 <= (#[trigger] n.docs[i]).id < n.next_id by {
                if i < o.docs.len() {
                    assert(n.docs[i] == o.docs[i]);
                } else {
                    assert(n.docs[i].id == id);
                }
            }
            assert forall|i: int| 0 <= i < n.docs.len() implies doc_ok(#[trigger] n.docs[i]) by {
                if i < o.docs.len() {
                    assert(n.docs[i] == o.docs[i]);
                }
            }
        }
        id
    }

    /// Make the next document active (wrapping round).
    pub fn next(&mut self)
        requires
            old(self).wf(),
        ensures
            final(self)@ == spec_next(old(self)@),
            final(self).wf(),
    {
        if self.documents.len() > 1 {
            self.active = (self.active + 1) % self.documents.len();
        }
    }

    /// Make the previous document active (wrapping round).
    pub fn previous(&mut self)
        requires
            old(self).wf(),
        ensures
            final(self)@ == spec_previous(old(self)@),
            final(self).wf(),
    {
        if self.documents.len() > 1 {
            self.active = if self.active >= 1 { self.active - 1 } else { self.documents.len() - 1 };
        }
    }

    /// Close the active document; `false` when there is none.
    pub fn close(&mut self) -> (r: bool)
        requires
            old(self).wf(),
        ensures
            final(self)@ == spec_close(old(self)@),
            r == (old(self)@.docs.len() > 0),
            final(self).wf(),
    {
        if self.documents.len() == 0 {
            return false;
        }
        let id = self.active_id();
        proof {
            let o = self@;
            assert(first_with_id(o.docs, id, o.active as int)) by {
                assert forall|j: int| 0 <= j < o.active implies (#[trigger] o.docs[j]).id != id by {
                    assert(o.docs[j].id != o.docs[o.active as int].id);
                }
            }
            lemma_index_of_id(o.docs, id);
        }
        self.close_doc(id)
    }
}


impl Editor {
    /// Apply a key press to the active document.
    pub fn handle_key(&mut self, key: KeyEvent) -> (r: EditResult)
        requires
            old(self).wf(),
            old(self)@.docs.len() > 0,
            key_ok(old(self)@, key),
        ensures
            (final(self)@, r) == spec_handle_key(old(self)@, key),
            final(self).wf(),
    {
        let id = self.active_id();
        let ghost e = self@;
        let ghost d0 = active_doc(e);
        let r = match key.code {
            KeyCode::Tab => {
                let d = self.doc_mut();
                d.indent();
                EditResult::Changed(id)
            },
            KeyCode::BackTab => {
                let d = self.doc_mut();
                d.dedent();
                EditResult::Changed(id)
            },
            KeyCode::Delete if key.ctrl => {
                let d = self.doc_mut();
                d.delete_word_forward();
                EditResult::Changed(id)
            },
            KeyCode::Char(c) if c == 'd' && key.alt => {
                let d = self.doc_mut();
                d.delete_word_forward();
                EditResult::Changed(id)
            },
            KeyCode::Char(c) if c == 'w' && key.ctrl => {
                let d = self.doc_mut();
                d.delete_word_backward();
                EditResult::Changed(id)
            },
            KeyCode::Char(c) => {
                if !key.ctrl {
                    let d = self.doc_mut();
                    d.insert_char(c);
                    EditResult::Changed(id)
                } else {
                    EditResult::Nothing
                }
            },
            KeyCode::Enter => {
                let d = self.doc_mut();
                d.insert_newline();
                EditResult::Changed(id)
            },
            KeyCode::Backspace => {
                let d = self.doc_mut();
                d.backspace();
                EditResult::Changed(id)
            },
            KeyCode::Delete => {
                let d = self.doc_mut();
                d.delete();
                EditResult::Changed(id)
            },
            KeyCode::Left => {
                let d = self.doc_mut();
                if key.ctrl {
                    d.move_word_left();
                } else {
                    d.move_left();
                }
                EditResult::Nothing
            },
            KeyCode::Right => {
                let d = self.doc_mut();
                if key.ctrl {
                    d.move_word_right();
                } else {
                    d.move_right();
                }
                EditResult::Nothing
            },
            KeyCode::Up => {
                let d = self.doc_mut();
                d.move_up(1);
                EditResult::Nothing
            },
            KeyCode::Down => {
                let d = self.doc_mut();
                d.move_down(1);
                EditResult::Nothing
            },
            KeyCode::Esc => EditResult::CommandBar,
            KeyCode::Other => EditResult::Nothing,
        };
        proof {
            if self@ != e {
                let nd = active_doc(self@);
                assert(self@ == with_active(e, nd));
                lemma_with_active_ok(e, nd);
            }
        }
        r
    }

    /// Apply a key press, or return `None` (changing nothing) where the
    /// operation would fail: no document open, or a cursor column the
    /// operation cannot work from.
    pub fn try_handle_key(&mut self, key: KeyEvent) -> (r: Option<EditResult>)
        requires
            old(self).wf(),
        ensures
            r is None <==> (old(self)@.docs.len() == 0 || !key_ok(old(self)@, key)),
            r matches Some(res) ==> (final(self)@, res) == spec_handle_key(old(self)@, key),
            r is None ==> final(self)@ == old(self)@,
            final(self).wf(),
    {
        if self.documents.len() == 0 {
            return None;
        }
        let d = self.doc();
        let col = d.cursor_col();
        let ok = match key.code {
            KeyCode::Tab => col <= usize::MAX - 4,
            KeyCode::Char(_) => key.ctrl || col < usize::MAX,
            KeyCode::Enter => d.line_count() < usize::MAX / 2,
            KeyCode::Delete => key.ctrl || col < usize::MAX,
            KeyCode::Left => !key.ctrl || d.cursor_within_line(),
            _ => true,
        };
        if !ok {
            return None;
        }
        Some(self.handle_key(key))
    }
}


impl Editor {
    /// The document with the given id, to be changed in place.
    pub fn get_doc_by_id_mut(&mut self, id: u64) -> (r: Option<&mut Document>)
        requires
            old(self).wf(),
        ensures
            r is Some <==> index_of_id(old(self)@.docs, id) is Some,
            r is None ==> final(self)@ == old(self)@,
            r matches Some(d) ==> ({
                let i = index_of_id(old(self)@.docs, id)->0;
                &&& d@ == old(self)@.docs[i]
                &&& d.wf()
                &&& final(self)@ == (EditorView { docs: old(self)@.docs.update(i, final(d)@), ..old(self)@ })
            }),
    {
        broadcast use lemma_docs_view_update;
        proof {
            lemma_index_of_id(self@.docs, id);
        }
        match self.find_doc_index(id) {
            Some(i) => Some(&mut self.documents[i]),
            None => None,
        }
    }
}

// ---------------------------------------------------------------------
// Laws
// ---------------------------------------------------------------------

/// The id `open` hands out belongs to no document already open.
pub proof fn lemma_open_gives_fresh_id(e: EditorView, d: DocView)
    requires
        editor_ok(e),
    ensures
        forall|i: int| 0 <= i < e.docs.len() ==> (#[trigger] e.docs[i]).id != e.next_id,
        spec_open(e, d).docs.last().id == e.next_id,
{
}

/// Closing the document just opened gives back the documents as they were.
pub proof fn lemma_close_after_open(e: EditorView, d: DocView)
    requires
        editor_ok(e),
    ensures
        spec_close_doc(spec_open(e, d), e.next_id).docs == e.docs,
{
    let o = spec_open(e, d);
    let n = e.docs.len() as int;
    assert(first_with_id(o.docs, e.next_id, n)) by {
        assert forall|j: int| 0 <= j < n implies (#[trigger] o.docs[j]).id != e.next_id by {
            assert(o.docs[j] == e.docs[j]);
        }
    }
    lemma_index_of_id(o.docs, e.next_id);
    let k = index_of_id(o.docs, e.next_id)->0;
    lemma_first_unique(o.docs, e.next_id, k, n);
    assert(o.docs.remove(n) =~= e.docs);
}

/// `previous` undoes `next`, and `next` undoes `previous`.
pub proof fn lemma_next_previous(e: EditorView)
    requires
        editor_ok(e),
        e.docs.len() <= usize::MAX,
    ensures
        spec_previous(spec_next(e)).active == e.active,
        spec_next(spec_previous(e)).active == e.active,
{
    let n = e.docs.len() as int;
    if n > 1 {
        assert((e.active + 1) % n == if e.active + 1 == n { 0 } else { e.active + 1 }) by (nonlinear_arith)
            requires
                0 <= e.active < n,
        {
        }
        let p = if e.active >= 1 { e.active - 1 } else { n - 1 };
        assert((p + 1) % n == e.active) by (nonlinear_arith)
            requires
                0 <= e.active < n,
                p == if e.active >= 1 { e.active - 1 } else { n - 1 },
        {
        }
    }
}

/// After a non-empty command is recorded, stepping back in the history
/// recalls it.
pub proof fn lemma_history_recall(e: EditorView, c: Seq<char>)
    requires
        editor_ok(e),
        c.len() > 0,
    ensures
        spec_previous_command(spec_add_command_history(e, c)).1 == Some(c),
{
}

/// No two neighbouring history entries are equal.
pub open spec fn no_repeats(h: Seq<Seq<char>>) -> bool {
    forall|i: int| 0 <= i < h.len() - 1 ==> #[trigger] h[i] != h[i + 1]
}

/// Recording a command never puts a repeat next to itself.
pub proof fn lemma_history_no_repeats(e: EditorView, c: Seq<char>)
    requires
        no_repeats(e.history),
    ensures
        no_repeats(spec_add_command_history(e, c).history),
{
    let h = spec_add_command_history(e, c).history;
    assert forall|i: int| 0 <= i < h.len() - 1 implies #[trigger] h[i] != h[i + 1] by {
        if i + 1 < e.history.len() {
            assert(h[i] == e.history[i]);
            assert(h[i + 1] == e.history[i + 1]);
        }
    }
}

} // verus!
