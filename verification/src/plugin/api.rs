//! The editor operations plugin scripts call, and the plugin state they
//! keep: the active keymap, the running timers, the change callbacks and
//! the commands plugins add, with the plugin currently running.

use vstd::prelude::*;
use super::registry::{
    Keymap, Registry, Timers, Entry, Binding, BindingView, bound, spec_bind, removable, without_buffer,
    spec_register, timers_without, doc_open, timer_index, later, TimerState, id_index, key_index,
};
use crate::document::Document;
use crate::document::model::{DocView, doc_ok, fresh, max_lines, spec_set_cursor, spec_move_up, spec_move_down};
use crate::editor::{
    Editor, EditorView, active_doc, with_active, spec_open, spec_close_doc, spec_set_doc_lines,
    strings_view, index_of_id, lemma_index_of_id, first_with_id,
};
use crate::text::text_lines;
use crate::editor::{KeyEvent, KeyCode};
use super::{key_name, spec_key_name};

verus! {

/// What the plugins have registered, and which plugin is running.
pub struct PluginState<C> {
    pub keymap: Keymap<C>,
    pub timers: Timers<C>,
    pub changes: Registry<C>,
    pub commands: Registry<C>,
    pub current_plugin: usize,
}

/// The number a command letter is registered under.
pub open spec fn letter_id(c: char) -> u64 {
    (c as u32) as u64
}

impl<C> PluginState<C> {
    pub open spec fn wf(&self) -> bool {
        &&& self.keymap.wf()
        &&& self.timers.wf()
        &&& self.changes.wf()
        &&& self.commands.wf()
    }

    /// Nothing registered; plugin 0 running.
    pub fn new() -> (r: Self)
        ensures
            r.wf(),
            r.keymap@ is None,
            r.timers@ == (Seq::<TimerState<C>>::empty(), 1u64),
            r.changes@ == Seq::<Entry<C>>::empty(),
            r.commands@ == Seq::<Entry<C>>::empty(),
            r.current_plugin == 0,
    {
        PluginState {
            keymap: Keymap::new(),
            timers: Timers::new(),
            changes: Registry::new(),
            commands: Registry::new(),
            current_plugin: 0,
        }
    }

    /// `on_change`: run the current plugin's callback when the buffer
    /// `buffer_id` changes (replacing an earlier one for that buffer).
    pub fn on_change(&mut self, buffer_id: u64, callback: C)
        requires
            old(self).wf(),
        ensures
            final(self).changes@ == spec_register(old(self).changes@, Entry { id: buffer_id, plugin: old(self).current_plugin, callback }),
            final(self).keymap@ == old(self).keymap@,
            final(self).timers@ == old(self).timers@,
            final(self).commands@ == old(self).commands@,
            final(self).current_plugin == old(self).current_plugin,
            final(self).wf(),
    {
        let p = self.current_plugin;
        self.changes.register(buffer_id, p, callback);
    }

    /// A plugin registers a command letter (the later registration of a
    /// letter wins).
    pub fn register_command(&mut self, letter: char, plugin: usize, callback: C)
        requires
            old(self).wf(),
        ensures
            final(self).commands@ == spec_register(old(self).commands@, Entry { id: letter_id(letter), plugin, callback }),
            final(self).keymap@ == old(self).keymap@,
            final(self).timers@ == old(self).timers@,
            final(self).changes@ == old(self).changes@,
            final(self).current_plugin == old(self).current_plugin,
            final(self).wf(),
    {
        let id = (letter as u32) as u64;
        self.commands.register(id, plugin, callback);
    }

    /// The plugin command of a letter, if one was registered.
    pub fn command(&self, letter: char) -> (r: Option<&Entry<C>>)
        requires
            self.wf(),
        ensures
            match id_index(self.commands@, letter_id(letter)) {
                Some(i) => r matches Some(e) && *e == self.commands@[i],
                None => r is None,
            },
    {
        let id = (letter as u32) as u64;
        self.commands.get(id)
    }

    /// The change callback of a buffer, if one was registered.
    pub fn change_callback(&self, buffer_id: u64) -> (r: Option<&Entry<C>>)
        requires
            self.wf(),
        ensures
            match id_index(self.changes@, buffer_id) {
                Some(i) => r matches Some(e) && *e == self.changes@[i],
                None => r is None,
            },
    {
        self.changes.get(buffer_id)
    }

    /// `keymap`: bind `key`, for the active buffer, to the current
    /// plugin's callback.
    pub fn keymap(&mut self, editor: &Editor, key: String, callback: C)
        requires
            old(self).wf(),
            editor.wf(),
            editor@.docs.len() > 0,
        ensures
            final(self).keymap@ == Some(spec_bind(bound(old(self).keymap@), BindingView {
                key: key@,
                buffer_id: active_doc(editor@).id,
                plugin: old(self).current_plugin,
                callback,
            })),
            final(self).timers@ == old(self).timers@,
            final(self).changes@ == old(self).changes@,
            final(self).commands@ == old(self).commands@,
            final(self).current_plugin == old(self).current_plugin,
            final(self).wf(),
    {
        let buffer_id = editor.active_id();
        let p = self.current_plugin;
        self.keymap.bind(key, buffer_id, p, callback);
    }

    /// `remove_keymap`: remove the binding of `key` when it belongs to the
    /// active buffer and the current plugin; whether one was removed.
    pub fn remove_keymap(&mut self, editor: &Editor, key: &str) -> (r: bool)
        requires
            old(self).wf(),
            editor.wf(),
            editor@.docs.len() > 0,
        ensures
            ({
                let at = removable(old(self).keymap@, key@, active_doc(editor@).id, old(self).current_plugin);
                &&& r == at is Some
                &&& match at {
                    Some(i) => final(self).keymap@ == Some(bound(old(self).keymap@).remove(i)),
                    None => final(self).keymap@ == old(self).keymap@,
                }
            }),
            final(self).timers@ == old(self).timers@,
            final(self).changes@ == old(self).changes@,
            final(self).commands@ == old(self).commands@,
            final(self).current_plugin == old(self).current_plugin,
            final(self).wf(),
    {
        let buffer_id = editor.active_id();
        let p = self.current_plugin;
        self.keymap.remove_owned(key, buffer_id, p)
    }

    /// The binding a key press runs: the key's binding when it belongs to
    /// the active buffer.
    pub fn key_binding(&self, editor: &Editor, key: &str) -> (r: Option<&Binding<C>>)
        requires
            self.wf(),
            editor.wf(),
            editor@.docs.len() > 0,
        ensures
            match self.keymap@ {
                Some(s) => match key_index(s, key@) {
                    Some(i) => if s[i].buffer_id == active_doc(editor@).id {
                        r matches Some(b) && crate::plugin::registry::binding_view(*b) == s[i]
                    } else {
                        r is None
                    },
                    None => r is None,
                },
                None => r is None,
            },
            match r {
                Some(b) => crate::plugin::registry::dispatched(self.keymap@, key@, active_doc(editor@).id)
                    == Some(crate::plugin::registry::binding_view(*b)),
                None => crate::plugin::registry::dispatched(self.keymap@, key@, active_doc(editor@).id) is None,
            },
    {
        let active = editor.active_id();
        match self.keymap.get(key) {
            Some(b) => if b.buffer_id == active { Some(b) } else { None },
            None => None,
        }
    }

    /// Whether the active buffer has a plugin keymap (keys then go to the
    /// plugin).
    pub fn in_plugin_mode(&self, editor: &Editor) -> (r: bool)
        requires
            editor.wf(),
            editor@.docs.len() > 0,
        ensures
            r == exists|i: int| 0 <= i < bound(self.keymap@).len()
                && (#[trigger] bound(self.keymap@)[i]).buffer_id == active_doc(editor@).id,
    {
        let active = editor.active_id();
        self.keymap.has_buffer(active)
    }

    /// Leave plugin mode: the keymap is dropped.
    pub fn exit_plugin_mode(&mut self)
        requires
            old(self).wf(),
        ensures
            final(self).keymap@ is None,
            final(self).timers@ == old(self).timers@,
            final(self).changes@ == old(self).changes@,
            final(self).commands@ == old(self).commands@,
            final(self).current_plugin == old(self).current_plugin,
            final(self).wf(),
    {
        self.keymap.clear();
    }

    /// `close_buffer`: close the buffer `id`; when it was open, its key
    /// bindings and timers go too. Whether it was open.
    pub fn close_buffer(&mut self, editor: &mut Editor, id: u64) -> (r: bool)
        requires
            old(self).wf(),
            old(editor).wf(),
        ensures
            r == (index_of_id(old(editor)@.docs, id) is Some),
            final(editor)@ == spec_close_doc(old(editor)@, id),
            r ==> final(self).keymap@ == match old(self).keymap@ {
                Some(s) => Some(without_buffer(s, id)),
                None => None,
            },
            r ==> final(self).timers@ == (timers_without(old(self).timers@.0, id), old(self).timers@.1),
            !r ==> final(self).keymap@ == old(self).keymap@ && final(self).timers@ == old(self).timers@,
            final(self).changes@ == old(self).changes@,
            final(self).commands@ == old(self).commands@,
            final(self).current_plugin == old(self).current_plugin,
            final(self).wf(),
            final(editor).wf(),
    {
        let closed = editor.close_doc(id);
        if closed {
            self.keymap.drop_buffer(id);
            self.timers.drop_document(id);
        }
        closed
    }

    /// `timer_reserve`: a fresh timer id.
    pub fn timer_reserve(&mut self) -> (r: u64)
        requires
            old(self).wf(),
            old(self).timers@.1 < u64::MAX,
        ensures
            r == old(self).timers@.1,
            final(self).timers@ == (old(self).timers@.0, (old(self).timers@.1 + 1) as u64),
            final(self).keymap@ == old(self).keymap@,
            final(self).changes@ == old(self).changes@,
            final(self).commands@ == old(self).commands@,
            final(self).current_plugin == old(self).current_plugin,
            final(self).wf(),
    {
        self.timers.reserve()
    }

    /// `timer_start`: start the timer `id` for the buffer `document_id`
    /// with the current plugin's callback, every `duration_ns`; `false`
    /// when that buffer is not open.
    pub fn timer_start(&mut self, editor: &Editor, id: u64, document_id: u64, duration_ns: u64, callback: C, now_ns: u64) -> (r: bool)
        requires
            old(self).wf(),
        ensures
            r == doc_open(editor@.docs, document_id),
            r ==> final(self).timers@ == ({
                let t = TimerState {
                    id,
                    document_id,
                    duration_ns,
                    next_fire_ns: later(now_ns, duration_ns),
                    plugin: old(self).current_plugin,
                    callback,
                };
                (match timer_index(old(self).timers@.0, id) {
                    Some(i) => old(self).timers@.0.update(i, t),
                    None => old(self).timers@.0.push(t),
                }, old(self).timers@.1)
            }),
            !r ==> final(self).timers@ == old(self).timers@,
            final(self).keymap@ == old(self).keymap@,
            final(self).changes@ == old(self).changes@,
            final(self).commands@ == old(self).commands@,
            final(self).current_plugin == old(self).current_plugin,
            final(self).wf(),
    {
        let p = self.current_plugin;
        self.timers.start(id, document_id, duration_ns, p, callback, now_ns, editor)
    }

    /// `timer_kill`: stop the timer `id`; whether it was running.
    pub fn timer_kill(&mut self, id: u64) -> (r: bool)
        requires
            old(self).wf(),
        ensures
            r == timer_index(old(self).timers@.0, id) is Some,
            match timer_index(old(self).timers@.0, id) {
                Some(i) => final(self).timers@ == (old(self).timers@.0.remove(i), old(self).timers@.1),
                None => final(self).timers@ == old(self).timers@,
            },
            final(self).keymap@ == old(self).keymap@,
            final(self).changes@ == old(self).changes@,
            final(self).commands@ == old(self).commands@,
            final(self).current_plugin == old(self).current_plugin,
            final(self).wf(),
    {
        self.timers.kill(id)
    }
}

/// `get_lines`: the lines of the buffer `id`, or one empty line when there
/// is none.
pub fn get_lines(editor: &Editor, id: u64) -> (r: Vec<String>)
    ensures
        strings_view(r@) == match index_of_id(editor@.docs, id) {
            Some(i) => editor@.docs[i].lines,
            None => seq![Seq::<char>::empty()],
        },
{
    match editor.get_doc_by_id(id) {
        Some(d) => {
            let r = d.lines_copy();
            assert(strings_view(r@) =~= crate::document::lines_view(r@));
            r
        },
        None => {
            let mut r: Vec<String> = Vec::new();
            r.push(String::new());
            assert(strings_view(r@) =~= seq![Seq::<char>::empty()]);
            r
        },
    }
}

/// `set_lines`: replace the lines of the buffer `id`, moving its cursor to
/// the start and marking it clean; nothing when there is no such buffer.
pub fn set_lines(editor: &mut Editor, id: u64, lines: Vec<String>)
    requires
        old(editor).wf(),
        lines@.len() <= max_lines(),
    ensures
        final(editor)@ == spec_set_doc_lines(old(editor)@, id, strings_view(lines@)),
        final(editor).wf(),
{
    editor.set_doc_lines(id, lines);
}

/// `get_cursor`: the active buffer's cursor line and column.
pub fn get_cursor(editor: &Editor) -> (r: (i64, i64))
    requires
        editor.wf(),
        editor@.docs.len() > 0,
    ensures
        r == (active_doc(editor@).cursor_line as i64, active_doc(editor@).cursor_col as i64),
{
    let d = editor.doc();
    (d.cursor_line() as i64, d.cursor_col() as i64)
}

/// `set_cursor`: place the active buffer's cursor, clamped into it.
pub fn set_cursor(editor: &mut Editor, line: i64, col: i64)
    requires
        old(editor).wf(),
        old(editor)@.docs.len() > 0,
    ensures
        final(editor)@ == with_active(old(editor)@, spec_set_cursor(active_doc(old(editor)@), line as int, col as int)),
        final(editor).wf(),
{
    editor.doc_mut().set_cursor(line, col);
}

/// `new_buffer`: open a new empty buffer with the given name; its id.
pub fn new_buffer(editor: &mut Editor, name: String, readonly: bool) -> (r: u64)
    requires
        old(editor).wf(),
        old(editor)@.next_id < u64::MAX,
    ensures
        final(editor)@ == spec_open(old(editor)@, fresh(Some(name@), seq![Seq::<char>::empty()], readonly)),
        r == old(editor)@.next_id,
        final(editor).wf(),
{
    let mut doc = Document::from_text(name, String::new());
    proof {
        assert(text_lines(Seq::<char>::empty()) =~= Seq::<Seq<char>>::empty());
    }
    doc.set_read_only(readonly);
    editor.open(doc)
}

/// `get_buffer_amount`: how many buffers are open.
pub fn get_buffer_amount(editor: &Editor) -> (r: usize)
    ensures
        r == editor@.docs.len(),
{
    editor.get_docs_len()
}

/// Lines a plugin sets are the lines it reads back: once `set_lines` has
/// replaced the lines of an open buffer, `get_lines` on that buffer gives
/// them (a single empty line where none were given).
pub proof fn lemma_lines_read_back(e: EditorView, id: u64, lines: Seq<Seq<char>>)
    requires
        index_of_id(e.docs, id) is Some,
    ensures
        ({
            let e2 = spec_set_doc_lines(e, id, lines);
            &&& index_of_id(e2.docs, id) == index_of_id(e.docs, id)
            &&& e2.docs[index_of_id(e2.docs, id).unwrap()].lines
                == if lines.len() == 0 { seq![Seq::<char>::empty()] } else { lines }
        }),
{
    let e2 = spec_set_doc_lines(e, id, lines);
    lemma_index_of_id(e.docs, id);
    let i = index_of_id(e.docs, id).unwrap();
    assert(first_with_id(e2.docs, id, i)) by {
        assert forall|j: int| 0 <= j < i implies (#[trigger] e2.docs[j]).id != id by {
            assert(e2.docs[j] == e.docs[j]);
        }
    }
    lemma_index_of_id(e2.docs, id);
    let k = index_of_id(e2.docs, id).unwrap();
    if k < i {
        assert(e2.docs[k] == e.docs[k]);
    } else if k > i {
        assert(e2.docs[i].id == id);
    }
}

/// A cursor a plugin places inside the active buffer is the cursor it reads
/// back: after `set_cursor(line, col)` with `line` one of the buffer's lines
/// and `col` at most that line's length, `get_cursor` gives `(line, col)`.
pub proof fn lemma_cursor_read_back(e: EditorView, line: int, col: int)
    requires
        e.active < e.docs.len(),
        doc_ok(active_doc(e)),
        0 <= line < active_doc(e).lines.len(),
        0 <= col <= active_doc(e).lines[line].len(),
        col <= usize::MAX,
    ensures
        ({
            let d = active_doc(with_active(e, spec_set_cursor(active_doc(e), line, col)));
            d.cursor_line == line && d.cursor_col == col
        }),
{
}

/// What a key press does in plugin mode.
pub enum PluginKey {
    /// Esc: leave plugin mode.
    Leave,
    /// Offer the key, by its plugin name, to the active keymap.
    Dispatch(String),
    /// A key with no plugin name: nothing.
    Ignore,
}

/// The model of a `PluginKey`.
pub enum SPluginKey {
    Leave,
    Dispatch(Seq<char>),
    Ignore,
}

pub open spec fn plugin_key_view(k: PluginKey) -> SPluginKey {
    match k {
        PluginKey::Leave => SPluginKey::Leave,
        PluginKey::Dispatch(n) => SPluginKey::Dispatch(n@),
        PluginKey::Ignore => SPluginKey::Ignore,
    }
}

/// In plugin mode, Esc leaves the mode and any other key with a plugin
/// name is offered to the keymap under that name.
pub open spec fn spec_plugin_mode_key(code: KeyCode) -> SPluginKey {
    if code is Esc {
        SPluginKey::Leave
    } else {
        match spec_key_name(code) {
            Some(n) => SPluginKey::Dispatch(n),
            None => SPluginKey::Ignore,
        }
    }
}

/// What a key press does in plugin mode (see `spec_plugin_mode_key`).
pub fn plugin_mode_key(key: &KeyEvent) -> (r: PluginKey)
    ensures
        plugin_key_view(r) == spec_plugin_mode_key(key.code),
{
    if let KeyCode::Esc = key.code {
        return PluginKey::Leave;
    }
    match key_name(key) {
        Some(n) => PluginKey::Dispatch(n),
        None => PluginKey::Ignore,
    }
}

/// What a key that no binding took does in plugin mode: Up and Down still
/// move the cursor one line, any other key does nothing.
pub open spec fn spec_unbound_key(e: EditorView, code: KeyCode) -> EditorView {
    match code {
        KeyCode::Up => with_active(e, spec_move_up(active_doc(e), 1)),
        KeyCode::Down => with_active(e, spec_move_down(active_doc(e), 1)),
        _ => e,
    }
}

/// Act on a key that no binding took (see `spec_unbound_key`).
pub fn unbound_key_fallback(editor: &mut Editor, key: &KeyEvent)
    requires
        old(editor).wf(),
        old(editor)@.docs.len() > 0,
    ensures
        final(editor)@ == spec_unbound_key(old(editor)@, key.code),
        final(editor).wf(),
{
    match key.code {
        KeyCode::Up => editor.doc_mut().move_up(1),
        KeyCode::Down => editor.doc_mut().move_down(1),
        _ => {},
    }
}

} // verus!
