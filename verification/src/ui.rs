//! The command bar: what a key does while it is open.

use vstd::prelude::*;
use crate::editor::{
    Editor, EditorView, KeyCode, KeyEvent, spec_previous_command, spec_next_command,
    spec_add_command_history,
};
use crate::text::{chars_of, string_range};

verus! {

/// What a key did to the open command bar.
#[derive(Debug, PartialEq, Eq)]
pub enum BarAction {
    /// The bar stays open.
    Stay,
    /// The bar closes without running anything.
    Close,
    /// The bar closes and its text is to be run.
    Run(String),
}

pub enum SBarAction {
    Stay,
    Close,
    Run(Seq<char>),
}

/// The bar's text and the editor after a key, and what the key did.
pub open spec fn spec_bar_key(buf: Seq<char>, e: EditorView, code: KeyCode) -> (Seq<char>, EditorView, SBarAction) {
    match code {
        KeyCode::Esc => (buf, e, SBarAction::Close),
        KeyCode::Char(c) => (buf.push(c), e, SBarAction::Stay),
        KeyCode::Backspace => (if buf.len() > 0 { buf.drop_last() } else { buf }, e, SBarAction::Stay),
        KeyCode::Up => {
            let (e2, r) = spec_previous_command(e);
            (match r { Some(c) => c, None => buf }, e2, SBarAction::Stay)
        },
        KeyCode::Down => {
            let (e2, r) = spec_next_command(e);
            (match r { Some(c) => c, None => Seq::empty() }, e2, SBarAction::Stay)
        },
        KeyCode::Enter => (Seq::empty(), spec_add_command_history(e, buf), SBarAction::Run(buf)),
        _ => (buf, e, SBarAction::Stay),
    }
}

pub open spec fn bar_action_view(a: BarAction) -> SBarAction {
    match a {
        BarAction::Stay => SBarAction::Stay,
        BarAction::Close => SBarAction::Close,
        BarAction::Run(s) => SBarAction::Run(s@),
    }
}

/// Apply a key to the open command bar holding `buf`: typing edits the
/// text, up and down recall earlier commands, enter records the command
/// in the history and hands it over to be run, escape closes the bar.
pub fn bar_key(buf: &mut String, editor: &mut Editor, key: KeyEvent) -> (r: BarAction)
    requires
        old(editor).wf(),
    ensures
        (final(buf)@, final(editor)@, bar_action_view(r)) == spec_bar_key(old(buf)@, old(editor)@, key.code),
        final(editor).wf(),
{
    match key.code {
        KeyCode::Esc => BarAction::Close,
        KeyCode::Char(c) => {
            buf.push(c);
            BarAction::Stay
        },
        KeyCode::Backspace => {
            let cs = chars_of(buf.as_str());
            if cs.len() > 0 {
                let shorter = string_range(&cs, 0, cs.len() - 1);
                proof {
                    assert(cs@.subrange(0, cs@.len() - 1) =~= cs@.drop_last());
                }
                *buf = shorter;
            }
            BarAction::Stay
        },
        KeyCode::Up => {
            if let Some(command) = editor.previous_command() {
                *buf = command;
            }
            BarAction::Stay
        },
        KeyCode::Down => {
            match editor.next_command() {
                Some(command) => *buf = command,
                None => *buf = String::new(),
            }
            BarAction::Stay
        },
        KeyCode::Enter => {
            let command = buf.clone();
            editor.add_command_history(buf.clone());
            *buf = String::new();
            BarAction::Run(command)
        },
        _ => BarAction::Stay,
    }
}

} // verus!
