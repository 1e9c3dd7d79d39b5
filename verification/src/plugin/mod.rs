//! Support for plugins: the names of the keys they bind, the tables of
//! what they register, and the editor operations their scripts call.
//! Running the scripts is left to the program.

pub mod registry;
pub mod api;

use vstd::prelude::*;
use crate::editor::{KeyCode, KeyEvent};

verus! {

/// The name plugins use for a key: a character stands for itself; the
/// arrows, enter, backspace, delete and tab have lower-case names; other
/// keys (escape among them, which always opens the command bar) have none.
pub open spec fn spec_key_name(code: KeyCode) -> Option<Seq<char>> {
    match code {
        KeyCode::Char(c) => Some(seq![c]),
        KeyCode::Up => Some("up"@),
        KeyCode::Down => Some("down"@),
        KeyCode::Left => Some("left"@),
        KeyCode::Right => Some("right"@),
        KeyCode::Enter => Some("enter"@),
        KeyCode::Backspace => Some("backspace"@),
        KeyCode::Delete => Some("delete"@),
        KeyCode::Tab => Some("tab"@),
        _ => None,
    }
}

/// The plugin name of a key (see `spec_key_name`).
pub fn key_name(key: &KeyEvent) -> (r: Option<String>)
    ensures
        match spec_key_name(key.code) {
            Some(n) => r matches Some(s) && s@ == n,
            None => r is None,
        },
{
    match key.code {
        KeyCode::Char(c) => {
            let mut s = String::new();
            s.push(c);
            assert(s@ =~= seq![c]);
            Some(s)
        },
        KeyCode::Up => Some(String::from_str("up")),
        KeyCode::Down => Some(String::from_str("down")),
        KeyCode::Left => Some(String::from_str("left")),
        KeyCode::Right => Some(String::from_str("right")),
        KeyCode::Enter => Some(String::from_str("enter")),
        KeyCode::Backspace => Some(String::from_str("backspace")),
        KeyCode::Delete => Some(String::from_str("delete")),
        KeyCode::Tab => Some(String::from_str("tab")),
        _ => None,
    }
}

} // verus!
