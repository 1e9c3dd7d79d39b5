use ink::document::Document;
use ink::editor::{EditResult, Editor, KeyCode, KeyEvent};

fn named(name: &str, text: &str) -> Document {
    Document::from_text(name.to_string(), text.to_string())
}

fn key(code: KeyCode) -> KeyEvent {
    KeyEvent { code, ctrl: false, alt: false }
}

#[test]
fn new_editor_gives_first_document_id_one() {
    let e = Editor::new(named("a", "x"));
    assert_eq!(e.get_docs_len(), 1);
    assert_eq!(e.active_id(), 1);
    assert_eq!(e.next_id(), 2);
}

#[test]
fn open_assigns_fresh_ids_and_activates() {
    let mut e = Editor::new(named("a", "x"));
    let id2 = e.open(named("b", "y"));
    let id3 = e.open(named("c", "z"));
    assert_eq!((id2, id3), (2, 3));
    assert_eq!(e.active, 2);
    assert_eq!(e.doc().path, Some("c".to_string()));
    assert_eq!(e.find_doc_index(2), Some(1));
    assert!(e.get_doc_by_id(9).is_none());
}

#[test]
fn close_keeps_neighbour_active() {
    let mut e = Editor::new(named("a", ""));
    e.open(named("b", ""));
    e.open(named("c", ""));
    e.previous();
    assert_eq!(e.active_id(), 2);
    assert!(e.close());
    assert_eq!(e.get_docs_len(), 2);
    assert_eq!(e.active_id(), 3);
    assert!(e.close_doc(1));
    assert!(!e.close_doc(1));
    assert_eq!(e.active_id(), 3);
    assert!(e.close());
    assert!(!e.close());
}

#[test]
fn next_and_previous_wrap() {
    let mut e = Editor::new(named("a", ""));
    e.open(named("b", ""));
    e.next();
    assert_eq!(e.active, 0);
    e.previous();
    assert_eq!(e.active, 1);
    e.next();
    e.previous();
    assert_eq!(e.active, 1);
}

#[test]
fn set_doc_by_id_replaces_keeping_id() {
    let mut e = Editor::new(named("a", "x"));
    assert!(e.set_doc_by_id(1, named("z", "new")));
    assert_eq!(e.doc().lines, vec!["new".to_string()]);
    assert_eq!(e.active_id(), 1);
    assert!(!e.set_doc_by_id(7, named("q", "")));
}

#[test]
fn has_dirty_sees_any_document() {
    let mut e = Editor::new(named("a", ""));
    e.open(named("b", ""));
    assert!(!e.has_dirty());
    e.doc_mut().insert_char('x');
    assert!(e.has_dirty());
}

#[test]
fn command_history_recall() {
    let mut e = Editor::new(named("a", ""));
    e.add_command_history("g;1;".to_string());
    e.add_command_history("s".to_string());
    e.add_command_history("s".to_string());
    e.add_command_history(String::new());
    assert_eq!(e.command_history.len(), 2);
    assert_eq!(e.previous_command(), Some("s".to_string()));
    assert_eq!(e.previous_command(), Some("g;1;".to_string()));
    assert_eq!(e.previous_command(), Some("g;1;".to_string()));
    assert_eq!(e.next_command(), Some("s".to_string()));
    assert_eq!(e.next_command(), None);
    assert_eq!(e.history_idx, None);
}

#[test]
fn history_is_empty_at_start() {
    let mut e = Editor::new(named("a", ""));
    assert_eq!(e.previous_command(), None);
    assert_eq!(e.next_command(), None);
}

#[test]
fn keys_edit_the_active_document() {
    let mut e = Editor::new(named("a", "x"));
    assert_eq!(e.handle_key(key(KeyCode::Char('y'))), EditResult::Changed(1));
    assert_eq!(e.doc().lines, vec!["yx".to_string()]);
    assert_eq!(e.handle_key(key(KeyCode::Tab)), EditResult::Changed(1));
    assert_eq!(e.doc().lines, vec!["    yx".to_string()]);
    assert_eq!(e.handle_key(key(KeyCode::BackTab)), EditResult::Changed(1));
    assert_eq!(e.handle_key(key(KeyCode::Enter)), EditResult::Changed(1));
    assert_eq!(e.doc().lines.len(), 2);
    assert_eq!(e.handle_key(key(KeyCode::Up)), EditResult::Nothing);
    assert_eq!(e.doc().cursor_line, 0);
    assert_eq!(e.handle_key(key(KeyCode::Esc)), EditResult::CommandBar);
    assert_eq!(e.handle_key(key(KeyCode::Other)), EditResult::Nothing);
}

#[test]
fn ctrl_keys_move_and_delete_words() {
    let mut e = Editor::new(named("a", "foo bar"));
    let right = KeyEvent { code: KeyCode::Right, ctrl: true, alt: false };
    assert_eq!(e.handle_key(right), EditResult::Nothing);
    assert_eq!(e.doc().cursor_col, 4);
    let ctrl_w = KeyEvent { code: KeyCode::Char('w'), ctrl: true, alt: false };
    assert_eq!(e.handle_key(ctrl_w), EditResult::Changed(1));
    assert_eq!(e.doc().lines, vec!["bar".to_string()]);
    let alt_d = KeyEvent { code: KeyCode::Char('d'), ctrl: false, alt: true };
    e.handle_key(alt_d);
    assert_eq!(e.doc().lines, vec!["".to_string()]);
    let ctrl_x = KeyEvent { code: KeyCode::Char('x'), ctrl: true, alt: false };
    assert_eq!(e.handle_key(ctrl_x), EditResult::Nothing);
}

#[test]
fn try_handle_key_needs_a_document() {
    let mut e = Editor::new(named("a", ""));
    e.close();
    assert_eq!(e.try_handle_key(key(KeyCode::Char('a'))), None);
}
