use ink::document::Document;
use ink::editor::{Editor, KeyCode, KeyEvent};
use ink::plugin::api::{plugin_mode_key, unbound_key_fallback, PluginKey, get_buffer_amount, get_cursor, get_lines, new_buffer, set_cursor, set_lines, PluginState};
use ink::plugin::key_name;

fn editor() -> Editor {
    Editor::new(Document::from_text("a".to_string(), "one\ntwo".to_string()))
}

fn key(code: KeyCode) -> KeyEvent {
    KeyEvent { code, ctrl: false, alt: false }
}

#[test]
fn key_names() {
    assert_eq!(key_name(&key(KeyCode::Char('j'))), Some("j".to_string()));
    assert_eq!(key_name(&key(KeyCode::Char(' '))), Some(" ".to_string()));
    assert_eq!(key_name(&key(KeyCode::Up)), Some("up".to_string()));
    assert_eq!(key_name(&key(KeyCode::Backspace)), Some("backspace".to_string()));
    assert_eq!(key_name(&key(KeyCode::Tab)), Some("tab".to_string()));
    assert_eq!(key_name(&key(KeyCode::Esc)), None);
    assert_eq!(key_name(&key(KeyCode::BackTab)), None);
}

#[test]
fn keymaps_belong_to_a_buffer_and_a_plugin() {
    let mut e = editor();
    let mut p: PluginState<&str> = PluginState::new();
    assert!(!p.in_plugin_mode(&e));
    p.current_plugin = 2;
    p.keymap(&e, "j".to_string(), "down");
    p.keymap(&e, "j".to_string(), "down2");
    assert!(p.in_plugin_mode(&e));
    let b = p.key_binding(&e, "j").unwrap();
    assert_eq!((b.callback, b.plugin, b.buffer_id), ("down2", 2, 1));
    assert!(p.key_binding(&e, "k").is_none());
    e.open(Document::new_empty());
    assert!(p.key_binding(&e, "j").is_none());
    assert!(!p.in_plugin_mode(&e));
    assert!(!p.remove_keymap(&e, "j"));
    e.previous();
    p.current_plugin = 3;
    assert!(!p.remove_keymap(&e, "j"));
    p.current_plugin = 2;
    assert!(p.remove_keymap(&e, "j"));
    assert!(p.key_binding(&e, "j").is_none());
}

#[test]
fn leaving_plugin_mode_drops_the_keymap() {
    let e = editor();
    let mut p: PluginState<u8> = PluginState::new();
    p.keymap(&e, "x".to_string(), 1);
    p.exit_plugin_mode();
    assert!(!p.in_plugin_mode(&e));
    assert!(p.key_binding(&e, "x").is_none());
}

#[test]
fn closing_a_buffer_drops_its_bindings_and_timers() {
    let mut e = editor();
    let mut p: PluginState<u8> = PluginState::new();
    p.keymap(&e, "x".to_string(), 1);
    let t = p.timer_reserve();
    assert!(p.timer_start(&e, t, 1, 100, 9, 0));
    assert!(p.close_buffer(&mut e, 1));
    assert_eq!(get_buffer_amount(&e), 0);
    assert!(!p.timer_kill(t));
    assert!(!p.close_buffer(&mut e, 1));
}

#[test]
fn timers_fire_when_due_and_repeat() {
    let mut e = editor();
    let mut p: PluginState<u8> = PluginState::new();
    let a = p.timer_reserve();
    let b = p.timer_reserve();
    assert_eq!((a, b), (1, 2));
    assert!(p.timer_start(&e, a, 1, 100, 7, 1000));
    assert!(!p.timer_start(&e, b, 42, 100, 8, 1000));
    assert_eq!(p.timers.tick(1050, &e), Vec::<u64>::new());
    assert_eq!(p.timers.tick(1100, &e), vec![a]);
    assert_eq!(p.timers.get(a).unwrap().next_fire_ns, 1200);
    assert_eq!(p.timers.tick(1150, &e), Vec::<u64>::new());
    e.close();
    assert_eq!(p.timers.tick(5000, &e), Vec::<u64>::new());
    assert!(p.timers.get(a).is_none());
}

#[test]
fn commands_and_change_callbacks() {
    let mut p: PluginState<&str> = PluginState::new();
    p.register_command('w', 0, "first");
    p.register_command('w', 1, "second");
    let c = p.command('w').unwrap();
    assert_eq!((c.plugin, c.callback), (1, "second"));
    assert!(p.command('v').is_none());
    p.current_plugin = 4;
    p.on_change(1, "changed");
    let c = p.change_callback(1).unwrap();
    assert_eq!((c.plugin, c.callback), (4, "changed"));
    assert!(p.change_callback(2).is_none());
}

#[test]
fn buffer_operations_for_plugins() {
    let mut e = editor();
    assert_eq!(get_lines(&e, 1), vec!["one".to_string(), "two".to_string()]);
    assert_eq!(get_lines(&e, 9), vec!["".to_string()]);
    e.doc_mut().move_down(1);
    assert_eq!(get_cursor(&e), (1, 0));
    set_cursor(&mut e, 0, 99);
    assert_eq!(get_cursor(&e), (0, 3));
    set_lines(&mut e, 1, vec![]);
    assert_eq!(get_lines(&e, 1), vec!["".to_string()]);
    let id = new_buffer(&mut e, "scratch".to_string(), true);
    assert_eq!(id, 2);
    assert!(e.doc().read_only);
    assert_eq!(get_buffer_amount(&e), 2);
}

#[test]
fn lines_and_cursor_read_back() {
    let mut e = editor();
    let lines = vec!["alpha".to_string(), "".to_string(), "gamma".to_string()];
    set_lines(&mut e, 1, lines.clone());
    assert_eq!(get_lines(&e, 1), lines);
    set_cursor(&mut e, 2, 4);
    assert_eq!(get_cursor(&e), (2, 4));
    set_cursor(&mut e, 1, 0);
    assert_eq!(get_cursor(&e), (1, 0));
}

#[test]
fn keys_in_plugin_mode() {
    assert!(matches!(plugin_mode_key(&key(KeyCode::Esc)), PluginKey::Leave));
    match plugin_mode_key(&key(KeyCode::Up)) {
        PluginKey::Dispatch(n) => assert_eq!(n, "up"),
        _ => panic!("expected a dispatch"),
    }
    match plugin_mode_key(&key(KeyCode::Char('j'))) {
        PluginKey::Dispatch(n) => assert_eq!(n, "j"),
        _ => panic!("expected a dispatch"),
    }
    assert!(matches!(plugin_mode_key(&key(KeyCode::BackTab)), PluginKey::Ignore));
    let mut e = editor();
    unbound_key_fallback(&mut e, &key(KeyCode::Down));
    assert_eq!(get_cursor(&e), (1, 0));
    unbound_key_fallback(&mut e, &key(KeyCode::Down));
    assert_eq!(get_cursor(&e), (1, 0));
    unbound_key_fallback(&mut e, &key(KeyCode::Char('x')));
    assert_eq!(get_lines(&e, 1), vec!["one".to_string(), "two".to_string()]);
    unbound_key_fallback(&mut e, &key(KeyCode::Up));
    assert_eq!(get_cursor(&e), (0, 0));
}
