use ink::document::Document;
use ink::terminal::{truncate_to_width, Screen};
use ink::warn::WarnPopup;

#[test]
fn truncation_counts_columns() {
    assert_eq!(truncate_to_width("hello", 3), "hel");
    assert_eq!(truncate_to_width("hi", 10), "hi");
    assert_eq!(truncate_to_width("hi", 0), "");
    // Each of these characters takes two columns.
    assert_eq!(truncate_to_width("日本語", 5), "日本");
    assert_eq!(truncate_to_width("a日", 2), "a");
}

#[test]
fn screen_rows() {
    let s = Screen::new(80, 24);
    assert_eq!(s.text_rows(), 21);
    assert_eq!(s.text_start_row(), 1);
    assert_eq!(Screen::new(80, 2).text_rows(), 0);
}

#[test]
fn frame_lays_out_text_status_and_cursor() {
    let mut screen = Screen::new(12, 6);
    let mut doc = Document::from_text("dir/notes.txt".to_string(), "first line\nb".to_string());
    doc.insert_char('x');
    let mut warn = WarnPopup::new();
    warn.show("something long".to_string(), 0);
    let f = screen.draw(&doc, None, &warn).unwrap();
    assert_eq!(f.warning, Some("!warn: somet".to_string()));
    assert_eq!(f.rows, vec!["xfirst line".to_string(), "b".to_string(), "~".to_string()]);
    assert_eq!((f.status_row, f.bottom_row), (4, 5));
    assert_eq!(f.status, "notes.txt* -");
    assert_eq!(f.command, None);
    assert_eq!((f.cursor_col, f.cursor_row), (1, 1));
}

#[test]
fn frame_with_command_bar() {
    let mut screen = Screen::new(40, 5);
    let doc = Document::new_empty();
    let f = screen.draw(&doc, Some("g;4"), &WarnPopup::new()).unwrap();
    assert_eq!(f.command, Some(":g;4".to_string()));
    assert_eq!((f.cursor_col, f.cursor_row), (4, 4));
    assert_eq!(f.status, "[no name] -- 1:1");
    assert_eq!(f.warning, None);
}

#[test]
fn viewport_follows_the_cursor() {
    // Six rows: three of them for text.
    let mut screen = Screen::new(20, 6);
    let mut doc = Document::from_text("f".to_string(), "l1\nl2\nl3\nl4\nl5\nl6".to_string());
    doc.move_down(4);
    let f = screen.draw(&doc, None, &WarnPopup::new()).unwrap();
    assert_eq!(screen.scroll, 2);
    assert_eq!(f.rows, vec!["l3".to_string(), "l4".to_string(), "l5".to_string()]);
    assert_eq!(f.cursor_row, 3);
    // Moving up inside the view does not scroll.
    doc.move_up(1);
    let f = screen.draw(&doc, None, &WarnPopup::new()).unwrap();
    assert_eq!(screen.scroll, 2);
    assert_eq!(f.cursor_row, 2);
    // Moving above the view scrolls up to the cursor line.
    doc.move_up(3);
    let f = screen.draw(&doc, None, &WarnPopup::new()).unwrap();
    assert_eq!(screen.scroll, 0);
    assert_eq!(f.rows[0], "l1");
    assert_eq!(f.cursor_row, 1);
}
