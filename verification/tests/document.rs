use ink::document::{Document, SaveError};

fn doc(text: &str) -> Document {
    Document::from_text("t.txt".to_string(), text.to_string())
}

fn lines(d: &Document) -> Vec<String> {
    d.lines.clone()
}

#[test]
fn new_empty_has_one_empty_line() {
    let d = Document::new_empty();
    assert_eq!(lines(&d), vec![String::new()]);
    assert_eq!((d.cursor_line, d.cursor_col), (0, 0));
    assert!(!d.dirty);
    assert!(d.path.is_none());
}

#[test]
fn from_text_splits_lines_like_str_lines() {
    let d = doc("a\r\nb\n\nc\n");
    assert_eq!(lines(&d), vec!["a", "b", "", "c"]);
    assert_eq!(d.path, Some("t.txt".to_string()));
    assert!(!d.dirty);
    let e = doc("");
    assert_eq!(lines(&e), vec![""]);
}

#[test]
fn open_keeps_read_only_mark() {
    let d = Document::open("f.rs".to_string(), "x\ny".to_string(), true);
    assert!(d.read_only);
    assert_eq!(lines(&d), vec!["x", "y"]);
}

#[test]
fn insert_char_and_newline() {
    let mut d = doc("ab");
    d.cursor_col = 1;
    d.insert_char('X');
    assert_eq!(lines(&d), vec!["aXb"]);
    assert_eq!(d.cursor_col, 2);
    assert!(d.dirty);
    d.insert_newline();
    assert_eq!(lines(&d), vec!["aX", "b"]);
    assert_eq!((d.cursor_line, d.cursor_col), (1, 0));
}

#[test]
fn insert_text_types_newlines() {
    let mut d = doc("");
    d.insert_text("ab\ncd");
    assert_eq!(lines(&d), vec!["ab", "cd"]);
    assert_eq!((d.cursor_line, d.cursor_col), (1, 2));
    d.undo();
    assert_eq!(lines(&d), vec![""]);
}

#[test]
fn insert_text_empty_does_nothing() {
    let mut d = doc("ab");
    d.insert_text("");
    assert!(!d.dirty);
    d.undo();
    assert_eq!(lines(&d), vec!["ab"]);
}

#[test]
fn columns_count_grapheme_clusters() {
    // "e" followed by a combining acute accent is one cluster.
    let mut d = doc("e\u{301}x");
    d.move_right();
    assert_eq!(d.cursor_col, 1);
    d.insert_char('Y');
    assert_eq!(lines(&d), vec!["e\u{301}Yx"]);
    d.backspace();
    d.backspace();
    assert_eq!(lines(&d), vec!["x"]);
}

#[test]
fn backspace_joins_lines() {
    let mut d = doc("ab\ncd");
    d.cursor_line = 1;
    d.cursor_col = 0;
    d.backspace();
    assert_eq!(lines(&d), vec!["abcd"]);
    assert_eq!((d.cursor_line, d.cursor_col), (0, 2));
}

#[test]
fn backspace_at_start_does_nothing() {
    let mut d = doc("ab");
    d.backspace();
    assert_eq!(lines(&d), vec!["ab"]);
    assert!(!d.dirty);
}

#[test]
fn delete_joins_next_line_at_end() {
    let mut d = doc("ab\ncd");
    d.cursor_col = 2;
    d.delete();
    assert_eq!(lines(&d), vec!["abcd"]);
    d.cursor_col = 0;
    d.delete();
    assert_eq!(lines(&d), vec!["bcd"]);
}

#[test]
fn undo_then_redo() {
    let mut d = doc("ab");
    d.insert_char('c');
    d.undo();
    assert_eq!(lines(&d), vec!["ab"]);
    assert_eq!(d.cursor_col, 0);
    d.redo();
    assert_eq!(lines(&d), vec!["cab"]);
    assert_eq!(d.cursor_col, 1);
}

#[test]
fn indent_and_dedent() {
    let mut d = doc("x");
    d.indent();
    assert_eq!(lines(&d), vec!["    x"]);
    assert_eq!(d.cursor_col, 4);
    d.dedent();
    assert_eq!(lines(&d), vec!["x"]);
    assert_eq!(d.cursor_col, 0);
    let mut e = doc("  y");
    e.cursor_col = 1;
    e.dedent();
    assert_eq!(lines(&e), vec!["y"]);
    assert_eq!(e.cursor_col, 0);
}

#[test]
fn word_motions() {
    let mut d = doc("foo  bar.baz");
    d.move_word_right();
    assert_eq!(d.cursor_col, 5);
    d.move_word_right();
    assert_eq!(d.cursor_col, 8);
    d.move_word_right();
    assert_eq!(d.cursor_col, 9);
    d.move_word_left();
    assert_eq!(d.cursor_col, 8);
    d.move_word_left();
    assert_eq!(d.cursor_col, 5);
    d.move_word_left();
    assert_eq!(d.cursor_col, 0);
}

#[test]
fn word_motion_uses_unicode_letters() {
    let mut d = doc("héllo wörld");
    d.move_word_right();
    assert_eq!(d.cursor_col, 6);
}

#[test]
fn word_motion_wraps_lines() {
    let mut d = doc("ab\ncd");
    d.cursor_col = 2;
    d.move_word_right();
    assert_eq!((d.cursor_line, d.cursor_col), (1, 0));
    d.move_word_left();
    assert_eq!((d.cursor_line, d.cursor_col), (0, 2));
}

#[test]
fn delete_words() {
    let mut d = doc("foo bar baz");
    d.cursor_col = 4;
    d.delete_word_forward();
    assert_eq!(lines(&d), vec!["foo baz"]);
    d.delete_word_backward();
    assert_eq!(lines(&d), vec!["baz"]);
    assert_eq!(d.cursor_col, 0);
}

#[test]
fn delete_to_end_and_duplicate() {
    let mut d = doc("hello");
    d.cursor_col = 2;
    d.delete_to_end_of_line();
    assert_eq!(lines(&d), vec!["he"]);
    d.duplicate_line();
    assert_eq!(lines(&d), vec!["he", "he"]);
    assert_eq!(d.cursor_line, 1);
}

#[test]
fn vertical_moves_clamp_column() {
    let mut d = doc("long line\nab\nxyz");
    d.cursor_col = 8;
    d.move_down(1);
    assert_eq!((d.cursor_line, d.cursor_col), (1, 2));
    d.move_down(10);
    assert_eq!(d.cursor_line, 2);
    d.move_up(10);
    assert_eq!(d.cursor_line, 0);
    d.goto_line(2);
    assert_eq!(d.cursor_line, 1);
    d.goto_line(0);
    assert_eq!(d.cursor_line, 0);
}

#[test]
fn find_next_moves_after_cursor_and_wraps() {
    let mut d = doc("abc abc\nxx abc");
    assert!(d.find_next("abc"));
    assert_eq!((d.cursor_line, d.cursor_col), (0, 4));
    assert!(d.find_next("abc"));
    assert_eq!((d.cursor_line, d.cursor_col), (1, 3));
    assert!(d.find_next("abc"));
    assert_eq!((d.cursor_line, d.cursor_col), (0, 0));
    assert!(!d.find_next("zzz"));
    assert!(!d.find_next(""));
}

#[test]
fn replace_next_replaces_found_text() {
    let mut d = doc("one two one");
    assert!(d.replace_next("one", "1"));
    assert_eq!(lines(&d), vec!["one two 1"]);
    assert_eq!(d.cursor_col, 9);
    assert!(!d.replace_next("zzz", "y"));
}

#[test]
fn jump_to_match_both_ways() {
    let mut d = doc("f(a, (b))\n[x]");
    d.cursor_col = 1;
    assert!(d.jump_to_match());
    assert_eq!((d.cursor_line, d.cursor_col), (0, 8));
    assert!(d.jump_to_match());
    assert_eq!((d.cursor_line, d.cursor_col), (0, 1));
    d.cursor_col = 0;
    assert!(!d.jump_to_match());
    d.cursor_line = 1;
    d.cursor_col = 0;
    assert!(d.jump_to_match());
    assert_eq!(d.cursor_col, 2);
}

#[test]
fn jump_to_match_across_lines() {
    let mut d = doc("{\n  x\n}");
    assert!(d.jump_to_match());
    assert_eq!((d.cursor_line, d.cursor_col), (2, 0));
}

#[test]
fn save_reports_why_it_cannot() {
    let d = Document::new_empty();
    match d.save() {
        Err(e) => {
            assert_eq!(e, SaveError::NoPath);
            assert_eq!(e.message(), "no path associated with this document; use n to set one");
        }
        Ok(_) => panic!("saved without a path"),
    }
    let r = Document::open("f".to_string(), "x".to_string(), true);
    match r.save() {
        Err(e) => {
            assert_eq!(e, SaveError::ReadOnly);
            assert_eq!(e.message(), "document is read-only (use s! to override)");
        }
        Ok(_) => panic!("saved a read-only document"),
    }
}

#[test]
fn save_joins_lines() {
    let d = doc("a\nb");
    let req = d.save().ok().unwrap();
    assert_eq!(req.path, "t.txt");
    assert_eq!(req.contents, "a\nb");
}

#[test]
fn save_forced_clears_read_only() {
    let mut d = Document::open("f".to_string(), "x".to_string(), true);
    let req = d.save_forced().ok().unwrap();
    assert_eq!(req.contents, "x");
    assert!(!d.read_only);
}

#[test]
fn set_cursor_clamps() {
    let mut d = doc("abc\nde");
    d.set_cursor(5, 10);
    assert_eq!((d.cursor_line, d.cursor_col), (1, 2));
    d.set_cursor(-3, -1);
    assert_eq!((d.cursor_line, d.cursor_col), (0, 0));
}

#[test]
fn goto_named_positions() {
    let mut d = doc("abc\nhello");
    d.goto_end_of_file();
    assert_eq!((d.cursor_line, d.cursor_col), (1, 5));
    d.goto_start_of_line();
    assert_eq!(d.cursor_col, 0);
    d.goto_end_of_line();
    assert_eq!(d.cursor_col, 5);
    d.goto_start_of_file();
    assert_eq!((d.cursor_line, d.cursor_col), (0, 0));
}

#[test]
fn jump_lands_on_the_nearest_balanced_partner() {
    // From the outer '(' the partner is the last ')', not the first one.
    let mut d = doc("((a)\n(b))) x");
    assert!(d.jump_to_match());
    assert_eq!((d.cursor_line, d.cursor_col), (1, 3));
    // From the inner '(' on the second line, its own ')'.
    d.cursor_col = 0;
    assert!(d.jump_to_match());
    assert_eq!((d.cursor_line, d.cursor_col), (1, 2));
    // An unbalanced bracket does not move the cursor.
    d.cursor_col = 4;
    assert!(!d.jump_to_match());
    assert_eq!((d.cursor_line, d.cursor_col), (1, 4));
}

#[test]
fn find_next_takes_the_first_match_after_the_cursor() {
    // The cursor's own match and what precedes it come last.
    let mut d = doc("ab ab\nab");
    d.cursor_col = 3;
    assert!(d.find_next("ab"));
    assert_eq!((d.cursor_line, d.cursor_col), (1, 0));
    assert!(d.find_next("ab"));
    assert_eq!((d.cursor_line, d.cursor_col), (0, 0));
    assert!(d.find_next("ab"));
    assert_eq!((d.cursor_line, d.cursor_col), (0, 3));
    assert_eq!(lines(&d), vec!["ab ab", "ab"]);
}

#[test]
fn backspace_takes_back_a_line_break() {
    let mut d = doc("héllo world");
    d.cursor_col = 5;
    d.insert_newline();
    assert_eq!(lines(&d), vec!["héllo", " world"]);
    d.backspace();
    assert_eq!(lines(&d), vec!["héllo world"]);
    assert_eq!((d.cursor_line, d.cursor_col), (0, 5));
}

#[test]
fn move_down_by_any_count_stops_at_the_last_line() {
    let mut d = doc("ab\nc\ndef");
    d.cursor_col = 2;
    d.move_down(usize::MAX);
    assert_eq!((d.cursor_line, d.cursor_col), (2, 2));
    d.move_down(usize::MAX);
    assert_eq!(d.cursor_line, 2);
    assert_eq!(lines(&d), vec!["ab", "c", "def"]);
    assert!(!d.dirty);
}
