use ink::command::ast::{Arg, MotionDir, Node};
use ink::command::commands::{CommandKind, Effect, ExecContext, Outcome, line_number, shell_text};
use ink::command::executor::{Executor, Step, help_text, run};
use ink::command::help::HELP;
use ink::command::parser::parse;
use ink::document::Document;
use ink::editor::Editor;
use ink::warn::WarnPopup;

fn cmd(letter: char, args: &[&str]) -> Node {
    Node::Command { letter, args: args.iter().map(|a| Arg::Plain(a.to_string())).collect() }
}

fn ctx(text: &str) -> ExecContext {
    let doc = Document::from_text("t.txt".to_string(), text.to_string());
    ExecContext { editor: Editor::new(doc), warn: WarnPopup::new(), should_quit: false, now_ns: 0 }
}

fn exec(c: &mut ExecContext, line: &str) -> Outcome {
    let nodes = parse(line).ok().unwrap();
    let mut ex = Executor::new(nodes);
    run(&mut ex, c)
}

fn warning(c: &ExecContext) -> Option<String> {
    c.warn.render_text()
}

#[test]
fn parses_the_help_examples() {
    assert_eq!(parse("e;file.txt;").ok().unwrap(), vec![cmd('e', &["file.txt"])]);
    assert_eq!(parse("g;42;").ok().unwrap(), vec![cmd('g', &["42"])]);
    assert_eq!(parse("x;ls -la;").ok().unwrap(), vec![cmd('x', &["ls -la"])]);
    assert_eq!(parse("q!").ok().unwrap(), vec![Node::Force { target: Box::new(cmd('q', &[])) }]);
    assert_eq!(parse("g;42;?").ok().unwrap(), vec![Node::Help { target: Box::new(cmd('g', &["42"])) }]);
    assert_eq!(
        parse("g;42;*5").ok().unwrap(),
        vec![Node::Repeat { target: Box::new(cmd('g', &["42"])), n: 5 }]
    );
}

#[test]
fn parses_motions_with_default_count() {
    assert_eq!(parse(">3").ok().unwrap(), vec![Node::Motion { dir: MotionDir::Up, n: 3 }]);
    assert_eq!(parse("<").ok().unwrap(), vec![Node::Motion { dir: MotionDir::Down, n: 1 }]);
}

#[test]
fn bare_question_mark_asks_for_general_help() {
    assert_eq!(parse("?").ok().unwrap(), vec![Node::Help { target: Box::new(Node::HelpRoot) }]);
}

#[test]
fn parses_literals_blocks_and_sequences() {
    assert_eq!(
        parse("R;\"a:b\":c;").ok().unwrap(),
        vec![Node::Command { letter: 'R', args: vec![Arg::Literal("a:b".to_string()), Arg::Plain("c".to_string())] }]
    );
    assert_eq!(
        parse(",uu,*2").ok().unwrap(),
        vec![Node::Repeat { target: Box::new(Node::Block { items: vec![cmd('u', &[]), cmd('u', &[])] }), n: 2 }]
    );
    assert_eq!(parse("s;;d").ok().unwrap(), vec![cmd('s', &[]), cmd('d', &[])]);
    assert_eq!(parse("").ok().unwrap(), vec![]);
}

#[test]
fn parse_errors_say_what_and_where() {
    let e = parse("1").err().unwrap();
    assert_eq!(e.position, 0);
    assert_eq!(e.message, "unexpected character '1'");
    assert_eq!(e.to_string(), "parse error at 0: unexpected character '1'");
    let e = parse("g;x").err().unwrap();
    assert_eq!((e.message.as_str(), e.position), ("unterminated argument list, expected ';'", 3));
    let e = parse("g*").err().unwrap();
    assert_eq!((e.message.as_str(), e.position), ("expected a number after '*'", 2));
    let e = parse(",,").err().unwrap();
    assert_eq!((e.message.as_str(), e.position), ("empty block", 2));
    let e = parse("g;\"ab").err().unwrap();
    assert_eq!((e.message.as_str(), e.position), ("unterminated literal argument, expected '\"'", 5));
    let e = parse("g;\"a\"x;").err().unwrap();
    assert_eq!((e.message.as_str(), e.position), ("unexpected 'x' in argument list", 5));
    let e = parse(">99999999999999999999999").err().unwrap();
    assert_eq!(e.message, "invalid motion count");
    let e = parse("g*99999999999999999999999").err().unwrap();
    assert_eq!(e.message, "invalid repeat count");
    let e = parse("g;1;").err();
    assert!(e.is_none());
}

#[test]
fn command_letters_and_help() {
    assert_eq!(CommandKind::from_char('g'), Some(CommandKind::Goto));
    assert_eq!(CommandKind::from_char('Q'), Some(CommandKind::Exit));
    assert_eq!(CommandKind::from_char('z'), None);
    assert_eq!(CommandKind::Undo.help(), "[u] undo");
    assert!(CommandKind::Yank.trigger_change());
    assert!(!CommandKind::Save.trigger_change());
}

#[test]
fn node_trigger_change_looks_inside() {
    let nodes = parse(",gy,*3").ok().unwrap();
    assert!(nodes[0].trigger_change());
    let nodes = parse("g;1;!").ok().unwrap();
    assert!(!nodes[0].trigger_change());
    assert!(!Node::HelpRoot.trigger_change());
}

#[test]
fn help_texts() {
    assert_eq!(help_text(&cmd('g', &[])), CommandKind::Goto.help());
    assert_eq!(help_text(&cmd('z', &[])), "no help available for 'z'");
    assert_eq!(help_text(&Node::Block { items: vec![cmd('a', &[]), Node::HelpRoot, cmd('b', &[])] }), "block: a, b");
    assert_eq!(help_text(&Node::Motion { dir: MotionDir::Up, n: 2 }), "move up N line(s)");
    assert_eq!(help_text(&Node::HelpRoot), HELP);
    assert_eq!(help_text(&Node::Force { target: Box::new(Node::HelpRoot) }), "no help available");
}

#[test]
fn executor_spells_out_repeats_and_forcing() {
    let nodes = parse(",a*2b,!").ok().unwrap();
    let mut ex = Executor::new(nodes);
    let mut letters = Vec::new();
    while let Some(step) = ex.next_step() {
        match step {
            Step::Command { letter, forced, .. } => letters.push((letter, forced)),
            _ => panic!("unexpected step"),
        }
    }
    assert_eq!(letters, vec![('a', true), ('a', true), ('b', true)]);
}

#[test]
fn goto_repeated_five_times() {
    let mut c = ctx("1\n2\n3\n4\n5\n6\n7");
    assert!(matches!(exec(&mut c, "g;42;*5"), Outcome::Done));
    assert_eq!(c.editor.doc().cursor_line, 6);
    exec(&mut c, "g;2;");
    assert_eq!(c.editor.doc().cursor_line, 1);
    exec(&mut c, "g;+4;");
    assert_eq!(c.editor.doc().cursor_line, 3);
}

#[test]
fn goto_named_positions_and_bad_argument() {
    let mut c = ctx("abc\nhello");
    exec(&mut c, "g;ef;");
    assert_eq!((c.editor.doc().cursor_line, c.editor.doc().cursor_col), (1, 5));
    exec(&mut c, "g;sl;");
    assert_eq!(c.editor.doc().cursor_col, 0);
    exec(&mut c, "g;el;");
    assert_eq!(c.editor.doc().cursor_col, 5);
    exec(&mut c, "g;sf;");
    assert_eq!((c.editor.doc().cursor_line, c.editor.doc().cursor_col), (0, 0));
    exec(&mut c, "g;x;");
    let ours = warning(&c);
    // The end of a line is counted in grapheme clusters, not bytes.
    let mut u = ctx("héllo\nnaïve café");
    exec(&mut u, "g;el;");
    assert_eq!(u.editor.doc().cursor_col, 5);
    exec(&mut u, "g;ef;");
    assert_eq!((u.editor.doc().cursor_line, u.editor.doc().cursor_col), (1, 10));
    assert_eq!(ours, Some("!warn: g requires a line number or position, g;N; / g;ef/sf; g;el/sl;".to_string()));
}

#[test]
fn line_numbers_read_like_usize_parse() {
    assert_eq!(line_number("42"), Some(42));
    assert_eq!(line_number("+7"), Some(7));
    assert_eq!(line_number("+"), None);
    assert_eq!(line_number("-1"), None);
    assert_eq!(line_number(""), None);
    assert_eq!(line_number("4a"), None);
    assert_eq!(line_number("99999999999999999999999"), None);
}

#[test]
fn motions_move_lines() {
    let mut c = ctx("a\nb\nc\nd");
    exec(&mut c, "<2");
    assert_eq!(c.editor.doc().cursor_line, 2);
    exec(&mut c, ">");
    assert_eq!(c.editor.doc().cursor_line, 1);
}

#[test]
fn question_mark_opens_the_help_page() {
    let mut c = ctx("x");
    exec(&mut c, "?");
    assert_eq!(c.editor.get_docs_len(), 2);
    let d = c.editor.doc();
    assert_eq!(d.path, Some("help".to_string()));
    assert!(d.read_only);
    assert!(!d.dirty);
    assert_eq!(d.lines[1], "INK - Help");
    exec(&mut c, "g?");
    assert_eq!(c.editor.doc().lines, vec![CommandKind::Goto.help().to_string()]);
}

#[test]
fn unknown_command_warns() {
    let mut c = ctx("x");
    c.now_ns = 5;
    exec(&mut c, "z");
    assert_eq!(warning(&c), Some("!warn: unknown command 'z'".to_string()));
}

#[test]
fn save_asks_for_a_write_and_finishes() {
    let mut c = ctx("a\nb");
    c.editor.doc_mut().insert_char('x');
    match exec(&mut c, "s") {
        Outcome::Effect(Effect::Write { id, path, contents }) => {
            assert_eq!((id, path.as_str(), contents.as_str()), (1, "t.txt", "xa\nb"));
            c.finish_write(id, Ok(()));
        }
        _ => panic!("expected a write"),
    }
    assert!(!c.editor.doc().dirty);
    c.finish_write(1, Err("disk full".to_string()));
    assert_eq!(warning(&c), Some("!warn: disk full".to_string()));
}

#[test]
fn save_without_path_or_read_only_warns() {
    let mut c = ExecContext { editor: Editor::new(Document::new_empty()), warn: WarnPopup::new(), should_quit: false, now_ns: 0 };
    assert!(matches!(exec(&mut c, "s"), Outcome::Done));
    assert_eq!(warning(&c), Some("!warn: no path associated with this document; use n to set one".to_string()));
    exec(&mut c, "n;new.txt;");
    c.editor.doc_mut().read_only = true;
    exec(&mut c, "s");
    assert_eq!(warning(&c), Some("!warn: document is read-only (use s! to override)".to_string()));
    assert!(matches!(exec(&mut c, "s!"), Outcome::Effect(Effect::Write { .. })));
    assert!(!c.editor.doc().read_only);
}

#[test]
fn quit_checks_unsaved_changes() {
    let mut c = ctx("x");
    c.editor.doc_mut().insert_char('y');
    exec(&mut c, "q");
    assert_eq!(warning(&c), Some("!warn: unsaved changes. use q! to force quit".to_string()));
    assert_eq!(c.editor.get_docs_len(), 1);
    exec(&mut c, "q!");
    assert_eq!(c.editor.get_docs_len(), 0);
    assert!(c.should_quit);
}

#[test]
fn exit_checks_every_document() {
    let mut c = ctx("x");
    c.editor.doc_mut().insert_char('y');
    c.editor.open(Document::new_empty());
    exec(&mut c, "Q");
    assert_eq!(warning(&c), Some("!warn: unsaved changes in a file. use Q! to force quit".to_string()));
    assert!(!c.should_quit);
    exec(&mut c, "Q!");
    assert!(c.should_quit);
}

#[test]
fn commands_halt_without_a_document() {
    let mut c = ctx("x");
    exec(&mut c, "q");
    assert!(matches!(exec(&mut c, "u"), Outcome::Halted));
    assert!(matches!(exec(&mut c, "<"), Outcome::Halted));
    assert!(matches!(exec(&mut c, "e"), Outcome::Done));
    assert_eq!(c.editor.get_docs_len(), 1);
}

#[test]
fn shell_command_runs_without_a_document() {
    let mut c = ctx("x");
    exec(&mut c, "q");
    assert_eq!(c.editor.get_docs_len(), 0);
    match exec(&mut c, "x;echo hi;") {
        Outcome::Effect(Effect::Shell { command }) => assert_eq!(command, "echo hi"),
        _ => panic!("expected a shell command"),
    }
    c.finish_shell(Ok(("hi\n".to_string(), String::new())));
    assert_eq!(c.editor.get_docs_len(), 1);
    assert!(c.editor.doc().read_only);
    assert_eq!(c.editor.doc().lines, vec!["hi".to_string()]);
}

#[test]
fn edit_opens_files_through_the_program() {
    let mut c = ctx("x");
    match exec(&mut c, "e;notes.md;") {
        Outcome::Effect(Effect::Open { path }) => {
            assert_eq!(path, "notes.md");
            assert!(matches!(c.finish_open(path, "one\ntwo\n".to_string(), false), Outcome::Done));
        }
        _ => panic!("expected an open"),
    }
    assert_eq!(c.editor.doc().lines, vec!["one".to_string(), "two".to_string()]);
    assert_eq!(c.editor.active_id(), 2);
    exec(&mut c, "e");
    assert_eq!(c.editor.get_docs_len(), 3);
}

#[test]
fn execute_opens_output_read_only() {
    let mut c = ctx("x");
    match exec(&mut c, "x;echo hi;") {
        Outcome::Effect(Effect::Shell { command }) => assert_eq!(command, "echo hi"),
        _ => panic!("expected a shell command"),
    }
    c.finish_shell(Ok(("out".to_string(), "err".to_string())));
    let d = c.editor.doc();
    assert_eq!(d.lines, vec!["out".to_string(), "err".to_string()]);
    assert!(d.read_only);
    assert_eq!(d.path, Some("out".to_string()));
    let n = c.editor.get_docs_len();
    c.finish_shell(Ok((String::new(), String::new())));
    assert_eq!(c.editor.get_docs_len(), n);
    c.finish_shell(Err("no such file".to_string()));
    assert_eq!(warning(&c), Some("!warn: failed to run command: no such file".to_string()));
    exec(&mut c, "x");
    assert_eq!(warning(&c), Some("!warn: x requires a command, e.g. x;cargo check;".to_string()));
}

#[test]
fn shell_output_joins_stdout_and_stderr() {
    assert_eq!(shell_text("a", "b"), "a\nb");
    assert_eq!(shell_text("a\n", "b"), "a\nb");
    assert_eq!(shell_text("", "b"), "b");
    assert_eq!(shell_text("a", ""), "a");
}

#[test]
fn copy_and_paste_go_through_the_clipboard() {
    let mut c = ctx("first\nsecond");
    match exec(&mut c, "c") {
        Outcome::Effect(Effect::Copy { text }) => assert_eq!(text, "first"),
        _ => panic!("expected a copy"),
    }
    c.finish_copy(Err("no clipboard".to_string()));
    assert_eq!(warning(&c), Some("!warn: no clipboard".to_string()));
    assert!(matches!(exec(&mut c, "p"), Outcome::Effect(Effect::Paste)));
    assert!(matches!(c.finish_paste(Ok("ab\ncd".to_string())), Outcome::Done));
    assert_eq!(c.editor.doc().lines[0], "ab");
    assert_eq!(c.editor.doc().lines[1], "cdfirst");
}

#[test]
fn find_and_replace_commands() {
    let mut c = ctx("abc abc");
    exec(&mut c, "f;abc;");
    assert_eq!(c.editor.doc().cursor_col, 4);
    exec(&mut c, "f;zz;");
    assert_eq!(warning(&c), Some("!warn: not found: zz".to_string()));
    exec(&mut c, "f");
    assert_eq!(warning(&c), Some("!warn: f requires a search term, e.g. f;needle;".to_string()));
    exec(&mut c, "R;abc:X;");
    assert_eq!(c.editor.doc().lines, vec!["X abc".to_string()]);
    exec(&mut c, "R;abc;");
    assert_eq!(warning(&c), Some("!warn: R requires two arguments, e.g. R;needle:replacement;".to_string()));
    exec(&mut c, "R;qq:r;");
    assert_eq!(warning(&c), Some("!warn: not found: qq".to_string()));
}

#[test]
fn editing_commands() {
    let mut c = ctx("(hello)");
    exec(&mut c, "m");
    assert_eq!(c.editor.doc().cursor_col, 6);
    exec(&mut c, "g;sl;y");
    assert_eq!(c.editor.doc().lines.len(), 2);
    exec(&mut c, "g;1;<d");
    assert_eq!(c.editor.doc().lines, vec!["(hello)".to_string(), "".to_string()]);
    exec(&mut c, "u");
    assert_eq!(c.editor.doc().lines.len(), 2);
    exec(&mut c, "u");
    assert_eq!(c.editor.doc().lines.len(), 1);
    exec(&mut c, "r");
    assert_eq!(c.editor.doc().lines.len(), 2);
}

#[test]
fn file_switching_and_naming() {
    let mut c = ctx("x");
    c.editor.open(Document::new_empty());
    exec(&mut c, "A");
    assert_eq!(c.editor.active_id(), 1);
    exec(&mut c, "D");
    assert_eq!(c.editor.active_id(), 2);
    exec(&mut c, "n;b.txt;");
    assert_eq!(c.editor.doc().path, Some("b.txt".to_string()));
    exec(&mut c, "n");
    assert_eq!(warning(&c), Some("!warn: n requires a filename, e.g. n;file.txt;".to_string()));
}

#[test]
fn run_stops_at_an_effect_and_resumes() {
    let mut c = ctx("a\nb\nc");
    let nodes = parse("<s<").ok().unwrap();
    let mut ex = Executor::new(nodes);
    assert!(matches!(run(&mut ex, &mut c), Outcome::Effect(Effect::Write { .. })));
    assert_eq!(c.editor.doc().cursor_line, 1);
    assert!(matches!(run(&mut ex, &mut c), Outcome::Done));
    assert_eq!(c.editor.doc().cursor_line, 2);
}

#[test]
fn parse_positions_stay_in_the_input() {
    assert_eq!(parse("").ok().unwrap().len(), 0);
    assert_eq!(parse("u").ok().unwrap().len(), 1);
    for input in ["g;x", "g*", ",,", "g;\"ab", "1", "g;a:", ",g"] {
        if let Err(e) = parse(input) {
            assert!(e.position <= input.chars().count(), "{input}");
        }
    }
}

#[test]
fn a_repeat_is_that_many_runs_of_its_target() {
    let mut once = ctx("1\n2\n3\n4\n5\n6\n7");
    exec(&mut once, "<2");
    exec(&mut once, "<2");
    exec(&mut once, "<2");
    let mut repeated = ctx("1\n2\n3\n4\n5\n6\n7");
    exec(&mut repeated, "<2*3");
    assert_eq!(repeated.editor.doc().cursor_line, once.editor.doc().cursor_line);
    assert_eq!(repeated.editor.doc().cursor_line, 6);
}

#[test]
fn change_trigger_looks_for_an_editing_command() {
    let p = |s: &str| parse(s).ok().unwrap();
    assert!(p(",fR;a:b;,").iter().any(|n| n.trigger_change()));
    assert!(!p(",f;a;g;1;,*3").iter().any(|n| n.trigger_change()));
    assert!(p("u?").iter().any(|n| n.trigger_change()));
}

#[test]
fn the_largest_motion_count_moves_to_the_last_line() {
    let mut c = ctx("1\n2\n3");
    exec(&mut c, "<2");
    assert!(matches!(exec(&mut c, "<18446744073709551615"), Outcome::Done));
    assert_eq!(c.editor.doc().cursor_line, 2);
}
