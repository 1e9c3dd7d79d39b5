# ink

Ink is a small, keyboard-driven terminal text editor with a compact command
language, a colour theme read from `~/.inkrc`, and plugins written in Rhai.

The editing logic is a library verified with Verus: each public function
states what it does in `requires` / `ensures` over mathematical models
(`Seq<char>` for text, views of documents and the editor), and the laws of
the library (undo reverts an edit, a repeated command runs its body the
given number of times, a closed buffer keeps no key bindings or timers, ...)
are public proof functions.

## Layout

- `src/` — the verified library
  - `text.rs`, `text_ops.rs` — characters, strings, grapheme clusters, and
    the pure line edits
  - `document/` — the text buffer with cursor, undo and redo (`model.rs`
    holds the specification, `laws.rs` the laws, `brackets.rs` the law of
    bracket matching read along the text)
  - `editor.rs` — the open documents, the active one, key handling and the
    command history
  - `command/` — the command language: syntax tree, parser, commands,
    help text and the executor that runs a program step by step
  - `warn.rs` — the timed warning popup
  - `clipboard.rs` — base64 and the OSC 52 escape sequence
  - `config.rs`, `path.rs` — the theme file and path handling
  - `terminal.rs`, `ui.rs` — what is drawn on screen, and the command bar's
    keys
  - `plugin/` — key maps, change callbacks, commands and timers that
    plugins register
- `app/` — the program around the library: terminal I/O, files, the system
  clipboard, the Rhai engine and the command-line interface
- `tests/` — tests of the library on concrete values
