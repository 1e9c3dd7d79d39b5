//! Ink: a small keyboard-driven text editor, as a verified library.
//!
//! The library holds the editor's model (documents, the set of open
//! buffers, the command language and its execution) together with the
//! pure parts of rendering, configuration and clipboard handling.
//! Terminal, file and process I/O stay with the program that drives it.

pub mod text;
pub mod text_ops;
pub mod document;
pub mod editor;
pub mod command;
pub mod warn;
pub mod clipboard;
pub mod config;
pub mod path;
pub mod terminal;
pub mod plugin;
pub mod ui;
