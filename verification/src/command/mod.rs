//! The command language: syntax, parser, command behaviour and execution.

pub mod ast;
pub mod commands;
pub mod executor;
pub mod help;
pub mod parser;
