//! The engine of a line-oriented hex editor: hex text, the line buffer and its
//! dump, command suggestions and the command interpreter.

pub mod codec;
pub mod fuzzy;
pub mod keys;
pub mod args;
pub mod buffer;
pub mod command;
pub mod laws;
