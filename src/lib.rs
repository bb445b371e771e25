//! A scoped variable store and the command-dispatch decisions of an interactive shell.
pub mod color;
pub mod completer;
pub mod expand;
pub mod guard;
pub mod hex;
pub mod shell;
pub mod status;
pub mod text;
pub mod value;
pub mod variables;
