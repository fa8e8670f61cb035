//! A verified core of a POSIX shell interpreter and a few companion
//! utilities: word expansion and field splitting, redirection tables,
//! environment scoping, control-flow state, a C tokenizer, a lex-input
//! parser, and the `tr` and `cut` text filters.

pub mod c99;
pub mod command;
pub mod control_flow;
pub mod cut;
pub mod environment;
pub mod expansion;
pub mod lexinfo;
pub mod pattern;
pub mod shell;
pub mod strings;
pub mod tr;
pub mod wordexp;
