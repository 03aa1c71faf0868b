//! A Unix-like shell engine with its contracts proved: the tokenizer and
//! parser of the shell language, variable expansion, the decisions of the
//! evaluator and of the builtins, stream buffering and pipes, the mount table
//! of a layered filesystem, the terminal's keyboard model and line editor,
//! and the text filters of the userland.

pub mod ansi;
pub mod builtins;
pub mod completion;
pub mod context;
pub mod cowsay;
pub mod dispatch;
pub mod echo;
pub mod error;
pub mod exit_code;
pub mod expand;
pub mod filters;
pub mod fortune;
pub mod iter;
pub mod keyboard;
pub mod lexer;
pub mod mounts;
pub mod options;
pub mod parser;
pub mod prompt;
pub mod readline;
pub mod script;
pub mod shell;
pub mod sort;
pub mod streams;
pub mod test_cmd;
pub mod text;
pub mod tokens;
pub mod vars;
