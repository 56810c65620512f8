//! Build-time compiler for lexer rule tables.
//!
//! A rule table lists the rules of a lexer in order of priority. This crate reconciles the
//! token identifiers of such a table with those of an outside scheme, most often a parser's,
//! renders the table as a Rust module, and decides whether the module has to be written out.

pub mod compile;
pub mod idmap;
pub mod laws;
pub mod lexer;
pub mod names;
pub mod render;
pub mod text;
pub mod tokid;
pub mod writer;

pub use compile::{compile, module_name, reconcile, Compiled};
pub use idmap::RuleIdMap;
pub use lexer::{LexerDef, Rule};
pub use names::NameSet;
pub use render::render;
pub use tokid::TokenId;
pub use writer::{write_action, WriteAction};
