//! Erlang source linter: preprocessing driver, lint rules, `-elint_expect`
//! suppression and diagnostic rendering.

pub mod lex;
pub mod span;
pub mod syntax;
pub mod pp;
pub mod text;
pub mod context;
pub mod rules;
pub mod error;
pub mod expect;
pub mod diagnostic;
pub mod item;
pub mod grammar;
pub mod parse;
pub mod token;
pub mod ast_expr;
pub mod rule;
pub mod lint;
pub mod fs;
pub mod command_parse;
