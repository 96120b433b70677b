//! A small C-flavoured scripting language: tokenizer, precedence-climbing
//! parser, syntax tree, and a tree-walking evaluator over an arena of
//! lexical scopes. Every function is verified against a mathematical model
//! of what it computes.

pub mod text;
pub mod token;
pub mod ast;
pub mod parser;
pub mod stdlib;
pub mod env;
pub mod interpreter;
