//! Front end of the Fire language: a lexer that turns source text into
//! classified tokens and a parser that turns the token stream into an
//! abstract syntax tree of expressions and statements.
//!
//! Every function is verified against a contract stated over
//! mathematical models of the source text and of the values produced:
//! `lexer::token_at` says which token begins at a position of the
//! source, and the functions of `grammar` say which expression or
//! statement the tokens from a position on stand for.

pub mod ast;
pub mod chars;
pub mod error_generator;
pub mod grammar;
pub mod lexer;
pub mod literal;
pub mod parser;
pub mod token;
pub mod tree;
pub mod unescape;
