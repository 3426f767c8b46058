//! Front end of the Rue language: a lexer, a syntax-kind registry, and an
//! error-tolerant parser driver that builds a lossless green tree.

pub mod token_kind;
pub mod token;
pub mod lexer;
pub mod syntax_kind;
pub mod tree;
pub mod parser;
pub mod program;
pub mod parse;
pub mod highlight;
