//! A lexical scanner for a small programming language: it turns source text
//! into a sequence of typed tokens — punctuation, identifiers, the keywords
//! `fn` and `let`, integer literals — eliding whitespace and tagging every
//! unrecognized byte as an Illegal token. The scanning relation is stated as
//! mathematics in `lexer`, the scanner is proved against it, and `laws` holds
//! the proved properties of the relation itself.

pub mod laws;
pub mod lexer;
pub mod token;
