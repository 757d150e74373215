use vstd::prelude::*;

verus! {

/// The closed set of lexical categories a token can carry.
#[derive(Clone, Copy, PartialEq, Eq, Structural, Debug)]
pub enum TokenType {
    Illegal,
    EOF,
    Ident,
    Int,
    Assign,
    Plus,
    Comma,
    Semicolon,
    LParen,
    RParen,
    LBrace,
    RBrace,
    Function,
    Let,
}

/// A token: a category together with the exact source text it was scanned from.
/// For punctuation the text is a single character; for identifiers, keywords
/// and integers it is the whole matched run.
#[derive(Debug, PartialEq)]
pub struct Token(pub TokenType, pub Vec<char>);

/// The mathematical image of a token: its category and its literal text as a
/// sequence of characters.
pub ghost struct SpecToken {
    pub kind: TokenType,
    pub text: Seq<char>,
}

impl View for Token {
    type V = SpecToken;

    open spec fn view(&self) -> SpecToken {
        SpecToken { kind: self.0, text: self.1@ }
    }
}

impl DeepView for Token {
    type V = SpecToken;

    open spec fn deep_view(&self) -> SpecToken {
        self@
    }
}

} // verus!
