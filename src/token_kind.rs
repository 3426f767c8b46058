use vstd::prelude::*;

verus! {

/// The kind of a raw token produced by the lexer.
#[derive(Debug, Clone, Copy, PartialEq, Eq, Structural, Hash)]
pub enum TokenKind {
    Unknown,
    Whitespace,
    BlockComment { is_terminated: bool },
    LineComment,
    String { is_terminated: bool },
    Ident,
    Fn,
    OpenParen,
    CloseParen,
    OpenBrace,
    CloseBrace,
    GreaterThan,
    Minus,
}

} // verus!
