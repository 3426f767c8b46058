use vstd::prelude::*;

use crate::token_kind::TokenKind;

verus! {

/// A raw token: its kind and the slice of source text it covers.
pub struct Token<'a> {
    kind: TokenKind,
    text: &'a str,
}

impl<'a> View for Token<'a> {
    type V = (TokenKind, Seq<char>);

    closed spec fn view(&self) -> (TokenKind, Seq<char>) {
        (self.kind, self.text@)
    }
}

impl<'a> Token<'a> {
    pub fn new(kind: TokenKind, text: &'a str) -> (r: Self)
        ensures
            r@ == (kind, text@),
    {
        Token { kind, text }
    }

    pub fn kind(&self) -> (r: TokenKind)
        ensures
            r == self@.0,
    {
        self.kind
    }

    pub fn text(&self) -> (r: &'a str)
        ensures
            r@ == self@.1,
    {
        self.text
    }
}

} // verus!
