use vstd::prelude::*;
use vstd::string::{StrSliceExecFns, StringExecFns};

use crate::lexer::{lex, tokenize};
use crate::token::Token;
use crate::token_kind::TokenKind;

verus! {

/// What `char::is_uppercase` answers for a character (the Unicode
/// `Uppercase` property).
pub uninterp spec fn upper_case(c: char) -> bool;

/// Relies on `char::is_uppercase`: whether `c` has the Unicode `Uppercase`
/// property, a fact of the character alone.
#[verifier::external_body]
fn is_uppercase(c: char) -> (r: bool)
    ensures
        r == upper_case(c),
{
    c.is_uppercase()
}

/// A presentation class for a token.
#[derive(Debug, Clone, Copy, PartialEq, Eq, Structural)]
pub enum Class {
    Comment,
    String,
    Variable,
    Type,
    Keyword,
    Pair,
    Invalid,
    Other,
}

/// The class of a token of kind `k` and text `text`; an identifier that
/// starts with an uppercase letter names a type.
pub open spec fn class_of(k: TokenKind, text: Seq<char>) -> Class {
    match k {
        TokenKind::LineComment | TokenKind::BlockComment { .. } => Class::Comment,
        TokenKind::String { .. } => Class::String,
        TokenKind::Ident => if text.len() > 0 && upper_case(text[0]) {
            Class::Type
        } else {
            Class::Variable
        },
        TokenKind::Fn => Class::Keyword,
        TokenKind::OpenParen | TokenKind::CloseParen | TokenKind::OpenBrace
        | TokenKind::CloseBrace => Class::Pair,
        TokenKind::Whitespace | TokenKind::GreaterThan | TokenKind::Minus => Class::Other,
        TokenKind::Unknown => Class::Invalid,
    }
}

/// The style name of a class.
pub open spec fn class_name(c: Class) -> Seq<char> {
    match c {
        Class::Comment => "t-comment"@,
        Class::String => "t-string"@,
        Class::Variable => "t-variable"@,
        Class::Type => "t-type"@,
        Class::Keyword => "t-keyword"@,
        Class::Pair => "t-pair"@,
        Class::Invalid => "t-invalid"@,
        Class::Other => "t-other"@,
    }
}

impl Class {
    /// The style name of this class.
    pub fn to_string(&self) -> (r: String)
        ensures
            r@ == class_name(*self),
    {
        let name = match self {
            Class::Comment => "t-comment",
            Class::String => "t-string",
            Class::Variable => "t-variable",
            Class::Type => "t-type",
            Class::Keyword => "t-keyword",
            Class::Pair => "t-pair",
            Class::Invalid => "t-invalid",
            Class::Other => "t-other",
        };
        String::from_str(name)
    }
}

/// The presentation class of a token.
pub fn class_for_token(token: &Token) -> (r: Class)
    ensures
        r == class_of(token@.0, token@.1),
{
    match token.kind() {
        TokenKind::LineComment | TokenKind::BlockComment { .. } => Class::Comment,
        TokenKind::String { .. } => Class::String,
        TokenKind::Ident => {
            let text = token.text();
            if text.unicode_len() > 0 && is_uppercase(text.get_char(0)) {
                Class::Type
            } else {
                Class::Variable
            }
        },
        TokenKind::Fn => Class::Keyword,
        TokenKind::OpenParen | TokenKind::CloseParen | TokenKind::OpenBrace
        | TokenKind::CloseBrace => Class::Pair,
        TokenKind::Whitespace | TokenKind::GreaterThan | TokenKind::Minus => Class::Other,
        TokenKind::Unknown => Class::Invalid,
    }
}

/// A token's text with the style name of its class.
pub struct StyledToken {
    pub text: String,
    pub class: String,
}

/// The tokens of `source`, each with the style name of its class.
pub fn styled_tokens(source: &str) -> (r: Vec<StyledToken>)
    ensures
        r@.len() == lex(source@).len(),
        forall|i: int|
            0 <= i < r@.len() ==> {
                &&& (#[trigger] r@[i]).text@ == lex(source@)[i].1
                &&& r@[i].class@ == class_name(class_of(lex(source@)[i].0, lex(source@)[i].1))
            },
{
    let tokens = tokenize(source);
    let ghost ts = lex(source@);
    assert(tokens@.len() == ts.len());
    let mut out: Vec<StyledToken> = Vec::new();
    let mut i: usize = 0;
    while i < tokens.len()
        invariant
            i <= tokens@.len(),
            ts == lex(source@),
            tokens@.map_values(|t: Token| t@) == ts,
            out@.len() == i,
            forall|j: int|
                0 <= j < i ==> {
                    &&& (#[trigger] out@[j]).text@ == ts[j].1
                    &&& out@[j].class@ == class_name(class_of(ts[j].0, ts[j].1))
                },
        decreases tokens@.len() - i,
    {
        let token = &tokens[i];
        assert(token@ == ts[i as int]);
        let class = class_for_token(token).to_string();
        let text = String::from_str(token.text());
        out.push(StyledToken { text, class });
        i = i + 1;
    }
    out
}

} // verus!
