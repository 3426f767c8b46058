use vstd::prelude::*;

verus! {

/// One tag set for both tokens and tree nodes.
#[derive(Debug, Clone, Copy, PartialEq, Eq, Structural, PartialOrd, Ord, Hash)]
pub enum SyntaxKind {
    Eof,
    Error,
    Whitespace,
    BlockComment,
    LineComment,
    String,
    Ident,
    Fn,
    OpenParen,
    CloseParen,
    OpenBrace,
    CloseBrace,
    GreaterThan,
    Minus,
    Program,
}

/// The number of syntax kinds; their codes are `0..KIND_COUNT`.
pub const KIND_COUNT: u16 = 15;

/// The compact integer code of a kind, in declaration order.
pub open spec fn kind_code(k: SyntaxKind) -> u16 {
    match k {
        SyntaxKind::Eof => 0,
        SyntaxKind::Error => 1,
        SyntaxKind::Whitespace => 2,
        SyntaxKind::BlockComment => 3,
        SyntaxKind::LineComment => 4,
        SyntaxKind::String => 5,
        SyntaxKind::Ident => 6,
        SyntaxKind::Fn => 7,
        SyntaxKind::OpenParen => 8,
        SyntaxKind::CloseParen => 9,
        SyntaxKind::OpenBrace => 10,
        SyntaxKind::CloseBrace => 11,
        SyntaxKind::GreaterThan => 12,
        SyntaxKind::Minus => 13,
        SyntaxKind::Program => 14,
    }
}

/// The kind whose code is `raw` (for `raw < KIND_COUNT`).
pub open spec fn kind_of_code(raw: u16) -> SyntaxKind {
    if raw == 0 {
        SyntaxKind::Eof
    } else if raw == 1 {
        SyntaxKind::Error
    } else if raw == 2 {
        SyntaxKind::Whitespace
    } else if raw == 3 {
        SyntaxKind::BlockComment
    } else if raw == 4 {
        SyntaxKind::LineComment
    } else if raw == 5 {
        SyntaxKind::String
    } else if raw == 6 {
        SyntaxKind::Ident
    } else if raw == 7 {
        SyntaxKind::Fn
    } else if raw == 8 {
        SyntaxKind::OpenParen
    } else if raw == 9 {
        SyntaxKind::CloseParen
    } else if raw == 10 {
        SyntaxKind::OpenBrace
    } else if raw == 11 {
        SyntaxKind::CloseBrace
    } else if raw == 12 {
        SyntaxKind::GreaterThan
    } else if raw == 13 {
        SyntaxKind::Minus
    } else {
        SyntaxKind::Program
    }
}

/// Whitespace and comments: kept in the tree, skipped by grammar dispatch.
pub open spec fn trivia(k: SyntaxKind) -> bool {
    k == SyntaxKind::Whitespace || k == SyntaxKind::BlockComment || k == SyntaxKind::LineComment
}

/// The variant's name, as diagnostics print it.
pub open spec fn kind_name(k: SyntaxKind) -> Seq<char> {
    match k {
        SyntaxKind::Eof => "Eof"@,
        SyntaxKind::Error => "Error"@,
        SyntaxKind::Whitespace => "Whitespace"@,
        SyntaxKind::BlockComment => "BlockComment"@,
        SyntaxKind::LineComment => "LineComment"@,
        SyntaxKind::String => "String"@,
        SyntaxKind::Ident => "Ident"@,
        SyntaxKind::Fn => "Fn"@,
        SyntaxKind::OpenParen => "OpenParen"@,
        SyntaxKind::CloseParen => "CloseParen"@,
        SyntaxKind::OpenBrace => "OpenBrace"@,
        SyntaxKind::CloseBrace => "CloseBrace"@,
        SyntaxKind::GreaterThan => "GreaterThan"@,
        SyntaxKind::Minus => "Minus"@,
        SyntaxKind::Program => "Program"@,
    }
}

impl SyntaxKind {
    pub fn is_trivia(self) -> (r: bool)
        ensures
            r == trivia(self),
    {
        matches!(self, SyntaxKind::Whitespace | SyntaxKind::BlockComment | SyntaxKind::LineComment)
    }

    /// The variant's name.
    pub fn name(self) -> (r: &'static str)
        ensures
            r@ == kind_name(self),
    {
        match self {
            SyntaxKind::Eof => "Eof",
            SyntaxKind::Error => "Error",
            SyntaxKind::Whitespace => "Whitespace",
            SyntaxKind::BlockComment => "BlockComment",
            SyntaxKind::LineComment => "LineComment",
            SyntaxKind::String => "String",
            SyntaxKind::Ident => "Ident",
            SyntaxKind::Fn => "Fn",
            SyntaxKind::OpenParen => "OpenParen",
            SyntaxKind::CloseParen => "CloseParen",
            SyntaxKind::OpenBrace => "OpenBrace",
            SyntaxKind::CloseBrace => "CloseBrace",
            SyntaxKind::GreaterThan => "GreaterThan",
            SyntaxKind::Minus => "Minus",
            SyntaxKind::Program => "Program",
        }
    }
}

impl Default for SyntaxKind {
    fn default() -> (r: Self)
        ensures
            r == SyntaxKind::Eof,
    {
        SyntaxKind::Eof
    }
}

/// The language tag that ties syntax kinds to their integer codes. Verified
/// code cannot implement an outside trait such as rowan's `Language`, so a
/// caller that wants rowan's positioned view implements it over
/// `kind_from_raw` and `kind_to_raw`.
#[derive(Debug, Clone, Copy, PartialEq, Eq, PartialOrd, Ord, Hash)]
pub struct RueLang;

impl RueLang {
    /// The kind whose code is `raw`; every code below `KIND_COUNT` has one.
    pub fn kind_from_raw(raw: u16) -> (r: SyntaxKind)
        requires
            raw < KIND_COUNT,
        ensures
            r == kind_of_code(raw),
    {
        match raw {
            0 => SyntaxKind::Eof,
            1 => SyntaxKind::Error,
            2 => SyntaxKind::Whitespace,
            3 => SyntaxKind::BlockComment,
            4 => SyntaxKind::LineComment,
            5 => SyntaxKind::String,
            6 => SyntaxKind::Ident,
            7 => SyntaxKind::Fn,
            8 => SyntaxKind::OpenParen,
            9 => SyntaxKind::CloseParen,
            10 => SyntaxKind::OpenBrace,
            11 => SyntaxKind::CloseBrace,
            12 => SyntaxKind::GreaterThan,
            13 => SyntaxKind::Minus,
            _ => SyntaxKind::Program,
        }
    }

    /// The integer code of `kind`.
    pub fn kind_to_raw(kind: SyntaxKind) -> (r: u16)
        ensures
            r == kind_code(kind),
            r < KIND_COUNT,
    {
        match kind {
            SyntaxKind::Eof => 0,
            SyntaxKind::Error => 1,
            SyntaxKind::Whitespace => 2,
            SyntaxKind::BlockComment => 3,
            SyntaxKind::LineComment => 4,
            SyntaxKind::String => 5,
            SyntaxKind::Ident => 6,
            SyntaxKind::Fn => 7,
            SyntaxKind::OpenParen => 8,
            SyntaxKind::CloseParen => 9,
            SyntaxKind::OpenBrace => 10,
            SyntaxKind::CloseBrace => 11,
            SyntaxKind::GreaterThan => 12,
            SyntaxKind::Minus => 13,
            SyntaxKind::Program => 14,
        }
    }
}

/// Kind bijection: every kind maps to a code below `KIND_COUNT` and back, and
/// every such code maps to a kind and back.
pub proof fn lemma_kind_code_bijection()
    ensures
        forall|k: SyntaxKind| #[trigger] kind_code(k) < KIND_COUNT && kind_of_code(kind_code(k)) == k,
        forall|raw: u16| raw < KIND_COUNT ==> kind_code(#[trigger] kind_of_code(raw)) == raw,
{
}

} // verus!
