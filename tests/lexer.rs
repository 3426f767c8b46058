use rue::lexer::{tokenize, Lexer};
use rue::token::Token;
use rue::token_kind::TokenKind;

fn kinds(source: &str) -> Vec<TokenKind> {
    let mut lexer = Lexer::new(source);
    let mut out = Vec::new();
    while let Some(token) = lexer.next() {
        out.push(token.kind());
    }
    out
}

fn check(source: &str, expected: &[TokenKind]) {
    assert_eq!(kinds(source), expected);
}

fn texts(source: &str) -> Vec<(TokenKind, String)> {
    tokenize(source)
        .iter()
        .map(|t: &Token| (t.kind(), t.text().to_string()))
        .collect()
}

#[test]
fn test_whitespace() {
    check("    ", &[TokenKind::Whitespace]);
    check("\n\t", &[TokenKind::Whitespace]);
    check("\r\n", &[TokenKind::Whitespace]);
    check(" ", &[TokenKind::Whitespace]);
}

#[test]
fn test_ident() {
    check("hello", &[TokenKind::Ident]);
    check(
        "Hi There",
        &[TokenKind::Ident, TokenKind::Whitespace, TokenKind::Ident],
    );
    check("with_underscore_and_numb3r", &[TokenKind::Ident]);
}

#[test]
fn test_unknown() {
    check("\\", &[TokenKind::Unknown]);
    check(
        "    \\\t",
        &[
            TokenKind::Whitespace,
            TokenKind::Unknown,
            TokenKind::Whitespace,
        ],
    );
}

#[test]
fn empty_input_has_no_tokens() {
    assert!(tokenize("").is_empty());
    let mut lexer = Lexer::new("");
    assert!(lexer.next().is_none());
}

#[test]
fn keyword_and_near_misses() {
    check("fn", &[TokenKind::Fn]);
    check("fn2", &[TokenKind::Ident]);
    check("Fn", &[TokenKind::Ident]);
    check("_fn", &[TokenKind::Ident]);
    check("f", &[TokenKind::Ident]);
}

#[test]
fn whitespace_unknown_whitespace_texts() {
    assert_eq!(
        texts("    \\\t"),
        vec![
            (TokenKind::Whitespace, "    ".to_string()),
            (TokenKind::Unknown, "\\".to_string()),
            (TokenKind::Whitespace, "\t".to_string()),
        ]
    );
}

#[test]
fn comments_and_newlines() {
    assert_eq!(
        texts("// Line comment\n/* Block comment */\n"),
        vec![
            (TokenKind::LineComment, "// Line comment".to_string()),
            (TokenKind::Whitespace, "\n".to_string()),
            (
                TokenKind::BlockComment { is_terminated: true },
                "/* Block comment */".to_string()
            ),
            (TokenKind::Whitespace, "\n".to_string()),
        ]
    );
}

#[test]
fn unterminated_block_comment() {
    assert_eq!(
        texts("/* open"),
        vec![(
            TokenKind::BlockComment { is_terminated: false },
            "/* open".to_string()
        )]
    );
}

#[test]
fn unterminated_string_after_ident() {
    assert_eq!(
        texts("hi\"unterminated"),
        vec![
            (TokenKind::Ident, "hi".to_string()),
            (
                TokenKind::String { is_terminated: false },
                "\"unterminated".to_string()
            ),
        ]
    );
}

#[test]
fn strings_close_on_matching_quote() {
    assert_eq!(
        texts("'a\"b' \"c\""),
        vec![
            (TokenKind::String { is_terminated: true }, "'a\"b'".to_string()),
            (TokenKind::Whitespace, " ".to_string()),
            (TokenKind::String { is_terminated: true }, "\"c\"".to_string()),
        ]
    );
}

#[test]
fn punctuation_and_lone_slash() {
    check(
        "(){}->/",
        &[
            TokenKind::OpenParen,
            TokenKind::CloseParen,
            TokenKind::OpenBrace,
            TokenKind::CloseBrace,
            TokenKind::Minus,
            TokenKind::GreaterThan,
            TokenKind::Unknown,
        ],
    );
}

#[test]
fn tokens_reproduce_input() {
    let source = "fn main() -> {\n  'x' /* c */ é // end";
    let joined: String = tokenize(source).iter().map(|t| t.text()).collect();
    assert_eq!(joined, source);
}

#[test]
fn non_ascii_is_unknown_and_whole() {
    assert_eq!(texts("é"), vec![(TokenKind::Unknown, "é".to_string())]);
}

#[test]
fn nul_does_not_end_comments_or_strings() {
    assert_eq!(
        texts("/* a\0b */"),
        vec![(
            TokenKind::BlockComment { is_terminated: true },
            "/* a\0b */".to_string()
        )]
    );
    assert_eq!(
        texts("'a\0b'"),
        vec![(TokenKind::String { is_terminated: true }, "'a\0b'".to_string())]
    );
    assert_eq!(
        texts("// a\0b\n"),
        vec![
            (TokenKind::LineComment, "// a\0b".to_string()),
            (TokenKind::Whitespace, "\n".to_string()),
        ]
    );
}
