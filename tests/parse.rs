use rue::lexer::tokenize;
use rue::parse::parse_text;
use rue::parser::Parser;
use rue::program::parse_program;
use rue::syntax_kind::{RueLang, SyntaxKind, KIND_COUNT};

#[derive(Debug, Clone, Copy, PartialEq, Eq, PartialOrd, Ord, Hash)]
enum Lang {}

impl rowan::Language for Lang {
    type Kind = SyntaxKind;

    fn kind_from_raw(raw: rowan::SyntaxKind) -> SyntaxKind {
        RueLang::kind_from_raw(raw.0)
    }

    fn kind_to_raw(kind: SyntaxKind) -> rowan::SyntaxKind {
        rowan::SyntaxKind(RueLang::kind_to_raw(kind))
    }
}

fn dump(green: rowan::GreenNode) -> String {
    let node = rowan::SyntaxNode::<Lang>::new_root(green);
    let raw = format!("{:#?}", node);
    raw[0..(raw.len() - 1)].to_string()
}

fn check_program(input: &str, expected: &str) {
    let tokens = tokenize(input);
    let mut parser = Parser::new(&tokens);
    parse_program(&mut parser);
    assert_eq!(dump(parser.build()), expected);
}

#[test]
fn parse_nothing() {
    check_program("", "Program@0..0");
}

#[test]
fn parse_trivia() {
    check_program(
        "// Line comment\n/* Block comment */\n",
        "Program@0..36\n  LineComment@0..15 \"// Line comment\"\n  Whitespace@15..16 \"\\n\"\n  BlockComment@16..35 \"/* Block comment */\"\n  Whitespace@35..36 \"\\n\"",
    );
}

#[test]
fn parse_text_whitespace_only() {
    assert_eq!(dump(parse_text("    ")), "Program@0..4\n  Whitespace@0..4 \"    \"");
}

#[test]
fn parse_text_empty() {
    assert_eq!(dump(parse_text("")), "Program@0..0");
}

#[test]
fn parse_text_unknown_completes() {
    assert_eq!(
        dump(parse_text("\\")),
        "Program@0..1\n  Error@0..1\n    Error@0..1 \"\\\\\""
    );
}

#[test]
fn parse_text_keeps_every_token() {
    assert_eq!(
        dump(parse_text("fn")),
        "Program@0..2\n  Error@0..2\n    Fn@0..2 \"fn\""
    );
    assert_eq!(
        dump(parse_text("a b")),
        "Program@0..3\n  Error@0..1\n    Ident@0..1 \"a\"\n  Whitespace@1..2 \" \"\n  Error@2..3\n    Ident@2..3 \"b\""
    );
    let source = "fn main() { 'x' } // end\n";
    let node = rowan::SyntaxNode::<Lang>::new_root(parse_text(source));
    assert_eq!(node.text().to_string(), source);
}

#[test]
fn parse_program_reports_each_stray_token() {
    let tokens = tokenize("a b");
    let mut parser = Parser::new(&tokens);
    parse_program(&mut parser);
    assert_eq!(
        parser.errors(),
        &vec!["expected Eof".to_string(), "expected Eof".to_string()]
    );
}

#[test]
fn parse_text_is_deterministic() {
    let source = "// a\n fn x";
    assert_eq!(dump(parse_text(source)), dump(parse_text(source)));
}

#[test]
fn expect_failure_wraps_one_token() {
    let tokens = tokenize("x y");
    let mut parser = Parser::new(&tokens);
    parser.start(SyntaxKind::Program);
    assert!(!parser.expect(SyntaxKind::Fn));
    assert_eq!(parser.errors(), &vec!["expected Fn".to_string()]);
    assert!(parser.at(SyntaxKind::Ident));
    assert!(parser.eat(SyntaxKind::Ident));
    parser.finish();
    assert_eq!(
        dump(parser.build()),
        "Program@0..3\n  Error@0..1\n    Ident@0..1 \"x\"\n  Whitespace@1..2 \" \"\n  Ident@2..3 \"y\""
    );
}

#[test]
fn expect_success_and_eof() {
    let tokens = tokenize(" fn");
    let mut parser = Parser::new(&tokens);
    parser.start(SyntaxKind::Program);
    assert!(parser.expect(SyntaxKind::Fn));
    assert!(!parser.eat(SyntaxKind::Ident));
    assert!(!parser.expect(SyntaxKind::Ident));
    assert_eq!(parser.errors(), &vec!["expected Ident".to_string()]);
    parser.finish();
    assert_eq!(
        dump(parser.build()),
        "Program@0..3\n  Whitespace@0..1 \" \"\n  Fn@1..3 \"fn\"\n  Error@3..3"
    );
}

#[test]
fn kind_codes_round_trip() {
    for raw in 0..KIND_COUNT {
        assert_eq!(RueLang::kind_to_raw(RueLang::kind_from_raw(raw)), raw);
    }
    assert_eq!(RueLang::kind_to_raw(SyntaxKind::Eof), 0);
    assert_eq!(RueLang::kind_to_raw(SyntaxKind::Program), 14);
    assert_eq!(RueLang::kind_from_raw(7), SyntaxKind::Fn);
}

#[test]
fn trivia_classification() {
    assert!(SyntaxKind::Whitespace.is_trivia());
    assert!(SyntaxKind::BlockComment.is_trivia());
    assert!(SyntaxKind::LineComment.is_trivia());
    assert!(!SyntaxKind::Ident.is_trivia());
    assert!(!SyntaxKind::Error.is_trivia());
    assert_eq!(SyntaxKind::default(), SyntaxKind::Eof);
}
