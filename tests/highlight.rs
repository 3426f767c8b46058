use rue::highlight::{class_for_token, Class};
use rue::lexer::tokenize;

fn classes(source: &str) -> Vec<String> {
    tokenize(source)
        .iter()
        .map(|t| class_for_token(t).to_string())
        .collect()
}

#[test]
fn identifiers_by_case() {
    assert_eq!(
        classes("Hi there"),
        vec!["t-type", "t-other", "t-variable"]
    );
}

#[test]
fn every_class() {
    assert_eq!(
        classes("// c\nfn(\"s\")\\"),
        vec!["t-comment", "t-other", "t-keyword", "t-pair", "t-string", "t-pair", "t-invalid"]
    );
    assert_eq!(Class::Comment.to_string(), "t-comment");
    assert_eq!(Class::Type.to_string(), "t-type");
}

#[test]
fn styled_tokens_pair_text_and_class() {
    let styled = rue::highlight::styled_tokens("Point x");
    let pairs: Vec<(String, String)> = styled
        .into_iter()
        .map(|s| (s.text, s.class))
        .collect();
    assert_eq!(
        pairs,
        vec![
            ("Point".to_string(), "t-type".to_string()),
            (" ".to_string(), "t-other".to_string()),
            ("x".to_string(), "t-variable".to_string()),
        ]
    );
}
