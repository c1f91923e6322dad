use pydocstring::parse::trivia::lex_gap;
use pydocstring::syntax::SyntaxElement;
use pydocstring::syntax::SyntaxKind;

fn lex_all(source: &str) -> Vec<(SyntaxKind, String)> {
    let mut out = Vec::new();
    lex_gap(source, 0, source.len(), &mut out);
    out.iter()
        .map(|e| match e {
            SyntaxElement::Token(t) => (t.kind(), t.text(source).to_owned()),
            SyntaxElement::Node(_) => unreachable!("lex_gap emits tokens only"),
        })
        .collect()
}

#[test]
fn test_lex_gap_newline_then_blank_line() {
    // A newline that terminates a content line is NEWLINE; the following
    // zero-width line is BLANK_LINE.
    let src = "x\n\ny";
    let mut out = Vec::new();
    lex_gap(src, 1, 3, &mut out);
    let kinds: Vec<_> = out.iter().map(|e| e.kind()).collect();
    assert_eq!(kinds, vec![SyntaxKind::NEWLINE, SyntaxKind::BLANK_LINE]);
}

#[test]
fn test_lex_gap_whitespace_only_line_is_blank_line_with_newline() {
    assert_eq!(lex_all("  \t\n"), vec![(SyntaxKind::BLANK_LINE, "  \t\n".to_owned())]);
}

#[test]
fn test_lex_gap_consecutive_blank_lines_one_token_each() {
    assert_eq!(
        lex_all("\n \n\n"),
        vec![
            (SyntaxKind::BLANK_LINE, "\n".to_owned()),
            (SyntaxKind::BLANK_LINE, " \n".to_owned()),
            (SyntaxKind::BLANK_LINE, "\n".to_owned()),
        ]
    );
}

#[test]
fn test_lex_gap_trailing_whitespace_at_eof_is_blank_line_without_newline() {
    assert_eq!(
        lex_all("\n   "),
        vec![
            (SyntaxKind::BLANK_LINE, "\n".to_owned()),
            (SyntaxKind::BLANK_LINE, "   ".to_owned()),
        ]
    );
}

#[test]
fn test_lex_gap_indentation_before_content_is_whitespace() {
    // Line-start whitespace followed (in the source) by content is plain
    // WHITESPACE, even though the content is outside the gap.
    let src = "    x";
    let mut out = Vec::new();
    lex_gap(src, 0, 4, &mut out);
    assert_eq!(out.len(), 1);
    assert_eq!(out[0].kind(), SyntaxKind::WHITESPACE);
}

#[test]
fn test_lex_gap_skips_dropped_content() {
    // Non-whitespace gap bytes stay uncovered; surrounding whitespace is
    // tokenized normally.
    assert_eq!(
        lex_all("dropped words\n"),
        vec![
            (SyntaxKind::WHITESPACE, " ".to_owned()),
            (SyntaxKind::NEWLINE, "\n".to_owned()),
        ]
    );
}

#[test]
fn test_lex_gap_crlf_is_one_newline_token() {
    assert_eq!(lex_all("x\r\n"), vec![(SyntaxKind::NEWLINE, "\r\n".to_owned())]);
}
