use pydocstring::cursor::LineCursor;
use pydocstring::parse::kind::SectionName;
use pydocstring::parse::numpy::parser::is_underline;
use pydocstring::parse::numpy::parser::parse_name_and_type;
use pydocstring::parse::numpy::parser::try_detect_header;
use pydocstring::parse::parse_numpy;
use pydocstring::parse::text_block::TextBlock;
use pydocstring::syntax::SyntaxKind;

#[test]
fn test_is_underline() {
    assert!(is_underline("----------"));
    assert!(is_underline("---"));
    assert!(!is_underline(""));
    assert!(!is_underline("not dashes"));
    assert!(!is_underline("---x---"));
}

#[test]
fn test_try_detect_header() {
    let c1 = LineCursor::new("Parameters\n----------");
    assert!(try_detect_header(&c1).is_some());
    assert_eq!(try_detect_header(&c1).unwrap().kind, SectionName::Parameters);

    let c2 = LineCursor::new("just text\nmore text");
    assert!(try_detect_header(&c2).is_none());

    let c3 = LineCursor::new("\n----------");
    assert!(try_detect_header(&c3).is_none());

    let c4 = LineCursor::new("Only one line");
    assert!(try_detect_header(&c4).is_none());

    let mut c5 = LineCursor::new("Parameters\n----------\nx : int\nReturns\n-------");
    assert!(try_detect_header(&c5).is_some());
    c5.set_line(3);
    assert!(try_detect_header(&c5).is_some());
    assert_eq!(try_detect_header(&c5).unwrap().kind, SectionName::Returns);
}

#[test]
fn test_parse_name_and_type_basic() {
    let src = "x : int";
    let cursor = LineCursor::new(src);
    let p = parse_name_and_type(src, 0, 0, &cursor);
    assert_eq!(p.names[0].1.source_text(src), "x");
    assert!(p.colon.is_some());
    assert_eq!(p.param_type.unwrap().source_text(src), "int");
    assert!(p.markers.is_empty());
}

#[test]
fn test_parse_name_and_type_optional() {
    let src = "x : int, optional";
    let cursor = LineCursor::new(src);
    let p = parse_name_and_type(src, 0, 0, &cursor);
    assert_eq!(p.names[0].1.source_text(src), "x");
    assert!(p.colon.is_some());
    assert_eq!(p.param_type.unwrap().source_text(src), "int");
    assert_eq!(p.markers.len(), 1);
    assert_eq!(p.markers[0].kind(), SyntaxKind::OPTIONAL);
}

#[test]
fn test_parse_name_and_type_complex() {
    let src = "x : Dict[str, int], optional";
    let cursor = LineCursor::new(src);
    let p = parse_name_and_type(src, 0, 0, &cursor);
    assert!(p.colon.is_some());
    assert_eq!(p.param_type.unwrap().source_text(src), "Dict[str, int]");
    assert_eq!(p.markers.len(), 1);
    assert_eq!(p.markers[0].kind(), SyntaxKind::OPTIONAL);
}

#[test]
fn test_basic_parse() {
    let input = "Summary.\n\nParameters\n----------\nx : int\n    The value.\n";
    let parsed = parse_numpy(input);
    let root = parsed.root();
    assert_eq!(root.kind(), SyntaxKind::DOCUMENT);
    let summary = TextBlock::cast(&parsed, root.find_node(SyntaxKind::SUMMARY).unwrap()).unwrap();
    assert_eq!(summary.text(), "Summary.");
    let sections = root.nodes(SyntaxKind::SECTION);
    assert_eq!(sections.len(), 1);
}

/// A google-style entry in a NumPy section stores its children in source
/// order: the COLON (found after the close bracket) must not precede TYPE.
#[test]
fn test_google_style_entry_children_in_source_order() {
    let input = "Summary.\n\nParameters\n----------\nname (str): The name.\n";
    let parsed = parse_numpy(input);
    let section = parsed.root().find_node(SyntaxKind::SECTION).unwrap();
    let param = section.find_node(SyntaxKind::ENTRY).unwrap();
    let mut last_start = None;
    for child in param.children() {
        assert!(
            last_start.map_or(true, |prev| prev <= child.range().start()),
            "children out of source order: {:?}",
            param
        );
        last_start = Some(child.range().start());
    }
    let kinds: Vec<SyntaxKind> = param
        .children()
        .iter()
        .filter(|c| !c.kind().is_trivia())
        .map(|c| c.kind())
        .collect();
    assert_eq!(
        kinds,
        vec![
            SyntaxKind::NAME,
            SyntaxKind::OPEN_BRACKET,
            SyntaxKind::TYPE,
            SyntaxKind::CLOSE_BRACKET,
            SyntaxKind::COLON,
            SyntaxKind::DESCRIPTION,
        ]
    );
}

/// Empty brackets: the zero-length missing TYPE placeholder is anchored
/// right after the open bracket (where the type would appear), not at the
/// colon.
#[test]
fn test_google_style_entry_missing_type_anchored_after_open_bracket() {
    let input = "Summary.\n\nParameters\n----------\nname (): The name.\n";
    let parsed = parse_numpy(input);
    let section = parsed.root().find_node(SyntaxKind::SECTION).unwrap();
    let param = section.find_node(SyntaxKind::ENTRY).unwrap();
    let open = param.find_token(SyntaxKind::OPEN_BRACKET).unwrap();
    let missing = param.find_missing(SyntaxKind::TYPE).unwrap();
    assert_eq!(missing.range().start(), open.range().end());
}
