use pydocstring::parse::Style;
use pydocstring::syntax::walk_tree;
use pydocstring::syntax::Parsed;
use pydocstring::syntax::SyntaxElement;
use pydocstring::syntax::SyntaxKind;
use pydocstring::syntax::SyntaxNode;
use pydocstring::syntax::SyntaxToken;
use pydocstring::syntax::Visitor;
use pydocstring::text::TextRange;
use pydocstring::text::TextSize;

#[test]
fn test_syntax_kind_name() {
    assert_eq!(SyntaxKind::ENTRY.name(), "ENTRY");
    assert_eq!(SyntaxKind::NAME.name(), "NAME");
    assert_eq!(SyntaxKind::SECTION.name(), "SECTION");
}

#[test]
fn test_syntax_kind_is_node_is_token() {
    assert!(SyntaxKind::DOCUMENT.is_node());
    assert!(!SyntaxKind::DOCUMENT.is_token());
    assert!(SyntaxKind::NAME.is_token());
    assert!(!SyntaxKind::NAME.is_node());
}

#[test]
fn test_syntax_token_text() {
    let source = "hello world";
    let token = SyntaxToken::new(SyntaxKind::NAME, TextRange::new(TextSize::new(0), TextSize::new(5)));
    assert_eq!(token.text(source), "hello");
}

#[test]
fn test_syntax_node_find_token() {
    let node = SyntaxNode::new(
        SyntaxKind::ENTRY,
        TextRange::new(TextSize::new(0), TextSize::new(10)),
        vec![
            SyntaxElement::Token(SyntaxToken::new(
                SyntaxKind::NAME,
                TextRange::new(TextSize::new(0), TextSize::new(3)),
            )),
            SyntaxElement::Token(SyntaxToken::new(
                SyntaxKind::COLON,
                TextRange::new(TextSize::new(3), TextSize::new(4)),
            )),
            SyntaxElement::Token(SyntaxToken::new(
                SyntaxKind::TEXT_LINE,
                TextRange::new(TextSize::new(5), TextSize::new(10)),
            )),
        ],
    );

    assert!(node.find_token(SyntaxKind::NAME).is_some());
    assert!(node.find_token(SyntaxKind::COLON).is_some());
    assert!(node.find_token(SyntaxKind::TYPE).is_none());
    assert_eq!(node.tokens(SyntaxKind::NAME).len(), 1);
}

#[test]
fn test_syntax_node_find_node() {
    let child = SyntaxNode::new(
        SyntaxKind::SECTION_HEADER,
        TextRange::new(TextSize::new(0), TextSize::new(5)),
        vec![SyntaxElement::Token(SyntaxToken::new(
            SyntaxKind::NAME,
            TextRange::new(TextSize::new(0), TextSize::new(4)),
        ))],
    );
    let parent = SyntaxNode::new(
        SyntaxKind::SECTION,
        TextRange::new(TextSize::new(0), TextSize::new(20)),
        vec![SyntaxElement::Node(child)],
    );

    assert!(parent.find_node(SyntaxKind::SECTION_HEADER).is_some());
    assert!(parent.find_node(SyntaxKind::ENTRY).is_none());
    assert_eq!(parent.nodes(SyntaxKind::SECTION_HEADER).len(), 1);
}

#[test]
fn test_pretty_print() {
    let source = "Args:\n    x: int";
    let root = SyntaxNode::new(
        SyntaxKind::DOCUMENT,
        TextRange::new(TextSize::new(0), TextSize::new(source.len() as u32)),
        vec![SyntaxElement::Node(SyntaxNode::new(
            SyntaxKind::SECTION,
            TextRange::new(TextSize::new(0), TextSize::new(source.len() as u32)),
            vec![
                SyntaxElement::Node(SyntaxNode::new(
                    SyntaxKind::SECTION_HEADER,
                    TextRange::new(TextSize::new(0), TextSize::new(5)),
                    vec![
                        SyntaxElement::Token(SyntaxToken::new(
                            SyntaxKind::NAME,
                            TextRange::new(TextSize::new(0), TextSize::new(4)),
                        )),
                        SyntaxElement::Token(SyntaxToken::new(
                            SyntaxKind::COLON,
                            TextRange::new(TextSize::new(4), TextSize::new(5)),
                        )),
                    ],
                )),
                SyntaxElement::Node(SyntaxNode::new(
                    SyntaxKind::ENTRY,
                    TextRange::new(TextSize::new(10), TextSize::new(source.len() as u32)),
                    vec![
                        SyntaxElement::Token(SyntaxToken::new(
                            SyntaxKind::NAME,
                            TextRange::new(TextSize::new(10), TextSize::new(11)),
                        )),
                        SyntaxElement::Token(SyntaxToken::new(
                            SyntaxKind::COLON,
                            TextRange::new(TextSize::new(11), TextSize::new(12)),
                        )),
                        SyntaxElement::Token(SyntaxToken::new(
                            SyntaxKind::TEXT_LINE,
                            TextRange::new(TextSize::new(13), TextSize::new(source.len() as u32)),
                        )),
                    ],
                )),
            ],
        ))],
    );

    let parsed = Parsed::new(source.to_string(), root, Style::Google);
    let output = parsed.pretty_print();

    // Verify structure is present
    assert!(output.contains("DOCUMENT@"));
    assert!(output.contains("SECTION@"));
    assert!(output.contains("SECTION_HEADER@"));
    assert!(output.contains("ENTRY@"));
    assert!(output.contains("NAME: \"Args\"@"));
    assert!(output.contains("COLON: \":\"@"));
    assert!(output.contains("NAME: \"x\"@"));
    assert!(output.contains("TEXT_LINE: \"int\"@"));
}

#[test]
fn test_pretty_print_missing_placeholder() {
    // A zero-length token renders as `<missing>`, not as `""`.
    let source = "a ()";
    let mut out = String::new();
    SyntaxToken::new(SyntaxKind::TYPE, TextRange::new(TextSize::new(3), TextSize::new(3)))
        .pretty_fmt(source, 0, &mut out);
    assert_eq!(out, "TYPE: <missing>@3..3\n");
}

#[test]
fn test_token_accessors_partition_present_from_missing() {
    // `find_token` and `tokens` both exclude zero-length placeholders;
    // `find_missing` is the only door to one.
    let present = SyntaxToken::new(SyntaxKind::NAME, TextRange::new(TextSize::new(0), TextSize::new(1)));
    let missing = SyntaxToken::new(SyntaxKind::TYPE, TextRange::new(TextSize::new(3), TextSize::new(3)));
    let node = SyntaxNode::new(
        SyntaxKind::ENTRY,
        TextRange::new(TextSize::new(0), TextSize::new(4)),
        vec![SyntaxElement::Token(present), SyntaxElement::Token(missing)],
    );

    assert!(node.find_token(SyntaxKind::TYPE).is_none());
    assert_eq!(node.tokens(SyntaxKind::TYPE).len(), 0);
    assert!(node.find_missing(SyntaxKind::TYPE).is_some());

    assert!(node.find_token(SyntaxKind::NAME).is_some());
    assert_eq!(node.tokens(SyntaxKind::NAME).len(), 1);
    assert!(node.find_missing(SyntaxKind::NAME).is_none());
}

struct Counter {
    nodes: usize,
    tokens: usize,
}

impl Visitor for Counter {
    fn enter(&mut self, _node: &SyntaxNode) {
        self.nodes += 1;
    }
    fn leave(&mut self, _node: &SyntaxNode) {}
    fn visit_token(&mut self, _token: &SyntaxToken) {
        self.tokens += 1;
    }
}

#[test]
fn test_visitor_walk() {
    let source = "hello";
    let root = SyntaxNode::new(
        SyntaxKind::DOCUMENT,
        TextRange::new(TextSize::new(0), TextSize::new(5)),
        vec![SyntaxElement::Token(SyntaxToken::new(
            SyntaxKind::TEXT_LINE,
            TextRange::new(TextSize::new(0), TextSize::new(5)),
        ))],
    );

    let mut counter = Counter { nodes: 0, tokens: 0 };
    walk_tree(&root, &mut counter);
    assert_eq!(counter.nodes, 1);
    assert_eq!(counter.tokens, 1);

    // verify text extraction
    let tok = root.required_token(SyntaxKind::TEXT_LINE);
    assert_eq!(tok.text(source), "hello");
}

struct Recorder {
    events: Vec<String>,
}

impl Visitor for Recorder {
    fn enter(&mut self, node: &SyntaxNode) {
        self.events.push(format!("enter {:?}", node.kind()));
    }
    fn leave(&mut self, node: &SyntaxNode) {
        self.events.push(format!("leave {:?}", node.kind()));
    }
    fn visit_token(&mut self, token: &SyntaxToken) {
        self.events.push(format!("token {:?}", token.kind()));
    }
}

#[test]
fn walk_tree_visits_in_preorder() {
    // DOCUMENT { SUMMARY { TEXT_LINE } BLANK_LINE }
    let summary = SyntaxNode::new(
        SyntaxKind::SUMMARY,
        TextRange::new(TextSize::new(0), TextSize::new(2)),
        vec![SyntaxElement::Token(SyntaxToken::new(
            SyntaxKind::TEXT_LINE,
            TextRange::new(TextSize::new(0), TextSize::new(2)),
        ))],
    );
    let root = SyntaxNode::new(
        SyntaxKind::DOCUMENT,
        TextRange::new(TextSize::new(0), TextSize::new(4)),
        vec![
            SyntaxElement::Node(summary),
            SyntaxElement::Token(SyntaxToken::new(
                SyntaxKind::BLANK_LINE,
                TextRange::new(TextSize::new(3), TextSize::new(3)),
            )),
        ],
    );
    let mut rec = Recorder { events: Vec::new() };
    walk_tree(&root, &mut rec);
    assert_eq!(
        rec.events,
        vec![
            "enter DOCUMENT".to_string(),
            "enter SUMMARY".to_string(),
            "token TEXT_LINE".to_string(),
            "leave SUMMARY".to_string(),
            "token BLANK_LINE".to_string(),
            "leave DOCUMENT".to_string(),
        ]
    );
}
