use pydocstring::parse::parse;
use pydocstring::parse::parse_google;
use pydocstring::parse::parse_numpy;
use pydocstring::parse::parse_plain;
use pydocstring::syntax::Parsed;
use pydocstring::syntax::SyntaxElement;
use pydocstring::syntax::SyntaxKind;
use pydocstring::syntax::SyntaxNode;

fn check_node(node: &SyntaxNode) {
    let r = node.range();
    assert!(r.start() <= r.end(), "inverted node range {:?}", node.kind());
    let mut last_start = r.start();
    for child in node.children() {
        let cr = child.range();
        assert!(cr.start() <= cr.end(), "inverted child range in {:?}", node.kind());
        assert!(r.start() <= cr.start() && cr.end() <= r.end(), "child outside {:?}", node.kind());
        assert!(last_start <= cr.start(), "children out of source order in {:?}", node.kind());
        last_start = cr.start();
        if let SyntaxElement::Node(n) = child {
            check_node(n);
        }
    }
}

fn check(parsed: &Parsed) {
    let root = parsed.root();
    assert_eq!(root.range().start().raw(), 0);
    assert_eq!(root.range().end().raw() as usize, parsed.source().len());
    check_node(root);
}

#[test]
fn google_trees_are_well_placed() {
    check(&parse_google(
        "Summary.\n\nArgs:\n    x (int, optional): The value.\n        More.\n    y: Other.\n\nReturns:\n    bool: Done.\n      Still done.\n\nRaises:\n    ValueError: If bad.\n",
    ));
    check(&parse_google("Summary.\n\nArgs:\n    x (int\n    y ()\n\nSee Also:\n    a, b: Related.\n"));
}

#[test]
fn numpy_trees_are_well_placed() {
    check(&parse_numpy(
        "Summary.\n\n.. deprecated:: 1.0\n   Use other.\n\nParameters\n----------\nx, y : int, optional, default: 3\n    The values.\nname (str): Google-style.\n\nReturns\n-------\nout : bool\n    Whether.\n\nReferences\n----------\n.. [1] A book.\n",
    ));
}

#[test]
fn plain_and_detected_trees_are_well_placed() {
    check(&parse_plain("  Summary line.\n\n  More text.\n\n\n"));
    check(&parse("Summary.\n\nNotes\n-----\nSome notes.\n\nstray text\n"));
    check(&parse(""));
    check(&parse("\r\n\r\n"));
}

fn node_marks(p: &Parsed) -> Vec<(SyntaxKind, u32, u32)> {
    let mut out = Vec::new();
    for child in p.root().children() {
        if let SyntaxElement::Node(n) = child {
            out.push((n.kind(), n.range().start().raw(), n.range().end().raw()));
        }
    }
    out
}

#[test]
fn plain_summary_and_extended_summary() {
    let p = parse_plain("\n  First line\n  second line.\n\n  More.\n\n  Last.\n\n");
    assert_eq!(
        node_marks(&p),
        vec![(SyntaxKind::SUMMARY, 3, 28), (SyntaxKind::EXTENDED_SUMMARY, 32, 46)],
    );
    assert_eq!(node_marks(&parse_plain("Only.")), vec![(SyntaxKind::SUMMARY, 0, 5)]);
    assert_eq!(node_marks(&parse_plain("   \n\n")), vec![]);
}

/// Every non-blank line's trimmed content lies inside one root-level node.
fn check_covered(p: &Parsed) {
    let src = p.source();
    let mut start = 0usize;
    for line in src.split('\n') {
        let end = start + line.len();
        let trimmed = line.trim_matches(|c: char| c == ' ' || c == '\t' || c == '\r' || c == '\x0c');
        if !trimmed.is_empty() {
            let lead = line.len() - line.trim_start_matches(|c: char| c == ' ' || c == '\t' || c == '\r' || c == '\x0c').len();
            let lo = (start + lead) as u32;
            let hi = lo + trimmed.len() as u32;
            let hit = p.root().children().iter().any(|c| match c {
                SyntaxElement::Node(n) => n.range().start().raw() <= lo && hi <= n.range().end().raw(),
                SyntaxElement::Token(_) => false,
            });
            assert!(hit, "line {:?} is outside every root node", line);
        }
        start = end + 1;
    }
}

#[test]
fn every_content_line_lies_in_a_root_node() {
    check_covered(&parse_google(
        "Summary.\n\n.. note:: Careful.\n\nLonger text\n\n   indented.\n\nArgs:\n    x (int): The value.\n\n        More.\nstray\n\nReturns:\n    bool: Done.\n",
    ));
    check_covered(&parse_numpy(
        "Sum one\nsum two.\nParameters\n----------\nx : int\n\nNotes\n-----\nSome notes.\n\nafter\n",
    ));
    check_covered(&parse_plain("\n  First line\n  second line.\n\n  More.\n\n  Last.\n\n"));
    check_covered(&parse("Summary.\n\nNotes\n-----\nSome notes.\n\nstray text\n"));
}

#[test]
fn root_nodes_replaced_by_their_own_text_reproduce_the_source() {
    let sources = [
        "Résumé café.\n\n  Ünïcode — more text.\n",
        "Zusammenfassung ü.\n\nArgs:\n    x (int): Größe.\n\nÄnderungen\n",
        "Sum ü\nsum two.\nParameters\n----------\nx : int\n    Maß.\n",
    ];
    for src in sources {
        let p = parse(src);
        for child in p.root().children() {
            if let SyntaxElement::Node(n) = child {
                let r = n.range();
                let (a, b) = (r.start().raw() as usize, r.end().raw() as usize);
                assert!(src.is_char_boundary(a) && src.is_char_boundary(b), "{:?} off a boundary", n.kind());
                let text = r.source_text(src).to_string();
                let mut edits = p.edit();
                edits.replace_node(n, &text);
                assert_eq!(edits.apply().unwrap(), src);
            }
        }
    }
}

#[test]
fn numpy_summary_runs_until_a_header() {
    let p = parse_numpy("Sum one\nsum two.\nParameters\n----------\nx : int\n");
    let marks = node_marks(&p);
    assert_eq!(marks[0], (SyntaxKind::SUMMARY, 0, 16));
    assert_eq!(marks[1].0, SyntaxKind::SECTION);
    assert_eq!(marks.len(), 2);
    let q = parse_numpy("\n  One.\n  Two.\n\nMore.\n");
    assert_eq!(node_marks(&q)[0], (SyntaxKind::SUMMARY, 3, 14));
}

#[test]
fn google_summary_runs_until_a_header_or_blank_line() {
    let p = parse_google("Short summary\ncontinued.\nArgs:\n    x: The value.\n");
    let marks = node_marks(&p);
    assert_eq!(marks[0], (SyntaxKind::SUMMARY, 0, 24));
    assert_eq!(marks[1].0, SyntaxKind::SECTION);
    let q = parse_google("Summary.\n\nArgs:\n    x: The value.\n");
    assert_eq!(node_marks(&q)[0], (SyntaxKind::SUMMARY, 0, 8));
}

#[test]
fn a_leading_header_opens_the_first_root_node() {
    let p = parse_numpy("\n  Parameters\n  ----------\n  x : int\n");
    let marks = node_marks(&p);
    assert_eq!(marks[0].0, SyntaxKind::SECTION);
    assert_eq!(marks[0].1, 3);
    let q = parse_google("Args:\n    x: The value.\n");
    assert_eq!(node_marks(&q)[0].0, SyntaxKind::SECTION);
    assert_eq!(node_marks(&q)[0].1, 0);
}
