use pydocstring::model::SectionKind;
use pydocstring::parse::detect_style;
use pydocstring::parse::parse;
use pydocstring::parse::Document;
use pydocstring::parse::Style;
use pydocstring::syntax::SyntaxKind;

#[test]
fn quick_start_numpy_document() {
    let docstring = "\
Brief description.

Parameters
----------
x : int
    The first parameter.
";
    let parsed = parse(docstring);
    assert_eq!(parsed.style(), Style::NumPy);

    let doc = Document::new(&parsed);
    assert_eq!(doc.summary().unwrap().text(), "Brief description.");

    let sections = doc.sections();
    let section = &sections[0];
    assert_eq!(section.kind(), SectionKind::Parameters);
    let entries = section.entries();
    let entry = &entries[0];
    assert_eq!(entry.name().unwrap().text(), "x");
    assert_eq!(entry.type_annotation().unwrap().text(), "int");
}

#[test]
fn raw_cst_shows_the_missing_type() {
    let parsed = parse("Summary.\n\nArgs:\n    x (): The value.\n");
    let doc = Document::new(&parsed);
    let sections = doc.sections();
    let entries = sections[0].entries();
    let entry = &entries[0];
    assert!(entry.type_annotation().is_none());
    let placeholder = entry.syntax().find_missing(SyntaxKind::TYPE).unwrap();
    assert!(placeholder.is_missing());
}

#[test]
fn style_auto_detection() {
    let numpy_doc = "Summary.\n\nParameters\n----------\nx : int\n    Desc.";
    assert_eq!(detect_style(numpy_doc), Style::NumPy);

    let google_doc = "Summary.\n\nArgs:\n    x: Desc.";
    assert_eq!(detect_style(google_doc), Style::Google);

    assert_eq!(detect_style("Just a summary."), Style::Plain);
}

#[test]
fn parsing_keeps_the_source_and_spans_it() {
    let src = "Summary.\n\nArgs:\n    x (int): A.\n";
    let parsed = parse(src);
    assert_eq!(parsed.source(), src);
    assert_eq!(parsed.root().kind(), SyntaxKind::DOCUMENT);
    assert_eq!(parsed.root().range().source_text(src), src);
}

#[test]
fn detect_style_accepts_a_short_underline() {
    assert_eq!(detect_style("Summary.\n\nNotes\n--\nText."), Style::NumPy);
    assert_eq!(detect_style("Summary.\n\nNotes\n-\nText."), Style::NumPy);
}
