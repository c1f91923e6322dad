use pydocstring::edit::EditError;
use pydocstring::parse::parse;
use pydocstring::parse::Document;
use pydocstring::parse::Style;
use pydocstring::syntax::SyntaxKind;
use pydocstring::text::TextRange;
use pydocstring::text::TextSize;

fn range(a: u32, b: u32) -> TextRange {
    TextRange::new(TextSize::new(a), TextSize::new(b))
}

#[test]
fn replace_description_keeps_everything_else() {
    let src = "Summary.\n\nArgs:\n    x (int): Old description.\n    y: Stays.\n";
    let parsed = parse(src);
    let doc = Document::new(&parsed);
    let sections = doc.sections();
    let entries = sections[0].entries();
    let desc = entries[0].description().unwrap();

    let mut edits = parsed.edit();
    edits.replace_node(desc.syntax(), "New description.");
    assert_eq!(
        edits.apply().unwrap(),
        "Summary.\n\nArgs:\n    x (int): New description.\n    y: Stays.\n",
    );
    let reparsed = edits.apply_reparsed().unwrap();
    assert_eq!(reparsed.style(), parsed.style());
    assert_eq!(reparsed.source(), "Summary.\n\nArgs:\n    x (int): New description.\n    y: Stays.\n");
}

#[test]
fn empty_edit_list_reproduces_the_source() {
    let src = "Summary.\n\nArgs:\n    x (int): A.\n";
    let parsed = parse(src);
    assert_eq!(parsed.edit().apply().unwrap(), src);
}

#[test]
fn replacing_a_span_with_its_own_text_is_the_identity() {
    let src = "Summary.\n\nArgs:\n    x (int): A.\n";
    let parsed = parse(src);
    let mut edits = parsed.edit();
    edits.replace(range(10, 15), "Args:");
    assert_eq!(edits.apply().unwrap(), src);
}

#[test]
fn inserts_at_one_offset_keep_call_order() {
    let parsed = parse("abc");
    let mut edits = parsed.edit();
    edits.insert(TextSize::new(1), "1");
    edits.insert(TextSize::new(1), "2");
    edits.replace(range(1, 2), "B");
    assert_eq!(edits.apply().unwrap(), "a12Bc");
}

#[test]
fn overlapping_edits_are_refused() {
    let parsed = parse("abcdef");
    let mut edits = parsed.edit();
    edits.replace(range(0, 3), "x");
    edits.replace(range(2, 4), "y");
    assert_eq!(edits.apply(), Err(EditError::Overlap { a: range(0, 3), b: range(2, 4) }));
}

#[test]
fn out_of_bounds_edits_are_refused() {
    let parsed = parse("abc");
    let mut edits = parsed.edit();
    edits.delete(range(2, 9));
    assert_eq!(edits.apply(), Err(EditError::OutOfBounds { range: range(2, 9) }));
    let parsed = parse("é");
    let mut edits = parsed.edit();
    edits.insert(TextSize::new(1), "x");
    assert_eq!(edits.apply(), Err(EditError::OutOfBounds { range: range(1, 1) }));
}

#[test]
fn set_description_replaces_and_writes() {
    let parsed = parse("S.\n\nArgs:\n    x (int): Old.\n    y (str):\n");
    let doc = Document::new(&parsed);
    let sections = doc.sections();
    let entries = sections[0].entries();

    let mut edits = parsed.edit();
    edits.set_description(entries[0], "New.");
    edits.set_description(entries[1], "Fresh.");
    assert_eq!(
        edits.apply().unwrap(),
        "S.\n\nArgs:\n    x (int): New.\n    y (str): Fresh.\n",
    );
}

#[test]
fn prepend_to_description_keeps_the_old_text() {
    let parsed = parse("S.\n\nArgs:\n    x (int): Keep me.\n");
    let doc = Document::new(&parsed);
    let sections = doc.sections();
    let entries = sections[0].entries();

    let mut edits = parsed.edit();
    edits.prepend_to_description(entries[0], ".. deprecated:: 1.10\n   Use `y`.");
    assert_eq!(
        edits.apply().unwrap(),
        "S.\n\nArgs:\n    x (int):\n        .. deprecated:: 1.10\n           Use `y`.\n\n        Keep me.\n",
    );
}

#[test]
fn set_type_writes_the_brackets() {
    let parsed = parse("S.\n\nArgs:\n    x: The value.\n");
    let doc = Document::new(&parsed);
    let sections = doc.sections();
    let entries = sections[0].entries();

    let mut edits = parsed.edit();
    edits.set_type(entries[0], "int");
    assert_eq!(edits.apply().unwrap(), "S.\n\nArgs:\n    x (int): The value.\n");
}

#[test]
fn remove_lines_takes_the_line_and_one_blank_line() {
    let src = "Summary.\n\nArgs:\n    x (int): A.\n    y (str): B.\n";
    let parsed = parse(src);
    let doc = Document::new(&parsed);
    let sections = doc.sections();
    let entries = sections[0].entries();
    let mut edits = parsed.edit();
    edits.remove_lines(entries[0].syntax());
    assert_eq!(edits.apply().unwrap(), "Summary.\n\nArgs:\n    y (str): B.\n");

    let summary = doc.summary().unwrap();
    let mut edits = parsed.edit();
    edits.remove_lines(summary.syntax());
    assert_eq!(edits.apply().unwrap(), "Args:\n    x (int): A.\n    y (str): B.\n");
}

#[test]
fn remove_lines_range_records_a_foreign_range_as_is() {
    let parsed = parse("abc");
    let mut edits = parsed.edit();
    edits.remove_lines_range(range(5, 9));
    assert_eq!(edits.apply(), Err(EditError::OutOfBounds { range: range(5, 9) }));
}

#[test]
fn numpy_set_type_and_description() {
    let src = "Summary.\n\nParameters\n----------\nx\n    The value.\n";
    let parsed = parse(src);
    assert_eq!(parsed.style(), Style::NumPy);
    let doc = Document::new(&parsed);
    let sections = doc.sections();
    let entries = sections[0].entries();
    assert_eq!(entries[0].syntax().kind(), SyntaxKind::ENTRY);
    let mut edits = parsed.edit();
    edits.set_type(entries[0], "int");
    assert_eq!(
        edits.apply().unwrap(),
        "Summary.\n\nParameters\n----------\nx : int\n    The value.\n",
    );
}

#[test]
fn edit_error_messages() {
    let e = EditError::Overlap { a: range(0, 3), b: range(2, 4) };
    assert_eq!(e.message(), "overlapping edits at 0..3 and 2..4");
}

#[test]
fn builders_chain() {
    let parsed = parse("abcdef");
    assert_eq!(parsed.edit().replace(range(1, 3), "XY").apply(), Ok("aXYdef".to_string()));
    let mut e = parsed.edit();
    e.insert(TextSize::new(0), "<").insert(TextSize::new(6), ">").delete(range(2, 4));
    assert_eq!(e.apply(), Ok("<abef>".to_string()));
    let mut bad = parsed.edit();
    bad.replace(range(4, 2), "z");
    assert_eq!(bad.apply(), Err(EditError::OutOfBounds { range: range(4, 2) }));
}

#[test]
fn apply_reports_the_first_overlapping_pair() {
    let parsed = parse("abcdefgh");
    let mut e = parsed.edit();
    e.replace(range(5, 8), "z").replace(range(0, 3), "x").replace(range(2, 6), "y");
    assert_eq!(e.apply(), Err(EditError::Overlap { a: range(0, 3), b: range(2, 6) }));
}
