use pydocstring::edit::EditError;
use pydocstring::parse::parse;
use pydocstring::parse::Style;
use pydocstring::pattern::Pattern;
use pydocstring::rewrite::RewriteError;
use pydocstring::text::TextRange;
use pydocstring::text::TextSize;

#[test]
fn replace_annotates_one_entry_keeping_the_rest() {
    let src = "Summary.\n\nArgs:\n    x (int): The value.\n    y (str): Kept.\n";
    let parsed = parse(src);
    let pattern = Pattern::new(Style::Google, "$NAME (int): $DESC").unwrap();
    let out = parsed.replace(&pattern, "$NAME (int): $DESC (deprecated)").unwrap();
    assert_eq!(
        out,
        "Summary.\n\nArgs:\n    x (int): The value. (deprecated)\n    y (str): Kept.\n",
    );
}

#[test]
fn replace_with_the_matched_captures_is_the_identity() {
    let src = "Summary.\n\nArgs:\n    x (int): The value.\n    y (str): Kept.\n";
    let parsed = parse(src);
    let pattern = Pattern::new(Style::Google, "$NAME ($TYPE): $DESC").unwrap();
    let out = parsed.replace(&pattern, "$NAME ($TYPE): $DESC").unwrap();
    assert_eq!(out, src);
}

#[test]
fn matches_are_found_per_entry() {
    let src = "Summary.\n\nArgs:\n    x (int): The value.\n    y (str): Kept.\n";
    let parsed = parse(src);
    let pattern = Pattern::new(Style::Google, "$NAME ($TYPE): $DESC").unwrap();
    let matches = pattern.matches(&parsed);
    assert_eq!(matches.len(), 2);
    assert_eq!(matches[0].text(), "x (int): The value.");
    assert_eq!(matches[0].capture("NAME").unwrap().text(), "x");
    assert_eq!(matches[0].capture("TYPE").unwrap().text(), "int");
    assert_eq!(matches[1].capture("DESC").unwrap().text(), "Kept.");
    assert!(matches[0].capture("NOPE").is_none());
}

#[test]
fn replace_is_style_strict() {
    let src = "Summary.\n\nArgs:\n    x (int): The value.\n";
    let parsed = parse(src);
    let pattern = Pattern::new(Style::NumPy, "$NAME : $TYPE").unwrap();
    assert_eq!(parsed.replace(&pattern, "gone").unwrap(), src);
}

#[test]
fn replace_reports_an_unknown_hole() {
    let src = "Summary.\n\nArgs:\n    x (int): The value.\n";
    let parsed = parse(src);
    let pattern = Pattern::new(Style::Google, "$NAME (int): $DESC").unwrap();
    let err = parsed.replace(&pattern, "$NAME: $OTHER").unwrap_err();
    assert_eq!(err, RewriteError::UnknownMetavar { name: "OTHER".to_owned() });
    assert_eq!(err.message(), "template references $OTHER, which the matched reading does not bind");
}

#[test]
fn rewrite_error_wraps_edit_errors() {
    let e = EditError::OutOfBounds { range: TextRange::new(TextSize::new(1), TextSize::new(0)) };
    let r: RewriteError = e.into();
    assert_eq!(r, RewriteError::Edit(e));
}

#[test]
fn every_capture_lies_inside_its_match() {
    let src = "Summary.\n\nArgs:\n    x (int): The value.\n    y (str): Kept.\n";
    let parsed = parse(src);
    let pattern = Pattern::new(Style::Google, "$NAME ($TYPE): $DESC").unwrap();
    let matches = pattern.matches(&parsed);
    assert_eq!(matches.len(), 2);
    for m in matches.iter() {
        for (_, c) in m.captures().iter() {
            assert!(m.range().start() <= c.range().start());
            assert!(c.range().end() <= m.range().end());
        }
    }
    assert_eq!(matches[1].capture("NAME").unwrap().range(), TextRange::new(TextSize::new(44), TextSize::new(45)));
}

#[test]
fn a_foreign_anchor_yields_nothing() {
    let src = "Summary.\n\nArgs:\n    x (int): The value.\n";
    let parsed = parse(src);
    let other = parse(src);
    let pattern = Pattern::new(Style::Google, "$NAME (int): $DESC").unwrap();
    assert_eq!(pattern.matches_in(&parsed, parsed.root()).len(), 1);
    let foreign = parse("Other.\n");
    assert_eq!(pattern.matches_in(&parsed, foreign.root()).len(), 0);
    assert_eq!(parsed.replace_in(&pattern, foreign.root(), "gone").unwrap(), src);
    assert_eq!(other.replace(&pattern, "$NAME: $DESC").unwrap(), "Summary.\n\nArgs:\n    x: The value.\n");
}
