use pydocstring::parse::scan::convert_multiline_with_indentation;
use pydocstring::parse::scan::find_colon_ignoring_parens;
use pydocstring::parse::scan::find_entry_colon;
use pydocstring::parse::scan::find_entry_open_bracket;
use pydocstring::parse::scan::find_matching_close;
use pydocstring::parse::scan::split_comma_parts;
use pydocstring::parse::scan::strip_optional;
use pydocstring::parse::scan::try_parse_bracket_entry;

// ---- find_entry_colon ----

#[test]
fn test_find_entry_colon() {
    // Basic colon
    assert_eq!(find_entry_colon("name: desc"), Some(4));
    assert_eq!(find_entry_colon("name:desc"), Some(4));
    assert_eq!(find_entry_colon("name:"), Some(4));
    // No colon
    assert_eq!(find_entry_colon("name"), None);
    // Colon inside brackets is skipped
    assert_eq!(find_entry_colon("Dict[str, int]: desc"), Some(14));
    assert_eq!(find_entry_colon("Tuple(a, b): desc"), Some(11));
    // Nested brackets
    assert_eq!(find_entry_colon("Dict[str, List[int]]: desc"), Some(20));
    // Only colon inside brackets — no match
    assert_eq!(find_entry_colon("Dict[k: v]"), None);
}

#[test]
fn test_split_comma_parts() {
    let parts: Vec<_> = split_comma_parts("int, optional")
        .iter()
        .map(|(_, s)| s.trim())
        .collect();
    assert_eq!(parts, vec!["int", "optional"]);

    // Brackets respected
    let parts: Vec<_> = split_comma_parts("Dict[str, int], optional")
        .iter()
        .map(|(_, s)| s.trim())
        .collect();
    assert_eq!(parts, vec!["Dict[str, int]", "optional"]);

    // Offsets
    let parts = split_comma_parts("int, optional");
    assert_eq!(parts[0].0, 0);
    assert_eq!(parts[1].0, 4);
}

#[test]
fn test_find_matching_close_basic() {
    assert_eq!(find_matching_close("(abc)", 0), Some(4));
}

#[test]
fn test_find_matching_close_nested_same() {
    assert_eq!(find_matching_close("(a(b)c)", 0), Some(6));
}

#[test]
fn test_find_matching_close_nested_mixed() {
    assert_eq!(find_matching_close("(a[b]c)", 0), Some(6));
}

#[test]
fn test_find_matching_close_mismatched_ignored() {
    // `]` is not `)`, so it is ignored — `)` closes the `(`.
    assert_eq!(find_matching_close("(a]b)", 0), Some(4));
}

#[test]
fn test_find_matching_close_no_match() {
    assert_eq!(find_matching_close("(abc", 0), None);
}

#[test]
fn test_find_matching_close_angle_brackets() {
    assert_eq!(find_matching_close("<int>", 0), Some(4));
}

// ---- strip_optional ----

#[test]
fn test_strip_optional_basic() {
    assert_eq!(strip_optional("int, optional"), ("int", Some(5)));
    assert_eq!(strip_optional("int"), ("int", None));
    assert_eq!(strip_optional("Dict[str, int], optional"), ("Dict[str, int]", Some(16)));
    assert_eq!(strip_optional("optional"), ("", Some(0)));
    assert_eq!(strip_optional("int,optional"), ("int", Some(4)));
    assert_eq!(strip_optional("int,  optional"), ("int", Some(6)));
    assert_eq!(strip_optional("int, optional  "), ("int", Some(5)));
}

// ---- try_parse_bracket_entry ----

#[test]
fn test_bracket_entry_basic() {
    let e = try_parse_bracket_entry("name (int): desc").unwrap();
    assert_eq!(e.name, "name");
    assert_eq!(e.clean_type, "int");
    assert_eq!(e.description, Some("desc"));
}

#[test]
fn test_bracket_entry_no_space() {
    let e = try_parse_bracket_entry("name(int): desc").unwrap();
    assert_eq!(e.name, "name");
    assert_eq!(e.clean_type, "int");
}

#[test]
fn test_bracket_entry_optional() {
    let e = try_parse_bracket_entry("name (int, optional): desc").unwrap();
    assert_eq!(e.clean_type, "int");
    assert!(e.optional_offset.is_some());
}

#[test]
fn test_bracket_entry_complex_type() {
    let e = try_parse_bracket_entry("data (Dict[str, int]): values").unwrap();
    assert_eq!(e.clean_type, "Dict[str, int]");
    assert_eq!(e.description, Some("values"));
}

#[test]
fn test_bracket_entry_no_colon() {
    let e = try_parse_bracket_entry("name (int)").unwrap();
    assert_eq!(e.name, "name");
    assert_eq!(e.clean_type, "int");
    assert!(e.colon.is_none());
    assert!(e.description.is_none());
}

#[test]
fn test_bracket_entry_empty_desc() {
    let e = try_parse_bracket_entry("name (int):").unwrap();
    assert_eq!(e.clean_type, "int");
    assert!(e.colon.is_some());
    assert!(e.description.is_none());
}

#[test]
fn test_bracket_entry_colon_before_bracket() {
    // `name : (int)` should NOT match — colon is before bracket.
    assert!(try_parse_bracket_entry("name : (int)").is_none());
}

#[test]
fn test_bracket_entry_no_bracket() {
    assert!(try_parse_bracket_entry("name : int").is_none());
}

#[test]
fn test_bracket_entry_text_after_bracket() {
    // `name (int) not_colon` — non-colon text after bracket.
    assert!(try_parse_bracket_entry("name (int) not_colon").is_none());
}

// ---- find_colon_ignoring_parens ----

#[test]
fn test_find_colon_ignoring_parens_basic() {
    assert_eq!(find_colon_ignoring_parens("int : desc", 0), Some(4));
}

#[test]
fn test_find_colon_ignoring_parens_inside_brackets() {
    // `:` inside `[]` is skipped.
    assert_eq!(find_colon_ignoring_parens("Dict[k: v] : desc", 0), Some(11));
}

#[test]
fn test_find_colon_ignoring_parens_inside_parens() {
    // Parens are NOT tracked, so `:` inside `(` is found.
    assert_eq!(find_colon_ignoring_parens("(int : desc", 1), Some(5));
}

#[test]
fn test_find_colon_ignoring_parens_none() {
    assert_eq!(find_colon_ignoring_parens("int desc", 0), None);
}

// ---- find_entry_open_bracket ----

#[test]
fn test_find_entry_open_bracket_basic() {
    assert_eq!(find_entry_open_bracket("name (int)"), Some(5));
}

#[test]
fn test_find_entry_open_bracket_colon_first() {
    // Colon before bracket → None.
    assert_eq!(find_entry_open_bracket("name : (int)"), None);
}

#[test]
fn test_find_entry_open_bracket_no_bracket() {
    assert_eq!(find_entry_open_bracket("name : int"), None);
}

#[test]
fn test_find_entry_open_bracket_at_start() {
    // Bracket at position 0 is not valid (no name before it).
    assert_eq!(find_entry_open_bracket("(int)"), None);
}

#[test]
fn test_convert_multiline_with_indentation() {
    assert_eq!(convert_multiline_with_indentation("First line.

        Description line.
        More description.

            Blockquote.
            Another.

        Some text.

        .. directive:: option
           directive_option"), "First line.\n\nDescription line.\nMore description.\n\n    Blockquote.\n    Another.\n\nSome text.\n\n.. directive:: option\n   directive_option");
}
