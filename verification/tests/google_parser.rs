use pydocstring::cursor::LineCursor;
use pydocstring::parse::google::parser::parse_entry_header;
use pydocstring::parse::google::parser::try_parse_section_header;
use pydocstring::parse::google::parser::EntryHeader;
use pydocstring::parse::ParseOptions;
use pydocstring::syntax::SyntaxKind;

fn is_header(text: &str) -> bool {
    let cursor = LineCursor::new(text);
    try_parse_section_header(&cursor, &ParseOptions::new()).is_some()
}

fn is_header_with(text: &str, options: &ParseOptions) -> bool {
    let cursor = LineCursor::new(text);
    try_parse_section_header(&cursor, options).is_some()
}

#[test]
fn test_is_section_header() {
    assert!(is_header("Args:"));
    assert!(is_header("Returns:"));
    assert!(is_header("args:"));
    assert!(is_header("RETURNS:"));
    assert!(!is_header("key: value:"));
    // Unknown names — even colon-terminated prose — are headers only when
    // registered as custom sections.
    assert!(!is_header("NotASection:"));
    assert!(!is_header("Custom:"));
    assert!(!is_header(
        "This is a very long line that should not be a section header:"
    ));
    assert!(is_header("Args :"));
    assert!(is_header("Returns :"));
    assert!(is_header("Args"));
    assert!(is_header("Returns"));
    assert!(is_header("args"));
    assert!(is_header("RETURNS"));
    assert!(is_header("See Also"));
    assert!(!is_header("NotASection"));
    assert!(!is_header("SomeWord"));
}

#[test]
fn test_custom_sections_opt_in() {
    let opts = ParseOptions::new().with_custom_sections(&["Custom", "Side Effects"]);
    assert!(is_header_with("Custom:", &opts));
    assert!(is_header_with("custom:", &opts)); // case-insensitive
    assert!(is_header_with("Side Effects:", &opts));
    // Registration does not extend the colon-less leniency …
    assert!(!is_header_with("Custom", &opts));
    // … and other unknown names stay prose.
    assert!(!is_header_with("NotASection:", &opts));
}

fn header_from(text: &str) -> EntryHeader {
    let cursor = LineCursor::new(text);
    parse_entry_header(&cursor, false)
}

fn header_from_lenient(text: &str) -> EntryHeader {
    let cursor = LineCursor::new(text);
    parse_entry_header(&cursor, true)
}

#[test]
fn test_parse_entry_header_with_type() {
    let src = "name (int): Description";
    let header = header_from_lenient(src);
    assert_eq!(header.name.source_text(src), "name");
    assert!(header.type_info.is_some());
    let ti = header.type_info.unwrap();
    assert_eq!(ti.type_range.unwrap().source_text(src), "int");
    assert_eq!(header.first_description.unwrap().source_text(src), "Description");
}

#[test]
fn test_parse_entry_header_optional() {
    let src = "name (int, optional): Description";
    let header = header_from_lenient(src);
    assert_eq!(header.name.source_text(src), "name");
    let ti = header.type_info.unwrap();
    assert_eq!(ti.type_range.unwrap().source_text(src), "int");
    assert_eq!(ti.markers.len(), 1);
    assert_eq!(ti.markers[0].kind(), SyntaxKind::OPTIONAL);
    assert_eq!(ti.markers[0].range().source_text(src), "optional");
}

#[test]
fn test_parse_entry_header_no_type() {
    let src = "name: Description";
    let header = header_from(src);
    assert_eq!(header.name.source_text(src), "name");
    assert!(header.type_info.is_none());
    assert_eq!(header.first_description.unwrap().source_text(src), "Description");
}

#[test]
fn test_parse_entry_header_complex_type() {
    let src = "data (Dict[str, List[int]]): Values";
    let header = header_from_lenient(src);
    assert_eq!(header.name.source_text(src), "data");
    let ti = header.type_info.unwrap();
    assert_eq!(ti.type_range.unwrap().source_text(src), "Dict[str, List[int]]");
    assert_eq!(header.first_description.unwrap().source_text(src), "Values");
}

#[test]
fn test_parse_entry_header_colon_only() {
    let src = "x:";
    let header = header_from(src);
    assert_eq!(header.name.source_text(src), "x");
    assert!(header.type_info.is_none());
    assert!(header.first_description.is_none());
}

#[test]
fn test_parse_entry_header_varargs() {
    let src1 = "*args: Positional arguments";
    let header = header_from(src1);
    assert_eq!(header.name.source_text(src1), "*args");
    assert_eq!(
        header.first_description.unwrap().source_text(src1),
        "Positional arguments"
    );

    let src2 = "**kwargs (dict): Keyword arguments";
    let header = header_from_lenient(src2);
    assert_eq!(header.name.source_text(src2), "**kwargs");
    let ti = header.type_info.unwrap();
    assert_eq!(ti.type_range.unwrap().source_text(src2), "dict");
}

#[test]
fn test_parse_entry_header_no_space_after_colon() {
    let src = "name:Description";
    let header = header_from(src);
    assert_eq!(header.name.source_text(src), "name");
    assert!(header.type_info.is_none());
    assert_eq!(header.first_description.unwrap().source_text(src), "Description");
}

#[test]
fn test_parse_entry_header_extra_spaces_after_colon() {
    let src = "name:   Description";
    let header = header_from(src);
    assert_eq!(header.name.source_text(src), "name");
    assert!(header.type_info.is_none());
    assert_eq!(header.first_description.unwrap().source_text(src), "Description");
}

#[test]
fn test_parse_entry_header_no_space_before_bracket_strict() {
    let src = "name(int): Description";
    let header = header_from(src);
    // Strict mode: brackets without space are NOT treated as type
    assert_eq!(header.name.source_text(src), "name(int)");
    assert!(header.type_info.is_none());
    assert_eq!(header.first_description.unwrap().source_text(src), "Description");
}

#[test]
fn test_parse_entry_header_no_space_before_bracket_lenient() {
    let src = "name(int): Description";
    let header = header_from_lenient(src);
    // Lenient mode: brackets without space ARE treated as type
    assert_eq!(header.name.source_text(src), "name");
    assert!(header.type_info.is_some());
    let ti = header.type_info.unwrap();
    assert_eq!(ti.type_range.unwrap().source_text(src), "int");
    assert_eq!(header.first_description.unwrap().source_text(src), "Description");
}

#[test]
fn test_parse_entry_header_no_space_complex_type_lenient() {
    let src = "data(Dict[str, int]): Values";
    let header = header_from_lenient(src);
    assert_eq!(header.name.source_text(src), "data");
    let ti = header.type_info.unwrap();
    assert_eq!(ti.type_range.unwrap().source_text(src), "Dict[str, int]");
    assert_eq!(header.first_description.unwrap().source_text(src), "Values");
}
