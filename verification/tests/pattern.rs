use pydocstring::parse::Style;
use pydocstring::pattern::lex::placeholder_stem;
use pydocstring::pattern::lex::substitute_metavars;
use pydocstring::pattern::wrap::wrap_section_body;
use pydocstring::pattern::FragmentKind;
use pydocstring::pattern::Pattern;
use pydocstring::syntax::SyntaxKind;

#[test]
fn test_substitute_single_and_multi() {
    let (out, occs) = substitute_metavars("$NAME ($TYPE): $$$REST");
    assert_eq!(occs.len(), 3);
    assert_eq!(occs[0].name, "NAME");
    assert!(!occs[0].multi);
    assert_eq!(occs[2].name, "REST");
    assert!(occs[2].multi);
    assert_eq!(out, "PYDOCMV0X (PYDOCMV1X): PYDOCMV2X");
}

#[test]
fn test_substitute_literals() {
    // Lowercase, digits, word-adjacent, and double-dollar stay literal.
    for text in ["$x", "$3", "a$B", "$$B", "cost: $5", "US$ 3"] {
        let (out, occs) = substitute_metavars(text);
        assert!(occs.is_empty(), "{text:?} should have no metavariables");
        assert_eq!(out, text);
    }
}

#[test]
fn test_substitute_identifier_charset() {
    let (_, occs) = substitute_metavars("$A_2B $Aa");
    // `$Aa`: identifier stops before the lowercase letter.
    assert_eq!(occs.len(), 2);
    assert_eq!(occs[0].name, "A_2B");
    assert_eq!(occs[1].name, "A");
}

#[test]
fn test_placeholder_stem_probing() {
    assert_eq!(placeholder_stem("no collision"), "PYDOCMV");
    assert_eq!(placeholder_stem("contains PYDOCMV literal"), "PYDOCMVQ");
    assert_eq!(placeholder_stem("PYDOCMV and PYDOCMVQ"), "PYDOCMVQQ");
}

#[test]
fn test_wrap_section_body_google_indents_and_keeps_blank_lines() {
    let wrapped = wrap_section_body(Style::Google, "Args", "x: d\n\n    more\n");
    assert_eq!(wrapped, "Args:\n    x: d\n\n        more\n");
}

#[test]
fn test_wrap_section_body_numpy_underline_matches_header() {
    let wrapped = wrap_section_body(Style::NumPy, "Keyword Parameters", "x : int");
    assert_eq!(wrapped, "Keyword Parameters\n------------------\nx : int\n");
}

#[test]
fn pattern_whitespace_only_is_unparsable() {
    assert!(Pattern::new(Style::Google, "   \n  ").is_err());
    assert!(Pattern::new(Style::Google, "").is_err());
}

#[test]
fn pattern_metavariable_table_lists_occurrences_in_order() {
    let p = Pattern::new(Style::Google, "$NAME ($TYPE): $DESC").unwrap();
    assert_eq!(p.style(), Style::Google);
    assert_eq!(p.text(), "$NAME ($TYPE): $DESC");
    assert!(!p.readings().is_empty());
    for reading in p.readings() {
        let names: Vec<&str> = reading.metavars().iter().map(|m| m.name()).collect();
        assert_eq!(names, vec!["NAME", "TYPE", "DESC"]);
    }
    // The primary reading is an entry under the parameter family.
    assert_eq!(p.fragment_kind(), FragmentKind::Entry);
    assert_eq!(p.fragment().kind(), SyntaxKind::ENTRY);
    assert!(p.metavars()[0].site().is_exact());
    assert_eq!(p.metavars()[0].site().kind(), SyntaxKind::NAME);
}

#[test]
fn pattern_document_reading_is_last() {
    let p = Pattern::new(Style::Google, "Summary line.").unwrap();
    let last = p.readings().last().unwrap();
    assert_eq!(last.fragment_kind(), FragmentKind::Document);
    assert_eq!(last.fragment().kind(), SyntaxKind::DOCUMENT);
}

#[test]
fn blank_text_is_unparsable_in_every_style() {
    for style in [Style::Google, Style::NumPy, Style::Plain] {
        assert!(Pattern::new(style, "").is_err());
        assert!(Pattern::new(style, " \t\n\n   ").is_err());
    }
    if let Ok(plain) = Pattern::new(Style::Plain, "Summary $X.") {
        assert_eq!(plain.readings().len(), 1);
        assert_eq!(plain.readings()[0].fragment_kind(), FragmentKind::Document);
    }
}
