use pydocstring::emit::google::emit_google;
use pydocstring::emit::numpy::emit_numpy;
use pydocstring::emit::sphinx::emit_sphinx;
use pydocstring::emit::EmitOptions;
use pydocstring::model::Block;
use pydocstring::model::Directive;
use pydocstring::model::Docstring;
use pydocstring::model::ExceptionEntry;
use pydocstring::model::FreeSectionKind;
use pydocstring::model::Method;
use pydocstring::model::Parameter;
use pydocstring::model::Return;
use pydocstring::model::Section;
use pydocstring::model::SectionKind;

fn param(name: &str, ty: Option<&str>, desc: Option<&str>, optional: bool, default: Option<&str>) -> Parameter {
    Parameter {
        names: vec![name.to_string()],
        type_annotation: ty.map(|s| s.to_string()),
        description: desc.map(|s| s.to_string()),
        is_optional: optional,
        default_value: default.map(|s| s.to_string()),
    }
}

fn sample() -> Docstring {
    let mut doc = Docstring::default();
    doc.summary = Some("Brief summary.".to_string());
    doc.sections.push(Section::parameters(vec![
        param("x", Some("int"), Some("The value.\nSecond line."), false, None),
        param("y", None, None, true, Some("3")),
    ]));
    doc.sections.push(Section::returns_of(vec![Return {
        name: None,
        type_annotation: Some("bool".to_string()),
        description: Some("Whether it worked.".to_string()),
    }]));
    doc
}

#[test]
fn google_emits_header_entries_and_continuations() {
    let text = emit_google(&sample(), &EmitOptions::default());
    assert_eq!(
        text,
        "Brief summary.\n\nArgs:\n    x (int): The value.\n        Second line.\n    y (optional):\n\nReturns:\n    bool: Whether it worked.\n"
    );
}

#[test]
fn numpy_emits_underlined_headers() {
    let text = emit_numpy(&sample(), &EmitOptions::default());
    assert_eq!(
        text,
        "Brief summary.\n\nParameters\n----------\nx : int\n    The value.\n    Second line.\ny : optional, default: 3\n\nReturns\n-------\nbool\n    Whether it worked.\n"
    );
}

#[test]
fn sphinx_emits_field_lists() {
    let text = emit_sphinx(&sample(), &EmitOptions::default());
    assert_eq!(
        text,
        "Brief summary.\n\n:param x: The value.\n    Second line.\n:type x: int\n:param y: defaults to 3\n:type y: optional\n\n:return: Whether it worked.\n:rtype: bool\n"
    );
}

#[test]
fn base_indent_indents_non_empty_lines() {
    let options = EmitOptions::default().with_base_indent(4);
    let text = emit_google(&sample(), &options);
    assert_eq!(
        text,
        "    Brief summary.\n\n    Args:\n        x (int): The value.\n            Second line.\n        y (optional):\n\n    Returns:\n        bool: Whether it worked.\n"
    );
}

#[test]
fn empty_docstring_emits_nothing() {
    let doc = Docstring::default();
    assert_eq!(emit_google(&doc, &EmitOptions::default()), "");
    assert_eq!(emit_numpy(&doc, &EmitOptions::default()), "");
    assert_eq!(emit_sphinx(&doc, &EmitOptions::default()), "");
}

#[test]
fn summaryless_docstring_does_not_open_with_a_blank_line() {
    let mut doc = Docstring::default();
    doc.sections.push(Section::raises(vec![ExceptionEntry {
        exception_type: "ValueError".to_string(),
        description: Some("If bad.".to_string()),
    }]));
    assert_eq!(emit_numpy(&doc, &EmitOptions::default()), "Raises\n------\nValueError\n    If bad.\n");
    assert_eq!(emit_google(&doc, &EmitOptions::default()), "Raises:\n    ValueError: If bad.\n");
}

#[test]
fn numpy_underline_counts_characters() {
    let mut doc = Docstring::default();
    doc.sections.push(Section::free_text(FreeSectionKind::Unknown("Übersicht".to_string()), "Text.".to_string()));
    assert_eq!(emit_numpy(&doc, &EmitOptions::default()), "Übersicht\n---------\nText.\n");
}

#[test]
fn directives_come_after_the_summary() {
    let mut doc = Docstring::default();
    doc.summary = Some("Old.".to_string());
    doc.directives.push(Directive {
        name: "deprecated".to_string(),
        argument: Some("1.2".to_string()),
        description: Some("Use new.".to_string()),
    });
    assert_eq!(emit_numpy(&doc, &EmitOptions::default()), "Old.\n\n.. deprecated:: 1.2\n   Use new.\n");
    assert_eq!(emit_sphinx(&doc, &EmitOptions::default()), "Old.\n\n.. deprecated:: 1.2\n    Use new.\n");
}

#[test]
fn numpy_separates_adjacent_paragraphs() {
    let mut doc = Docstring::default();
    doc.sections.push(Section::new(
        SectionKind::FreeText(FreeSectionKind::Notes),
        vec![Block::Paragraph("One.".to_string()), Block::Paragraph("Two.".to_string())],
    ));
    assert_eq!(emit_numpy(&doc, &EmitOptions::default()), "Notes\n-----\nOne.\n\nTwo.\n");
    // Without a summary, each Sphinx section still opens with its blank line.
    assert_eq!(emit_sphinx(&doc, &EmitOptions::default()), "\n.. note::\n\n    One.\n\n    Two.\n");
}

#[test]
fn sphinx_methods_share_one_rubric() {
    let mut doc = Docstring::default();
    doc.sections.push(Section::methods(vec![
        Method { name: "a".to_string(), type_annotation: None, description: Some("First.".to_string()) },
        Method { name: "b".to_string(), type_annotation: Some("x".to_string()), description: None },
    ]));
    assert_eq!(emit_sphinx(&doc, &EmitOptions::default()), "\n.. rubric:: Methods\n\n* a: First.\n* b(x)\n");
}

#[test]
fn crlf_descriptions_continue_without_carriage_returns() {
    let mut doc = Docstring::default();
    doc.sections.push(Section::parameters(vec![param("x", None, Some("a\r\nb"), false, None)]));
    assert_eq!(emit_google(&doc, &EmitOptions::default()), "Args:\n    x: a\n        b\n");
}
