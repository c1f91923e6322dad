//! Google-style emitter: `Name:` section headers, entries indented by four
//! spaces as `name (type): description`.

use vstd::prelude::*;

use crate::emit::app;
use crate::emit::app2;
use crate::emit::app_joined;
use crate::emit::emit_directive;
use crate::emit::emit_multiline_with_indentation;
use crate::emit::directive_text;
use crate::emit::indented;
use crate::emit::joined;
use crate::emit::lemma_take_push;
use crate::emit::multiline;
use crate::emit::opt_text;
use crate::emit::opt_line;
use crate::emit::paren_type;
use crate::emit::lemma_separated_push;
use crate::emit::separated;
use crate::emit::indent_lines;
use crate::emit::numpy::free_name;
use crate::emit::numpy::free_section_name;
use crate::emit::push_separator;
use crate::emit::EmitOptions;
use crate::model::Attribute;
use crate::model::Block;
use crate::model::Directive;
use crate::model::Docstring;
use crate::model::ExceptionEntry;
use crate::model::FreeSectionKind;
use crate::model::Method;
use crate::model::Parameter;
use crate::model::Reference;
use crate::model::Return;
use crate::model::Section;
use crate::model::SectionKind;
use crate::model::SeeAlsoEntry;

verus! {

/// The Google header of a section kind.
pub open spec fn google_header(kind: SectionKind) -> Seq<char> {
    match kind {
        SectionKind::Parameters => "Args"@,
        SectionKind::KeywordParameters => "Keyword Args"@,
        SectionKind::OtherParameters => "Other Parameters"@,
        SectionKind::Receives => "Receives"@,
        SectionKind::Returns => "Returns"@,
        SectionKind::Yields => "Yields"@,
        SectionKind::Raises => "Raises"@,
        SectionKind::Warns => "Warns"@,
        SectionKind::Attributes => "Attributes"@,
        SectionKind::Methods => "Methods"@,
        SectionKind::SeeAlso => "See Also"@,
        SectionKind::References => "References"@,
        SectionKind::FreeText(k) => free_name(k),
    }
}

/// A description after a colon: a space, then the text continued at `ind`.
pub open spec fn described(o: Option<String>, ind: nat) -> Seq<char> {
    match o {
        Some(d) => " "@ + multiline(d@, ind),
        None => Seq::empty(),
    }
}

/// `    names (type, optional): description`.
pub open spec fn google_parameter(p: Parameter) -> Seq<char> {
    "    "@ + joined(p.names@) + (if p.type_annotation is Some || p.is_optional {
        " ("@ + opt_text(p.type_annotation) + (if p.is_optional {
            (if p.type_annotation is Some {
                ", "@
            } else {
                Seq::empty()
            }) + "optional"@
        } else {
            Seq::empty()
        }) + ")"@
    } else {
        Seq::empty()
    }) + ":"@ + described(p.description, 8) + "\n"@
}

/// `    type: description`, or the bare description.
pub open spec fn google_return(r: Return) -> Seq<char> {
    "    "@ + (match r.type_annotation {
        Some(ty) => ty@ + ":"@ + described(r.description, 4),
        None => opt_text(r.description),
    }) + "\n"@
}

/// `    Type: description`.
pub open spec fn google_exception(e: ExceptionEntry) -> Seq<char> {
    "    "@ + e.exception_type@ + ":"@ + described(e.description, 8) + "\n"@
}

/// `    names (type): description`.
pub open spec fn google_attribute(a: Attribute) -> Seq<char> {
    "    "@ + joined(a.names@) + paren_type(a.type_annotation) + ":"@ + described(a.description, 8) + "\n"@
}

/// `    name (type): description`.
pub open spec fn google_method(m: Method) -> Seq<char> {
    "    "@ + m.name@ + paren_type(m.type_annotation) + ":"@ + described(m.description, 8) + "\n"@
}

/// `    names: description`.
pub open spec fn google_see_also(item: SeeAlsoEntry) -> Seq<char> {
    "    "@ + joined(item.names@) + (match item.description {
        Some(d) => ": "@ + multiline(d@, 8),
        None => Seq::empty(),
    }) + "\n"@
}

/// `    .. [label] content`.
pub open spec fn google_reference(r: Reference) -> Seq<char> {
    "    "@ + (match r.label {
        Some(label) => ".. ["@ + label@ + "] "@,
        None => Seq::empty(),
    }) + (match r.content {
        Some(c) => multiline(c@, 8),
        None => Seq::empty(),
    }) + "\n"@
}

/// The Google text of one block.
pub open spec fn google_block(b: Block) -> Seq<char> {
    match b {
        Block::Paragraph(text) => "    "@ + multiline(text@, 4) + "\n"@,
        Block::Parameter(p) => google_parameter(p),
        Block::Return(r) => google_return(r),
        Block::Exception(e) => google_exception(e),
        Block::Attribute(a) => google_attribute(a),
        Block::Method(m) => google_method(m),
        Block::SeeAlso(item) => google_see_also(item),
        Block::Reference(r) => google_reference(r),
    }
}

/// The Google text of a run of blocks, one after another.
pub open spec fn google_blocks(bs: Seq<Block>) -> Seq<char>
    decreases bs.len(),
{
    if bs.len() == 0 {
        Seq::empty()
    } else {
        google_blocks(bs.drop_last()) + google_block(bs.last())
    }
}

/// The Google text of a section: `Header:`, then its blocks.
pub open spec fn google_section(s: Section) -> Seq<char> {
    google_header(s.kind) + ":\n"@ + google_blocks(s.blocks@)
}

/// The parts of a Google docstring: summary, directives, extended
/// summary, sections.
pub open spec fn google_parts(doc: Docstring) -> Seq<Seq<char>> {
    opt_line(doc.summary) + doc.directives@.map_values(|d: Directive| directive_text(d, 3)) + opt_line(
        doc.extended_summary,
    ) + doc.sections@.map_values(|s: Section| google_section(s))
}

/// The Google text of a docstring: its parts separated by blank lines.
pub open spec fn google_doc(doc: Docstring) -> Seq<char> {
    separated(google_parts(doc))
}

/// Emit a [`Docstring`] in Google style: summary, directives, extended
/// summary, then sections, each separated from what precedes it by a blank
/// line; with a base indent, every non-empty line indented by it.
pub fn emit_google(doc: &Docstring, options: &EmitOptions) -> (r: String)
    ensures
        options.base_indent == 0 ==> r@ == google_doc(*doc),
        options.base_indent > 0 ==> r@ == indented(google_doc(*doc), options.base_indent as nat),
{
    let mut out = String::new();
    let ghost mut parts: Seq<Seq<char>> = Seq::empty();
    proof {
        assert(out@ =~= separated(parts));
    }
    let mut started = false;
    match &doc.summary {
        Some(s) => {
            proof {
                lemma_separated_push(parts, s@ + "\n"@);
                parts = parts.push(s@ + "\n"@);
            }
            app2(&mut out, s.as_str(), "\n");
            started = true;
        },
        None => {},
    }
    proof {
        assert(parts =~= opt_line(doc.summary));
    }
    let ghost p0 = parts;
    let mut i: usize = 0;
    while i < doc.directives.len()
        invariant
            i <= doc.directives@.len(),
            out@ == separated(parts),
            started == (parts.len() > 0),
            parts == p0 + doc.directives@.take(i as int).map_values(|d: Directive| directive_text(d, 3)),
        decreases doc.directives@.len() - i,
    {
        let ghost x = directive_text(doc.directives@[i as int], 3);
        proof {
            lemma_separated_push(parts, x);
        }
        push_separator(&mut out, started);
        emit_directive(&mut out, &doc.directives[i]);
        proof {
            assert(doc.directives@.take(i + 1).map_values(|d: Directive| directive_text(d, 3)) =~= doc.directives@.take(
                i as int,
            ).map_values(|d: Directive| directive_text(d, 3)).push(x));
            parts = parts.push(x);
            assert(out@ =~= separated(parts));
        }
        started = true;
        i = i + 1;
    }
    proof {
        assert(doc.directives@.take(i as int) =~= doc.directives@);
    }
    match &doc.extended_summary {
        Some(ext) => {
            proof {
                lemma_separated_push(parts, ext@ + "\n"@);
            }
            push_separator(&mut out, started);
            app2(&mut out, ext.as_str(), "\n");
            proof {
                parts = parts.push(ext@ + "\n"@);
                assert(out@ =~= separated(parts));
            }
            started = true;
        },
        None => {},
    }
    let ghost p1 = parts;
    proof {
        assert(p1 =~= opt_line(doc.summary) + doc.directives@.map_values(|d: Directive| directive_text(d, 3)) + opt_line(
            doc.extended_summary,
        ));
    }
    let mut k: usize = 0;
    while k < doc.sections.len()
        invariant
            k <= doc.sections@.len(),
            out@ == separated(parts),
            started == (parts.len() > 0),
            parts == p1 + doc.sections@.take(k as int).map_values(|s: Section| google_section(s)),
        decreases doc.sections@.len() - k,
    {
        let ghost x = google_section(doc.sections@[k as int]);
        proof {
            lemma_separated_push(parts, x);
        }
        push_separator(&mut out, started);
        emit_section(&mut out, &doc.sections[k]);
        proof {
            assert(doc.sections@.take(k + 1).map_values(|s: Section| google_section(s)) =~= doc.sections@.take(
                k as int,
            ).map_values(|s: Section| google_section(s)).push(x));
            parts = parts.push(x);
            assert(out@ =~= separated(parts));
        }
        started = true;
        k = k + 1;
    }
    proof {
        assert(doc.sections@.take(k as int) =~= doc.sections@);
        assert(parts =~= google_parts(*doc));
    }
    if options.base_indent == 0 {
        return out;
    }
    indent_lines(out.as_str(), options.base_indent)
}

/// The Google header text of a section kind.
pub fn section_header(kind: &SectionKind) -> (r: &str)
    ensures
        r@ == google_header(*kind),
{
    match kind {
        SectionKind::Parameters => "Args",
        SectionKind::KeywordParameters => "Keyword Args",
        SectionKind::OtherParameters => "Other Parameters",
        SectionKind::Receives => "Receives",
        SectionKind::Returns => "Returns",
        SectionKind::Yields => "Yields",
        SectionKind::Raises => "Raises",
        SectionKind::Warns => "Warns",
        SectionKind::Attributes => "Attributes",
        SectionKind::Methods => "Methods",
        SectionKind::SeeAlso => "See Also",
        SectionKind::References => "References",
        SectionKind::FreeText(k) => free_section_name(k),
    }
}

/// Emit one section: `Header:`, then every block indented by four spaces.
pub fn emit_section(out: &mut String, section: &Section)
    ensures
        final(out)@ == old(out)@ + google_section(*section),
{
    app2(out, section_header(&section.kind), ":\n");
    let ghost after_header = out@;
    let ghost bs = section.blocks@;
    let mut i: usize = 0;
    while i < section.blocks.len()
        invariant
            i <= bs.len(),
            bs == section.blocks@,
            out@ == after_header + google_blocks(bs.take(i as int)),
        decreases bs.len() - i,
    {
        let ghost before = out@;
        match &section.blocks[i] {
            Block::Paragraph(text) => {
                app(out, "    ");
                emit_multiline_with_indentation(out, text.as_str(), 4);
                app(out, "\n");
            },
            Block::Parameter(p) => emit_parameter(out, p),
            Block::Return(r) => emit_return(out, r),
            Block::Exception(e) => emit_exception(out, e),
            Block::Attribute(a) => emit_attribute(out, a),
            Block::Method(m) => emit_method(out, m),
            Block::SeeAlso(item) => emit_see_also(out, item),
            Block::Reference(r) => emit_reference(out, r),
        }
        proof {
            lemma_take_push(bs, i as int);
            assert(out@ =~= before + google_block(bs[i as int]));
            assert(out@ =~= after_header + google_blocks(bs.take(i + 1)));
        }
        i = i + 1;
    }
    proof {
        assert(bs.take(i as int) =~= bs);
        assert(out@ =~= old(out)@ + google_section(*section));
    }
}

/// `    names (type, optional): description`.
pub fn emit_parameter(out: &mut String, p: &Parameter)
    ensures
        final(out)@ == old(out)@ + google_parameter(*p),
{
    app(out, "    ");
    app_joined(out, &p.names);
    let ghost head = out@;
    let has_type = p.type_annotation.is_some();
    if has_type || p.is_optional {
        app(out, " (");
        match &p.type_annotation {
            Some(ty) => app(out, ty.as_str()),
            None => {},
        }
        if p.is_optional {
            if has_type {
                app(out, ", ");
            }
            app(out, "optional");
        }
        app(out, ")");
    }
    let ghost typed = out@;
    app(out, ":");
    match &p.description {
        Some(d) => {
            app(out, " ");
            emit_multiline_with_indentation(out, d.as_str(), 8);
        },
        None => {},
    }
    app(out, "\n");
    proof {
        assert(out@ =~= old(out)@ + google_parameter(*p));
    }
}

/// `    type: description`, or the bare description.
pub fn emit_return(out: &mut String, r: &Return)
    ensures
        final(out)@ == old(out)@ + google_return(*r),
{
    app(out, "    ");
    match &r.type_annotation {
        Some(ty) => {
            app2(out, ty.as_str(), ":");
            match &r.description {
                Some(d) => {
                    app(out, " ");
                    emit_multiline_with_indentation(out, d.as_str(), 4);
                },
                None => {},
            }
        },
        None => match &r.description {
            Some(d) => app(out, d.as_str()),
            None => {},
        },
    }
    app(out, "\n");
    proof {
        assert(out@ =~= old(out)@ + google_return(*r));
    }
}

/// `    Type: description`.
pub fn emit_exception(out: &mut String, e: &ExceptionEntry)
    ensures
        final(out)@ == old(out)@ + google_exception(*e),
{
    app(out, "    ");
    app2(out, e.exception_type.as_str(), ":");
    match &e.description {
        Some(d) => {
            app(out, " ");
            emit_multiline_with_indentation(out, d.as_str(), 8);
        },
        None => {},
    }
    app(out, "\n");
    proof {
        assert(out@ =~= old(out)@ + google_exception(*e));
    }
}

/// `    names (type): description`.
pub fn emit_attribute(out: &mut String, a: &Attribute)
    ensures
        final(out)@ == old(out)@ + google_attribute(*a),
{
    app(out, "    ");
    app_joined(out, &a.names);
    match &a.type_annotation {
        Some(ty) => {
            app2(out, " (", ty.as_str());
            app(out, ")");
        },
        None => {},
    }
    app(out, ":");
    match &a.description {
        Some(d) => {
            app(out, " ");
            emit_multiline_with_indentation(out, d.as_str(), 8);
        },
        None => {},
    }
    app(out, "\n");
    proof {
        assert(out@ =~= old(out)@ + google_attribute(*a));
    }
}

/// `    name (type): description`.
pub fn emit_method(out: &mut String, m: &Method)
    ensures
        final(out)@ == old(out)@ + google_method(*m),
{
    app(out, "    ");
    app(out, m.name.as_str());
    match &m.type_annotation {
        Some(ty) => {
            app2(out, " (", ty.as_str());
            app(out, ")");
        },
        None => {},
    }
    app(out, ":");
    match &m.description {
        Some(d) => {
            app(out, " ");
            emit_multiline_with_indentation(out, d.as_str(), 8);
        },
        None => {},
    }
    app(out, "\n");
    proof {
        assert(out@ =~= old(out)@ + google_method(*m));
    }
}

/// `    names: description`.
pub fn emit_see_also(out: &mut String, item: &SeeAlsoEntry)
    ensures
        final(out)@ == old(out)@ + google_see_also(*item),
{
    app(out, "    ");
    app_joined(out, &item.names);
    match &item.description {
        Some(d) => {
            app(out, ": ");
            emit_multiline_with_indentation(out, d.as_str(), 8);
        },
        None => {},
    }
    app(out, "\n");
    proof {
        assert(out@ =~= old(out)@ + google_see_also(*item));
    }
}

/// `    .. [label] content`.
pub fn emit_reference(out: &mut String, r: &Reference)
    ensures
        final(out)@ == old(out)@ + google_reference(*r),
{
    app(out, "    ");
    match &r.label {
        Some(label) => {
            app2(out, ".. [", label.as_str());
            app(out, "] ");
        },
        None => {},
    }
    match &r.content {
        Some(c) => emit_multiline_with_indentation(out, c.as_str(), 8),
        None => {},
    }
    app(out, "\n");
    proof {
        assert(out@ =~= old(out)@ + google_reference(*r));
    }
}

} // verus!
