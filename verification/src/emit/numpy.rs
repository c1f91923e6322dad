//! NumPy-style emitter: section headers underlined with dashes, entries as
//! `name : type` lines with indented descriptions.

use vstd::prelude::*;
use vstd::string::StrSliceExecFns;

use crate::emit::app;
use crate::emit::app2;
use crate::emit::app_joined;
use crate::emit::emit_directive;
use crate::emit::emit_indented_body;
use crate::emit::emit_multiline_with_indentation;
use crate::emit::directive_text;
use crate::emit::indented;
use crate::emit::joined;
use crate::emit::lemma_separated_push;
use crate::emit::lemma_take_push;
use crate::emit::multiline;
use crate::emit::opt_line;
use crate::emit::opt_text;
use crate::emit::paren_type;
use crate::emit::separated;
use crate::emit::indent_lines;
use crate::emit::push_separator;
use crate::emit::EmitOptions;
use crate::model::Attribute;
use crate::model::Block;
use crate::model::Directive;
use crate::model::Docstring;
use crate::model::ExceptionEntry;
use crate::model::FreeSectionKind;
use crate::model::Method;
use crate::model::Parameter;
use crate::model::Reference;
use crate::model::Return;
use crate::model::Section;
use crate::model::SectionKind;
use crate::model::SeeAlsoEntry;

verus! {

/// The NumPy header of a section kind.
pub open spec fn numpy_header(kind: SectionKind) -> Seq<char> {
    match kind {
        SectionKind::Parameters => "Parameters"@,
        SectionKind::KeywordParameters => "Keyword Parameters"@,
        SectionKind::OtherParameters => "Other Parameters"@,
        SectionKind::Receives => "Receives"@,
        SectionKind::Returns => "Returns"@,
        SectionKind::Yields => "Yields"@,
        SectionKind::Raises => "Raises"@,
        SectionKind::Warns => "Warns"@,
        SectionKind::Attributes => "Attributes"@,
        SectionKind::Methods => "Methods"@,
        SectionKind::SeeAlso => "See Also"@,
        SectionKind::References => "References"@,
        SectionKind::FreeText(k) => free_name(k),
    }
}

/// `n` dashes.
pub open spec fn dashes(n: nat) -> Seq<char> {
    Seq::new(n, |_i: int| '-')
}

/// A header line underlined by one dash per character.
pub open spec fn underlined(name: Seq<char>) -> Seq<char> {
    name + "\n"@ + dashes(name.len()) + "\n"@
}

/// A description on the following lines, indented by four.
pub open spec fn body_desc(o: Option<String>) -> Seq<char> {
    match o {
        Some(d) => indented(d@, 4),
        None => Seq::empty(),
    }
}

/// ` : type, optional, default: value`, when any of them is present.
pub open spec fn numpy_type_part(p: Parameter) -> Seq<char> {
    let has_type = p.type_annotation is Some;
    if has_type || p.is_optional || p.default_value is Some {
        " : "@ + opt_text(p.type_annotation) + (if p.is_optional {
            (if has_type {
                ", "@
            } else {
                Seq::empty()
            }) + "optional"@
        } else {
            Seq::empty()
        }) + (match p.default_value {
            Some(dv) => (if has_type || p.is_optional {
                ", "@
            } else {
                Seq::empty()
            }) + "default: "@ + dv@,
            None => Seq::empty(),
        })
    } else {
        Seq::empty()
    }
}

/// `names : type, optional, default: value`, then the description.
pub open spec fn numpy_parameter(p: Parameter) -> Seq<char> {
    joined(p.names@) + numpy_type_part(p) + "\n"@ + body_desc(p.description)
}

/// `name : type` (or a bare type), then the description.
pub open spec fn numpy_return(r: Return) -> Seq<char> {
    (match r.name {
        Some(name) => name@ + (match r.type_annotation {
            Some(ty) => " : "@ + ty@,
            None => Seq::empty(),
        }),
        None => opt_text(r.type_annotation),
    }) + "\n"@ + body_desc(r.description)
}

/// The exception type, then the description.
pub open spec fn numpy_exception(e: ExceptionEntry) -> Seq<char> {
    e.exception_type@ + "\n"@ + body_desc(e.description)
}

/// `names : type`, then the description.
pub open spec fn numpy_attribute(a: Attribute) -> Seq<char> {
    joined(a.names@) + (match a.type_annotation {
        Some(ty) => " : "@ + ty@,
        None => Seq::empty(),
    }) + "\n"@ + body_desc(a.description)
}

/// `name (type)`, then the description.
pub open spec fn numpy_method(m: Method) -> Seq<char> {
    m.name@ + paren_type(m.type_annotation) + "\n"@ + body_desc(m.description)
}

/// The names, then the description.
pub open spec fn numpy_see_also(item: SeeAlsoEntry) -> Seq<char> {
    joined(item.names@) + "\n"@ + body_desc(item.description)
}

/// `.. [label] content` (continuations indented by four), or the bare
/// content.
pub open spec fn numpy_reference(r: Reference) -> Seq<char> {
    (match r.label {
        Some(label) => ".. ["@ + label@ + "]"@ + (match r.content {
            Some(c) => " "@ + multiline(c@, 4),
            None => Seq::empty(),
        }),
        None => match r.content {
            Some(c) => multiline(c@, 4),
            None => Seq::empty(),
        },
    }) + "\n"@
}

/// The NumPy text of one block; a paragraph right after another one is
/// preceded by a blank line.
pub open spec fn numpy_block(b: Block, after_paragraph: bool) -> Seq<char> {
    match b {
        Block::Paragraph(text) => (if after_paragraph {
            "\n"@
        } else {
            Seq::empty()
        }) + text@ + "\n"@,
        Block::Parameter(p) => numpy_parameter(p),
        Block::Return(r) => numpy_return(r),
        Block::Exception(e) => numpy_exception(e),
        Block::Attribute(a) => numpy_attribute(a),
        Block::Method(m) => numpy_method(m),
        Block::SeeAlso(item) => numpy_see_also(item),
        Block::Reference(r) => numpy_reference(r),
    }
}

/// Whether a run of blocks ends with a paragraph.
pub open spec fn ends_with_paragraph(bs: Seq<Block>) -> bool {
    bs.len() > 0 && bs.last() is Paragraph
}

/// The NumPy text of a run of blocks, one after another.
pub open spec fn numpy_blocks(bs: Seq<Block>) -> Seq<char>
    decreases bs.len(),
{
    if bs.len() == 0 {
        Seq::empty()
    } else {
        numpy_blocks(bs.drop_last()) + numpy_block(bs.last(), ends_with_paragraph(bs.drop_last()))
    }
}

/// The NumPy text of a section: the underlined header, then its blocks.
pub open spec fn numpy_section(s: Section) -> Seq<char> {
    underlined(numpy_header(s.kind)) + numpy_blocks(s.blocks@)
}

/// The parts of a NumPy docstring: summary, directives, extended summary,
/// sections.
pub open spec fn numpy_parts(doc: Docstring) -> Seq<Seq<char>> {
    opt_line(doc.summary) + doc.directives@.map_values(|d: Directive| directive_text(d, 3)) + opt_line(
        doc.extended_summary,
    ) + doc.sections@.map_values(|s: Section| numpy_section(s))
}

/// The NumPy text of a docstring: its parts separated by blank lines.
pub open spec fn numpy_doc(doc: Docstring) -> Seq<char> {
    separated(numpy_parts(doc))
}

/// Emit a [`Docstring`] in NumPy style: summary, directives, extended
/// summary, then sections, each block separated from the one before it by
/// a blank line (a summary-less docstring does not open with one); with a
/// base indent, every non-empty line indented by it.
pub fn emit_numpy(doc: &Docstring, options: &EmitOptions) -> (r: String)
    ensures
        options.base_indent == 0 ==> r@ == numpy_doc(*doc),
        options.base_indent > 0 ==> r@ == indented(numpy_doc(*doc), options.base_indent as nat),
{
    let mut out = String::new();
    let ghost mut parts: Seq<Seq<char>> = Seq::empty();
    proof {
        assert(out@ =~= separated(parts));
    }
    let mut started = false;
    match &doc.summary {
        Some(s) => {
            proof {
                lemma_separated_push(parts, s@ + "\n"@);
                parts = parts.push(s@ + "\n"@);
            }
            app2(&mut out, s.as_str(), "\n");
            started = true;
        },
        None => {},
    }
    proof {
        assert(parts =~= opt_line(doc.summary));
    }
    let ghost p0 = parts;
    let mut i: usize = 0;
    while i < doc.directives.len()
        invariant
            i <= doc.directives@.len(),
            out@ == separated(parts),
            started == (parts.len() > 0),
            parts == p0 + doc.directives@.take(i as int).map_values(|d: Directive| directive_text(d, 3)),
        decreases doc.directives@.len() - i,
    {
        let ghost x = directive_text(doc.directives@[i as int], 3);
        proof {
            lemma_separated_push(parts, x);
        }
        push_separator(&mut out, started);
        emit_directive(&mut out, &doc.directives[i]);
        proof {
            assert(doc.directives@.take(i + 1).map_values(|d: Directive| directive_text(d, 3)) =~= doc.directives@.take(
                i as int,
            ).map_values(|d: Directive| directive_text(d, 3)).push(x));
            parts = parts.push(x);
            assert(out@ =~= separated(parts));
        }
        started = true;
        i = i + 1;
    }
    proof {
        assert(doc.directives@.take(i as int) =~= doc.directives@);
    }
    match &doc.extended_summary {
        Some(ext) => {
            proof {
                lemma_separated_push(parts, ext@ + "\n"@);
            }
            push_separator(&mut out, started);
            app2(&mut out, ext.as_str(), "\n");
            proof {
                parts = parts.push(ext@ + "\n"@);
                assert(out@ =~= separated(parts));
            }
            started = true;
        },
        None => {},
    }
    let ghost p1 = parts;
    proof {
        assert(p1 =~= opt_line(doc.summary) + doc.directives@.map_values(|d: Directive| directive_text(d, 3)) + opt_line(
            doc.extended_summary,
        ));
    }
    let mut k: usize = 0;
    while k < doc.sections.len()
        invariant
            k <= doc.sections@.len(),
            out@ == separated(parts),
            started == (parts.len() > 0),
            parts == p1 + doc.sections@.take(k as int).map_values(|s: Section| numpy_section(s)),
        decreases doc.sections@.len() - k,
    {
        let ghost x = numpy_section(doc.sections@[k as int]);
        proof {
            lemma_separated_push(parts, x);
        }
        push_separator(&mut out, started);
        emit_section(&mut out, &doc.sections[k]);
        proof {
            assert(doc.sections@.take(k + 1).map_values(|s: Section| numpy_section(s)) =~= doc.sections@.take(
                k as int,
            ).map_values(|s: Section| numpy_section(s)).push(x));
            parts = parts.push(x);
            assert(out@ =~= separated(parts));
        }
        started = true;
        k = k + 1;
    }
    proof {
        assert(doc.sections@.take(k as int) =~= doc.sections@);
        assert(parts =~= numpy_parts(*doc));
    }
    if options.base_indent == 0 {
        return out;
    }
    indent_lines(out.as_str(), options.base_indent)
}

/// The header text of a section kind.
pub fn section_header(kind: &SectionKind) -> (r: &str)
    ensures
        r@ == numpy_header(*kind),
{
    match kind {
        SectionKind::Parameters => "Parameters",
        SectionKind::KeywordParameters => "Keyword Parameters",
        SectionKind::OtherParameters => "Other Parameters",
        SectionKind::Receives => "Receives",
        SectionKind::Returns => "Returns",
        SectionKind::Yields => "Yields",
        SectionKind::Raises => "Raises",
        SectionKind::Warns => "Warns",
        SectionKind::Attributes => "Attributes",
        SectionKind::Methods => "Methods",
        SectionKind::SeeAlso => "See Also",
        SectionKind::References => "References",
        SectionKind::FreeText(k) => free_section_name(k),
    }
}

/// The header name of a free-text section kind.
pub open spec fn free_name(kind: FreeSectionKind) -> Seq<char> {
    match kind {
        FreeSectionKind::Notes => "Notes"@,
        FreeSectionKind::Examples => "Examples"@,
        FreeSectionKind::Warnings => "Warnings"@,
        FreeSectionKind::Todo => "Todo"@,
        FreeSectionKind::Attention => "Attention"@,
        FreeSectionKind::Caution => "Caution"@,
        FreeSectionKind::Danger => "Danger"@,
        FreeSectionKind::Error => "Error"@,
        FreeSectionKind::Hint => "Hint"@,
        FreeSectionKind::Important => "Important"@,
        FreeSectionKind::Tip => "Tip"@,
        FreeSectionKind::Unknown(name) => name@,
    }
}

/// The header text of a free-text section kind.
pub fn free_section_name(kind: &FreeSectionKind) -> (r: &str)
    ensures
        r@ == free_name(*kind),
{
    match kind {
        FreeSectionKind::Notes => "Notes",
        FreeSectionKind::Examples => "Examples",
        FreeSectionKind::Warnings => "Warnings",
        FreeSectionKind::Todo => "Todo",
        FreeSectionKind::Attention => "Attention",
        FreeSectionKind::Caution => "Caution",
        FreeSectionKind::Danger => "Danger",
        FreeSectionKind::Error => "Error",
        FreeSectionKind::Hint => "Hint",
        FreeSectionKind::Important => "Important",
        FreeSectionKind::Tip => "Tip",
        FreeSectionKind::Unknown(name) => name.as_str(),
    }
}

/// `name`, a newline, a dash per character of the name, a newline.
fn emit_section_header(out: &mut String, name: &str)
    ensures
        final(out)@ == old(out)@ + underlined(name@),
{
    app2(out, name, "\n");
    let ghost mid = out@;
    let n = name.unicode_len();
    let mut i: usize = 0;
    while i < n
        invariant
            i <= n,
            out@ == mid + dashes(i as nat),
        decreases n - i,
    {
        let dash = "-";
        proof {
            reveal_strlit("-");
        }
        app(out, dash);
        proof {
            assert(out@ =~= mid + dashes((i + 1) as nat));
        }
        i = i + 1;
    }
    app(out, "\n");
    proof {
        assert(out@ =~= old(out)@ + underlined(name@));
    }
}

/// Emit one section: the underlined header, then every block in order.
/// Adjacent prose paragraphs are separated by a blank line.
pub fn emit_section(out: &mut String, section: &Section)
    ensures
        final(out)@ == old(out)@ + numpy_section(*section),
{
    emit_section_header(out, section_header(&section.kind));
    let ghost after_header = out@;
    let ghost bs = section.blocks@;
    let mut prev_paragraph = false;
    let mut i: usize = 0;
    while i < section.blocks.len()
        invariant
            i <= bs.len(),
            bs == section.blocks@,
            out@ == after_header + numpy_blocks(bs.take(i as int)),
            prev_paragraph == ends_with_paragraph(bs.take(i as int)),
        decreases bs.len() - i,
    {
        let ghost before = out@;
        match &section.blocks[i] {
            Block::Paragraph(text) => {
                if prev_paragraph {
                    app(out, "\n");
                }
                app2(out, text.as_str(), "\n");
                prev_paragraph = true;
            },
            Block::Parameter(p) => {
                emit_parameter(out, p);
                prev_paragraph = false;
            },
            Block::Return(r) => {
                emit_return(out, r);
                prev_paragraph = false;
            },
            Block::Exception(e) => {
                emit_exception(out, e);
                prev_paragraph = false;
            },
            Block::Attribute(a) => {
                emit_attribute(out, a);
                prev_paragraph = false;
            },
            Block::Method(m) => {
                emit_method(out, m);
                prev_paragraph = false;
            },
            Block::SeeAlso(item) => {
                emit_see_also(out, item);
                prev_paragraph = false;
            },
            Block::Reference(r) => {
                emit_reference(out, r);
                prev_paragraph = false;
            },
        }
        proof {
            lemma_take_push(bs, i as int);
            assert(out@ =~= before + numpy_block(bs[i as int], ends_with_paragraph(bs.take(i as int))));
            assert(out@ =~= after_header + numpy_blocks(bs.take(i + 1)));
        }
        i = i + 1;
    }
    proof {
        assert(bs.take(i as int) =~= bs);
        assert(out@ =~= old(out)@ + numpy_section(*section));
    }
}

/// ` : type, optional, default: value`, when any of them is present.
fn emit_type_part(out: &mut String, p: &Parameter)
    ensures
        final(out)@ == old(out)@ + numpy_type_part(*p),
{
    let has_type = p.type_annotation.is_some();
    if has_type || p.is_optional || p.default_value.is_some() {
        app(out, " : ");
        match &p.type_annotation {
            Some(ty) => app(out, ty.as_str()),
            None => {},
        }
        let ghost typed = out@;
        if p.is_optional {
            if has_type {
                app(out, ", ");
            }
            app(out, "optional");
        }
        let ghost opt = out@;
        match &p.default_value {
            Some(dv) => {
                if has_type || p.is_optional {
                    app(out, ", ");
                }
                app2(out, "default: ", dv.as_str());
            },
            None => {},
        }
    }
    proof {
        assert(out@ =~= old(out)@ + numpy_type_part(*p));
    }
}

/// `names : type, optional, default: value`, then the indented
/// description.
pub fn emit_parameter(out: &mut String, p: &Parameter)
    ensures
        final(out)@ == old(out)@ + numpy_parameter(*p),
{
    app_joined(out, &p.names);
    emit_type_part(out, p);
    app(out, "\n");
    match &p.description {
        Some(d) => emit_indented_body(out, d.as_str(), 4),
        None => {},
    }
    proof {
        assert(out@ =~= old(out)@ + numpy_parameter(*p));
    }
}

/// `name : type` (or a bare type), then the indented description.
pub fn emit_return(out: &mut String, r: &Return)
    ensures
        final(out)@ == old(out)@ + numpy_return(*r),
{
    match &r.name {
        Some(name) => {
            app(out, name.as_str());
            match &r.type_annotation {
                Some(ty) => app2(out, " : ", ty.as_str()),
                None => {},
            }
        },
        None => match &r.type_annotation {
            Some(ty) => app(out, ty.as_str()),
            None => {},
        },
    }
    app(out, "\n");
    match &r.description {
        Some(d) => emit_indented_body(out, d.as_str(), 4),
        None => {},
    }
    proof {
        assert(out@ =~= old(out)@ + numpy_return(*r));
    }
}

/// The exception type, then the indented description.
pub fn emit_exception(out: &mut String, e: &ExceptionEntry)
    ensures
        final(out)@ == old(out)@ + numpy_exception(*e),
{
    app2(out, e.exception_type.as_str(), "\n");
    match &e.description {
        Some(d) => emit_indented_body(out, d.as_str(), 4),
        None => {},
    }
    proof {
        assert(out@ =~= old(out)@ + numpy_exception(*e));
    }
}

/// `names : type`, then the indented description.
pub fn emit_attribute(out: &mut String, a: &Attribute)
    ensures
        final(out)@ == old(out)@ + numpy_attribute(*a),
{
    app_joined(out, &a.names);
    match &a.type_annotation {
        Some(ty) => app2(out, " : ", ty.as_str()),
        None => {},
    }
    app(out, "\n");
    match &a.description {
        Some(d) => emit_indented_body(out, d.as_str(), 4),
        None => {},
    }
    proof {
        assert(out@ =~= old(out)@ + numpy_attribute(*a));
    }
}

/// `name (type)`, then the indented description.
pub fn emit_method(out: &mut String, m: &Method)
    ensures
        final(out)@ == old(out)@ + numpy_method(*m),
{
    app(out, m.name.as_str());
    match &m.type_annotation {
        Some(ty) => {
            app2(out, " (", ty.as_str());
            app(out, ")");
        },
        None => {},
    }
    app(out, "\n");
    match &m.description {
        Some(d) => emit_indented_body(out, d.as_str(), 4),
        None => {},
    }
    proof {
        assert(out@ =~= old(out)@ + numpy_method(*m));
    }
}

/// The names, then the indented description.
pub fn emit_see_also(out: &mut String, item: &SeeAlsoEntry)
    ensures
        final(out)@ == old(out)@ + numpy_see_also(*item),
{
    app_joined(out, &item.names);
    app(out, "\n");
    match &item.description {
        Some(d) => emit_indented_body(out, d.as_str(), 4),
        None => {},
    }
    proof {
        assert(out@ =~= old(out)@ + numpy_see_also(*item));
    }
}

/// `.. [label] content` (continuations indented by four), or the bare
/// content.
pub fn emit_reference(out: &mut String, r: &Reference)
    ensures
        final(out)@ == old(out)@ + numpy_reference(*r),
{
    match &r.label {
        Some(label) => {
            app2(out, ".. [", label.as_str());
            app(out, "]");
            match &r.content {
                Some(c) => {
                    app(out, " ");
                    emit_multiline_with_indentation(out, c.as_str(), 4);
                },
                None => {},
            }
        },
        None => match &r.content {
            Some(c) => emit_multiline_with_indentation(out, c.as_str(), 4),
            None => {},
        },
    }
    app(out, "\n");
    proof {
        assert(out@ =~= old(out)@ + numpy_reference(*r));
    }
}

} // verus!
