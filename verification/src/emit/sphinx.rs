//! Sphinx (reStructuredText) emitter: field lists (`:param x:`,
//! `:type x:`, `:return:`, `:rtype:`, `:raises E:`, `:var a:`), directives
//! and admonitions. Emit-only: no parser reads this style back.

use vstd::prelude::*;

use crate::emit::app;
use crate::emit::app2;
use crate::emit::app_joined;
use crate::emit::emit_indented_body;
use crate::emit::emit_multiline_with_indentation;
use crate::emit::app_directive;
use crate::emit::directive_text;
use crate::emit::google::described;
use crate::emit::indented;
use crate::emit::join_sep;
use crate::emit::joined;
use crate::emit::lemma_join_push;
use crate::emit::lemma_take_push;
use crate::emit::multiline;
use crate::emit::opt_line;
use crate::emit::opt_text;
use crate::emit::indent_lines;
use crate::emit::EmitOptions;
use crate::model::Attribute;
use crate::model::Block;
use crate::model::Directive;
use crate::model::Docstring;
use crate::model::ExceptionEntry;
use crate::model::FreeSectionKind;
use crate::model::Method;
use crate::model::Parameter;
use crate::model::Reference;
use crate::model::Return;
use crate::model::Section;
use crate::model::SectionKind;
use crate::model::SeeAlsoEntry;

verus! {

/// Each part preceded by a newline.
pub open spec fn lead_each(ps: Seq<Seq<char>>) -> Seq<char>
    decreases ps.len(),
{
    if ps.len() == 0 {
        Seq::empty()
    } else {
        lead_each(ps.drop_last()) + "\n"@ + ps.last()
    }
}

/// The Sphinx text of a docstring: the summary line, then the extended
/// summary, directives and sections, each preceded by a blank line.
pub open spec fn sphinx_doc(doc: Docstring) -> Seq<char> {
    (match doc.summary {
        Some(s) => s@ + "\n"@,
        None => Seq::empty(),
    }) + lead_each(
        opt_line(doc.extended_summary) + doc.directives@.map_values(|d: Directive| directive_text(d, 4))
            + doc.sections@.map_values(|s: Section| sphinx_section(s)),
    )
}

/// The admonition directive of a free-text kind.
pub open spec fn admonition(kind: FreeSectionKind) -> Seq<char> {
    match kind {
        FreeSectionKind::Notes => "note"@,
        FreeSectionKind::Warnings => "warning"@,
        FreeSectionKind::Todo => "todo"@,
        FreeSectionKind::Attention => "attention"@,
        FreeSectionKind::Caution => "caution"@,
        FreeSectionKind::Danger => "danger"@,
        FreeSectionKind::Error => "error"@,
        FreeSectionKind::Hint => "hint"@,
        FreeSectionKind::Important => "important"@,
        FreeSectionKind::Tip => "tip"@,
        FreeSectionKind::Examples => "rubric"@,
        FreeSectionKind::Unknown(_) => "admonition"@,
    }
}

/// A free-text body under its directive: Examples as a rubric with the
/// body unindented, an unknown kind as a titled admonition, the rest as
/// their admonition with the body indented by four.
pub open spec fn free_text(kind: FreeSectionKind, body: Seq<char>) -> Seq<char> {
    match kind {
        FreeSectionKind::Examples => ".. rubric:: Examples\n\n"@ + indented(body, 0),
        FreeSectionKind::Unknown(name) => ".. admonition:: "@ + name@ + "\n\n"@ + indented(body, 4),
        _ => ".. "@ + admonition(kind) + "::\n\n"@ + indented(body, 4),
    }
}

/// The texts of the paragraphs among some blocks, in order.
pub open spec fn para_texts(bs: Seq<Block>) -> Seq<Seq<char>>
    decreases bs.len(),
{
    if bs.len() == 0 {
        Seq::empty()
    } else {
        match bs.last() {
            Block::Paragraph(p) => para_texts(bs.drop_last()).push(p@),
            _ => para_texts(bs.drop_last()),
        }
    }
}

/// Whether the blocks emitted so far end with a paragraph (skipped
/// paragraphs do not count).
pub open spec fn after_para(bs: Seq<Block>, skip: bool) -> bool
    decreases bs.len(),
{
    if bs.len() == 0 {
        false
    } else {
        match bs.last() {
            Block::Paragraph(_) => if skip {
                after_para(bs.drop_last(), skip)
            } else {
                true
            },
            _ => false,
        }
    }
}

/// Whether some block is a method.
pub open spec fn has_method(bs: Seq<Block>) -> bool
    decreases bs.len(),
{
    bs.len() > 0 && (bs.last() is Method || has_method(bs.drop_last()))
}

/// Whether some block is a see-also item.
pub open spec fn has_see_also(bs: Seq<Block>) -> bool
    decreases bs.len(),
{
    bs.len() > 0 && (bs.last() is SeeAlso || has_see_also(bs.drop_last()))
}

/// The description of a parameter with its default: `description,
/// defaults to value` (or `defaults to value` alone).
pub open spec fn param_desc(p: Parameter) -> Seq<char> {
    opt_text(p.description) + (match p.default_value {
        Some(dv) => (if opt_text(p.description).len() == 0 {
            "defaults to "@
        } else {
            ", defaults to "@
        }) + dv@,
        None => Seq::empty(),
    })
}

/// `:type name: type, optional`, with a type or the optional marker.
pub open spec fn type_field(name: Seq<char>, p: Parameter) -> Seq<char> {
    let has_type = p.type_annotation is Some;
    if has_type || p.is_optional {
        ":type "@ + name + ": "@ + opt_text(p.type_annotation) + (if p.is_optional {
            (if has_type {
                ", "@
            } else {
                Seq::empty()
            }) + "optional"@
        } else {
            Seq::empty()
        }) + "\n"@
    } else {
        Seq::empty()
    }
}

/// `:param name: description` and, with a type or the optional marker,
/// `:type name: type, optional`.
pub open spec fn param_fields(name: Seq<char>, p: Parameter) -> Seq<char> {
    ":param "@ + name + ":"@ + (if param_desc(p).len() > 0 {
        " "@ + multiline(param_desc(p), 4)
    } else {
        Seq::empty()
    }) + "\n"@ + type_field(name, p)
}

/// The parameter fields for each of some names.
pub open spec fn params_for(names: Seq<String>, p: Parameter) -> Seq<char>
    decreases names.len(),
{
    if names.len() == 0 {
        Seq::empty()
    } else {
        params_for(names.drop_last(), p) + param_fields(names.last()@, p)
    }
}

/// `:return: description` and `:rtype: type`.
pub open spec fn sphinx_return(r: Return) -> Seq<char> {
    ":return:"@ + described(r.description, 4) + "\n"@ + (match r.type_annotation {
        Some(ty) => ":rtype: "@ + ty@ + "\n"@,
        None => Seq::empty(),
    })
}

/// `:raises Type: description`.
pub open spec fn sphinx_exception(e: ExceptionEntry) -> Seq<char> {
    ":raises "@ + e.exception_type@ + ":"@ + described(e.description, 4) + "\n"@
}

/// A `.. warning::` admonition holding `Type: description`.
pub open spec fn sphinx_warning(e: ExceptionEntry) -> Seq<char> {
    ".. warning::\n\n"@ + indented(
        e.exception_type@ + (match e.description {
            Some(d) => ": "@ + d@,
            None => Seq::empty(),
        }),
        4,
    )
}

/// `:var name: description` and `:vartype name: type`.
pub open spec fn attribute_fields(name: Seq<char>, a: Attribute) -> Seq<char> {
    ":var "@ + name + ":"@ + described(a.description, 4) + "\n"@ + (match a.type_annotation {
        Some(ty) => ":vartype "@ + name + ": "@ + ty@ + "\n"@,
        None => Seq::empty(),
    })
}

/// The attribute fields for each of some names.
pub open spec fn attributes_for(names: Seq<String>, a: Attribute) -> Seq<char>
    decreases names.len(),
{
    if names.len() == 0 {
        Seq::empty()
    } else {
        attributes_for(names.drop_last(), a) + attribute_fields(names.last()@, a)
    }
}

/// `* name(type): description`.
pub open spec fn method_item(m: Method) -> Seq<char> {
    "* "@ + m.name@ + (match m.type_annotation {
        Some(ty) => "("@ + ty@ + ")"@,
        None => Seq::empty(),
    }) + (match m.description {
        Some(d) => ": "@ + d@,
        None => Seq::empty(),
    }) + "\n"@
}

/// `names: description`, indented by four.
pub open spec fn see_also_item(item: SeeAlsoEntry) -> Seq<char> {
    indented(
        joined(item.names@) + (match item.description {
            Some(d) => ": "@ + d@,
            None => Seq::empty(),
        }),
        4,
    )
}

/// `.. [label] content`, or the bare content.
pub open spec fn sphinx_reference(r: Reference) -> Seq<char> {
    (match r.label {
        Some(label) => ".. ["@ + label@ + "]"@ + (match r.content {
            Some(c) => " "@ + c@,
            None => Seq::empty(),
        }),
        None => opt_text(r.content),
    }) + "\n"@
}

/// The Sphinx text of one block, given what came before it in its
/// section.
pub open spec fn sphinx_block(b: Block, skip: bool, warns: bool, prev: Seq<Block>) -> Seq<char> {
    match b {
        Block::Paragraph(text) => if skip {
            Seq::empty()
        } else {
            (if after_para(prev, skip) {
                "\n"@
            } else {
                Seq::empty()
            }) + text@ + "\n"@
        },
        Block::Parameter(p) => params_for(p.names@, p),
        Block::Return(r) => sphinx_return(r),
        Block::Exception(e) => if warns {
            sphinx_warning(e)
        } else {
            sphinx_exception(e)
        },
        Block::Attribute(a) => attributes_for(a.names@, a),
        Block::Method(m) => (if has_method(prev) {
            Seq::empty()
        } else {
            ".. rubric:: Methods\n\n"@
        }) + method_item(m),
        Block::SeeAlso(item) => (if has_see_also(prev) {
            Seq::empty()
        } else {
            ".. seealso::\n\n"@
        }) + see_also_item(item),
        Block::Reference(r) => sphinx_reference(r),
    }
}

/// The Sphinx text of a run of blocks.
pub open spec fn sphinx_blocks(bs: Seq<Block>, skip: bool, warns: bool) -> Seq<char>
    decreases bs.len(),
{
    if bs.len() == 0 {
        Seq::empty()
    } else {
        sphinx_blocks(bs.drop_last(), skip, warns) + sphinx_block(bs.last(), skip, warns, bs.drop_last())
    }
}

/// The Sphinx text of a section: a free-text kind as its admonition over
/// the paragraphs joined by blank lines, then its other blocks; any other
/// kind as its blocks.
pub open spec fn sphinx_section(s: Section) -> Seq<char> {
    let warns = s.kind is Warns;
    match s.kind {
        SectionKind::FreeText(kind) => free_text(kind, join_sep(para_texts(s.blocks@), "\n\n"@)) + sphinx_blocks(
            s.blocks@,
            true,
            warns,
        ),
        _ => sphinx_blocks(s.blocks@, false, warns),
    }
}

/// Each part preceded by a newline, one more part.
pub proof fn lemma_lead_push(ps: Seq<Seq<char>>, x: Seq<char>)
    ensures
        lead_each(ps.push(x)) == lead_each(ps) + "\n"@ + x,
{
    assert(ps.push(x).drop_last() =~= ps);
}

/// Emit a [`Docstring`] as Sphinx reStructuredText: summary, extended
/// summary, directives, then sections, each later block preceded by a
/// blank line; with a base indent, every non-empty line indented by it.
pub fn emit_sphinx(doc: &Docstring, options: &EmitOptions) -> (r: String)
    ensures
        options.base_indent == 0 ==> r@ == sphinx_doc(*doc),
        options.base_indent > 0 ==> r@ == indented(sphinx_doc(*doc), options.base_indent as nat),
{
    let mut out = String::new();
    match &doc.summary {
        Some(s) => app2(&mut out, s.as_str(), "\n"),
        None => {},
    }
    let ghost head = out@;
    let ghost mut parts: Seq<Seq<char>> = Seq::empty();
    proof {
        assert(head =~= (match doc.summary {
            Some(s) => s@ + "\n"@,
            None => Seq::empty(),
        }));
        assert(out@ =~= head + lead_each(parts));
    }
    match &doc.extended_summary {
        Some(ext) => {
            app(&mut out, "\n");
            app2(&mut out, ext.as_str(), "\n");
            proof {
                lemma_lead_push(parts, ext@ + "\n"@);
                parts = parts.push(ext@ + "\n"@);
                assert(out@ =~= head + lead_each(parts));
            }
        },
        None => {},
    }
    proof {
        assert(parts =~= opt_line(doc.extended_summary));
    }
    let ghost p0 = parts;
    let mut i: usize = 0;
    while i < doc.directives.len()
        invariant
            i <= doc.directives@.len(),
            out@ == head + lead_each(parts),
            parts == p0 + doc.directives@.take(i as int).map_values(|d: Directive| directive_text(d, 4)),
        decreases doc.directives@.len() - i,
    {
        let ghost x = directive_text(doc.directives@[i as int], 4);
        app(&mut out, "\n");
        emit_directive(&mut out, &doc.directives[i]);
        proof {
            lemma_lead_push(parts, x);
            assert(doc.directives@.take(i + 1).map_values(|d: Directive| directive_text(d, 4)) =~= doc.directives@.take(
                i as int,
            ).map_values(|d: Directive| directive_text(d, 4)).push(x));
            parts = parts.push(x);
            assert(out@ =~= head + lead_each(parts));
        }
        i = i + 1;
    }
    proof {
        assert(doc.directives@.take(i as int) =~= doc.directives@);
    }
    let ghost p1 = parts;
    let mut k: usize = 0;
    while k < doc.sections.len()
        invariant
            k <= doc.sections@.len(),
            out@ == head + lead_each(parts),
            parts == p1 + doc.sections@.take(k as int).map_values(|s: Section| sphinx_section(s)),
        decreases doc.sections@.len() - k,
    {
        let ghost x = sphinx_section(doc.sections@[k as int]);
        app(&mut out, "\n");
        emit_section(&mut out, &doc.sections[k]);
        proof {
            lemma_lead_push(parts, x);
            assert(doc.sections@.take(k + 1).map_values(|s: Section| sphinx_section(s)) =~= doc.sections@.take(
                k as int,
            ).map_values(|s: Section| sphinx_section(s)).push(x));
            parts = parts.push(x);
            assert(out@ =~= head + lead_each(parts));
        }
        k = k + 1;
    }
    proof {
        assert(doc.sections@.take(k as int) =~= doc.sections@);
        assert(parts =~= opt_line(doc.extended_summary) + doc.directives@.map_values(
            |d: Directive| directive_text(d, 4),
        ) + doc.sections@.map_values(|s: Section| sphinx_section(s)));
        assert(out@ =~= sphinx_doc(*doc));
    }
    if options.base_indent == 0 {
        return out;
    }
    indent_lines(out.as_str(), options.base_indent)
}

/// Emit one section: a free-text kind as one admonition (or rubric) over
/// its paragraphs joined by blank lines, then any other blocks; a
/// structured kind as every block in order.
pub fn emit_section(out: &mut String, section: &Section)
    ensures
        final(out)@ == old(out)@ + sphinx_section(*section),
{
    match &section.kind {
        SectionKind::FreeText(kind) => {
            let ghost bs = section.blocks@;
            let mut body = String::new();
            let mut first = true;
            let mut i: usize = 0;
            while i < section.blocks.len()
                invariant
                    i <= bs.len(),
                    bs == section.blocks@,
                    body@ == join_sep(para_texts(bs.take(i as int)), "\n\n"@),
                    first == (para_texts(bs.take(i as int)).len() == 0),
                decreases bs.len() - i,
            {
                proof {
                    lemma_take_push(bs, i as int);
                }
                match section.blocks[i].as_paragraph() {
                    Some(p) => {
                        proof {
                            lemma_join_push(para_texts(bs.take(i as int)), p@, "\n\n"@);
                        }
                        if !first {
                            app(&mut body, "\n\n");
                        }
                        app(&mut body, p);
                        first = false;
                        proof {
                            assert(body@ =~= join_sep(para_texts(bs.take(i + 1)), "\n\n"@));
                        }
                    },
                    None => {},
                }
                i = i + 1;
            }
            proof {
                assert(bs.take(i as int) =~= bs);
            }
            emit_free_text(out, kind, body.as_str());
            emit_blocks(out, section, true);
        },
        _ => emit_blocks(out, section, false),
    }
    proof {
        assert(out@ =~= old(out)@ + sphinx_section(*section));
    }
}

/// Emit the blocks of a section in order (skipping paragraphs with
/// `skip_paragraphs`): prose as plain paragraphs, entries as fields; the
/// first method opens a `Methods` rubric, the first see-also item a
/// `seealso` directive.
pub fn emit_blocks(out: &mut String, section: &Section, skip_paragraphs: bool)
    ensures
        final(out)@ == old(out)@ + sphinx_blocks(section.blocks@, skip_paragraphs, section.kind is Warns),
{
    let ghost bs = section.blocks@;
    let mut prev_paragraph = false;
    let mut methods_rubric_open = false;
    let mut seealso_open = false;
    let is_warns = match section.kind {
        SectionKind::Warns => true,
        _ => false,
    };
    let mut i: usize = 0;
    while i < section.blocks.len()
        invariant
            i <= bs.len(),
            bs == section.blocks@,
            is_warns == section.kind is Warns,
            out@ == old(out)@ + sphinx_blocks(bs.take(i as int), skip_paragraphs, is_warns),
            prev_paragraph == after_para(bs.take(i as int), skip_paragraphs),
            methods_rubric_open == has_method(bs.take(i as int)),
            seealso_open == has_see_also(bs.take(i as int)),
        decreases bs.len() - i,
    {
        let ghost before = out@;
        proof {
            lemma_take_push(bs, i as int);
        }
        match &section.blocks[i] {
            Block::Paragraph(text) => {
                if !skip_paragraphs {
                    if prev_paragraph {
                        app(out, "\n");
                    }
                    app2(out, text.as_str(), "\n");
                    prev_paragraph = true;
                }
            },
            Block::Parameter(p) => {
                emit_parameter(out, p);
                prev_paragraph = false;
            },
            Block::Return(r) => {
                emit_return(out, r);
                prev_paragraph = false;
            },
            Block::Exception(e) => {
                if is_warns {
                    emit_warning(out, e);
                } else {
                    emit_exception(out, e);
                }
                prev_paragraph = false;
            },
            Block::Attribute(a) => {
                emit_attribute(out, a);
                prev_paragraph = false;
            },
            Block::Method(m) => {
                if !methods_rubric_open {
                    app(out, ".. rubric:: Methods\n\n");
                    methods_rubric_open = true;
                }
                emit_method_item(out, m);
                prev_paragraph = false;
            },
            Block::SeeAlso(item) => {
                if !seealso_open {
                    app(out, ".. seealso::\n\n");
                    seealso_open = true;
                }
                emit_see_also_item(out, item);
                prev_paragraph = false;
            },
            Block::Reference(r) => {
                emit_reference(out, r);
                prev_paragraph = false;
            },
        }
        proof {
            assert(out@ =~= before + sphinx_block(bs[i as int], skip_paragraphs, is_warns, bs.take(i as int)));
            assert(out@ =~= old(out)@ + sphinx_blocks(bs.take(i + 1), skip_paragraphs, is_warns));
        }
        i = i + 1;
    }
    proof {
        assert(bs.take(i as int) =~= bs);
    }
}

/// `:param name: description` per name (the description followed by
/// `defaults to value` when a default is given), and `:type name: type,
/// optional` when a type or the optional marker is present.
pub fn emit_parameter(out: &mut String, p: &Parameter)
    ensures
        final(out)@ == old(out)@ + params_for(p.names@, *p),
{
    let mut desc = String::new();
    match &p.description {
        Some(d) => app(&mut desc, d.as_str()),
        None => {},
    }
    match &p.default_value {
        Some(dv) => {
            if desc.as_str().is_empty() {
                app(&mut desc, "defaults to ");
            } else {
                app(&mut desc, ", defaults to ");
            }
            app(&mut desc, dv.as_str());
        },
        None => {},
    }
    proof {
        assert(desc@ =~= param_desc(*p));
    }
    let ghost ns = p.names@;
    let mut i: usize = 0;
    while i < p.names.len()
        invariant
            i <= ns.len(),
            ns == p.names@,
            desc@ == param_desc(*p),
            out@ == old(out)@ + params_for(ns.take(i as int), *p),
        decreases ns.len() - i,
    {
        let ghost before = out@;
        proof {
            lemma_take_push(ns, i as int);
        }
        emit_param_fields(out, p.names[i].as_str(), p, desc.as_str());
        proof {
            assert(out@ =~= before + param_fields(ns[i as int]@, *p));
            assert(out@ =~= old(out)@ + params_for(ns.take(i + 1), *p));
        }
        i = i + 1;
    }
    proof {
        assert(ns.take(i as int) =~= ns);
    }
}

/// The fields of one parameter name: `:param name: description` and,
/// with a type or the optional marker, `:type name: type, optional`.
fn emit_param_fields(out: &mut String, name: &str, p: &Parameter, desc: &str)
    requires
        desc@ == param_desc(*p),
    ensures
        final(out)@ == old(out)@ + param_fields(name@, *p),
{
    app2(out, ":param ", name);
    app(out, ":");
    if !desc.is_empty() {
        app(out, " ");
        emit_multiline_with_indentation(out, desc, 4);
    }
    app(out, "\n");
    emit_type_field(out, name, p);
    proof {
        assert(out@ =~= old(out)@ + param_fields(name@, *p));
    }
}

/// `:type name: type, optional`, with a type or the optional marker.
fn emit_type_field(out: &mut String, name: &str, p: &Parameter)
    ensures
        final(out)@ == old(out)@ + type_field(name@, *p),
{
    let has_type = p.type_annotation.is_some();
    if has_type || p.is_optional {
        app2(out, ":type ", name);
        app(out, ": ");
        match &p.type_annotation {
            Some(ty) => app(out, ty.as_str()),
            None => {},
        }
        let ghost typed = out@;
        if p.is_optional {
            if has_type {
                app(out, ", ");
            }
            app(out, "optional");
        }
        app(out, "\n");
    }
    proof {
        assert(out@ =~= old(out)@ + type_field(name@, *p));
    }
}

/// `:return: description` and `:rtype: type`.
pub fn emit_return(out: &mut String, r: &Return)
    ensures
        final(out)@ == old(out)@ + sphinx_return(*r),
{
    app(out, ":return:");
    match &r.description {
        Some(d) => {
            app(out, " ");
            emit_multiline_with_indentation(out, d.as_str(), 4);
        },
        None => {},
    }
    app(out, "\n");
    match &r.type_annotation {
        Some(ty) => {
            app2(out, ":rtype: ", ty.as_str());
            app(out, "\n");
        },
        None => {},
    }
    proof {
        assert(out@ =~= old(out)@ + sphinx_return(*r));
    }
}

/// `:raises Type: description`.
pub fn emit_exception(out: &mut String, e: &ExceptionEntry)
    ensures
        final(out)@ == old(out)@ + sphinx_exception(*e),
{
    app2(out, ":raises ", e.exception_type.as_str());
    app(out, ":");
    match &e.description {
        Some(d) => {
            app(out, " ");
            emit_multiline_with_indentation(out, d.as_str(), 4);
        },
        None => {},
    }
    app(out, "\n");
    proof {
        assert(out@ =~= old(out)@ + sphinx_exception(*e));
    }
}

/// A `.. warning::` admonition holding `Type: description`.
pub fn emit_warning(out: &mut String, e: &ExceptionEntry)
    ensures
        final(out)@ == old(out)@ + sphinx_warning(*e),
{
    app(out, ".. warning::\n\n");
    let mut body = String::new();
    app(&mut body, e.exception_type.as_str());
    match &e.description {
        Some(d) => app2(&mut body, ": ", d.as_str()),
        None => {},
    }
    proof {
        assert(body@ =~= e.exception_type@ + (match e.description {
            Some(d) => ": "@ + d@,
            None => Seq::empty(),
        }));
    }
    emit_indented_body(out, body.as_str(), 4);
    proof {
        assert(out@ =~= old(out)@ + sphinx_warning(*e));
    }
}

/// `:var name: description` and `:vartype name: type` per name.
pub fn emit_attribute(out: &mut String, a: &Attribute)
    ensures
        final(out)@ == old(out)@ + attributes_for(a.names@, *a),
{
    let ghost ns = a.names@;
    let mut i: usize = 0;
    while i < a.names.len()
        invariant
            i <= ns.len(),
            ns == a.names@,
            out@ == old(out)@ + attributes_for(ns.take(i as int), *a),
        decreases ns.len() - i,
    {
        let ghost before = out@;
        proof {
            lemma_take_push(ns, i as int);
        }
        emit_attribute_fields(out, a.names[i].as_str(), a);
        proof {
            assert(out@ =~= before + attribute_fields(ns[i as int]@, *a));
            assert(out@ =~= old(out)@ + attributes_for(ns.take(i + 1), *a));
        }
        i = i + 1;
    }
    proof {
        assert(ns.take(i as int) =~= ns);
    }
}

/// `:var name: description` and `:vartype name: type` for one name.
fn emit_attribute_fields(out: &mut String, name: &str, a: &Attribute)
    ensures
        final(out)@ == old(out)@ + attribute_fields(name@, *a),
{
    app2(out, ":var ", name);
    app(out, ":");
    match &a.description {
        Some(d) => {
            app(out, " ");
            emit_multiline_with_indentation(out, d.as_str(), 4);
        },
        None => {},
    }
    app(out, "\n");
    let ghost mid = out@;
    match &a.type_annotation {
        Some(ty) => {
            app2(out, ":vartype ", name);
            app2(out, ": ", ty.as_str());
            app(out, "\n");
        },
        None => {},
    }
    proof {
        assert(out@ =~= old(out)@ + attribute_fields(name@, *a));
    }
}

/// `* name(type): description`.
pub fn emit_method_item(out: &mut String, m: &Method)
    ensures
        final(out)@ == old(out)@ + method_item(*m),
{
    app2(out, "* ", m.name.as_str());
    match &m.type_annotation {
        Some(ty) => {
            app2(out, "(", ty.as_str());
            app(out, ")");
        },
        None => {},
    }
    match &m.description {
        Some(d) => app2(out, ": ", d.as_str()),
        None => {},
    }
    app(out, "\n");
    proof {
        assert(out@ =~= old(out)@ + method_item(*m));
    }
}

/// `names: description`, indented by four.
pub fn emit_see_also_item(out: &mut String, item: &SeeAlsoEntry)
    ensures
        final(out)@ == old(out)@ + see_also_item(*item),
{
    let mut body = String::new();
    app_joined(&mut body, &item.names);
    match &item.description {
        Some(d) => app2(&mut body, ": ", d.as_str()),
        None => {},
    }
    proof {
        assert(body@ =~= joined(item.names@) + (match item.description {
            Some(d) => ": "@ + d@,
            None => Seq::empty(),
        }));
    }
    emit_indented_body(out, body.as_str(), 4);
}

/// `.. [label] content`, or the bare content.
pub fn emit_reference(out: &mut String, r: &Reference)
    ensures
        final(out)@ == old(out)@ + sphinx_reference(*r),
{
    match &r.label {
        Some(label) => {
            app2(out, ".. [", label.as_str());
            app(out, "]");
            match &r.content {
                Some(c) => app2(out, " ", c.as_str()),
                None => {},
            }
        },
        None => match &r.content {
            Some(c) => app(out, c.as_str()),
            None => {},
        },
    }
    app(out, "\n");
    proof {
        assert(out@ =~= old(out)@ + sphinx_reference(*r));
    }
}

/// `.. name:: argument`, then the description indented by four.
pub fn emit_directive(out: &mut String, directive: &Directive)
    ensures
        final(out)@ == old(out)@ + directive_text(*directive, 4),
{
    app_directive(out, directive, 4);
}

/// A free-text body: Examples as a rubric with the body unindented, an
/// unknown section as a titled admonition, the rest as the matching
/// admonition directive with the body indented by four.
pub fn emit_free_text(out: &mut String, kind: &FreeSectionKind, body: &str)
    ensures
        final(out)@ == old(out)@ + free_text(*kind, body@),
{
    match kind {
        FreeSectionKind::Examples => {
            app(out, ".. rubric:: Examples\n\n");
            emit_indented_body(out, body, 0);
        },
        FreeSectionKind::Unknown(name) => {
            app2(out, ".. admonition:: ", name.as_str());
            app(out, "\n\n");
            emit_indented_body(out, body, 4);
        },
        _ => {
            app2(out, ".. ", admonition_name(kind));
            app(out, "::\n\n");
            emit_indented_body(out, body, 4);
        },
    }
    proof {
        assert(out@ =~= old(out)@ + free_text(*kind, body@));
    }
}

/// The admonition directive of a free-text kind.
pub fn admonition_name(kind: &FreeSectionKind) -> (r: &'static str)
    ensures
        r@ == admonition(*kind),
{
    match kind {
        FreeSectionKind::Notes => "note",
        FreeSectionKind::Warnings => "warning",
        FreeSectionKind::Todo => "todo",
        FreeSectionKind::Attention => "attention",
        FreeSectionKind::Caution => "caution",
        FreeSectionKind::Danger => "danger",
        FreeSectionKind::Error => "error",
        FreeSectionKind::Hint => "hint",
        FreeSectionKind::Important => "important",
        FreeSectionKind::Tip => "tip",
        FreeSectionKind::Examples => "rubric",
        FreeSectionKind::Unknown(_) => "admonition",
    }
}

} // verus!
