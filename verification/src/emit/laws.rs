//! What the emitters keep of the model: every field with a value appears
//! in the emitted text, in its place.

use vstd::prelude::*;

use crate::emit::body_lines;
use crate::emit::indented;
use crate::emit::join_cont;
use crate::emit::joined;
use crate::emit::lines_of;
use crate::emit::multiline;
use crate::emit::spaces;
use crate::emit::google::google_attribute;
use crate::emit::google::google_exception;
use crate::emit::google::google_method;
use crate::emit::google::google_parameter;
use crate::emit::google::google_return;
use crate::emit::google::google_see_also;
use crate::emit::google::described;
use crate::emit::opt_text;
use crate::emit::paren_type;
use crate::model::Method;
use crate::model::Parameter;
use crate::model::Return;
use crate::model::SeeAlsoEntry;
use crate::emit::numpy::numpy_attribute;
use crate::emit::numpy::numpy_exception;
use crate::emit::numpy::numpy_method;
use crate::emit::numpy::numpy_parameter;
use crate::emit::numpy::numpy_return;
use crate::emit::numpy::numpy_see_also;
use crate::emit::numpy::numpy_type_part;
use crate::emit::numpy::body_desc;
use crate::emit::sphinx::sphinx_exception;
use crate::emit::sphinx::attribute_fields;
use crate::emit::sphinx::attributes_for;
use crate::emit::sphinx::method_item;
use crate::emit::sphinx::param_desc;
use crate::emit::sphinx::param_fields;
use crate::emit::sphinx::params_for;
use crate::emit::sphinx::see_also_item;
use crate::emit::sphinx::sphinx_return;
use crate::emit::sphinx::sphinx_warning;
use crate::emit::sphinx::type_field;
use crate::emit::directive_text;
use crate::emit::join_sep;
use crate::emit::opt_line;
use crate::emit::separated;
use crate::emit::google::google_block;
use crate::emit::google::google_blocks;
use crate::emit::google::google_doc;
use crate::emit::google::google_header;
use crate::emit::google::google_parts;
use crate::emit::google::google_section;
use crate::emit::numpy::ends_with_paragraph;
use crate::emit::numpy::numpy_block;
use crate::emit::numpy::numpy_blocks;
use crate::emit::numpy::numpy_doc;
use crate::emit::numpy::numpy_header;
use crate::emit::numpy::numpy_parts;
use crate::emit::numpy::numpy_section;
use crate::emit::numpy::underlined;
use crate::emit::sphinx::lead_each;
use crate::emit::sphinx::sphinx_block;
use crate::emit::sphinx::sphinx_blocks;
use crate::emit::sphinx::sphinx_doc;
use crate::emit::sphinx::sphinx_section;
use crate::model::Attribute;
use crate::model::Block;
use crate::model::Directive;
use crate::model::Docstring;
use crate::model::Section;
use crate::model::SectionKind;
use crate::model::FreeSectionKind;
use crate::model::ExceptionEntry;

verus! {

/// `s` holds `p` from position `i` on.
pub open spec fn has_at(s: Seq<char>, p: Seq<char>, i: int) -> bool {
    0 <= i && i + p.len() <= s.len() && s.subrange(i, i + p.len()) == p
}

/// `s` starts with `p`.
pub open spec fn starts_with(s: Seq<char>, p: Seq<char>) -> bool {
    has_at(s, p, 0)
}

/// `s` holds `p` somewhere.
pub open spec fn contains_text(s: Seq<char>, p: Seq<char>) -> bool {
    exists|i: int| has_at(s, p, i)
}

/// Every line of `t` after the first that holds text appears in `s` on a
/// line of its own, indented by `ind`.
pub open spec fn keeps_later_lines(s: Seq<char>, t: Seq<char>, ind: nat) -> bool {
    forall|k: int|
        1 <= k < lines_of(t).len() && #[trigger] lines_of(t)[k].len() > 0 ==> contains_text(
            s,
            "\n"@ + spaces(ind) + lines_of(t)[k],
        )
}

/// Every line of `t` that holds text appears in `s` indented by `ind` and
/// ended by a newline.
pub open spec fn keeps_body_lines(s: Seq<char>, t: Seq<char>, ind: nat) -> bool {
    forall|k: int|
        0 <= k < lines_of(t).len() && #[trigger] lines_of(t)[k].len() > 0 ==> contains_text(
            s,
            spaces(ind) + lines_of(t)[k] + "\n"@,
        )
}

/// Text put before or after a holder keeps what it holds, shifted.
pub proof fn lemma_has_wrap(a: Seq<char>, s: Seq<char>, c: Seq<char>, p: Seq<char>, i: int)
    requires
        has_at(s, p, i),
    ensures
        has_at(a + s + c, p, i + a.len()),
{
    assert((a + s + c).subrange(i + a.len(), i + a.len() + p.len()) =~= s.subrange(i, i + p.len()));
}

/// Text put before or after a holder keeps what it holds.
pub proof fn lemma_contains_wrap(a: Seq<char>, s: Seq<char>, c: Seq<char>, p: Seq<char>)
    requires
        contains_text(s, p),
    ensures
        contains_text(a + s + c, p),
{
    let i = choose|i: int| has_at(s, p, i);
    lemma_has_wrap(a, s, c, p, i);
}

/// A prefix stays a prefix when text follows, and grows by what leads.
pub proof fn lemma_starts_wrap(a: Seq<char>, s: Seq<char>, c: Seq<char>, p: Seq<char>)
    requires
        starts_with(s, p),
    ensures
        starts_with(a + s + c, a + p),
{
    assert((a + s + c).subrange(0, (a + p).len() as int) =~= a + p);
}

/// Lines joined as continuation lines start with the first line and hold
/// every later line that has text on a line of its own, indented.
pub proof fn lemma_join_cont_keeps(ls: Seq<Seq<char>>, ind: nat)
    ensures
        ls.len() > 0 ==> starts_with(join_cont(ls, ind), ls[0]),
        forall|k: int|
            1 <= k < ls.len() && #[trigger] ls[k].len() > 0 ==> contains_text(join_cont(ls, ind), "\n"@ + spaces(ind) + ls[k]),
    decreases ls.len(),
{
    if ls.len() == 1 {
        assert(join_cont(ls, ind).subrange(0, ls[0].len() as int) =~= ls[0]);
    } else if ls.len() > 1 {
        let init = ls.drop_last();
        lemma_join_cont_keeps(init, ind);
        let j = join_cont(init, ind);
        let last = ls.last();
        let tail = "\n"@ + (if last.len() == 0 {
            last
        } else {
            spaces(ind) + last
        });
        assert(join_cont(ls, ind) == j + tail);
        assert(init[0] == ls[0]);
        lemma_starts_wrap(Seq::empty(), j, tail, ls[0]);
        assert(Seq::<char>::empty() + j + tail =~= j + tail);
        assert(Seq::<char>::empty() + ls[0] =~= ls[0]);
        assert forall|k: int| 1 <= k < ls.len() && #[trigger] ls[k].len() > 0 implies contains_text(
            join_cont(ls, ind),
            "\n"@ + spaces(ind) + ls[k],
        ) by {
            if k < ls.len() - 1 {
                assert(init[k] == ls[k]);
                assert(init[k].len() > 0);
                lemma_contains_wrap(Seq::empty(), j, tail, "\n"@ + spaces(ind) + ls[k]);
                assert(Seq::<char>::empty() + j + tail =~= j + tail);
            } else {
                assert(tail =~= "\n"@ + spaces(ind) + ls[k]);
                assert((j + tail).subrange(j.len() as int, (j.len() + tail.len()) as int) =~= tail);
                assert(has_at(j + tail, tail, j.len() as int));
            }
        }
    }
}

/// Lines each indented and ended by a newline hold every line that has
/// text, indented and ended by its newline.
pub proof fn lemma_body_lines_keep(ls: Seq<Seq<char>>, ind: nat)
    ensures
        forall|k: int|
            0 <= k < ls.len() && #[trigger] ls[k].len() > 0 ==> contains_text(body_lines(ls, ind), spaces(ind) + ls[k] + "\n"@),
    decreases ls.len(),
{
    if ls.len() > 0 {
        let init = ls.drop_last();
        lemma_body_lines_keep(init, ind);
        let j = body_lines(init, ind);
        let last = ls.last();
        let tail = (if last.len() == 0 {
            last
        } else {
            spaces(ind) + last
        }) + "\n"@;
        assert(body_lines(ls, ind) == j + tail);
        assert forall|k: int| 0 <= k < ls.len() && #[trigger] ls[k].len() > 0 implies contains_text(
            body_lines(ls, ind),
            spaces(ind) + ls[k] + "\n"@,
        ) by {
            if k < ls.len() - 1 {
                assert(init[k] == ls[k]);
                assert(init[k].len() > 0);
                lemma_contains_wrap(Seq::empty(), j, tail, spaces(ind) + ls[k] + "\n"@);
                assert(Seq::<char>::empty() + j + tail =~= j + tail);
            } else {
                assert(tail =~= spaces(ind) + ls[k] + "\n"@);
                assert((j + tail).subrange(j.len() as int, (j.len() + tail.len()) as int) =~= tail);
                assert(has_at(j + tail, tail, j.len() as int));
            }
        }
    }
}

/// A text continued at a positive indent starts with its first line and
/// keeps every later line, indented.
pub proof fn law_multiline_keeps_lines(t: Seq<char>, ind: nat)
    requires
        ind > 0,
    ensures
        lines_of(t).len() > 0 ==> starts_with(multiline(t, ind), lines_of(t)[0]),
        keeps_later_lines(multiline(t, ind), t, ind),
{
    lemma_join_cont_keeps(lines_of(t), ind);
}

/// An indented body keeps every line of its text that has content.
pub proof fn law_indented_keeps_lines(t: Seq<char>, ind: nat)
    ensures
        keeps_body_lines(indented(t, ind), t, ind),
{
    lemma_body_lines_keep(lines_of(t), ind);
}


/// What follows `head`: a space, the description continued at `ind`, and
/// a newline, keeps the description's first line right after `head` and a
/// space, and every later line on a line of its own, indented.
pub proof fn lemma_described_after(head: Seq<char>, d: Seq<char>, ind: nat)
    requires
        ind > 0,
    ensures
        ({
            let s = head + " "@ + multiline(d, ind) + "\n"@;
            &&& starts_with(s, head + " "@)
            &&& (lines_of(d).len() > 0 ==> starts_with(s, head + " "@ + lines_of(d)[0]))
            &&& keeps_later_lines(s, d, ind)
        }),
{
    let m = multiline(d, ind);
    let a = head + " "@;
    let s = head + " "@ + m + "\n"@;
    assert(s =~= a + m + "\n"@);
    law_multiline_keeps_lines(d, ind);
    assert(s.subrange(0, a.len() as int) =~= a);
    if lines_of(d).len() > 0 {
        lemma_starts_wrap(a, m, "\n"@, lines_of(d)[0]);
        assert(a + lines_of(d)[0] =~= head + " "@ + lines_of(d)[0]);
    }
    assert forall|k: int| 1 <= k < lines_of(d).len() && #[trigger] lines_of(d)[k].len() > 0 implies contains_text(
        s,
        "\n"@ + spaces(ind) + lines_of(d)[k],
    ) by {
        lemma_contains_wrap(a, m, "\n"@, "\n"@ + spaces(ind) + lines_of(d)[k]);
    }
}

/// A Sphinx `:raises` field names the exception type, then keeps every
/// line of the description: the first right after `: `, the others on
/// lines of their own indented by four. With no description the field
/// ends at the colon.
pub proof fn law_sphinx_exception_keeps_fields(e: ExceptionEntry)
    ensures
        starts_with(sphinx_exception(e), ":raises "@ + e.exception_type@ + ":"@),
        sphinx_exception(e).len() > 0 && sphinx_exception(e).last() == '\n',
        e.description is None ==> sphinx_exception(e) == ":raises "@ + e.exception_type@ + ":\n"@,
        e.description matches Some(d) ==> {
            &&& starts_with(sphinx_exception(e), ":raises "@ + e.exception_type@ + ": "@)
            &&& (lines_of(d@).len() > 0 ==> starts_with(
                sphinx_exception(e),
                ":raises "@ + e.exception_type@ + ": "@ + lines_of(d@)[0],
            ))
            &&& keeps_later_lines(sphinx_exception(e), d@, 4)
        },
{
    reveal_strlit(":raises ");
    reveal_strlit(":");
    reveal_strlit(" ");
    reveal_strlit(": ");
    reveal_strlit(":\n");
    reveal_strlit("\n");
    let head = ":raises "@ + e.exception_type@ + ":"@;
    let s = sphinx_exception(e);
    match e.description {
        Some(d) => {
            lemma_described_after(head, d@, 4);
            assert(s =~= head + " "@ + multiline(d@, 4) + "\n"@);
            assert(head + " "@ =~= ":raises "@ + e.exception_type@ + ": "@);
            assert(head + " "@ + lines_of(d@)[0] =~= ":raises "@ + e.exception_type@ + ": "@ + lines_of(d@)[0]);
            assert(s.subrange(0, head.len() as int) =~= head);
        },
        None => {
            assert(s =~= ":raises "@ + e.exception_type@ + ":\n"@);
            assert(s.subrange(0, head.len() as int) =~= head);
        },
    }
}

/// The head of a Google attribute entry: the names, then the type in
/// brackets when there is one, then the colon.
pub open spec fn google_attribute_head(a: Attribute) -> Seq<char> {
    match a.type_annotation {
        Some(t) => "    "@ + joined(a.names@) + " ("@ + t@ + "):"@,
        None => "    "@ + joined(a.names@) + ":"@,
    }
}

/// A Google attribute entry starts with its names and, when it has one,
/// its type in brackets before the colon; then it keeps every line of its
/// description: the first after a space, the others indented by eight.
pub proof fn law_google_attribute_keeps_fields(a: Attribute)
    ensures
        starts_with(google_attribute(a), google_attribute_head(a)),
        google_attribute(a).len() > 0 && google_attribute(a).last() == '\n',
        a.description is None ==> google_attribute(a) == google_attribute_head(a) + "\n"@,
        a.description matches Some(d) ==> {
            &&& starts_with(google_attribute(a), google_attribute_head(a) + " "@)
            &&& (lines_of(d@).len() > 0 ==> starts_with(google_attribute(a), google_attribute_head(a) + " "@ + lines_of(d@)[0]))
            &&& keeps_later_lines(google_attribute(a), d@, 8)
        },
{
    reveal_strlit("    ");
    reveal_strlit(":");
    reveal_strlit(" ");
    reveal_strlit(" (");
    reveal_strlit(")");
    reveal_strlit("):");
    reveal_strlit("\n");
    let head = google_attribute_head(a);
    let s = google_attribute(a);
    match a.description {
        Some(d) => {
            lemma_described_after(head, d@, 8);
            assert(s =~= head + " "@ + multiline(d@, 8) + "\n"@);
            assert(s.subrange(0, head.len() as int) =~= head);
        },
        None => {
            assert(s =~= head + "\n"@);
            assert(s.subrange(0, head.len() as int) =~= head);
        },
    }
}

/// The head line of a NumPy attribute entry: the names, then ` : ` and
/// the type when there is one.
pub open spec fn numpy_attribute_head(a: Attribute) -> Seq<char> {
    match a.type_annotation {
        Some(t) => joined(a.names@) + " : "@ + t@ + "\n"@,
        None => joined(a.names@) + "\n"@,
    }
}

/// A NumPy attribute entry starts with its `names : type` line, and every
/// line of its description that has text follows, indented by four.
pub proof fn law_numpy_attribute_keeps_fields(a: Attribute)
    ensures
        starts_with(numpy_attribute(a), numpy_attribute_head(a)),
        a.description is None ==> numpy_attribute(a) == numpy_attribute_head(a),
        a.description matches Some(d) ==> keeps_body_lines(numpy_attribute(a), d@, 4),
{
    reveal_strlit(" : ");
    reveal_strlit("\n");
    let head = numpy_attribute_head(a);
    let s = numpy_attribute(a);
    match a.description {
        Some(d) => {
            let body = indented(d@, 4);
            assert(s =~= head + body);
            assert((head + body).subrange(0, head.len() as int) =~= head);
            assert(starts_with(s, head));
            law_indented_keeps_lines(d@, 4);
            assert forall|k: int| 0 <= k < lines_of(d@).len() && #[trigger] lines_of(d@)[k].len() > 0 implies contains_text(
                s,
                spaces(4) + lines_of(d@)[k] + "\n"@,
            ) by {
                lemma_contains_wrap(head, body, Seq::empty(), spaces(4) + lines_of(d@)[k] + "\n"@);
                assert(head + body + Seq::<char>::empty() =~= s);
            }
        },
        None => {
            assert(s =~= head);
            assert(s.subrange(0, head.len() as int) =~= head);
        },
    }
}


/// A text continued at a positive indent, between a lead and a tail,
/// follows the lead with its first line and keeps every later line.
pub proof fn lemma_multi_in(pre: Seq<char>, d: Seq<char>, ind: nat, post: Seq<char>)
    requires
        ind > 0,
    ensures
        ({
            let s = pre + multiline(d, ind) + post;
            &&& starts_with(s, pre)
            &&& (lines_of(d).len() > 0 ==> starts_with(s, pre + lines_of(d)[0]))
            &&& keeps_later_lines(s, d, ind)
        }),
{
    let m = multiline(d, ind);
    let s = pre + m + post;
    law_multiline_keeps_lines(d, ind);
    assert(s.subrange(0, pre.len() as int) =~= pre);
    if lines_of(d).len() > 0 {
        lemma_starts_wrap(pre, m, post, lines_of(d)[0]);
    }
    assert forall|k: int| 1 <= k < lines_of(d).len() && #[trigger] lines_of(d)[k].len() > 0 implies contains_text(
        s,
        "\n"@ + spaces(ind) + lines_of(d)[k],
    ) by {
        lemma_contains_wrap(pre, m, post, "\n"@ + spaces(ind) + lines_of(d)[k]);
    }
}

/// An indented body between a lead and a tail keeps every line of its
/// text that has content.
pub proof fn lemma_body_in(pre: Seq<char>, d: Seq<char>, ind: nat, post: Seq<char>)
    ensures
        starts_with(pre + indented(d, ind) + post, pre),
        keeps_body_lines(pre + indented(d, ind) + post, d, ind),
{
    let b = indented(d, ind);
    let s = pre + b + post;
    assert(s.subrange(0, pre.len() as int) =~= pre);
    law_indented_keeps_lines(d, ind);
    assert forall|k: int| 0 <= k < lines_of(d).len() && #[trigger] lines_of(d)[k].len() > 0 implies contains_text(
        s,
        spaces(ind) + lines_of(d)[k] + "\n"@,
    ) by {
        lemma_contains_wrap(pre, b, post, spaces(ind) + lines_of(d)[k] + "\n"@);
    }
}

/// A piece placed between two texts is held by the whole.
pub proof fn lemma_piece(a: Seq<char>, p: Seq<char>, c: Seq<char>)
    ensures
        has_at(a + p + c, p, a.len() as int),
        contains_text(a + p + c, p),
{
    assert((a + p + c).subrange(a.len() as int, (a.len() + p.len()) as int) =~= p);
}

/// What an entry keeps of a description written after its head by
/// [`described`]: the head, a space and the first line, then every later
/// line indented.
pub open spec fn keeps_described(s: Seq<char>, head: Seq<char>, o: Option<String>, ind: nat) -> bool {
    &&& starts_with(s, head)
    &&& (o matches Some(d) ==> {
        &&& starts_with(s, head + " "@)
        &&& (lines_of(d@).len() > 0 ==> starts_with(s, head + " "@ + lines_of(d@)[0]))
        &&& keeps_later_lines(s, d@, ind)
    })
}

/// A head, a described description and a tail keep the description.
pub proof fn lemma_described_in(head: Seq<char>, o: Option<String>, ind: nat, post: Seq<char>)
    requires
        ind > 0,
    ensures
        keeps_described(head + described(o, ind) + post, head, o, ind),
{
    reveal_strlit(" ");
    let s = head + described(o, ind) + post;
    match o {
        Some(d) => {
            lemma_multi_in(head + " "@, d@, ind, post);
            assert(s =~= (head + " "@) + multiline(d@, ind) + post);
            assert(s.subrange(0, head.len() as int) =~= head);
        },
        None => {
            assert(s.subrange(0, head.len() as int) =~= head);
        },
    }
}

/// The head of a Google parameter entry: the names, then in brackets the
/// type and the optional marker, whichever are present, then the colon.
pub open spec fn google_parameter_head(p: Parameter) -> Seq<char> {
    let names = "    "@ + joined(p.names@);
    match (p.type_annotation, p.is_optional) {
        (Some(t), true) => names + " ("@ + t@ + ", optional):"@,
        (Some(t), false) => names + " ("@ + t@ + "):"@,
        (None, true) => names + " (optional):"@,
        (None, false) => names + ":"@,
    }
}

/// A Google parameter entry writes its names, its type and its optional
/// marker in brackets, then keeps every line of its description.
pub proof fn law_google_parameter_keeps_fields(p: Parameter)
    ensures
        keeps_described(google_parameter(p), google_parameter_head(p), p.description, 8),
{
    reveal_strlit("    ");
    reveal_strlit(" (");
    reveal_strlit(", ");
    reveal_strlit("optional");
    reveal_strlit(")");
    reveal_strlit(":");
    reveal_strlit(", optional):");
    reveal_strlit("):");
    reveal_strlit(" (optional):");
    reveal_strlit("\n");
    let head = google_parameter_head(p);
    lemma_described_in(head, p.description, 8, "\n"@);
    assert(google_parameter(p) =~= head + described(p.description, 8) + "\n"@);
}

/// The head of a Google return entry: the type and a colon when typed;
/// an untyped return is its description alone.
pub open spec fn google_return_head(r: Return) -> Seq<char> {
    match r.type_annotation {
        Some(t) => "    "@ + t@ + ":"@,
        None => "    "@ + opt_text(r.description),
    }
}

/// A Google return entry writes its type before the colon and keeps
/// every line of its description; an untyped one is its description.
pub proof fn law_google_return_keeps_fields(r: Return)
    ensures
        starts_with(google_return(r), google_return_head(r)),
        r.type_annotation is Some ==> keeps_described(google_return(r), google_return_head(r), r.description, 4),
        r.type_annotation is None ==> google_return(r) == google_return_head(r) + "\n"@,
{
    reveal_strlit("    ");
    reveal_strlit(":");
    reveal_strlit("\n");
    let head = google_return_head(r);
    if r.type_annotation is Some {
        lemma_described_in(head, r.description, 4, "\n"@);
        assert(google_return(r) =~= head + described(r.description, 4) + "\n"@);
    } else {
        assert(google_return(r) =~= head + "\n"@);
        assert(google_return(r).subrange(0, head.len() as int) =~= head);
    }
}

/// A Google exception entry writes its type before the colon and keeps
/// every line of its description.
pub proof fn law_google_exception_keeps_fields(e: ExceptionEntry)
    ensures
        keeps_described(google_exception(e), "    "@ + e.exception_type@ + ":"@, e.description, 8),
{
    let head = "    "@ + e.exception_type@ + ":"@;
    lemma_described_in(head, e.description, 8, "\n"@);
    assert(google_exception(e) =~= head + described(e.description, 8) + "\n"@);
}

/// The head of a Google method entry: the name, then the type in
/// brackets when there is one, then the colon.
pub open spec fn google_method_head(m: Method) -> Seq<char> {
    match m.type_annotation {
        Some(t) => "    "@ + m.name@ + " ("@ + t@ + "):"@,
        None => "    "@ + m.name@ + ":"@,
    }
}

/// A Google method entry writes its name and its type in brackets, then
/// keeps every line of its description.
pub proof fn law_google_method_keeps_fields(m: Method)
    ensures
        keeps_described(google_method(m), google_method_head(m), m.description, 8),
{
    reveal_strlit("    ");
    reveal_strlit(" (");
    reveal_strlit(")");
    reveal_strlit(":");
    reveal_strlit("):");
    let head = google_method_head(m);
    lemma_described_in(head, m.description, 8, "\n"@);
    assert(google_method(m) =~= head + described(m.description, 8) + "\n"@);
}

/// A Google see-also item writes its names and keeps every line of its
/// description after a colon.
pub proof fn law_google_see_also_keeps_fields(item: SeeAlsoEntry)
    ensures
        item.description is None ==> google_see_also(item) == "    "@ + joined(item.names@) + "\n"@,
        item.description is Some ==> keeps_described(
            google_see_also(item),
            "    "@ + joined(item.names@) + ":"@,
            item.description,
            8,
        ),
{
    reveal_strlit(":");
    reveal_strlit(" ");
    reveal_strlit(": ");
    let head = "    "@ + joined(item.names@) + ":"@;
    match item.description {
        Some(d) => {
            lemma_described_in(head, item.description, 8, "\n"@);
            assert(google_see_also(item) =~= head + described(item.description, 8) + "\n"@);
        },
        None => {},
    }
}


/// The type part of a NumPy parameter line: ` : type`, then `, optional`
/// and `, default: value` as present, each joined by a comma.
pub open spec fn numpy_type_words(p: Parameter) -> Seq<Seq<char>> {
    (match p.type_annotation {
        Some(t) => seq![t@],
        None => Seq::empty(),
    }) + (if p.is_optional {
        seq!["optional"@]
    } else {
        Seq::empty()
    }) + (match p.default_value {
        Some(v) => seq!["default: "@ + v@],
        None => Seq::empty(),
    })
}

/// A NumPy parameter's first line is its names, then — when it has a
/// type, an optional marker or a default — ` : ` and those, joined by
/// `, `; every line of its description with text follows, indented by
/// four.
pub proof fn law_numpy_parameter_keeps_fields(p: Parameter)
    ensures
        numpy_type_words(p).len() == 0 ==> starts_with(numpy_parameter(p), joined(p.names@) + "\n"@),
        numpy_type_words(p).len() > 0 ==> starts_with(
            numpy_parameter(p),
            joined(p.names@) + " : "@ + crate::emit::join_sep(numpy_type_words(p), ", "@) + "\n"@,
        ),
        p.description matches Some(d) ==> keeps_body_lines(numpy_parameter(p), d@, 4),
{
    reveal_strlit(" : ");
    reveal_strlit(", ");
    reveal_strlit("optional");
    reveal_strlit("default: ");
    reveal_strlit("\n");
    let ws = numpy_type_words(p);
    let line = joined(p.names@) + numpy_type_part(p) + "\n"@;
    let tail = match p.description {
        Some(d) => indented(d@, 4),
        None => Seq::empty(),
    };
    assert(numpy_parameter(p) =~= line + tail + Seq::empty());
    let words = crate::emit::join_sep(ws, ", "@);
    // The type part is the words joined by commas, after ` : `.
    let t = p.type_annotation;
    let o = p.is_optional;
    let dv = p.default_value;
    let w1: Seq<Seq<char>> = match t {
        Some(x) => seq![x@],
        None => Seq::empty(),
    };
    let w2: Seq<Seq<char>> = w1 + (if o {
        seq!["optional"@]
    } else {
        Seq::empty()
    });
    assert(ws =~= w2 + (match dv {
        Some(v) => seq!["default: "@ + v@],
        None => Seq::empty(),
    }));
    assert(crate::emit::join_sep(w1, ", "@) =~= opt_text(t)) by {
        if t is Some {
            assert(w1.len() == 1);
        }
    }
    if o {
        crate::emit::lemma_join_push(w1, "optional"@, ", "@);
        assert(w2 =~= w1.push("optional"@));
    } else {
        assert(w2 =~= w1);
    }
    match dv {
        Some(v) => {
            crate::emit::lemma_join_push(w2, "default: "@ + v@, ", "@);
            assert(ws =~= w2.push("default: "@ + v@));
        },
        None => {
            assert(ws =~= w2);
        },
    }
    if ws.len() > 0 {
        assert(numpy_type_part(p) =~= " : "@ + words);
    } else {
        assert(numpy_type_part(p) =~= Seq::<char>::empty());
    }
    let head = if ws.len() > 0 {
        joined(p.names@) + " : "@ + words + "\n"@
    } else {
        joined(p.names@) + "\n"@
    };
    assert(line =~= head);
    assert(numpy_parameter(p) =~= head + tail);
    assert(numpy_parameter(p).subrange(0, head.len() as int) =~= head);
    match p.description {
        Some(d) => {
            lemma_body_in(head, d@, 4, Seq::empty());
            assert(head + indented(d@, 4) + Seq::<char>::empty() =~= numpy_parameter(p));
        },
        None => {},
    }
}

/// The first line of a NumPy return entry: `name : type`, the name alone
/// or the type alone, as present.
pub open spec fn numpy_return_head(r: Return) -> Seq<char> {
    (match (r.name, r.type_annotation) {
        (Some(n), Some(t)) => n@ + " : "@ + t@,
        (Some(n), None) => n@,
        (None, Some(t)) => t@,
        (None, None) => Seq::empty(),
    }) + "\n"@
}

/// A NumPy return entry's first line holds its name and type; every line
/// of its description with text follows, indented by four.
pub proof fn law_numpy_return_keeps_fields(r: Return)
    ensures
        starts_with(numpy_return(r), numpy_return_head(r)),
        r.description matches Some(d) ==> keeps_body_lines(numpy_return(r), d@, 4),
{
    let head = numpy_return_head(r);
    lemma_body_entry(head, r.description);
    assert(numpy_return(r) =~= head + body_desc(r.description));
}

/// A head followed by a NumPy description body keeps the head and every
/// line of the description with text.
pub proof fn lemma_body_entry(head: Seq<char>, o: Option<String>)
    ensures
        starts_with(head + body_desc(o), head),
        o matches Some(d) ==> keeps_body_lines(head + body_desc(o), d@, 4),
{
    match o {
        Some(d) => {
            lemma_body_in(head, d@, 4, Seq::empty());
            assert(head + indented(d@, 4) + Seq::<char>::empty() =~= head + body_desc(o));
        },
        None => {
            assert((head + body_desc(o)).subrange(0, head.len() as int) =~= head);
        },
    }
}

/// A NumPy exception entry's first line is its type; every line of its
/// description with text follows, indented by four.
pub proof fn law_numpy_exception_keeps_fields(e: ExceptionEntry)
    ensures
        starts_with(numpy_exception(e), e.exception_type@ + "\n"@),
        e.description matches Some(d) ==> keeps_body_lines(numpy_exception(e), d@, 4),
{
    lemma_body_entry(e.exception_type@ + "\n"@, e.description);
    assert(numpy_exception(e) =~= e.exception_type@ + "\n"@ + body_desc(e.description));
}

/// A NumPy method entry's first line is its name and, when it has one,
/// its type in brackets; every line of its description with text
/// follows, indented by four.
pub proof fn law_numpy_method_keeps_fields(m: Method)
    ensures
        m.type_annotation matches Some(t) ==> starts_with(numpy_method(m), m.name@ + " ("@ + t@ + ")\n"@),
        m.type_annotation is None ==> starts_with(numpy_method(m), m.name@ + "\n"@),
        m.description matches Some(d) ==> keeps_body_lines(numpy_method(m), d@, 4),
{
    reveal_strlit(" (");
    reveal_strlit(")");
    reveal_strlit(")\n");
    reveal_strlit("\n");
    let head = m.name@ + paren_type(m.type_annotation) + "\n"@;
    lemma_body_entry(head, m.description);
    assert(numpy_method(m) =~= head + body_desc(m.description));
    match m.type_annotation {
        Some(t) => {
            assert(head =~= m.name@ + " ("@ + t@ + ")\n"@);
        },
        None => {
            assert(head =~= m.name@ + "\n"@);
        },
    }
}

/// A NumPy see-also item's first line is its names; every line of its
/// description with text follows, indented by four.
pub proof fn law_numpy_see_also_keeps_fields(item: SeeAlsoEntry)
    ensures
        starts_with(numpy_see_also(item), joined(item.names@) + "\n"@),
        item.description matches Some(d) ==> keeps_body_lines(numpy_see_also(item), d@, 4),
{
    lemma_body_entry(joined(item.names@) + "\n"@, item.description);
    assert(numpy_see_also(item) =~= joined(item.names@) + "\n"@ + body_desc(item.description));
}


/// A Sphinx `:return:` field keeps every line of the description, and a
/// type becomes an `:rtype:` field.
pub proof fn law_sphinx_return_keeps_fields(r: Return)
    ensures
        keeps_described(sphinx_return(r), ":return:"@, r.description, 4),
        r.type_annotation matches Some(t) ==> contains_text(sphinx_return(r), ":rtype: "@ + t@ + "\n"@),
{
    let head = ":return:"@;
    let rt: Seq<char> = match r.type_annotation {
        Some(t) => ":rtype: "@ + t@ + "\n"@,
        None => Seq::empty(),
    };
    lemma_described_in(head, r.description, 4, "\n"@ + rt);
    assert(sphinx_return(r) =~= head + described(r.description, 4) + ("\n"@ + rt));
    match r.type_annotation {
        Some(t) => {
            lemma_piece(head + described(r.description, 4) + "\n"@, rt, Seq::empty());
            assert(head + described(r.description, 4) + "\n"@ + rt + Seq::<char>::empty() =~= sphinx_return(r));
        },
        None => {},
    }
}

/// The `:var` field of an attribute name keeps every line of the
/// description, and a type becomes a `:vartype` field for that name.
pub proof fn law_sphinx_attribute_keeps_fields(name: Seq<char>, a: Attribute)
    ensures
        keeps_described(attribute_fields(name, a), ":var "@ + name + ":"@, a.description, 4),
        a.type_annotation matches Some(t) ==> contains_text(
            attribute_fields(name, a),
            ":vartype "@ + name + ": "@ + t@ + "\n"@,
        ),
{
    let head = ":var "@ + name + ":"@;
    let vt: Seq<char> = match a.type_annotation {
        Some(t) => ":vartype "@ + name + ": "@ + t@ + "\n"@,
        None => Seq::empty(),
    };
    lemma_described_in(head, a.description, 4, "\n"@ + vt);
    assert(attribute_fields(name, a) =~= head + described(a.description, 4) + ("\n"@ + vt));
    match a.type_annotation {
        Some(t) => {
            lemma_piece(head + described(a.description, 4) + "\n"@, vt, Seq::empty());
            assert(head + described(a.description, 4) + "\n"@ + vt + Seq::<char>::empty() =~= attribute_fields(name, a));
        },
        None => {},
    }
}

/// Every name of an attribute gets its own fields.
pub proof fn law_sphinx_attribute_every_name(names: Seq<String>, a: Attribute)
    ensures
        forall|k: int|
            0 <= k < names.len() ==> contains_text(attributes_for(names, a), #[trigger] attribute_fields(names[k]@, a)),
    decreases names.len(),
{
    if names.len() > 0 {
        let init = names.drop_last();
        law_sphinx_attribute_every_name(init, a);
        let j = attributes_for(init, a);
        let last = attribute_fields(names.last()@, a);
        assert(attributes_for(names, a) == j + last);
        assert forall|k: int| 0 <= k < names.len() implies contains_text(
            attributes_for(names, a),
            #[trigger] attribute_fields(names[k]@, a),
        ) by {
            if k < names.len() - 1 {
                assert(init[k] == names[k]);
                lemma_contains_wrap(Seq::empty(), j, last, attribute_fields(names[k]@, a));
                assert(Seq::<char>::empty() + j + last =~= j + last);
            } else {
                lemma_piece(j, last, Seq::empty());
                assert(j + last + Seq::<char>::empty() =~= j + last);
            }
        }
    }
}

/// A parameter's Sphinx description holds its description first, then
/// `defaults to` and its default value.
pub proof fn law_sphinx_param_desc(p: Parameter)
    ensures
        p.description matches Some(d) ==> starts_with(param_desc(p), d@),
        p.default_value matches Some(v) ==> contains_text(param_desc(p), "defaults to "@ + v@),
        p.description is None && p.default_value is None ==> param_desc(p).len() == 0,
{
    reveal_strlit("defaults to ");
    reveal_strlit(", defaults to ");
    reveal_strlit(", ");
    let dd = opt_text(p.description);
    let tail: Seq<char> = match p.default_value {
        Some(v) => (if dd.len() == 0 {
            "defaults to "@
        } else {
            ", defaults to "@
        }) + v@,
        None => Seq::empty(),
    };
    assert(param_desc(p) =~= dd + tail);
    assert((dd + tail).subrange(0, dd.len() as int) =~= dd);
    match p.default_value {
        Some(v) => {
            if dd.len() == 0 {
                lemma_piece(dd, "defaults to "@ + v@, Seq::empty());
                assert(dd + ("defaults to "@ + v@) + Seq::<char>::empty() =~= param_desc(p));
            } else {
                lemma_piece(dd + ", "@, "defaults to "@ + v@, Seq::empty());
                assert(", defaults to "@ =~= ", "@ + "defaults to "@);
                assert(dd + ", "@ + ("defaults to "@ + v@) + Seq::<char>::empty() =~= param_desc(p));
            }
        },
        None => {},
    }
}

/// A Sphinx `:param` field keeps every line of the parameter's
/// description (with its default), and a type or the optional marker
/// becomes a `:type` field for that name.
pub proof fn law_sphinx_param_keeps_fields(name: Seq<char>, p: Parameter)
    ensures
        starts_with(param_fields(name, p), ":param "@ + name + ":"@),
        param_desc(p).len() > 0 && lines_of(param_desc(p)).len() > 0 ==> starts_with(
            param_fields(name, p),
            ":param "@ + name + ": "@ + lines_of(param_desc(p))[0],
        ),
        keeps_later_lines(param_fields(name, p), param_desc(p), 4),
        p.type_annotation matches Some(t) ==> contains_text(param_fields(name, p), ":type "@ + name + ": "@ + t@),
        p.is_optional ==> contains_text(param_fields(name, p), ":type "@ + name + ": "@ + opt_text(p.type_annotation)
            + (if p.type_annotation is Some {
            ", "@
        } else {
            Seq::empty()
        }) + "optional\n"@),
{
    reveal_strlit(":");
    reveal_strlit(" ");
    reveal_strlit(": ");
    reveal_strlit(", ");
    reveal_strlit("optional");
    reveal_strlit("optional\n");
    reveal_strlit("\n");
    let head = ":param "@ + name + ":"@;
    let pd = param_desc(p);
    let tf = type_field(name, p);
    let s = param_fields(name, p);
    if pd.len() > 0 {
        lemma_multi_in(head + " "@, pd, 4, "\n"@ + tf);
        assert(s =~= (head + " "@) + multiline(pd, 4) + ("\n"@ + tf));
        assert(s.subrange(0, head.len() as int) =~= head);
        assert(head + " "@ =~= ":param "@ + name + ": "@);
    } else {
        assert(s =~= head + ("\n"@ + tf));
        assert(s.subrange(0, head.len() as int) =~= head);
        assert forall|k: int| 1 <= k < lines_of(pd).len() && #[trigger] lines_of(pd)[k].len() > 0 implies contains_text(
            s,
            "\n"@ + spaces(4) + lines_of(pd)[k],
        ) by {
            assert(pd =~= Seq::<char>::empty());
            crate::emit::lemma_lines_of_empty();
        }
    }
    let front = s.subrange(0, s.len() - tf.len());
    assert(s =~= front + tf + Seq::empty()) by {
        if pd.len() > 0 {
            assert(s =~= ((head + " "@) + multiline(pd, 4) + "\n"@) + tf);
        } else {
            assert(s =~= (head + "\n"@) + tf);
        }
    }
    if p.type_annotation is Some || p.is_optional {
        let ty = opt_text(p.type_annotation);
        let opt: Seq<char> = if p.is_optional {
            (if p.type_annotation is Some {
                ", "@
            } else {
                Seq::empty()
            }) + "optional"@
        } else {
            Seq::empty()
        };
        assert(tf =~= ":type "@ + name + ": "@ + ty + opt + "\n"@);
        match p.type_annotation {
            Some(t) => {
                lemma_piece(front, ":type "@ + name + ": "@ + t@, opt + "\n"@);
                assert(front + (":type "@ + name + ": "@ + t@) + (opt + "\n"@) =~= s);
            },
            None => {},
        }
        if p.is_optional {
            let piece = ":type "@ + name + ": "@ + ty + (if p.type_annotation is Some {
                ", "@
            } else {
                Seq::empty()
            }) + "optional\n"@;
            assert(tf =~= piece);
            lemma_piece(front, piece, Seq::empty());
        }
    }
}

/// Every name of a parameter gets its own fields.
pub proof fn law_sphinx_param_every_name(names: Seq<String>, p: Parameter)
    ensures
        forall|k: int| 0 <= k < names.len() ==> contains_text(params_for(names, p), #[trigger] param_fields(names[k]@, p)),
    decreases names.len(),
{
    if names.len() > 0 {
        let init = names.drop_last();
        law_sphinx_param_every_name(init, p);
        let j = params_for(init, p);
        let last = param_fields(names.last()@, p);
        assert(params_for(names, p) == j + last);
        assert forall|k: int| 0 <= k < names.len() implies contains_text(
            params_for(names, p),
            #[trigger] param_fields(names[k]@, p),
        ) by {
            if k < names.len() - 1 {
                assert(init[k] == names[k]);
                lemma_contains_wrap(Seq::empty(), j, last, param_fields(names[k]@, p));
                assert(Seq::<char>::empty() + j + last =~= j + last);
            } else {
                lemma_piece(j, last, Seq::empty());
                assert(j + last + Seq::<char>::empty() =~= j + last);
            }
        }
    }
}

/// A Sphinx method item names the method, its type in brackets and its
/// description after a colon.
pub proof fn law_sphinx_method_keeps_fields(m: Method)
    ensures
        starts_with(method_item(m), "* "@ + m.name@),
        m.type_annotation matches Some(t) ==> starts_with(method_item(m), "* "@ + m.name@ + "("@ + t@ + ")"@),
        m.description matches Some(d) ==> contains_text(method_item(m), ": "@ + d@ + "\n"@),
{
    let a = "* "@ + m.name@;
    let tp: Seq<char> = match m.type_annotation {
        Some(t) => "("@ + t@ + ")"@,
        None => Seq::empty(),
    };
    let dp: Seq<char> = match m.description {
        Some(d) => ": "@ + d@,
        None => Seq::empty(),
    };
    assert(method_item(m) =~= a + tp + (dp + "\n"@));
    assert(method_item(m).subrange(0, a.len() as int) =~= a);
    assert(method_item(m).subrange(0, (a + tp).len() as int) =~= a + tp);
    match m.type_annotation {
        Some(t) => {
            assert(a + tp =~= "* "@ + m.name@ + "("@ + t@ + ")"@);
        },
        None => {},
    }
    match m.description {
        Some(d) => {
            lemma_piece(a + tp, ": "@ + d@ + "\n"@, Seq::empty());
            assert(a + tp + (": "@ + d@ + "\n"@) + Seq::<char>::empty() =~= method_item(m));
        },
        None => {},
    }
}

/// A Sphinx warning admonition holds `Type: description` indented by four.
pub proof fn law_sphinx_warning_keeps_fields(e: ExceptionEntry)
    ensures
        starts_with(sphinx_warning(e), ".. warning::\n\n"@),
        keeps_body_lines(sphinx_warning(e), e.exception_type@ + (match e.description {
            Some(d) => ": "@ + d@,
            None => Seq::empty(),
        }), 4),
{
    let t = e.exception_type@ + (match e.description {
        Some(d) => ": "@ + d@,
        None => Seq::empty(),
    });
    lemma_body_in(".. warning::\n\n"@, t, 4, Seq::empty());
    assert(".. warning::\n\n"@ + indented(t, 4) + Seq::<char>::empty() =~= sphinx_warning(e));
}

/// A Sphinx see-also item holds `names: description` indented by four.
pub proof fn law_sphinx_see_also_keeps_fields(item: SeeAlsoEntry)
    ensures
        keeps_body_lines(see_also_item(item), joined(item.names@) + (match item.description {
            Some(d) => ": "@ + d@,
            None => Seq::empty(),
        }), 4),
{
    let t = joined(item.names@) + (match item.description {
        Some(d) => ": "@ + d@,
        None => Seq::empty(),
    });
    lemma_body_in(Seq::empty(), t, 4, Seq::empty());
    assert(Seq::<char>::empty() + indented(t, 4) + Seq::<char>::empty() =~= see_also_item(item));
}


/// Parts joined with a separator hold every part.
pub proof fn lemma_join_sep_has(ps: Seq<Seq<char>>, sep: Seq<char>)
    ensures
        forall|k: int| 0 <= k < ps.len() ==> contains_text(join_sep(ps, sep), #[trigger] ps[k]),
        ps.len() > 0 ==> starts_with(join_sep(ps, sep), ps[0]),
    decreases ps.len(),
{
    if ps.len() == 1 {
        assert(join_sep(ps, sep).subrange(0, ps[0].len() as int) =~= ps[0]);
        lemma_piece(Seq::empty(), ps[0], Seq::empty());
        assert(Seq::<char>::empty() + ps[0] + Seq::<char>::empty() =~= ps[0]);
    } else if ps.len() > 1 {
        let init = ps.drop_last();
        lemma_join_sep_has(init, sep);
        let j = join_sep(init, sep);
        let tail = sep + ps.last();
        assert(join_sep(ps, sep) =~= j + tail);
        assert(init[0] == ps[0]);
        lemma_starts_wrap(Seq::empty(), j, tail, ps[0]);
        assert(Seq::<char>::empty() + j + tail =~= j + tail);
        assert(Seq::<char>::empty() + ps[0] =~= ps[0]);
        assert forall|k: int| 0 <= k < ps.len() implies contains_text(join_sep(ps, sep), #[trigger] ps[k]) by {
            if k < ps.len() - 1 {
                assert(init[k] == ps[k]);
                lemma_contains_wrap(Seq::empty(), j, tail, ps[k]);
            } else {
                lemma_piece(j + sep, ps[k], Seq::empty());
                assert(j + sep + ps[k] + Seq::<char>::empty() =~= j + tail);
            }
        }
    }
}

/// Parts each led by a newline hold every part after its newline.
pub proof fn lemma_lead_each_has(ps: Seq<Seq<char>>)
    ensures
        forall|k: int| 0 <= k < ps.len() ==> contains_text(lead_each(ps), "\n"@ + #[trigger] ps[k]),
    decreases ps.len(),
{
    if ps.len() > 0 {
        let init = ps.drop_last();
        lemma_lead_each_has(init);
        let j = lead_each(init);
        let tail = "\n"@ + ps.last();
        assert(lead_each(ps) =~= j + tail);
        assert forall|k: int| 0 <= k < ps.len() implies contains_text(lead_each(ps), "\n"@ + #[trigger] ps[k]) by {
            if k < ps.len() - 1 {
                assert(init[k] == ps[k]);
                lemma_contains_wrap(Seq::empty(), j, tail, "\n"@ + ps[k]);
                assert(Seq::<char>::empty() + j + tail =~= j + tail);
            } else {
                lemma_piece(j, tail, Seq::empty());
                assert(j + tail + Seq::<char>::empty() =~= j + tail);
            }
        }
    }
}

/// The four runs of docstring parts, in order: where the `k`-th of each
/// run sits among all parts.
pub proof fn lemma_parts_index(
    sum: Seq<Seq<char>>,
    dirs: Seq<Seq<char>>,
    ext: Seq<Seq<char>>,
    secs: Seq<Seq<char>>,
)
    ensures
        ({
            let ps = sum + dirs + ext + secs;
            &&& forall|k: int| 0 <= k < sum.len() ==> ps[k] == #[trigger] sum[k]
            &&& forall|k: int| 0 <= k < dirs.len() ==> ps[sum.len() + k] == #[trigger] dirs[k]
            &&& forall|k: int| 0 <= k < ext.len() ==> ps[sum.len() + dirs.len() + k] == #[trigger] ext[k]
            &&& forall|k: int|
                0 <= k < secs.len() ==> ps[sum.len() + dirs.len() + ext.len() + k] == #[trigger] secs[k]
            &&& ps.len() == sum.len() + dirs.len() + ext.len() + secs.len()
        }),
{
}

/// A separated docstring holds every one of its parts.
proof fn lemma_separated_parts(doc: Docstring, secs: Seq<Seq<char>>, ind: nat)
    ensures
        ({
            let ps = opt_line(doc.summary) + doc.directives@.map_values(|d: Directive| directive_text(d, ind))
                + opt_line(doc.extended_summary) + secs;
            let t = separated(ps);
            &&& (doc.summary matches Some(x) ==> starts_with(t, x@ + "\n"@))
            &&& (forall|j: int| 0 <= j < doc.directives@.len() ==> contains_text(t, directive_text(#[trigger] doc.directives@[j], ind)))
            &&& (doc.extended_summary matches Some(x) ==> contains_text(t, x@ + "\n"@))
            &&& (forall|k: int| 0 <= k < secs.len() ==> contains_text(t, #[trigger] secs[k]))
        }),
{
    let sum = opt_line(doc.summary);
    let dirs = doc.directives@.map_values(|d: Directive| directive_text(d, ind));
    let ext = opt_line(doc.extended_summary);
    let ps = sum + dirs + ext + secs;
    lemma_parts_index(sum, dirs, ext, secs);
    lemma_join_sep_has(ps, "\n"@);
    if doc.summary is Some {
        assert(ps[0] == sum[0]);
    }
    assert forall|j: int| 0 <= j < doc.directives@.len() implies contains_text(
        separated(ps),
        directive_text(#[trigger] doc.directives@[j], ind),
    ) by {
        assert(ps[sum.len() + j] == dirs[j]);
    }
    if doc.extended_summary is Some {
        assert(ps[(sum.len() + dirs.len()) as int] == ext[0]);
    }
    assert forall|k: int| 0 <= k < secs.len() implies contains_text(separated(ps), #[trigger] secs[k]) by {
        assert(ps[sum.len() + dirs.len() + ext.len() + k] == secs[k]);
    }
}

/// A Google docstring opens with its summary line and holds each
/// directive, its extended summary and each section.
pub proof fn law_google_doc_keeps_parts(doc: Docstring)
    ensures
        doc.summary matches Some(x) ==> starts_with(google_doc(doc), x@ + "\n"@),
        forall|j: int|
            0 <= j < doc.directives@.len() ==> contains_text(google_doc(doc), directive_text(#[trigger] doc.directives@[j], 3)),
        doc.extended_summary matches Some(x) ==> contains_text(google_doc(doc), x@ + "\n"@),
        forall|k: int|
            0 <= k < doc.sections@.len() ==> contains_text(google_doc(doc), google_section(#[trigger] doc.sections@[k])),
{
    let secs = doc.sections@.map_values(|s: Section| google_section(s));
    lemma_separated_parts(doc, secs, 3);
    assert(google_parts(doc) == opt_line(doc.summary) + doc.directives@.map_values(|d: Directive| directive_text(d, 3))
        + opt_line(doc.extended_summary) + secs);
    assert forall|k: int| 0 <= k < doc.sections@.len() implies contains_text(
        google_doc(doc),
        google_section(#[trigger] doc.sections@[k]),
    ) by {
        assert(secs[k] == google_section(doc.sections@[k]));
    }
}

/// A NumPy docstring opens with its summary line and holds each
/// directive, its extended summary and each section.
pub proof fn law_numpy_doc_keeps_parts(doc: Docstring)
    ensures
        doc.summary matches Some(x) ==> starts_with(numpy_doc(doc), x@ + "\n"@),
        forall|j: int|
            0 <= j < doc.directives@.len() ==> contains_text(numpy_doc(doc), directive_text(#[trigger] doc.directives@[j], 3)),
        doc.extended_summary matches Some(x) ==> contains_text(numpy_doc(doc), x@ + "\n"@),
        forall|k: int|
            0 <= k < doc.sections@.len() ==> contains_text(numpy_doc(doc), numpy_section(#[trigger] doc.sections@[k])),
{
    let secs = doc.sections@.map_values(|s: Section| numpy_section(s));
    lemma_separated_parts(doc, secs, 3);
    assert(numpy_parts(doc) == opt_line(doc.summary) + doc.directives@.map_values(|d: Directive| directive_text(d, 3))
        + opt_line(doc.extended_summary) + secs);
    assert forall|k: int| 0 <= k < doc.sections@.len() implies contains_text(
        numpy_doc(doc),
        numpy_section(#[trigger] doc.sections@[k]),
    ) by {
        assert(secs[k] == numpy_section(doc.sections@[k]));
    }
}

/// A Sphinx docstring opens with its summary line and holds, each on
/// lines of its own, the extended summary, each directive and each
/// section.
pub proof fn law_sphinx_doc_keeps_parts(doc: Docstring)
    ensures
        doc.summary matches Some(x) ==> starts_with(sphinx_doc(doc), x@ + "\n"@),
        forall|j: int|
            0 <= j < doc.directives@.len() ==> contains_text(sphinx_doc(doc), "\n"@ + directive_text(#[trigger] doc.directives@[j], 4)),
        doc.extended_summary matches Some(x) ==> contains_text(sphinx_doc(doc), "\n"@ + x@ + "\n"@),
        forall|k: int|
            0 <= k < doc.sections@.len() ==> contains_text(sphinx_doc(doc), "\n"@ + sphinx_section(#[trigger] doc.sections@[k])),
{
    let head: Seq<char> = match doc.summary {
        Some(x) => x@ + "\n"@,
        None => Seq::empty(),
    };
    let ext = opt_line(doc.extended_summary);
    let dirs = doc.directives@.map_values(|d: Directive| directive_text(d, 4));
    let secs = doc.sections@.map_values(|s: Section| sphinx_section(s));
    let ps = ext + dirs + secs;
    let body = lead_each(ps);
    assert(sphinx_doc(doc) == head + body);
    assert((head + body).subrange(0, head.len() as int) =~= head);
    lemma_lead_each_has(ps);
    assert forall|p: Seq<char>| contains_text(body, p) implies contains_text(sphinx_doc(doc), p) by {
        lemma_contains_wrap(head, body, Seq::empty(), p);
        assert(head + body + Seq::<char>::empty() =~= head + body);
    }
    match doc.extended_summary {
        Some(x) => {
            assert(ps[0] == ext[0]);
            assert(contains_text(body, "\n"@ + ps[0]));
            assert("\n"@ + ps[0] =~= "\n"@ + x@ + "\n"@);
        },
        None => {},
    }
    assert forall|j: int| 0 <= j < doc.directives@.len() implies contains_text(
        sphinx_doc(doc),
        "\n"@ + directive_text(#[trigger] doc.directives@[j], 4),
    ) by {
        assert(ps[ext.len() + j] == dirs[j]);
        assert(contains_text(body, "\n"@ + ps[ext.len() + j]));
    }
    assert forall|k: int| 0 <= k < doc.sections@.len() implies contains_text(
        sphinx_doc(doc),
        "\n"@ + sphinx_section(#[trigger] doc.sections@[k]),
    ) by {
        assert(ps[ext.len() + dirs.len() + k] == secs[k]);
        assert(contains_text(body, "\n"@ + ps[ext.len() + dirs.len() + k]));
    }
}

/// Blocks emitted one after another hold each block's text.
pub proof fn lemma_google_blocks_has(bs: Seq<Block>)
    ensures
        forall|k: int| 0 <= k < bs.len() ==> contains_text(google_blocks(bs), google_block(#[trigger] bs[k])),
    decreases bs.len(),
{
    if bs.len() > 0 {
        let init = bs.drop_last();
        lemma_google_blocks_has(init);
        let j = google_blocks(init);
        let last = google_block(bs.last());
        assert(google_blocks(bs) == j + last);
        assert forall|k: int| 0 <= k < bs.len() implies contains_text(google_blocks(bs), google_block(#[trigger] bs[k])) by {
            if k < bs.len() - 1 {
                assert(init[k] == bs[k]);
                lemma_contains_wrap(Seq::empty(), j, last, google_block(bs[k]));
                assert(Seq::<char>::empty() + j + last =~= j + last);
            } else {
                lemma_piece(j, last, Seq::empty());
                assert(j + last + Seq::<char>::empty() =~= j + last);
            }
        }
    }
}

/// A Google section opens with its header and a colon, and holds each of
/// its blocks.
pub proof fn law_google_section_keeps_blocks(sec: Section)
    ensures
        starts_with(google_section(sec), google_header(sec.kind) + ":\n"@),
        forall|k: int|
            0 <= k < sec.blocks@.len() ==> contains_text(google_section(sec), google_block(#[trigger] sec.blocks@[k])),
{
    let h = google_header(sec.kind) + ":\n"@;
    let b = google_blocks(sec.blocks@);
    assert(google_section(sec) == h + b);
    assert((h + b).subrange(0, h.len() as int) =~= h);
    lemma_google_blocks_has(sec.blocks@);
    assert forall|k: int| 0 <= k < sec.blocks@.len() implies contains_text(
        google_section(sec),
        google_block(#[trigger] sec.blocks@[k]),
    ) by {
        lemma_contains_wrap(h, b, Seq::empty(), google_block(sec.blocks@[k]));
        assert(h + b + Seq::<char>::empty() =~= h + b);
    }
}

/// NumPy blocks emitted one after another hold each block's text (a
/// paragraph right after another one led by a blank line).
pub proof fn lemma_numpy_blocks_has(bs: Seq<Block>)
    ensures
        forall|k: int|
            0 <= k < bs.len() ==> contains_text(
                numpy_blocks(bs),
                numpy_block(#[trigger] bs[k], ends_with_paragraph(bs.subrange(0, k))),
            ),
    decreases bs.len(),
{
    if bs.len() > 0 {
        let init = bs.drop_last();
        lemma_numpy_blocks_has(init);
        let j = numpy_blocks(init);
        let last = numpy_block(bs.last(), ends_with_paragraph(init));
        assert(numpy_blocks(bs) == j + last);
        assert forall|k: int| 0 <= k < bs.len() implies contains_text(
            numpy_blocks(bs),
            numpy_block(#[trigger] bs[k], ends_with_paragraph(bs.subrange(0, k))),
        ) by {
            if k < bs.len() - 1 {
                assert(init[k] == bs[k]);
                assert(init.subrange(0, k) =~= bs.subrange(0, k));
                lemma_contains_wrap(Seq::empty(), j, last, numpy_block(bs[k], ends_with_paragraph(bs.subrange(0, k))));
                assert(Seq::<char>::empty() + j + last =~= j + last);
            } else {
                assert(init =~= bs.subrange(0, k));
                lemma_piece(j, last, Seq::empty());
                assert(j + last + Seq::<char>::empty() =~= j + last);
            }
        }
    }
}

/// A NumPy section opens with its underlined header and holds each of its
/// blocks.
pub proof fn law_numpy_section_keeps_blocks(sec: Section)
    ensures
        starts_with(numpy_section(sec), underlined(numpy_header(sec.kind))),
        starts_with(numpy_section(sec), numpy_header(sec.kind) + "\n"@),
        forall|i: int|
            0 <= i < numpy_header(sec.kind).len() ==> #[trigger] numpy_section(sec)[numpy_header(sec.kind).len() + 1 + i]
                == '-',
        numpy_section(sec)[(2 * numpy_header(sec.kind).len() + 1) as int] == '\n',
        forall|k: int|
            0 <= k < sec.blocks@.len() ==> contains_text(
                numpy_section(sec),
                numpy_block(#[trigger] sec.blocks@[k], ends_with_paragraph(sec.blocks@.subrange(0, k))),
            ),
{
    reveal_strlit("\n");
    let name = numpy_header(sec.kind);
    let h = underlined(name);
    let b = numpy_blocks(sec.blocks@);
    assert(numpy_section(sec) == h + b);
    assert((h + b).subrange(0, h.len() as int) =~= h);
    assert((h + b).subrange(0, (name.len() + 1) as int) =~= name + "\n"@);
    assert forall|i: int| 0 <= i < name.len() implies #[trigger] numpy_section(sec)[name.len() + 1 + i] == '-' by {
        assert(h[name.len() + 1 + i] == crate::emit::numpy::dashes(name.len())[i]);
    }
    assert(h[(2 * name.len() + 1) as int] == '\n');
    lemma_numpy_blocks_has(sec.blocks@);
    assert forall|k: int| 0 <= k < sec.blocks@.len() implies contains_text(
        numpy_section(sec),
        numpy_block(#[trigger] sec.blocks@[k], ends_with_paragraph(sec.blocks@.subrange(0, k))),
    ) by {
        lemma_contains_wrap(h, b, Seq::empty(), numpy_block(sec.blocks@[k], ends_with_paragraph(sec.blocks@.subrange(0, k))));
        assert(h + b + Seq::<char>::empty() =~= h + b);
    }
}

/// Sphinx blocks emitted one after another hold each block's text, as it
/// reads after the blocks before it.
pub proof fn lemma_sphinx_blocks_has(bs: Seq<Block>, skip: bool, warns: bool)
    ensures
        forall|k: int|
            0 <= k < bs.len() ==> contains_text(
                sphinx_blocks(bs, skip, warns),
                sphinx_block(#[trigger] bs[k], skip, warns, bs.subrange(0, k)),
            ),
    decreases bs.len(),
{
    if bs.len() > 0 {
        let init = bs.drop_last();
        lemma_sphinx_blocks_has(init, skip, warns);
        let j = sphinx_blocks(init, skip, warns);
        let last = sphinx_block(bs.last(), skip, warns, init);
        assert(sphinx_blocks(bs, skip, warns) == j + last);
        assert forall|k: int| 0 <= k < bs.len() implies contains_text(
            sphinx_blocks(bs, skip, warns),
            sphinx_block(#[trigger] bs[k], skip, warns, bs.subrange(0, k)),
        ) by {
            if k < bs.len() - 1 {
                assert(init[k] == bs[k]);
                assert(init.subrange(0, k) =~= bs.subrange(0, k));
                lemma_contains_wrap(Seq::empty(), j, last, sphinx_block(bs[k], skip, warns, bs.subrange(0, k)));
                assert(Seq::<char>::empty() + j + last =~= j + last);
            } else {
                assert(init =~= bs.subrange(0, k));
                lemma_piece(j, last, Seq::empty());
                assert(j + last + Seq::<char>::empty() =~= j + last);
            }
        }
    }
}

/// A Sphinx section that is not free text holds each of its blocks: the
/// exceptions of a `Warns` section as warnings, of any other as `:raises`
/// fields, parameters, returns and attributes as their fields.
pub proof fn law_sphinx_section_keeps_blocks(sec: Section)
    requires
        !(sec.kind is FreeText),
    ensures
        forall|k: int|
            0 <= k < sec.blocks@.len() ==> contains_text(
                sphinx_section(sec),
                sphinx_block(#[trigger] sec.blocks@[k], false, sec.kind is Warns, sec.blocks@.subrange(0, k)),
            ),
{
    lemma_sphinx_blocks_has(sec.blocks@, false, sec.kind is Warns);
}


/// A section kind whose header the emitters spell out themselves (every
/// kind but an unknown free-text one, which keeps its own title).
pub open spec fn named_kind(k: SectionKind) -> bool {
    !(k matches SectionKind::FreeText(FreeSectionKind::Unknown(_)))
}

/// Distinct section kinds get distinct Google headers, so a section's kind
/// can be read back from the header emitted for it.
#[verifier::rlimit(100)]
pub proof fn law_google_header_injective(a: SectionKind, b: SectionKind)
    requires
        named_kind(a),
        named_kind(b),
        a != b,
    ensures
        google_header(a) != google_header(b),
{
    reveal_strlit("Args");
    reveal_strlit("Keyword Args");
    reveal_strlit("Other Parameters");
    reveal_strlit("Receives");
    reveal_strlit("Returns");
    reveal_strlit("Yields");
    reveal_strlit("Raises");
    reveal_strlit("Warns");
    reveal_strlit("Attributes");
    reveal_strlit("Methods");
    reveal_strlit("See Also");
    reveal_strlit("References");
    reveal_strlit("Notes");
    reveal_strlit("Examples");
    reveal_strlit("Warnings");
    reveal_strlit("Todo");
    reveal_strlit("Attention");
    reveal_strlit("Caution");
    reveal_strlit("Danger");
    reveal_strlit("Error");
    reveal_strlit("Hint");
    reveal_strlit("Important");
    reveal_strlit("Tip");
    reveal_strlit("Parameters");
    reveal_strlit("Keyword Parameters");
    assert(google_header(a).len() != google_header(b).len() || google_header(a)[0] != google_header(b)[0]);
}

/// Distinct section kinds get distinct NumPy headers.
#[verifier::rlimit(100)]
pub proof fn law_numpy_header_injective(a: SectionKind, b: SectionKind)
    requires
        named_kind(a),
        named_kind(b),
        a != b,
    ensures
        numpy_header(a) != numpy_header(b),
{
    reveal_strlit("Args");
    reveal_strlit("Keyword Args");
    reveal_strlit("Other Parameters");
    reveal_strlit("Receives");
    reveal_strlit("Returns");
    reveal_strlit("Yields");
    reveal_strlit("Raises");
    reveal_strlit("Warns");
    reveal_strlit("Attributes");
    reveal_strlit("Methods");
    reveal_strlit("See Also");
    reveal_strlit("References");
    reveal_strlit("Notes");
    reveal_strlit("Examples");
    reveal_strlit("Warnings");
    reveal_strlit("Todo");
    reveal_strlit("Attention");
    reveal_strlit("Caution");
    reveal_strlit("Danger");
    reveal_strlit("Error");
    reveal_strlit("Hint");
    reveal_strlit("Important");
    reveal_strlit("Tip");
    reveal_strlit("Parameters");
    reveal_strlit("Keyword Parameters");
    assert(numpy_header(a).len() != numpy_header(b).len() || numpy_header(a)[0] != numpy_header(b)[0]);
}

} // verus!
