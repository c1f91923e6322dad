//! The shared document loop: one reading of every sectioned style.
//!
//! Both styles read a docstring the same way — summary until a blank line
//! or header, an optional run of rST directives, extended summary until a
//! header, then sections whose bodies are processed line by line. They
//! differ in three places, expressed by [`Dialect`]: what a section header
//! looks like, which grammar reads a section body's lines, and whether
//! indentation can close a section.

use vstd::prelude::*;
use crate::parse::trivia::node_marks;
use vstd::string::StringSliceAdditionalSpecFns;

use crate::cursor::count_lines;
use crate::cursor::line_blank;
use crate::cursor::LineCursor;
use crate::parse::google::parser::process_arg_line;
use crate::parse::google::parser::process_see_also_line as google_see_also_line;
use crate::parse::google::parser::process_typed_entry_line;
use crate::parse::google::parser::try_parse_section_header;
use crate::parse::google::parser::ArgRole;
use crate::parse::google::parser::ReturnsState;
use crate::parse::kind::SectionName;
use crate::parse::numpy::parser::process_leading_token_line;
use crate::parse::numpy::parser::process_parameter_line;
use crate::parse::numpy::parser::process_return_like_line;
use crate::parse::numpy::parser::process_see_also_line as numpy_see_also_line;
use crate::parse::numpy::parser::try_detect_header;
use crate::parse::trivia::attach_trivia;
use crate::parse::utils::build_paragraph;
use crate::parse::utils::build_text_block;
use crate::parse::utils::line_content;
use crate::parse::utils::process_reference_line;
use crate::parse::utils::tok;
use crate::parse::utils::try_parse_directive;
use crate::parse::utils::all_desc_last;
use crate::parse::utils::cur_ce;
use crate::parse::utils::cur_cs;
use crate::parse::utils::ce_of;
use crate::parse::utils::cs_of;
use crate::parse::utils::lemma_content;
use crate::parse::utils::lines_end;
use crate::parse::utils::line_step_ok;
use crate::parse::google::parser::returns_ok;
use crate::syntax::all_placed;
use crate::syntax::child_nodes;
use crate::syntax::elem_placed;
use crate::syntax::elems_in;
use crate::syntax::lemma_elems_concat;
use crate::syntax::lemma_elems_push;
use crate::syntax::lemma_elems_widen;
use crate::syntax::range_in;
use crate::parse::ParseOptions;
use crate::parse::Style;
use crate::syntax::Parsed;
use crate::syntax::SyntaxElement;
use crate::syntax::SyntaxKind;
use crate::syntax::SyntaxNode;
use crate::text::hi;
use crate::text::lo;
use crate::text::TextRange;

verus! {

// =============================================================================
// Section headers
// =============================================================================

/// A recognized section header, before its `SECTION_HEADER` node is built.
pub struct SectionHeaderInfo {
    /// The header's source range (both lines, for an underlined header).
    pub range: TextRange,
    /// The section kind its name resolves to.
    pub kind: SectionName,
    /// The name token's range.
    pub name: TextRange,
    /// The style-specific header marker.
    pub marker: HeaderMarker,
    /// The header line's indent, in columns.
    pub indent_columns: usize,
}

/// The marker that makes a line a section header.
pub enum HeaderMarker {
    /// Google: a trailing colon; `None` for a bare known name (a
    /// zero-length placeholder is emitted where the colon belongs).
    Colon(Option<TextRange>),
    /// NumPy: the dash underline on the following line.
    Underline(TextRange),
}

/// The name of a header starts it, and its marker follows the name inside
/// the header's range.
pub open spec fn header_info_ok(h: SectionHeaderInfo) -> bool {
    &&& range_in(h.name, lo(h.range), hi(h.range))
    &&& lo(h.name) == lo(h.range)
    &&& match h.marker {
        HeaderMarker::Colon(Some(c)) => range_in(c, hi(h.name), hi(h.range)),
        HeaderMarker::Colon(None) => true,
        HeaderMarker::Underline(u) => range_in(u, hi(h.name), hi(h.range)),
    }
}

/// How many lines a header marker spans.
pub open spec fn marker_lines(m: HeaderMarker) -> int {
    match m {
        HeaderMarker::Colon(_) => 1,
        HeaderMarker::Underline(_) => 2,
    }
}

/// A header read at the cursor's line: it starts at the line's content and
/// ends where the content of its last line ends.
pub open spec fn header_at(h: SectionHeaderInfo, c: LineCursor) -> bool {
    &&& lo(h.range) == cur_cs(c)
    &&& hi(h.range) == ce_of(c, c.pos() + marker_lines(h.marker) - 1)
    &&& hi(h.range) <= c.span(c.pos() + marker_lines(h.marker) - 1).1
}

/// Build the `SECTION_HEADER` node: `NAME` plus the marker token.
pub fn build_section_header_node(info: &SectionHeaderInfo) -> (r: SyntaxNode)
    ensures
        r.nkind() == SyntaxKind::SECTION_HEADER,
        r.nrange() == info.range,
        r.kids().len() == 2,
        r.kids()[0] matches SyntaxElement::Token(t) && t.tkind() == SyntaxKind::NAME && t.trange() == info.name,
        header_info_ok(*info) ==> elem_placed(SyntaxElement::Node(r)),
{
    let ghost ok = header_info_ok(*info);
    let ghost a = lo(info.range);
    let ghost z = hi(info.range);
    let mut children: Vec<SyntaxElement> = Vec::new();
    let x = tok(SyntaxKind::NAME, info.name);
    proof {
        if ok {
            lemma_elems_push(children@, x, a, z);
        }
    }
    children.push(x);
    let y = match info.marker {
        HeaderMarker::Colon(Some(colon)) => tok(SyntaxKind::COLON, colon),
        HeaderMarker::Colon(None) => tok(SyntaxKind::COLON, TextRange::new(info.name.end(), info.name.end())),
        HeaderMarker::Underline(u) => tok(SyntaxKind::UNDERLINE, u),
    };
    proof {
        if ok {
            lemma_elems_push(children@, y, a, z);
        }
    }
    children.push(y);
    SyntaxNode::new(SyntaxKind::SECTION_HEADER, info.range, children)
}

// =============================================================================
// Section bodies
// =============================================================================

/// Which grammar reads a section body's lines.
#[derive(Clone, Copy)]
pub enum LineRule {
    GoogleArg,
    GoogleAttribute,
    GoogleMethod,
    GoogleTyped,
    GoogleSeeAlso,
    NumPyParameter,
    NumPyReturn,
    NumPyRaises,
    NumPyMethod,
    NumPySeeAlso,
    Reference,
}

/// Accumulates a section body while its lines are consumed.
pub enum SectionBody {
    /// One `ENTRY` / `CITATION` per line (plus continuations).
    Entries(LineRule, Vec<SyntaxElement>),
    /// Google Returns / Yields: the whole body is a single entry.
    Collapsed(ReturnsState),
    /// Free-text body (Notes, Examples, unknown, …): one `DESCRIPTION`.
    FreeText(Option<TextRange>),
}

/// A section body placed within `[a, z]`.
pub open spec fn body_ok(b: SectionBody, a: int, z: int) -> bool {
    match b {
        SectionBody::Entries(_, nodes) => elems_in(nodes@, a, z) && all_desc_last(nodes@),
        SectionBody::Collapsed(st) => returns_ok(st) && (st.range matches Some(r) ==> range_in(r, a, z)),
        SectionBody::FreeText(range) => range matches Some(r) ==> range_in(r, a, z),
    }
}

/// A body line's effect on a section body: placed within `[a, cs]` before
/// the line, within `[a, ce]` after it.
pub open spec fn body_step_ok(b0: SectionBody, b1: SectionBody, a: int, cs: int, ce: int) -> bool {
    a <= cs && body_ok(b0, a, cs) ==> body_ok(b1, a, ce)
}

impl SectionBody {
    /// Take in the cursor's line.
    pub fn process_line(&mut self, cursor: &LineCursor, entry_indent: &mut Option<usize>)
        requires
            cursor.wf(),
        ensures
            forall|a: int| #[trigger] body_step_ok(*old(self), *final(self), a, cur_cs(*cursor), cur_ce(*cursor)),
    {
        proof {
            crate::cursor::lemma_line_span(cursor.bytes(), cursor.pos());
            crate::strs::lemma_trim_bounds(cursor.bytes(), cursor.span(cursor.pos()).0, cursor.span(cursor.pos()).1);
        }
        let ghost b0 = *self;
        match self {
            SectionBody::Entries(rule, nodes) => {
                match *rule {
                    LineRule::GoogleArg => process_arg_line(cursor, ArgRole::Arg, nodes, entry_indent),
                    LineRule::GoogleAttribute => process_arg_line(cursor, ArgRole::Attribute, nodes, entry_indent),
                    LineRule::GoogleMethod => process_arg_line(cursor, ArgRole::Method, nodes, entry_indent),
                    LineRule::GoogleTyped => process_typed_entry_line(cursor, nodes, entry_indent),
                    LineRule::GoogleSeeAlso => google_see_also_line(cursor, nodes, entry_indent),
                    LineRule::NumPyParameter => process_parameter_line(cursor, nodes, entry_indent),
                    LineRule::NumPyReturn => process_return_like_line(cursor, nodes, entry_indent),
                    LineRule::NumPyRaises => process_leading_token_line(cursor, nodes, entry_indent, SyntaxKind::TYPE),
                    LineRule::NumPyMethod => process_leading_token_line(cursor, nodes, entry_indent, SyntaxKind::NAME),
                    LineRule::NumPySeeAlso => numpy_see_also_line(cursor, nodes, entry_indent),
                    LineRule::Reference => process_reference_line(cursor, nodes, entry_indent),
                }
            },
            SectionBody::Collapsed(state) => state.process_line(cursor),
            SectionBody::FreeText(range) => {
                let r = cursor.current_trimmed_range();
                match *range {
                    Some(existing) => {
                        let mut x = existing;
                        x.extend(r);
                        *range = Some(x);
                    },
                    None => *range = Some(r),
                }
            },
        }
        proof {
            assert forall|a: int| #[trigger] body_step_ok(b0, *self, a, cur_cs(*cursor), cur_ce(*cursor)) by {
                match b0 {
                    SectionBody::Entries(_, n0) => {
                        assert(line_step_ok(n0@, self->Entries_1@, a, cur_cs(*cursor), cur_ce(*cursor)));
                    },
                    _ => {},
                }
            }
        }
    }

    /// The body's child elements.
    pub fn into_children(self, source: &str) -> (r: Vec<SyntaxElement>)
        ensures
            forall|a: int, z: int| #[trigger] body_ok(self, a, z) ==> elems_in(r@, a, z),
    {
        let ghost b0 = self;
        match self {
            SectionBody::Entries(_, nodes) => nodes,
            SectionBody::Collapsed(state) => {
                let mut v: Vec<SyntaxElement> = Vec::new();
                match state.into_node(source) {
                    Some(n) => {
                        proof {
                            assert forall|a: int, z: int| #[trigger] body_ok(b0, a, z) implies elems_in(
                                seq![SyntaxElement::Node(n)],
                                a,
                                z,
                            ) by {
                                lemma_elems_push(v@, SyntaxElement::Node(n), a, z);
                                assert(v@.push(SyntaxElement::Node(n)) =~= seq![SyntaxElement::Node(n)]);
                            }
                        }
                        v.push(SyntaxElement::Node(n));
                        proof {
                            assert(v@ =~= seq![SyntaxElement::Node(n)]);
                        }
                    },
                    None => {},
                }
                v
            },
            SectionBody::FreeText(range) => {
                let mut v: Vec<SyntaxElement> = Vec::new();
                match range {
                    Some(r) => {
                        let n = build_text_block(SyntaxKind::DESCRIPTION, r, source);
                        proof {
                            assert forall|a: int, z: int| #[trigger] body_ok(b0, a, z) implies elems_in(
                                seq![SyntaxElement::Node(n)],
                                a,
                                z,
                            ) by {
                                lemma_elems_push(v@, SyntaxElement::Node(n), a, z);
                                assert(v@.push(SyntaxElement::Node(n)) =~= seq![SyntaxElement::Node(n)]);
                            }
                        }
                        v.push(SyntaxElement::Node(n));
                        proof {
                            assert(v@ =~= seq![SyntaxElement::Node(n)]);
                        }
                    },
                    None => {},
                }
                v
            },
        }
    }
}

// =============================================================================
// Dialect
// =============================================================================

/// The style-specific decisions the document loop defers.
pub enum Dialect<'a> {
    /// `Name:` headers, indent-closed sections, collapsed Returns / Yields.
    Google(&'a ParseOptions),
    /// Underlined headers, one entry per body line.
    NumPy,
}

/// The style a dialect parses.
pub open spec fn dialect_style(d: &Dialect) -> Style {
    match d {
        Dialect::Google(_) => Style::Google,
        Dialect::NumPy => Style::NumPy,
    }
}

impl<'a> Dialect<'a> {
    /// The style tag recorded on the result.
    pub fn style(&self) -> (r: Style)
        ensures
            r == dialect_style(self),
    {
        match self {
            Dialect::Google(_) => Style::Google,
            Dialect::NumPy => Style::NumPy,
        }
    }

    /// Try to recognize a section header at the cursor's line. Google
    /// refuses candidates indented deeper than the current section's header
    /// (they are body entries).
    pub fn try_header(&self, cursor: &LineCursor, current: Option<&SectionHeaderInfo>) -> (r: Option<
        SectionHeaderInfo,
    >)
        requires
            cursor.wf(),
        ensures
            r matches Some(h) ==> (h.marker is Colon || cursor.pos() + 1 < cursor.nlines()),
            r matches Some(h) ==> header_info_ok(h) && header_at(h, *cursor),
            current is None ==> (r is Some <==> header_line((*self) is Google, dialect_custom(*self), cursor.bytes(), cursor.pos() as int)),
    {
        match self {
            Dialect::Google(options) => {
                match current {
                    Some(h) => {
                        if cursor.current_indent_columns() > h.indent_columns {
                            return None;
                        }
                    },
                    None => {},
                }
                try_parse_section_header(cursor, options)
            },
            Dialect::NumPy => try_detect_header(cursor),
        }
    }

    /// The body accumulator for a section kind.
    pub fn body(&self, kind: SectionName) -> (r: SectionBody)
        ensures
            forall|a: int, z: int| #[trigger] body_ok(r, a, z),
    {
        match self {
            Dialect::Google(_) => match kind {
                SectionName::Parameters | SectionName::KeywordParameters | SectionName::OtherParameters
                | SectionName::Receives => SectionBody::Entries(LineRule::GoogleArg, Vec::new()),
                SectionName::Attributes => SectionBody::Entries(LineRule::GoogleAttribute, Vec::new()),
                SectionName::Methods => SectionBody::Entries(LineRule::GoogleMethod, Vec::new()),
                SectionName::Returns | SectionName::Yields => SectionBody::Collapsed(ReturnsState::new()),
                SectionName::Raises | SectionName::Warns => SectionBody::Entries(LineRule::GoogleTyped, Vec::new()),
                SectionName::SeeAlso => SectionBody::Entries(LineRule::GoogleSeeAlso, Vec::new()),
                SectionName::References => SectionBody::Entries(LineRule::Reference, Vec::new()),
                _ => SectionBody::FreeText(None),
            },
            Dialect::NumPy => match kind {
                SectionName::Parameters | SectionName::OtherParameters | SectionName::Receives
                | SectionName::KeywordParameters | SectionName::Attributes => SectionBody::Entries(
                    LineRule::NumPyParameter,
                    Vec::new(),
                ),
                SectionName::Returns | SectionName::Yields => SectionBody::Entries(LineRule::NumPyReturn, Vec::new()),
                SectionName::Raises | SectionName::Warns => SectionBody::Entries(LineRule::NumPyRaises, Vec::new()),
                SectionName::SeeAlso => SectionBody::Entries(LineRule::NumPySeeAlso, Vec::new()),
                SectionName::References => SectionBody::Entries(LineRule::Reference, Vec::new()),
                SectionName::Methods => SectionBody::Entries(LineRule::NumPyMethod, Vec::new()),
                _ => SectionBody::FreeText(None),
            },
        }
    }

    /// Whether a line at (or above) the header's indent closes the section.
    pub fn flush_by_indent(&self) -> (r: bool)
        ensures
            r == (self is Google),
    {
        match self {
            Dialect::Google(_) => true,
            Dialect::NumPy => false,
        }
    }
}

/// How many source lines a header occupies.
fn header_lines(marker: &HeaderMarker) -> (r: usize)
    ensures
        r == (if marker is Colon {
            1usize
        } else {
            2usize
        }),
{
    match marker {
        HeaderMarker::Colon(_) => 1,
        HeaderMarker::Underline(_) => 2,
    }
}

// =============================================================================
// The document loop
// =============================================================================

/// Build the `SECTION` node for a finished section: header node plus body
/// children, spanning from the header to `end` (the end of its last
/// content line).
fn flush_section(header: SectionHeaderInfo, body: SectionBody, end: usize, source: &str) -> (r: SyntaxNode)
    requires
        end <= u32::MAX,
    ensures
        r.nkind() == SyntaxKind::SECTION,
        lo(r.nrange()) == lo(header.range),
        hi(r.nrange()) == end,
        crate::parse::unified::has_header_name(r),
        header_info_ok(header) && hi(header.range) <= end && body_ok(body, hi(header.range), end as int) ==> elem_placed(
            SyntaxElement::Node(r),
        ),
{
    let ghost ok = header_info_ok(header) && hi(header.range) <= end && body_ok(body, hi(header.range), end as int);
    let ghost b0 = body;
    let mut children: Vec<SyntaxElement> = Vec::new();
    let h = SyntaxElement::Node(build_section_header_node(&header));
    proof {
        if ok {
            lemma_elems_push(children@, h, lo(header.range), hi(header.range));
        }
    }
    children.push(h);
    let ghost hv = children@;
    let mut rest = body.into_children(source);
    let ghost rv = rest@;
    proof {
        if ok {
            assert(body_ok(b0, hi(header.range), end as int));
            lemma_elems_concat(hv, rv, lo(header.range), hi(header.range), end as int);
        }
    }
    children.append(&mut rest);
    proof {
        assert(children@ =~= hv + rv);
        assert(children@[0] == h);
        crate::parse::trivia::lemma_child_nodes_first(children@, SyntaxKind::SECTION_HEADER);
        let hn = h->Node_0;
        crate::parse::trivia::lemma_any_tokens_has(hn.kids(), SyntaxKind::NAME, 0);
    }
    let range = TextRange::new(header.range.start(), crate::text::TextSize::from_usize(end));
    SyntaxNode::new(SyntaxKind::SECTION, range, children)
}

/// A section body placed within `[a, z]` is placed within any wider
/// window.
proof fn lemma_body_widen(b: SectionBody, a: int, z: int, z2: int)
    requires
        body_ok(b, a, z),
        z <= z2,
    ensures
        body_ok(b, a, z2),
{
    match b {
        SectionBody::Entries(_, nodes) => {
            crate::syntax::lemma_elems_widen(nodes@, a, z, a, z2);
        },
        _ => {},
    }
}

/// The document's children so far are placed within `[0, front]`, which
/// lies within the text lines.
pub open spec fn front_ok(s: Seq<SyntaxElement>, front: int, c: LineCursor) -> bool {
    elems_in(s, 0, front) && 0 <= front <= lines_end(c)
}

/// The content of line `k` of `b` lies within `[a, z]`.
pub open spec fn line_in(b: Seq<u8>, k: int, a: int, z: int) -> bool {
    a <= crate::parse::plain::parser::content_lo(b, k) && crate::parse::plain::parser::content_hi(b, k) <= z
}

/// The content of line `k` lies within the range of one of the marks `m`.
pub open spec fn covered(b: Seq<u8>, k: int, m: Seq<(SyntaxKind, TextRange)>) -> bool {
    exists|j: int| 0 <= j < m.len() && line_in(b, k, lo(#[trigger] m[j].1), hi(m[j].1))
}

/// Every non-blank line before `pos` is covered by one of the marks `m`.
pub open spec fn covered_upto(b: Seq<u8>, pos: int, m: Seq<(SyntaxKind, TextRange)>) -> bool {
    forall|k: int| 0 <= k < pos && !line_blank(b, k) ==> #[trigger] covered(b, k, m)
}

/// The content of a line between lines `i` and `j` lies between the start
/// of `i`'s content and the end of `j`'s.
pub proof fn lemma_line_between(b: Seq<u8>, i: int, k: int, j: int)
    requires
        0 <= i <= k <= j,
    ensures
        line_in(b, k, crate::parse::plain::parser::content_lo(b, i), crate::parse::plain::parser::content_hi(b, j)),
{
    crate::cursor::lemma_line_span(b, i);
    crate::cursor::lemma_line_span(b, k);
    crate::cursor::lemma_line_span(b, j);
    crate::strs::lemma_trim_bounds(b, crate::cursor::line_span(b, i).0, crate::cursor::line_span(b, i).1);
    crate::strs::lemma_trim_bounds(b, crate::cursor::line_span(b, k).0, crate::cursor::line_span(b, k).1);
    crate::strs::lemma_trim_bounds(b, crate::cursor::line_span(b, j).0, crate::cursor::line_span(b, j).1);
    if i < k {
        crate::cursor::lemma_span_mono(b, i, k);
    }
    if k < j {
        crate::cursor::lemma_span_mono(b, k, j);
    }
}

/// Appending an element keeps every covered line covered, and covers the
/// lines its range holds when it is a node.
pub proof fn lemma_covered_push(b: Seq<u8>, pos: int, s: Seq<SyntaxElement>, x: SyntaxElement)
    ensures
        forall|k: int| #[trigger] covered(b, k, node_marks(s)) ==> covered(b, k, node_marks(s.push(x))),
        x is Node ==> forall|k: int|
            line_in(b, k, lo(x.erange()), hi(x.erange())) ==> #[trigger] covered(b, k, node_marks(s.push(x))),
        covered_upto(b, pos, node_marks(s)) ==> covered_upto(b, pos, node_marks(s.push(x))),
{
    crate::parse::trivia::lemma_marks_push(s, x);
    let m = node_marks(s);
    let m2 = node_marks(s.push(x));
    assert forall|k: int| #[trigger] covered(b, k, m) implies covered(b, k, m2) by {
        let j = choose|j: int| 0 <= j < m.len() && line_in(b, k, lo(#[trigger] m[j].1), hi(m[j].1));
        assert(m2[j] == m[j]);
    }
    if x is Node {
        assert forall|k: int| line_in(b, k, lo(x.erange()), hi(x.erange())) implies #[trigger] covered(b, k, m2) by {
            assert(m2[m.len() as int] == (x.ekind(), x.erange()));
            assert(line_in(b, k, lo(m2[m.len() as int].1), hi(m2[m.len() as int].1)));
        }
    }
    if covered_upto(b, pos, m) {
        assert forall|k: int| 0 <= k < pos && !line_blank(b, k) implies #[trigger] covered(b, k, m2) by {
            assert(covered(b, k, m));
        }
    }
}

/// Blank lines extend the covered prefix.
pub proof fn lemma_cover_blanks(b: Seq<u8>, m: Seq<(SyntaxKind, TextRange)>, i: int, pos: int)
    requires
        covered_upto(b, i, m),
        forall|k: int| i <= k < pos ==> line_blank(b, k),
    ensures
        covered_upto(b, pos, m),
{
    assert forall|k: int| 0 <= k < pos && !line_blank(b, k) implies #[trigger] covered(b, k, m) by {
        assert(k < i);
    }
}

/// A node pushed over the lines `[i, pos)` whose content its range holds
/// extends the covered prefix from `i` to `pos`.
pub proof fn lemma_cover_pending(b: Seq<u8>, s: Seq<SyntaxElement>, x: SyntaxElement, i: int, pos: int)
    requires
        covered_upto(b, i, node_marks(s)),
        x is Node,
        forall|k: int| i <= k < pos && !line_blank(b, k) ==> line_in(b, k, lo(x.erange()), hi(x.erange())),
    ensures
        covered_upto(b, pos, node_marks(s.push(x))),
{
    lemma_covered_push(b, i, s, x);
    assert forall|k: int| 0 <= k < pos && !line_blank(b, k) implies #[trigger] covered(b, k, node_marks(s.push(x))) by {
        if k < i {
            assert(covered(b, k, node_marks(s)));
        } else {
            assert(line_in(b, k, lo(x.erange()), hi(x.erange())));
        }
    }
}

/// A node spanning from the content of line `i` to that of line `j`, with
/// only blank lines after `j` and before `pos`, extends the covered prefix
/// from `i` to `pos`.
pub proof fn lemma_cover_span(b: Seq<u8>, s: Seq<SyntaxElement>, x: SyntaxElement, i: int, j: int, pos: int)
    requires
        covered_upto(b, i, node_marks(s)),
        x is Node,
        0 <= i <= j < pos,
        lo(x.erange()) == crate::parse::plain::parser::content_lo(b, i),
        hi(x.erange()) == crate::parse::plain::parser::content_hi(b, j),
        forall|k: int| j < k < pos ==> line_blank(b, k),
    ensures
        covered_upto(b, pos, node_marks(s.push(x))),
{
    assert forall|k: int| i <= k < pos && !line_blank(b, k) implies line_in(b, k, lo(x.erange()), hi(x.erange())) by {
        lemma_line_between(b, i, k, j);
    }
    lemma_cover_pending(b, s, x, i, pos);
}

/// Every mark's range is a slice of `b` at character boundaries.
pub open spec fn marks_valid(b: Seq<u8>, m: Seq<(SyntaxKind, TextRange)>) -> bool {
    forall|j: int| 0 <= j < m.len() ==> crate::text::range_valid(#[trigger] m[j].1, b)
}

/// Both ends of a line's trimmed content are character boundaries.
pub proof fn lemma_content_boundary(s: &str, i: int)
    ensures
        vstd::utf8::is_char_boundary(s.spec_bytes(), crate::parse::plain::parser::content_lo(s.spec_bytes(), i)),
        vstd::utf8::is_char_boundary(s.spec_bytes(), crate::parse::plain::parser::content_hi(s.spec_bytes(), i)),
        0 <= crate::parse::plain::parser::content_lo(s.spec_bytes(), i) <= crate::parse::plain::parser::content_hi(
            s.spec_bytes(),
            i,
        ) <= s.spec_bytes().len(),
{
    let b = s.spec_bytes();
    crate::strs::lemma_str_valid(s);
    crate::cursor::lemma_line_span_boundary(s, i);
    crate::cursor::lemma_line_span(b, i);
    crate::strs::lemma_trim_boundary(b, crate::cursor::line_span(b, i).0, crate::cursor::line_span(b, i).1);
    crate::strs::lemma_trim_bounds(b, crate::cursor::line_span(b, i).0, crate::cursor::line_span(b, i).1);
}

/// Appending a node whose range is a valid slice keeps every mark valid.
pub proof fn lemma_valid_push(b: Seq<u8>, s: Seq<SyntaxElement>, x: SyntaxElement)
    requires
        marks_valid(b, node_marks(s)),
        x is Node ==> crate::text::range_valid(x.erange(), b),
    ensures
        marks_valid(b, node_marks(s.push(x))),
{
    crate::parse::trivia::lemma_marks_push(s, x);
    let m = node_marks(s);
    let m2 = node_marks(s.push(x));
    assert forall|j: int| 0 <= j < m2.len() implies crate::text::range_valid(#[trigger] m2[j].1, b) by {
        if j < m.len() {
            assert(m2[j] == m[j]);
        } else {
            assert(m2[j] == (x.ekind(), x.erange()));
        }
    }
}

/// Line `k` of `b` opens a section outside any section: a Google header
/// (with the lowercased `custom` section names) when `google`, else a
/// NumPy header.
pub open spec fn header_line(google: bool, custom: Seq<Seq<u8>>, b: Seq<u8>, k: int) -> bool {
    if google {
        crate::parse::google::parser::google_header_at(b, k, custom)
    } else {
        crate::parse::numpy::parser::numpy_header_at(b, k)
    }
}

/// The custom section names a dialect recognises.
pub open spec fn dialect_custom(d: Dialect) -> Seq<Seq<u8>> {
    match d {
        Dialect::Google(o) => o.custom_names(),
        Dialect::NumPy => Seq::empty(),
    }
}

/// The last line of a summary that starts at line `i`: the run goes on
/// while the next line holds content and does not open a section.
pub open spec fn summary_last(google: bool, custom: Seq<Seq<u8>>, b: Seq<u8>, i: int) -> int
    decreases count_lines(b) - i,
{
    if 0 <= i && i + 1 < count_lines(b) && !line_blank(b, i + 1) && !header_line(google, custom, b, i + 1) {
        summary_last(google, custom, b, i + 1)
    } else {
        i
    }
}

/// `m0` is a prefix of `m`.
pub open spec fn marks_prefix(m0: Seq<(SyntaxKind, TextRange)>, m: Seq<(SyntaxKind, TextRange)>) -> bool {
    m0.len() <= m.len() && forall|q: int| 0 <= q < m0.len() ==> #[trigger] m[q] == m0[q]
}

/// Appending an element keeps the first mark, or makes its own mark the
/// first when there was none.
pub proof fn lemma_first_mark(s: Seq<SyntaxElement>, x: SyntaxElement)
    ensures
        node_marks(s).len() > 0 ==> node_marks(s.push(x)).len() > 0 && node_marks(s.push(x))[0] == node_marks(s)[0],
        node_marks(s).len() == 0 && x is Node ==> node_marks(s.push(x)).len() > 0 && node_marks(s.push(x))[0] == (
            x.ekind(),
            x.erange(),
        ),
{
    crate::parse::trivia::lemma_marks_push(s, x);
}

/// Appending an element keeps a prefix of the marks.
pub proof fn lemma_prefix_push(m0: Seq<(SyntaxKind, TextRange)>, s: Seq<SyntaxElement>, x: SyntaxElement)
    requires
        marks_prefix(m0, node_marks(s)),
    ensures
        marks_prefix(m0, node_marks(s.push(x))),
{
    crate::parse::trivia::lemma_marks_push(s, x);
    assert forall|q: int| 0 <= q < m0.len() implies #[trigger] node_marks(s.push(x))[q] == m0[q] by {
        assert(node_marks(s.push(x))[q] == node_marks(s)[q]);
    }
}

/// Some line of `b` holds more than whitespace.
pub open spec fn has_content_line(b: Seq<u8>) -> bool {
    exists|k: int| 0 <= k < count_lines(b) && !line_blank(b, k)
}

/// Every line before `pos` is blank unless a content line `w` was seen.
pub open spec fn seen_upto(b: Seq<u8>, pos: int, w: int) -> bool {
    &&& forall|k: int| 0 <= k < pos ==> line_blank(b, k) || w >= 0
    &&& w >= 0 ==> 0 <= w < count_lines(b) && !line_blank(b, w)
}

/// Parse a sectioned docstring: summary, directives, extended summary,
/// then sections — every style-specific decision deferred to `dialect`.
#[verifier::rlimit(100)]
pub fn parse_document(input: &str, dialect: &Dialect) -> (r: Parsed)
    requires
        input.spec_bytes().len() < u32::MAX,
        input.spec_bytes().len() <= usize::MAX / 8,
    ensures
        r.text() == input@,
        r.style_of() == dialect_style(dialect),
        r.root_node().nkind() == SyntaxKind::DOCUMENT,
        lo(r.root_node().nrange()) == 0,
        hi(r.root_node().nrange()) == input.spec_bytes().len(),
        r.root_node().well_placed(),
        has_content_line(input.spec_bytes()) <==> node_marks(r.root_node().kids()).len() > 0,
        forall|k: int|
            0 <= k < child_nodes(r.root_node().kids(), SyntaxKind::SECTION).len() ==> crate::parse::unified::has_header_name(
                #[trigger] child_nodes(r.root_node().kids(), SyntaxKind::SECTION)[k],
            ),
        !has_content_line(input.spec_bytes()) ==> forall|q: int|
            0 <= q < r.root_node().kids().len() ==> crate::syntax::kind_is_trivia((#[trigger] r.root_node().kids()[q]).ekind()),
        covered_upto(input.spec_bytes(), count_lines(input.spec_bytes()) as int, node_marks(r.root_node().kids())),
        marks_valid(input.spec_bytes(), node_marks(r.root_node().kids())),
        ({
            let b = input.spec_bytes();
            let f = crate::parse::plain::parser::next_content(b, 0);
            let m = node_marks(r.root_node().kids());
            f < count_lines(b) && header_line((*dialect) is Google, dialect_custom(*dialect), b, f) ==> {
                &&& m.len() > 0
                &&& m[0].0 == SyntaxKind::SECTION
                &&& lo(m[0].1) == crate::parse::plain::parser::content_lo(b, f)
            }
        }),
        ({
            let b = input.spec_bytes();
            let f = crate::parse::plain::parser::next_content(b, 0);
            let m = node_marks(r.root_node().kids());
            f < count_lines(b) && !header_line((*dialect) is Google, dialect_custom(*dialect), b, f) ==> {
                &&& m.len() > 0
                &&& m[0].0 == SyntaxKind::SUMMARY
                &&& lo(m[0].1) == crate::parse::plain::parser::content_lo(b, f)
                &&& hi(m[0].1) == crate::parse::plain::parser::content_hi(b, summary_last((*dialect) is Google, dialect_custom(*dialect), b, f))
            }
        }),
{
    let mut cursor = LineCursor::new(input);
    let mut root_children: Vec<SyntaxElement> = Vec::new();
    cursor.skip_blanks();
    let n = cursor.total_lines();
    proof {
        cursor.lemma_wf();
    }
    let ghost mut front: int = 0;
    let ghost bb = input.spec_bytes();
    let ghost mut w: int = -1;
    let ghost f0: int = cursor.pos() as int;
    let ghost mut m0: Seq<(SyntaxKind, TextRange)> = Seq::empty();
    let ghost hdr_first: bool = f0 < n && header_line(((*dialect) is Google), dialect_custom(*dialect), bb, f0);
    proof {
        lemma_cover_blanks(bb, node_marks(root_children@), 0, cursor.pos() as int);
        crate::parse::plain::parser::lemma_next_content(bb, 0, f0);
    }

    // --- Summary: lines until a blank line or a section header ---
    if !cursor.is_eof() && dialect.try_header(&cursor, None).is_none() {
        let start_line = cursor.line();
        proof {
            w = start_line as int;
        }
        let mut last_line = start_line;
        cursor.advance();
        while !cursor.is_eof()
            invariant
                last_line == cursor.pos() - 1,
                summary_last((*dialect) is Google, dialect_custom(*dialect), bb, start_line as int) == summary_last((*dialect) is Google, dialect_custom(*dialect), bb, last_line as int),
                cursor.wf(),
                cursor.src() == input,
                n == cursor.nlines(),
                cursor.pos() <= n,
                start_line <= last_line < cursor.pos(),
                bb == cursor.bytes(),
            ensures
                cursor.pos() >= n || line_blank(bb, cursor.pos() as int) || header_line((*dialect) is Google, dialect_custom(*dialect), bb, cursor.pos() as int),
            decreases n - cursor.pos(),
        {
            if dialect.try_header(&cursor, None).is_some() || cursor.line_is_blank(cursor.line()) {
                break;
            }
            last_line = cursor.line();
            proof {
                cursor.lemma_wf();
            }
            cursor.advance();
        }
        let (s, _) = line_content(&cursor, start_line);
        let (_, e) = line_content(&cursor, last_line);
        proof {
            lemma_content(cursor, start_line as int);
            lemma_content(cursor, last_line as int);
            if start_line < last_line {
                crate::cursor::lemma_span_mono(cursor.bytes(), start_line as int, last_line as int);
            }
            crate::cursor::lemma_span_start_mono(cursor.bytes(), last_line + 1, cursor.pos());
        }
        proof {
            assert(s < e);
        }
        if s < e {
            let x = SyntaxElement::Node(build_text_block(SyntaxKind::SUMMARY, TextRange::from_usizes(s, e), input));
            proof {
                lemma_elems_push(root_children@, x, 0, e as int);
                front = e as int;
                lemma_cover_span(bb, root_children@, x, start_line as int, last_line as int, cursor.pos() as int);
                lemma_content_boundary(input, start_line as int);
                lemma_content_boundary(input, last_line as int);
                lemma_valid_push(bb, root_children@, x);
                lemma_prefix_push(m0, root_children@, x);
                lemma_first_mark(root_children@, x);
            }
            proof {
                crate::parse::trivia::lemma_named_push(root_children@, x);
                crate::parse::trivia::lemma_marks_push(root_children@, x);
            }
            root_children.push(x);
            proof {
                m0 = node_marks(root_children@);
                assert(summary_last((*dialect) is Google, dialect_custom(*dialect), bb, last_line as int) == last_line);
            }
        }
    }
    proof {
        crate::cursor::lemma_line_span(cursor.bytes(), cursor.pos());
        assert(front <= cursor.span(cursor.pos()).0);
        assert(f0 < n && !header_line((*dialect) is Google, dialect_custom(*dialect), bb, f0) ==> m0.len() == 1 && m0[0].0 == SyntaxKind::SUMMARY && lo(
            m0[0].1,
        ) == crate::parse::plain::parser::content_lo(bb, f0) && hi(m0[0].1) == crate::parse::plain::parser::content_hi(
            bb,
            summary_last((*dialect) is Google, dialect_custom(*dialect), bb, f0),
        ));
        assert(marks_prefix(m0, node_marks(root_children@)));
    }
    let ghost p0 = cursor.pos();
    cursor.skip_blanks();
    proof {
        crate::cursor::lemma_span_start_mono(cursor.bytes(), p0, cursor.pos());
        lemma_cover_blanks(bb, node_marks(root_children@), p0, cursor.pos() as int);
    }

    // --- rST directives at the post-summary slot ---
    loop
        invariant
            covered_upto(bb, cursor.pos() as int, node_marks(root_children@)),
            marks_valid(bb, node_marks(root_children@)),
            hdr_first ==> cursor.pos() == f0 && root_children@.len() == 0,
            hdr_first == (f0 < n && header_line(((*dialect) is Google), dialect_custom(*dialect), bb, f0)),
            marks_prefix(m0, node_marks(root_children@)),
            bb == input.spec_bytes(),
            bb == cursor.bytes(),
            seen_upto(bb, cursor.pos() as int, w),
            w >= 0 <==> root_children@.len() > 0,
            root_children@.len() > 0 ==> root_children@.last() is Node,
            crate::parse::trivia::sections_named_in(root_children@),
            cursor.pos() < n ==> !line_blank(bb, cursor.pos() as int),
            cursor.wf(),
            cursor.src() == input,
            n == cursor.nlines(),
            cursor.pos() <= n,
            front_ok(root_children@, front, cursor),
            front <= cursor.span(cursor.pos()).0,
        decreases n - cursor.pos(),
    {
        if cursor.is_eof() || dialect.try_header(&cursor, None).is_some() {
            break;
        }
        proof {
            cursor.lemma_wf();
        }
        let ghost c0 = cursor;
        match try_parse_directive(&mut cursor) {
            Some(node) => {
                let x = SyntaxElement::Node(node);
                proof {
                    cursor.lemma_wf();
                    lemma_content(c0, c0.pos());
                    if cursor.pos() - 1 < n - 1 {
                        crate::cursor::lemma_span_mono(cursor.bytes(), cursor.pos() - 1, n - 1);
                        crate::cursor::lemma_line_span(cursor.bytes(), n - 1);
                    }
                    crate::cursor::lemma_line_span(cursor.bytes(), cursor.pos() - 1);
                    lemma_elems_widen(root_children@, 0, front, 0, hi(node.nrange()));
                    if root_children@.len() > 0 {
                        assert(range_in(root_children@.last().erange(), 0, front));
                    }
                    lemma_elems_push(root_children@, x, 0, hi(node.nrange()));
                    front = hi(node.nrange());
                    lemma_cover_span(bb, root_children@, x, c0.pos(), cursor.pos() - 1, cursor.pos() as int);
                    lemma_content_boundary(input, c0.pos());
                    lemma_content_boundary(input, cursor.pos() - 1);
                    lemma_valid_push(bb, root_children@, x);
                    lemma_prefix_push(m0, root_children@, x);
                    lemma_first_mark(root_children@, x);
                }
                proof {
                    crate::parse::trivia::lemma_named_push(root_children@, x);
                }
                root_children.push(x);
                proof {
                    w = c0.pos();
                }
                let ghost p1 = cursor.pos();
                cursor.skip_blanks();
                proof {
                    crate::cursor::lemma_span_start_mono(cursor.bytes(), p1, cursor.pos());
                    lemma_cover_blanks(bb, node_marks(root_children@), p1, cursor.pos() as int);
                }
            },
            None => break,
        }
    }

    // --- Extended summary: lines (blank ones included) until a header ---
    let ghost w0 = w;
    if !cursor.is_eof() && dialect.try_header(&cursor, None).is_none() {
        let start_line = cursor.line();
        let mut last_non_empty = start_line;
        let mut has_content = false;
        while !cursor.is_eof()
            invariant
                bb == cursor.bytes(),
                has_content ==> last_non_empty < n && !line_blank(bb, last_non_empty as int),
                forall|k: int| start_line <= k < cursor.pos() ==> line_blank(bb, k) || has_content,
                forall|k: int| start_line <= k < cursor.pos() ==> line_blank(bb, k) || k <= last_non_empty,
                cursor.wf(),
                cursor.src() == input,
                n == cursor.nlines(),
                cursor.pos() <= n,
                start_line <= last_non_empty,
                start_line <= cursor.pos(),
                has_content ==> last_non_empty < cursor.pos(),
            decreases n - cursor.pos(),
        {
            if dialect.try_header(&cursor, None).is_some() {
                break;
            }
            if !cursor.line_is_blank(cursor.line()) {
                last_non_empty = cursor.line();
                has_content = true;
            }
            proof {
                cursor.lemma_wf();
            }
            cursor.advance();
        }
        if has_content {
            let (s, _) = line_content(&cursor, start_line);
            let (_, e) = line_content(&cursor, last_non_empty);
            proof {
                lemma_content(cursor, start_line as int);
                lemma_content(cursor, last_non_empty as int);
                if start_line < last_non_empty {
                    crate::cursor::lemma_span_mono(cursor.bytes(), start_line as int, last_non_empty as int);
                }
                crate::cursor::lemma_line_span(cursor.bytes(), start_line as int);
                crate::cursor::lemma_span_start_mono(cursor.bytes(), last_non_empty + 1, cursor.pos());
            }
            let x = SyntaxElement::Node(
                build_text_block(SyntaxKind::EXTENDED_SUMMARY, TextRange::from_usizes(s, e), input),
            );
            proof {
                lemma_elems_widen(root_children@, 0, front, 0, e as int);
                if root_children@.len() > 0 {
                    assert(range_in(root_children@.last().erange(), 0, front));
                }
                lemma_elems_push(root_children@, x, 0, e as int);
                front = e as int;
                lemma_cover_span(bb, root_children@, x, start_line as int, last_non_empty as int, cursor.pos() as int);
                lemma_content_boundary(input, start_line as int);
                lemma_content_boundary(input, last_non_empty as int);
                lemma_valid_push(bb, root_children@, x);
                lemma_prefix_push(m0, root_children@, x);
                lemma_first_mark(root_children@, x);
            }
            proof {
                crate::parse::trivia::lemma_named_push(root_children@, x);
            }
            root_children.push(x);
            proof {
                w = last_non_empty as int;
            }
        } else {
            proof {
                lemma_cover_blanks(bb, node_marks(root_children@), start_line as int, cursor.pos() as int);
            }
        }
    }
    proof {
        crate::cursor::lemma_line_span(cursor.bytes(), cursor.pos());
    }

    // --- Sections ---
    let mut current_header: Option<SectionHeaderInfo> = None;
    let mut current_body: Option<SectionBody> = None;
    let mut section_end: usize = 0;
    let mut entry_indent: Option<usize> = None;
    let mut body_is_deeper: Option<bool> = None;
    let mut para_first: Option<usize> = None;
    let mut para_last: usize = 0;
    let flush_indent = dialect.flush_by_indent();
    let ghost mut pend: int = cursor.pos() as int;

    while !cursor.is_eof()
        invariant
            0 <= pend <= cursor.pos(),
            covered_upto(bb, pend, node_marks(root_children@)),
            marks_valid(bb, node_marks(root_children@)),
            hdr_first ==> cursor.pos() >= f0,
            hdr_first == (f0 < n && header_line(((*dialect) is Google), dialect_custom(*dialect), bb, f0)),
            hdr_first && cursor.pos() == f0 ==> node_marks(root_children@).len() == 0 && current_header is None
                && para_first is None,
            hdr_first && cursor.pos() > f0 && node_marks(root_children@).len() == 0 ==> (current_header matches Some(h)
                && lo(h.range) == crate::parse::plain::parser::content_lo(bb, f0)),
            hdr_first && node_marks(root_children@).len() > 0 ==> node_marks(root_children@)[0].0 == SyntaxKind::SECTION
                && lo(node_marks(root_children@)[0].1) == crate::parse::plain::parser::content_lo(bb, f0),
            marks_prefix(m0, node_marks(root_children@)),
            bb == input.spec_bytes(),
            current_header matches Some(h) ==> vstd::utf8::is_char_boundary(bb, lo(h.range))
                && vstd::utf8::is_char_boundary(bb, section_end as int),
            current_header matches Some(h) ==> forall|k: int|
                pend <= k < cursor.pos() && !line_blank(bb, k) ==> line_in(bb, k, lo(h.range), section_end as int),
            para_first matches Some(f) ==> f == pend && para_last == cursor.pos() - 1,
            current_header is None && para_first is None ==> forall|k: int| pend <= k < cursor.pos() ==> line_blank(bb, k),
            bb == cursor.bytes(),
            seen_upto(bb, cursor.pos() as int, w),
            w >= 0 <==> (root_children@.len() > 0 || current_header is Some || para_first is Some),
            root_children@.len() > 0 ==> root_children@.last() is Node,
            crate::parse::trivia::sections_named_in(root_children@),
            cursor.wf(),
            cursor.src() == input,
            n == cursor.nlines(),
            cursor.pos() <= n,
            section_end <= cursor.bytes().len(),
            cursor.bytes().len() < u32::MAX,
            front_ok(root_children@, front, cursor),
            current_header is Some <==> current_body is Some,
            para_first is Some ==> current_header is None,
            current_header is None && para_first is None ==> front <= cursor.span(cursor.pos()).0,
            current_header matches Some(h) ==> header_info_ok(h) && front <= lo(h.range) && hi(h.range)
                <= section_end && section_end <= cursor.span(cursor.pos()).0 && section_end <= lines_end(cursor)
                && body_ok(current_body->0, hi(h.range), section_end as int),
            para_first matches Some(f) ==> f <= para_last < cursor.pos() && front <= cs_of(cursor, f as int)
                && ce_of(cursor, para_last as int) <= cursor.span(cursor.pos()).0 && ce_of(cursor, para_last as int)
                <= lines_end(cursor),
        decreases n - cursor.pos(),
    {
        proof {
            cursor.lemma_wf();
            lemma_content(cursor, cursor.pos());
        }
        // --- Blank lines split stray-line paragraphs ---
        if cursor.line_is_blank(cursor.line()) {
            match para_first {
                Some(first) => {
                    let x = SyntaxElement::Node(build_paragraph(&cursor, first, para_last));
                    proof {
                        lemma_cover_span(bb, root_children@, x, first as int, para_last as int, cursor.pos() as int);
                        lemma_content_boundary(input, first as int);
                        lemma_content_boundary(input, para_last as int);
                        lemma_valid_push(bb, root_children@, x);
                        lemma_prefix_push(m0, root_children@, x);
                        lemma_first_mark(root_children@, x);
                        pend = cursor.pos() as int;
                        let e = ce_of(cursor, para_last as int);
                        lemma_elems_widen(root_children@, 0, front, 0, e);
                        if root_children@.len() > 0 {
                            assert(range_in(root_children@.last().erange(), 0, front));
                        }
                        lemma_elems_push(root_children@, x, 0, e);
                        front = e;
                    }
                    proof {
                        crate::parse::trivia::lemma_named_push(root_children@, x);
                    }
                    root_children.push(x);
                    para_first = None;
                },
                None => {},
            }
            cursor.advance();
            continue;
        }
        // --- Section header: flush the previous section and start anew ---
        let found = dialect.try_header(&cursor, current_header.as_ref());
        proof {
            assert(!line_blank(bb, cursor.pos() as int));
        }
        match found {
            Some(info) => {
                proof {
                    w = cursor.pos() as int;
                }
                let prev = current_header.take();
                let prev_body = current_body.take();
                match (prev, prev_body) {
                    (Some(h), Some(body)) => {
                        let x = SyntaxElement::Node(flush_section(h, body, section_end, input));
                        proof {
                            lemma_cover_pending(bb, root_children@, x, pend, cursor.pos() as int);
                            lemma_valid_push(bb, root_children@, x);
                            lemma_prefix_push(m0, root_children@, x);
                            lemma_first_mark(root_children@, x);
                            pend = cursor.pos() as int;
                            lemma_elems_widen(root_children@, 0, front, 0, section_end as int);
                            if root_children@.len() > 0 {
                                assert(range_in(root_children@.last().erange(), 0, front));
                            }
                            lemma_elems_push(root_children@, x, 0, section_end as int);
                            front = section_end as int;
                        }
                        proof {
                            crate::parse::trivia::lemma_named_push(root_children@, x);
                        }
                        root_children.push(x);
                    },
                    _ => {},
                }
                match para_first {
                    Some(first) => {
                        let x = SyntaxElement::Node(build_paragraph(&cursor, first, para_last));
                        proof {
                            lemma_cover_span(bb, root_children@, x, first as int, para_last as int, cursor.pos() as int);
                            lemma_content_boundary(input, first as int);
                            lemma_content_boundary(input, para_last as int);
                            lemma_valid_push(bb, root_children@, x);
                            lemma_prefix_push(m0, root_children@, x);
                            lemma_first_mark(root_children@, x);
                            pend = cursor.pos() as int;
                            let e = ce_of(cursor, para_last as int);
                            lemma_elems_widen(root_children@, 0, front, 0, e);
                            if root_children@.len() > 0 {
                                assert(range_in(root_children@.last().erange(), 0, front));
                            }
                            lemma_elems_push(root_children@, x, 0, e);
                            front = e;
                        }
                        proof {
                            crate::parse::trivia::lemma_named_push(root_children@, x);
                        }
                        root_children.push(x);
                        para_first = None;
                    },
                    None => {},
                }
                proof {
                    if pend < cursor.pos() {
                        lemma_cover_blanks(bb, node_marks(root_children@), pend, cursor.pos() as int);
                    }
                    pend = cursor.pos() as int;
                }
                current_body = Some(dialect.body(info.kind));
                let lines = header_lines(&info.marker);
                section_end = info.range.end().to_usize();
                if section_end > input.len() {
                    section_end = input.len();
                }
                let next = cursor.line() + lines;
                let ghost c0 = cursor;
                proof {
                    let last = c0.pos() + marker_lines(info.marker) - 1;
                    lemma_content(c0, last);
                    assert(hi(info.range) <= c0.span(last).1);
                    assert(section_end == hi(info.range));
                }
                cursor.set_line(next);
                proof {
                    assert(body_ok(current_body->0, hi(info.range), section_end as int));
                    let last = c0.pos() + marker_lines(info.marker) - 1;
                    lemma_content_boundary(input, c0.pos());
                    lemma_content_boundary(input, last);
                    assert forall|k: int| pend <= k < cursor.pos() && !line_blank(bb, k) implies line_in(
                        bb,
                        k,
                        lo(info.range),
                        section_end as int,
                    ) by {
                        lemma_line_between(bb, c0.pos(), k, last);
                    }
                }
                current_header = Some(info);
                entry_indent = None;
                body_is_deeper = None;
                continue;
            },
            None => {},
        }
        // --- Indent flush (Google only) ---
        if flush_indent {
            let l = cursor.current_indent_columns();
            let should_flush = match &current_header {
                Some(h) => match body_is_deeper {
                    None => l < h.indent_columns,
                    Some(true) => l <= h.indent_columns,
                    Some(false) => false,
                },
                None => false,
            };
            if should_flush {
                let prev = current_header.take();
                let prev_body = current_body.take();
                match (prev, prev_body) {
                    (Some(h), Some(body)) => {
                        let x = SyntaxElement::Node(flush_section(h, body, section_end, input));
                        proof {
                            lemma_cover_pending(bb, root_children@, x, pend, cursor.pos() as int);
                            lemma_valid_push(bb, root_children@, x);
                            lemma_prefix_push(m0, root_children@, x);
                            lemma_first_mark(root_children@, x);
                            pend = cursor.pos() as int;
                            lemma_elems_widen(root_children@, 0, front, 0, section_end as int);
                            if root_children@.len() > 0 {
                                assert(range_in(root_children@.last().erange(), 0, front));
                            }
                            lemma_elems_push(root_children@, x, 0, section_end as int);
                            front = section_end as int;
                        }
                        proof {
                            crate::parse::trivia::lemma_named_push(root_children@, x);
                        }
                        root_children.push(x);
                    },
                    _ => {},
                }
                body_is_deeper = None;
            }
        }
        // --- Body line or stray prose ---
        let (_, line_end) = line_content(&cursor, cursor.line());
        let ghost se0 = section_end;
        match current_body.take() {
            Some(body) => {
                let mut body = body;
                if flush_indent && body_is_deeper.is_none() {
                    let entry_l = cursor.current_indent_columns();
                    body_is_deeper = Some(
                        match &current_header {
                            Some(h) => entry_l > h.indent_columns,
                            None => false,
                        },
                    );
                }
                let ghost b0 = body;
                proof {
                    let h = current_header->0;
                    lemma_body_widen(b0, hi(h.range), section_end as int, cur_cs(cursor));
                }
                body.process_line(&cursor, &mut entry_indent);
                proof {
                    let h = current_header->0;
                    assert(body_step_ok(b0, body, hi(h.range), cur_cs(cursor), cur_ce(cursor)));
                }
                current_body = Some(body);
                section_end = line_end;
                proof {
                    lemma_content_boundary(input, cursor.pos() as int);
                    let h = current_header->0;
                    assert forall|k: int| pend <= k < cursor.pos() + 1 && !line_blank(bb, k) implies line_in(
                        bb,
                        k,
                        lo(h.range),
                        section_end as int,
                    ) by {
                        if k < cursor.pos() {
                            assert(line_in(bb, k, lo(h.range), se0 as int));
                        }
                    }
                }
            },
            None => {
                if para_first.is_none() {
                    proof {
                        lemma_cover_blanks(bb, node_marks(root_children@), pend, cursor.pos() as int);
                        pend = cursor.pos() as int;
                    }
                    para_first = Some(cursor.line());
                }
                para_last = cursor.line();
            },
        }
        proof {
            w = cursor.pos() as int;
        }
        cursor.advance();
    }

    // --- EOF flushes ---
    let prev = current_header.take();
    let prev_body = current_body.take();
    match (prev, prev_body) {
        (Some(h), Some(body)) => {
            let x = SyntaxElement::Node(flush_section(h, body, section_end, input));
            proof {
                lemma_cover_pending(bb, root_children@, x, pend, cursor.pos() as int);
                lemma_valid_push(bb, root_children@, x);
                lemma_prefix_push(m0, root_children@, x);
                lemma_first_mark(root_children@, x);
                pend = cursor.pos() as int;
                lemma_elems_widen(root_children@, 0, front, 0, section_end as int);
                if root_children@.len() > 0 {
                    assert(range_in(root_children@.last().erange(), 0, front));
                }
                lemma_elems_push(root_children@, x, 0, section_end as int);
                front = section_end as int;
            }
            proof {
                crate::parse::trivia::lemma_named_push(root_children@, x);
            }
            root_children.push(x);
        },
        _ => {},
    }
    match para_first {
        Some(first) => {
            let x = SyntaxElement::Node(build_paragraph(&cursor, first, para_last));
            proof {
                lemma_cover_span(bb, root_children@, x, first as int, para_last as int, cursor.pos() as int);
                lemma_content_boundary(input, first as int);
                lemma_content_boundary(input, para_last as int);
                lemma_valid_push(bb, root_children@, x);
                lemma_prefix_push(m0, root_children@, x);
                lemma_first_mark(root_children@, x);
                pend = cursor.pos() as int;
                let e = ce_of(cursor, para_last as int);
                lemma_elems_widen(root_children@, 0, front, 0, e);
                if root_children@.len() > 0 {
                    assert(range_in(root_children@.last().erange(), 0, front));
                }
                lemma_elems_push(root_children@, x, 0, e);
                front = e;
            }
            proof {
                crate::parse::trivia::lemma_named_push(root_children@, x);
            }
            root_children.push(x);
        },
        None => {},
    }
    proof {
        if pend < cursor.pos() {
            lemma_cover_blanks(bb, node_marks(root_children@), pend, cursor.pos() as int);
        }
        assert forall|k: int| 0 <= k < n && !line_blank(bb, k) implies #[trigger] covered(
            bb,
            k,
            node_marks(root_children@),
        ) by {
            assert(k < cursor.pos());
        }
    }
    let range = cursor.full_range();
    proof {
        lemma_elems_widen(root_children@, 0, front, 0, hi(range));
        if root_children@.len() > 0 {
            assert(node_marks(root_children@).len() > 0);
        }
        if w >= 0 {
            assert(has_content_line(bb));
        }
        if has_content_line(bb) {
            let k = choose|k: int| 0 <= k < count_lines(bb) && !line_blank(bb, k);
            assert(line_blank(bb, k) || w >= 0);
        }
    }
    let ghost rc = root_children@;
    let r = finish_document(range, root_children, input, dialect.style());
    proof {
        crate::parse::trivia::lemma_named_kept(rc, r.root_node().kids());
    }
    r
}

/// Wrap the root children in the `DOCUMENT` node, lex its trivia, and
/// bundle it with the source.
pub fn finish_document(range: TextRange, children: Vec<SyntaxElement>, input: &str, style: Style) -> (r: Parsed)
    requires
        input.spec_bytes().len() < u32::MAX,
        input.spec_bytes().len() <= usize::MAX / 8,
        lo(range) == 0,
        hi(range) <= input.spec_bytes().len(),
    ensures
        r.text() == input@,
        r.style_of() == style,
        r.root_node().nkind() == SyntaxKind::DOCUMENT,
        lo(r.root_node().nrange()) == 0,
        hi(r.root_node().nrange()) == input.spec_bytes().len(),
        all_placed(children@, range) ==> r.root_node().well_placed() && node_marks(r.root_node().kids()) == node_marks(
            children@,
        ) && crate::parse::trivia::keeps_all(
            crate::parse::trivia::nodes_of(children@),
            crate::parse::trivia::nodes_of(r.root_node().kids()),
        ) && (children@.len() == 0 ==> forall|q: int|
            0 <= q < r.root_node().kids().len() ==> crate::syntax::kind_is_trivia(
                (#[trigger] r.root_node().kids()[q]).ekind(),
            )),
{
    let root = SyntaxNode::new(SyntaxKind::DOCUMENT, range, children);
    let root = attach_trivia(root, input);
    let source = input.to_owned();
    Parsed::new(source, root, style)
}

} // verus!
