//! Pattern fragments with `$X` / `$$$X` metavariables: parsing and
//! introspection (matching is in [`crate::matcher`], rewriting in
//! [`crate::rewrite`]).
//!
//! A [`Pattern`] is a context-free docstring fragment whose metavariables
//! mark the positions a matcher binds to nodes of a target docstring.
//! `$NAME` binds one node or token, `$$$NAME` a sequence of consecutive
//! siblings; the identifier is `[A-Z][A-Z0-9_]*`, recognised only at a word
//! boundary ([`lex`]). There is no escape mechanism.
//!
//! Patterns are parsed by the docstring parsers themselves: each
//! metavariable is replaced by a unique placeholder name, the fragment is
//! wrapped in a synthetic section of each tried role ([`wrap`]), and the
//! wrapped text is parsed. Each placeholder's landing site is recorded
//! ([`site`]). [`Pattern::readings`] enumerates every valid interpretation
//! in a fixed order: entry readings by role (Parameters, KeywordParameters,
//! OtherParameters, Receives, Returns, Yields, Raises, Warns, Attributes,
//! Methods, SeeAlso, References; identically shaped ones merged into one
//! reading listing all their roles), then the free-text body reading, then
//! the section reading, then the document reading. Entry readings are only
//! tried for a text that is a single contiguous block. Every range in a
//! reading is a byte range into that reading's wrapped source.

use vstd::prelude::*;
use vstd::string::StringExecFns;
use vstd::string::StringSliceAdditionalSpecFns;
use vstd::utf8::encode_utf8;

use crate::model::FreeSectionKind;
use crate::model::SectionKind;
use crate::parse::Style;
use crate::pattern::lex::lexed;
use crate::pattern::lex::occurrence_is;
use crate::pattern::lex::piece_name;
use crate::pattern::lex::substitute_metavars;
use crate::pattern::lex::vars_before;
use crate::pattern::lex::Occurrence;
use crate::pattern::lex::Piece;
use crate::pattern::site::check_coverage;
use crate::pattern::site::content_child_indices;
use crate::pattern::site::content_upto;
use crate::pattern::site::locate_metavars;
use crate::pattern::site::node_at;
use crate::pattern::site::node_at_path;
use crate::pattern::site::MetaVar;
use crate::pattern::wrap::header_name;
use crate::pattern::wrap::wrap_section_body;
use crate::syntax::Parsed;
use crate::syntax::SyntaxElement;
use crate::syntax::SyntaxKind;
use crate::syntax::SyntaxNode;

pub mod lex;
pub mod site;
pub mod wrap;

pub use site::MetaVarSite;

verus! {

// =============================================================================
// Public types
// =============================================================================

/// What kind of docstring fragment a [`Reading`] denotes.
#[derive(Debug, Clone, Copy, PartialEq, Eq, Structural, Hash)]
#[non_exhaustive]
pub enum FragmentKind {
    /// A single section-body entry (the fragment root is an `ENTRY` node,
    /// or a `CITATION` node for the `References` reading).
    Entry,
    /// A free-text section body (the fragment root is a `DESCRIPTION`
    /// node).
    Body,
    /// A complete section, header included (a `SECTION` node).
    Section,
    /// A whole docstring (the `DOCUMENT` node).
    Document,
}

/// Why a pattern could not be built: only input with zero valid readings
/// fails.
#[derive(Debug, Clone, PartialEq, Eq)]
#[non_exhaustive]
pub enum PatternError {
    /// The text has no valid reading.
    #[non_exhaustive]
    Unparsable {
        /// Human-readable explanation.
        message: String,
    },
}

impl PatternError {
    /// The error's message, as it is displayed.
    pub fn message(&self) -> (r: String)
        ensures
            match self {
                PatternError::Unparsable { message } => r@ == "unparsable pattern: "@ + message@,
            },
    {
        match self {
            PatternError::Unparsable { message } => {
                let mut out = "unparsable pattern: ".to_owned();
                out.append(message.as_str());
                out
            },
        }
    }
}

// =============================================================================
// Section kinds
// =============================================================================

/// A number for each section kind (23 for every unknown free-text kind).
pub open spec fn kind_code(k: SectionKind) -> int {
    match k {
        SectionKind::Parameters => 0,
        SectionKind::KeywordParameters => 1,
        SectionKind::OtherParameters => 2,
        SectionKind::Receives => 3,
        SectionKind::Returns => 4,
        SectionKind::Yields => 5,
        SectionKind::Raises => 6,
        SectionKind::Warns => 7,
        SectionKind::Attributes => 8,
        SectionKind::Methods => 9,
        SectionKind::SeeAlso => 10,
        SectionKind::References => 11,
        SectionKind::FreeText(f) => match f {
            FreeSectionKind::Notes => 12,
            FreeSectionKind::Examples => 13,
            FreeSectionKind::Warnings => 14,
            FreeSectionKind::Todo => 15,
            FreeSectionKind::Attention => 16,
            FreeSectionKind::Caution => 17,
            FreeSectionKind::Danger => 18,
            FreeSectionKind::Error => 19,
            FreeSectionKind::Hint => 20,
            FreeSectionKind::Important => 21,
            FreeSectionKind::Tip => 22,
            FreeSectionKind::Unknown(_) => 23,
        },
    }
}

/// The name of an unknown free-text kind (empty for any other kind).
pub open spec fn unknown_name(k: SectionKind) -> Seq<char> {
    match k {
        SectionKind::FreeText(FreeSectionKind::Unknown(s)) => s@,
        _ => Seq::empty(),
    }
}

/// Two section kinds are the same: the same variant, and for unknown
/// free-text kinds the same name.
pub open spec fn same_kind(a: SectionKind, b: SectionKind) -> bool {
    kind_code(a) == kind_code(b) && unknown_name(a) == unknown_name(b)
}

/// Exec form of [`kind_code`].
fn section_kind_code(k: &SectionKind) -> (r: u8)
    ensures
        r == kind_code(*k),
{
    match k {
        SectionKind::Parameters => 0,
        SectionKind::KeywordParameters => 1,
        SectionKind::OtherParameters => 2,
        SectionKind::Receives => 3,
        SectionKind::Returns => 4,
        SectionKind::Yields => 5,
        SectionKind::Raises => 6,
        SectionKind::Warns => 7,
        SectionKind::Attributes => 8,
        SectionKind::Methods => 9,
        SectionKind::SeeAlso => 10,
        SectionKind::References => 11,
        SectionKind::FreeText(f) => match f {
            FreeSectionKind::Notes => 12,
            FreeSectionKind::Examples => 13,
            FreeSectionKind::Warnings => 14,
            FreeSectionKind::Todo => 15,
            FreeSectionKind::Attention => 16,
            FreeSectionKind::Caution => 17,
            FreeSectionKind::Danger => 18,
            FreeSectionKind::Error => 19,
            FreeSectionKind::Hint => 20,
            FreeSectionKind::Important => 21,
            FreeSectionKind::Tip => 22,
            FreeSectionKind::Unknown(_) => 23,
        },
    }
}

/// Exec form of [`same_kind`].
pub fn same_section_kind(a: &SectionKind, b: &SectionKind) -> (r: bool)
    ensures
        r == same_kind(*a, *b),
{
    if section_kind_code(a) != section_kind_code(b) {
        return false;
    }
    match (a, b) {
        (
            SectionKind::FreeText(FreeSectionKind::Unknown(x)),
            SectionKind::FreeText(FreeSectionKind::Unknown(y)),
        ) => {
            let r = crate::strs::bytes_eq(x.as_str().as_bytes(), y.as_str().as_bytes());
            proof {
                vstd::utf8::encode_utf8_decode_utf8(x@);
                vstd::utf8::encode_utf8_decode_utf8(y@);
            }
            r
        },
        _ => true,
    }
}

/// A copy of a section kind.
pub fn copy_section_kind(k: &SectionKind) -> (r: SectionKind)
    ensures
        same_kind(r, *k),
{
    match k {
        SectionKind::Parameters => SectionKind::Parameters,
        SectionKind::KeywordParameters => SectionKind::KeywordParameters,
        SectionKind::OtherParameters => SectionKind::OtherParameters,
        SectionKind::Receives => SectionKind::Receives,
        SectionKind::Returns => SectionKind::Returns,
        SectionKind::Yields => SectionKind::Yields,
        SectionKind::Raises => SectionKind::Raises,
        SectionKind::Warns => SectionKind::Warns,
        SectionKind::Attributes => SectionKind::Attributes,
        SectionKind::Methods => SectionKind::Methods,
        SectionKind::SeeAlso => SectionKind::SeeAlso,
        SectionKind::References => SectionKind::References,
        SectionKind::FreeText(f) => SectionKind::FreeText(
            match f {
                FreeSectionKind::Notes => FreeSectionKind::Notes,
                FreeSectionKind::Examples => FreeSectionKind::Examples,
                FreeSectionKind::Warnings => FreeSectionKind::Warnings,
                FreeSectionKind::Todo => FreeSectionKind::Todo,
                FreeSectionKind::Attention => FreeSectionKind::Attention,
                FreeSectionKind::Caution => FreeSectionKind::Caution,
                FreeSectionKind::Danger => FreeSectionKind::Danger,
                FreeSectionKind::Error => FreeSectionKind::Error,
                FreeSectionKind::Hint => FreeSectionKind::Hint,
                FreeSectionKind::Important => FreeSectionKind::Important,
                FreeSectionKind::Tip => FreeSectionKind::Tip,
                FreeSectionKind::Unknown(s) => FreeSectionKind::Unknown(s.as_str().to_owned()),
            },
        ),
    }
}

/// The entry-tier trial role at position `t` of the enumeration order.
pub open spec fn entry_role(t: int) -> SectionKind {
    if t == 0 {
        SectionKind::Parameters
    } else if t == 1 {
        SectionKind::KeywordParameters
    } else if t == 2 {
        SectionKind::OtherParameters
    } else if t == 3 {
        SectionKind::Receives
    } else if t == 4 {
        SectionKind::Returns
    } else if t == 5 {
        SectionKind::Yields
    } else if t == 6 {
        SectionKind::Raises
    } else if t == 7 {
        SectionKind::Warns
    } else if t == 8 {
        SectionKind::Attributes
    } else if t == 9 {
        SectionKind::Methods
    } else if t == 10 {
        SectionKind::SeeAlso
    } else {
        SectionKind::References
    }
}

/// Exec form of [`entry_role`].
fn entry_reading_kind(t: usize) -> (r: SectionKind)
    ensures
        r == entry_role(t as int),
{
    if t == 0 {
        SectionKind::Parameters
    } else if t == 1 {
        SectionKind::KeywordParameters
    } else if t == 2 {
        SectionKind::OtherParameters
    } else if t == 3 {
        SectionKind::Receives
    } else if t == 4 {
        SectionKind::Returns
    } else if t == 5 {
        SectionKind::Yields
    } else if t == 6 {
        SectionKind::Raises
    } else if t == 7 {
        SectionKind::Warns
    } else if t == 8 {
        SectionKind::Attributes
    } else if t == 9 {
        SectionKind::Methods
    } else if t == 10 {
        SectionKind::SeeAlso
    } else {
        SectionKind::References
    }
}

/// The known free-text section kinds a `Body` reading applies under.
fn free_text_kinds() -> (r: Vec<SectionKind>)
    ensures
        r@.len() == 11,
        forall|i: int| 0 <= i < 11 ==> kind_code(#[trigger] r@[i]) == 12 + i,
{
    let mut v: Vec<SectionKind> = Vec::new();
    v.push(SectionKind::FreeText(FreeSectionKind::Notes));
    v.push(SectionKind::FreeText(FreeSectionKind::Examples));
    v.push(SectionKind::FreeText(FreeSectionKind::Warnings));
    v.push(SectionKind::FreeText(FreeSectionKind::Todo));
    v.push(SectionKind::FreeText(FreeSectionKind::Attention));
    v.push(SectionKind::FreeText(FreeSectionKind::Caution));
    v.push(SectionKind::FreeText(FreeSectionKind::Danger));
    v.push(SectionKind::FreeText(FreeSectionKind::Error));
    v.push(SectionKind::FreeText(FreeSectionKind::Hint));
    v.push(SectionKind::FreeText(FreeSectionKind::Important));
    v.push(SectionKind::FreeText(FreeSectionKind::Tip));
    v
}

// =============================================================================
// Readings
// =============================================================================

/// The metavariable table `vs` lists the occurrences `os`, in order, by
/// name and sigil.
pub open spec fn vars_match(os: Seq<Occurrence>, vs: Seq<MetaVar>) -> bool {
    &&& vs.len() == os.len()
    &&& forall|k: int| 0 <= k < vs.len() ==> (#[trigger] vs[k]).vname() == os[k].name@ && vs[k].vmulti() == os[k].multi
}

/// The metavariable table `vs` lists the metavariables of the text `b`
/// lexed as `ps`, in source order, by name and sigil.
pub open spec fn vars_of_text(b: Seq<u8>, ps: Seq<Piece>, vs: Seq<MetaVar>) -> bool {
    &&& vs.len() == vars_before(ps, ps.len() as int)
    &&& forall|m: int|
        0 <= m < ps.len() && ps[m].var ==> {
            &&& encode_utf8((#[trigger] vs[vars_before(ps, m) as int]).vname()) == piece_name(b, ps[m])
            &&& vs[vars_before(ps, m) as int].vmulti() == ps[m].multi
        }
}

/// One valid interpretation of a pattern's text.
#[derive(Debug)]
pub struct Reading {
    parsed: Parsed,
    fragment_kind: FragmentKind,
    fragment_path: Vec<usize>,
    section_kinds: Vec<SectionKind>,
    metavars: Vec<MetaVar>,
}

impl Reading {
    #[verifier::type_invariant]
    spec fn inv(&self) -> bool {
        node_at_path(self.parsed.root_node(), self.fragment_path@) is Some
    }

    /// The reading's wrapped parse.
    pub closed spec fn rparsed(&self) -> Parsed {
        self.parsed
    }

    /// The fragment kind.
    pub closed spec fn rkind(&self) -> FragmentKind {
        self.fragment_kind
    }

    /// The path from the wrapped root to the fragment root.
    pub closed spec fn rpath(&self) -> Seq<usize> {
        self.fragment_path@
    }

    /// The section roles the reading applies under.
    pub closed spec fn rkinds(&self) -> Seq<SectionKind> {
        self.section_kinds@
    }

    /// The metavariable table.
    pub closed spec fn rvars(&self) -> Seq<MetaVar> {
        self.metavars@
    }

    /// What kind of fragment this reading denotes.
    pub fn fragment_kind(&self) -> (r: FragmentKind)
        ensures
            r == self.rkind(),
    {
        self.fragment_kind
    }

    /// The section roles this reading applies under, in enumeration order
    /// (empty for `Section` and `Document` readings).
    pub fn section_kinds(&self) -> (r: &[SectionKind])
        ensures
            r@ == self.rkinds(),
    {
        self.section_kinds.as_slice()
    }

    /// The fragment root node this reading denotes, inside
    /// [`Reading::parsed`]'s tree.
    pub fn fragment(&self) -> (r: &SyntaxNode)
        ensures
            node_at_path(self.rparsed().root_node(), self.rpath()) == Some(*r),
    {
        proof {
            use_type_invariant(self);
        }
        node_at(self.parsed.root(), self.fragment_path.as_slice())
    }

    /// This reading's metavariable table: one entry per occurrence, in
    /// source order.
    pub fn metavars(&self) -> (r: &[MetaVar])
        ensures
            r@ == self.rvars(),
    {
        self.metavars.as_slice()
    }

    /// This reading's wrapped parse.
    pub fn parsed(&self) -> (r: &Parsed)
        ensures
            *r == self.rparsed(),
    {
        &self.parsed
    }

    /// Child-index path from the wrapped tree's root to the fragment root.
    pub fn fragment_path(&self) -> (r: &[usize])
        ensures
            r@ == self.rpath(),
    {
        self.fragment_path.as_slice()
    }
}

// =============================================================================
// In-section analysis
// =============================================================================

/// The place of a fragment kind in the reading order: entries, then the
/// free-text body, then the section, then the whole document.
pub open spec fn kind_rank(k: FragmentKind) -> int {
    match k {
        FragmentKind::Entry => 0,
        FragmentKind::Body => 1,
        FragmentKind::Section => 2,
        FragmentKind::Document => 3,
    }
}

/// Readings in the documented order: entry readings first, then at most
/// one body, one section and one document reading, in that order.
pub open spec fn readings_ordered(rs: Seq<Reading>) -> bool {
    forall|i: int, j: int|
        0 <= i < j < rs.len() ==> kind_rank((#[trigger] rs[i]).rkind()) <= kind_rank((#[trigger] rs[j]).rkind())
            && (kind_rank(rs[i].rkind()) >= 1 ==> kind_rank(rs[i].rkind()) < kind_rank(rs[j].rkind()))
}

/// Appending a reading no earlier in the order keeps the readings ordered.
proof fn lemma_ordered_push(rs: Seq<Reading>, x: Reading)
    requires
        readings_ordered(rs),
        forall|k: int|
            0 <= k < rs.len() ==> kind_rank((#[trigger] rs[k]).rkind()) <= kind_rank(x.rkind()) && (kind_rank(
                rs[k].rkind(),
            ) >= 1 ==> kind_rank(rs[k].rkind()) < kind_rank(x.rkind())),
    ensures
        readings_ordered(rs.push(x)),
{
    assert forall|i: int, j: int| 0 <= i < j < rs.push(x).len() implies kind_rank(
        (#[trigger] rs.push(x)[i]).rkind(),
    ) <= kind_rank((#[trigger] rs.push(x)[j]).rkind()) && (kind_rank(rs.push(x)[i].rkind()) >= 1 ==> kind_rank(
        rs.push(x)[i].rkind(),
    ) < kind_rank(rs.push(x)[j].rkind())) by {
        assert(rs.push(x)[i] == rs[i]);
        if j < rs.len() {
            assert(rs.push(x)[j] == rs[j]);
        }
    }
}

/// A validated section-body candidate parse.
struct InSectionAnalysis {
    parsed: Parsed,
    fragment_kind: FragmentKind,
    fragment_path: Vec<usize>,
    metavars: Vec<MetaVar>,
}

impl InSectionAnalysis {
    #[verifier::type_invariant]
    spec fn inv(&self) -> bool {
        node_at_path(self.parsed.root_node(), self.fragment_path@) is Some
    }

    spec fn avars(&self) -> Seq<MetaVar> {
        self.metavars@
    }

    spec fn akind(&self) -> FragmentKind {
        self.fragment_kind
    }

    fn into_reading(self, section_kinds: Vec<SectionKind>) -> (r: Reading)
        ensures
            r.rvars() == self.avars(),
            r.rkinds() == section_kinds@,
            r.rkind() == self.akind(),
    {
        proof {
            use_type_invariant(&self);
        }
        Reading {
            parsed: self.parsed,
            fragment_kind: self.fragment_kind,
            fragment_path: self.fragment_path,
            section_kinds,
            metavars: self.metavars,
        }
    }
}

/// A list of trivia alone has no content children.
proof fn lemma_content_trivia(s: Seq<SyntaxElement>, m: int)
    requires
        0 <= m <= s.len(),
        forall|q: int| 0 <= q < s.len() ==> crate::syntax::kind_is_trivia((#[trigger] s[q]).ekind()),
    ensures
        content_upto(s, m).len() == 0,
    decreases m,
{
    if m > 0 {
        lemma_content_trivia(s, m - 1);
    }
}

/// Text the parsers take: within their offset limits.
fn fits_parser(s: &str) -> (r: bool)
    ensures
        r == (s.spec_bytes().len() < u32::MAX && s.spec_bytes().len() <= usize::MAX / 8),
{
    let n = s.as_bytes().len();
    n < 4294967295usize && n <= usize::MAX / 8
}

/// Parse `text` with the parser for `style` (no auto-detection).
fn parse_for(style: Style, text: &str) -> (r: Parsed)
    requires
        text.spec_bytes().len() < u32::MAX,
        text.spec_bytes().len() <= usize::MAX / 8,
    ensures
        r.text() == text@,
        style == Style::Plain ==> crate::parse::plain::parser::plain_marks_ok(
            text.spec_bytes(),
            crate::parse::trivia::node_marks(r.root_node().kids()),
        ),
        !crate::parse::dispatch::has_content_line(text.spec_bytes()) ==> forall|q: int|
            0 <= q < r.root_node().kids().len() ==> crate::syntax::kind_is_trivia((#[trigger] r.root_node().kids()[q]).ekind()),
{
    match style {
        Style::NumPy => crate::parse::numpy::parser::parse_numpy(text),
        Style::Google => crate::parse::google::parser::parse_google(text),
        Style::Plain => crate::parse::plain::parser::parse_plain(text),
    }
}

/// The indices `content_upto` lists are below its bound.
proof fn lemma_content_bounds(s: Seq<SyntaxElement>, m: int)
    requires
        0 <= m <= s.len(),
    ensures
        forall|k: int| 0 <= k < content_upto(s, m).len() ==> #[trigger] content_upto(s, m)[k] < m,
    decreases m,
{
    if m > 0 {
        lemma_content_bounds(s, m - 1);
        assert forall|k: int| 0 <= k < content_upto(s, m).len() implies #[trigger] content_upto(s, m)[k] < m by {
            if k < content_upto(s, m - 1).len() {
                assert(content_upto(s, m)[k] == content_upto(s, m - 1)[k]);
            }
        }
    }
}

/// Try to parse the (substituted) fragment as the body content of one
/// `kind` section: exactly one `ENTRY` for structured roles, one `CITATION`
/// for `References`, or the `DESCRIPTION` body block for free-text roles.
fn analyze_in_section(style: Style, kind: &SectionKind, substituted: &str, occurrences: &Vec<Occurrence>) -> (r:
    Option<InSectionAnalysis>)
    ensures
        r matches Some(a) ==> vars_match(occurrences@, a.avars()) && a.akind() == (if kind is FreeText {
            FragmentKind::Body
        } else {
            FragmentKind::Entry
        }),
{
    let header = match header_name(style, kind) {
        Some(h) => h,
        None => return None,
    };
    let wrapped = wrap_section_body(style, header.as_str(), substituted);
    if !fits_parser(wrapped.as_str()) {
        return None;
    }
    let parsed = parse_for(style, wrapped.as_str());
    if !check_coverage(&parsed) {
        return None;
    }
    let root = parsed.root();
    let root_content = content_child_indices(root);
    if root_content.len() != 1 {
        return None;
    }
    let section_index = root_content[0];
    proof {
        lemma_content_bounds(root.kids(), root.kids().len() as int);
        assert(root_content@[0] < root.kids().len());
    }
    let section = match &root.children()[section_index] {
        SyntaxElement::Node(n) => n,
        SyntaxElement::Token(_) => return None,
    };
    if section.kind() != SyntaxKind::SECTION {
        return None;
    }
    let expected = match kind {
        SectionKind::References => SyntaxKind::CITATION,
        SectionKind::FreeText(_) => SyntaxKind::DESCRIPTION,
        _ => SyntaxKind::ENTRY,
    };
    let section_content = content_child_indices(section);
    if section_content.len() != 2 {
        return None;
    }
    proof {
        lemma_content_bounds(section.kids(), section.kids().len() as int);
        assert(section_content@[0] < section.kids().len());
        assert(section_content@[1] < section.kids().len());
    }
    if section.children()[section_content[0]].kind() != SyntaxKind::SECTION_HEADER {
        return None;
    }
    let body_index = section_content[1];
    match &section.children()[body_index] {
        SyntaxElement::Node(body) => {
            if body.kind() != expected {
                return None;
            }
        },
        SyntaxElement::Token(_) => return None,
    }
    let mut fragment_path: Vec<usize> = Vec::new();
    fragment_path.push(section_index);
    fragment_path.push(body_index);
    proof {
        let p1 = seq![section_index];
        assert(fragment_path@.drop_last() =~= p1);
        assert(p1.drop_last() =~= Seq::<usize>::empty());
        assert(node_at_path(parsed.root_node(), Seq::<usize>::empty()) == Some(parsed.root_node()));
        assert(p1.last() == section_index);
        assert(parsed.root_node().kids()[section_index as int] is Node);
        assert(node_at_path(parsed.root_node(), p1) == Some(*section));
        assert(fragment_path@.last() == body_index);
        assert(node_at_path(parsed.root_node(), fragment_path@) is Some);
    }
    let metavars = match locate_metavars(&parsed, occurrences, fragment_path.as_slice()) {
        Some(m) => m,
        None => return None,
    };
    let fragment_kind = if expected == SyntaxKind::DESCRIPTION {
        FragmentKind::Body
    } else {
        FragmentKind::Entry
    };
    Some(InSectionAnalysis { parsed, fragment_kind, fragment_path, metavars })
}

// =============================================================================
// Shape comparison (candidate collapsing)
// =============================================================================

/// One element of a fragment subtree, rebased to the fragment start.
struct ShapeElement {
    kind: SyntaxKind,
    is_node: bool,
    start: u32,
    end: u32,
}

/// One metavariable's contribution to a candidate's shape, rebased to the
/// fragment root.
struct VarShape {
    name: String,
    multi: bool,
    kind: SyntaxKind,
    parent_kind: SyntaxKind,
    exact: bool,
    start: u32,
    end: u32,
    rel_path: Vec<usize>,
}

/// A role-independent fingerprint of a candidate's fragment: the fragment
/// subtree (kinds and ranges rebased to the fragment start) plus the
/// metavariable sites (paths rebased to the fragment root).
struct Shape {
    tree: Vec<ShapeElement>,
    vars: Vec<VarShape>,
}

/// Append the pre-order shape of `node` rebased to `base`.
fn shape_dfs(node: &SyntaxNode, base: u32, out: &mut Vec<ShapeElement>)
    decreases node,
{
    let r = node.range();
    out.push(
        ShapeElement {
            kind: node.kind(),
            is_node: true,
            start: r.start().raw().wrapping_sub(base),
            end: r.end().raw().wrapping_sub(base),
        },
    );
    let kids = node.children();
    let mut i: usize = 0;
    while i < kids.len()
        invariant
            kids@ == node.kids(),
        decreases kids@.len() - i,
    {
        match &kids[i] {
            SyntaxElement::Node(n) => {
                proof {
                    node.lemma_kid_decreases(i as int);
                }
                shape_dfs(n, base, out);
            },
            SyntaxElement::Token(t) => {
                let tr = t.range();
                out.push(
                    ShapeElement {
                        kind: t.kind(),
                        is_node: false,
                        start: tr.start().raw().wrapping_sub(base),
                        end: tr.end().raw().wrapping_sub(base),
                    },
                );
            },
        }
        i = i + 1;
    }
}

/// The shape of a candidate.
fn shape_of(analysis: &InSectionAnalysis) -> Shape {
    proof {
        use_type_invariant(analysis);
    }
    let fragment = node_at(analysis.parsed.root(), analysis.fragment_path.as_slice());
    let base = fragment.range().start().raw();
    let mut tree: Vec<ShapeElement> = Vec::new();
    shape_dfs(fragment, base, &mut tree);
    let depth = analysis.fragment_path.len();
    let mut vars: Vec<VarShape> = Vec::new();
    let mut k: usize = 0;
    while k < analysis.metavars.len()
        decreases analysis.metavars@.len() - k,
    {
        let m = &analysis.metavars[k];
        let site = m.site();
        let path = site.path();
        let mut rel: Vec<usize> = Vec::new();
        let mut j = depth;
        while j < path.len()
            decreases path@.len() - j,
        {
            rel.push(path[j]);
            j = j + 1;
        }
        let r = site.range();
        vars.push(
            VarShape {
                name: m.name().to_owned(),
                multi: m.is_multi(),
                kind: site.kind(),
                parent_kind: site.parent_kind(),
                exact: site.is_exact(),
                start: r.start().raw().wrapping_sub(base),
                end: r.end().raw().wrapping_sub(base),
                rel_path: rel,
            },
        );
        k = k + 1;
    }
    Shape { tree, vars }
}

/// Whether two paths are equal.
fn paths_equal(a: &Vec<usize>, b: &Vec<usize>) -> (r: bool)
    ensures
        r == (a@ == b@),
{
    if a.len() != b.len() {
        return false;
    }
    let mut i: usize = 0;
    while i < a.len()
        invariant
            a@.len() == b@.len(),
            i <= a@.len(),
            forall|j: int| 0 <= j < i ==> a@[j] == b@[j],
        decreases a@.len() - i,
    {
        if a[i] != b[i] {
            return false;
        }
        i = i + 1;
    }
    proof {
        assert(a@ =~= b@);
    }
    true
}

/// Whether two shapes are the same.
fn shapes_equal(a: &Shape, b: &Shape) -> bool {
    if a.tree.len() != b.tree.len() || a.vars.len() != b.vars.len() {
        return false;
    }
    let mut i: usize = 0;
    while i < a.tree.len()
        invariant
            a.tree@.len() == b.tree@.len(),
        decreases a.tree@.len() - i,
    {
        let x = &a.tree[i];
        let y = &b.tree[i];
        if x.kind != y.kind || x.is_node != y.is_node || x.start != y.start || x.end != y.end {
            return false;
        }
        i = i + 1;
    }
    let mut j: usize = 0;
    while j < a.vars.len()
        invariant
            a.vars@.len() == b.vars@.len(),
        decreases a.vars@.len() - j,
    {
        let x = &a.vars[j];
        let y = &b.vars[j];
        if x.name.as_str() != y.name.as_str() || x.multi != y.multi || x.kind != y.kind || x.parent_kind
            != y.parent_kind || x.exact != y.exact || x.start != y.start || x.end != y.end || !paths_equal(
            &x.rel_path,
            &y.rel_path,
        ) {
            return false;
        }
        j = j + 1;
    }
    true
}

// =============================================================================
// Pattern
// =============================================================================

/// A parsed, context-free docstring pattern with metavariables.
#[derive(Debug)]
pub struct Pattern {
    style: Style,
    text: String,
    readings: Vec<Reading>,
}

impl Pattern {
    #[verifier::type_invariant]
    spec fn inv(&self) -> bool {
        self.readings@.len() > 0
    }

    /// The style the pattern is parsed against.
    pub closed spec fn pstyle(&self) -> Style {
        self.style
    }

    /// The original pattern text.
    pub closed spec fn ptext(&self) -> Seq<char> {
        self.text@
    }

    /// Every valid reading.
    pub closed spec fn preadings(&self) -> Seq<Reading> {
        self.readings@
    }

    /// Parse a pattern, enumerating every valid reading of the text in the
    /// documented enumeration order. Fails with
    /// [`PatternError::Unparsable`] when no reading exists: the text has
    /// no content (nothing but whitespace), or every candidate reading is
    /// rejected.
    ///
    /// Every reading's metavariable table lists the metavariables of the
    /// text, in source order, by name and sigil.
    #[verifier::rlimit(60)]
    pub fn new(style: Style, text: &str) -> (r: Result<Pattern, PatternError>)
        ensures
            r matches Ok(p) ==> {
                &&& p.pstyle() == style
                &&& p.ptext() == text@
                &&& crate::parse::dispatch::has_content_line(text.spec_bytes())
                &&& p.preadings().len() > 0
                &&& readings_ordered(p.preadings())
                &&& forall|i: int|
                    0 <= i < p.preadings().len() && kind_rank((#[trigger] p.preadings()[i]).rkind()) >= 2 ==> p.preadings()[i].rkinds().len() == 0
                &&& style == Style::Plain ==> p.preadings().len() == 1 && p.preadings()[0].rkind() == FragmentKind::Document
                &&& exists|ps: Seq<Piece>|
                    lexed(text.spec_bytes(), ps) && forall|i: int|
                        0 <= i < p.preadings().len() ==> vars_of_text(
                            text.spec_bytes(),
                            ps,
                            #[trigger] p.preadings()[i].rvars(),
                        )
            },
    {
        let (substituted, occurrences) = substitute_metavars(text);
        let ghost b = text.spec_bytes();
        let ghost (ps, stem) = choose|ps: Seq<Piece>, stem: Seq<u8>|
            #![trigger lexed(b, ps), crate::pattern::lex::substituted(b, ps, stem, ps.len() as int)]
            {
                &&& lexed(b, ps)
                &&& !crate::pattern::lex::occurs(b, stem)
                &&& encode_utf8(substituted@) == crate::pattern::lex::substituted(b, ps, stem, ps.len() as int)
                &&& occurrences@.len() == vars_before(ps, ps.len() as int)
                &&& forall|m: int|
                    0 <= m < ps.len() && ps[m].var ==> occurrence_is(
                        b,
                        stem,
                        ps[m],
                        vars_before(ps, m),
                        #[trigger] occurrences@[vars_before(ps, m) as int],
                    )
            };
        let too_long = PatternError::Unparsable {
            message: "pattern too long for the parser's byte offsets".to_owned(),
        };
        if !fits_parser(substituted.as_str()) {
            return Err(too_long);
        }
        let doc_parsed = parse_for(style, substituted.as_str());
        let content = content_child_indices(doc_parsed.root());
        proof {
            if !crate::parse::dispatch::has_content_line(b) {
                crate::cursor::lemma_blank_no_sigil(b);
                crate::pattern::lex::lemma_no_sigil_substituted(b, ps, stem);
                assert(encode_utf8(substituted@) == b);
                lemma_content_trivia(doc_parsed.root_node().kids(), doc_parsed.root_node().kids().len() as int);
            }
        }
        if content.len() == 0 {
            return Err(PatternError::Unparsable { message: "empty pattern: no content to match".to_owned() });
        }
        let mut readings: Vec<Reading> = Vec::new();
        let structured = match style {
            Style::Google | Style::NumPy => true,
            Style::Plain => false,
        };
        if structured {
            if content.len() == 1 {
                let mut shapes: Vec<Shape> = Vec::new();
                let mut analyses: Vec<InSectionAnalysis> = Vec::new();
                let mut kind_lists: Vec<Vec<SectionKind>> = Vec::new();
                let mut t: usize = 0;
                while t < 12
                    invariant
                        shapes@.len() == analyses@.len(),
                        analyses@.len() == kind_lists@.len(),
                        forall|i: int| 0 <= i < analyses@.len() ==> (#[trigger] analyses@[i]).akind() == FragmentKind::Entry,
                        forall|i: int| 0 <= i < analyses@.len() ==> vars_match(occurrences@, #[trigger] analyses@[i].avars()),
                    decreases 12 - t,
                {
                    let kind = entry_reading_kind(t);
                    match analyze_in_section(style, &kind, substituted.as_str(), &occurrences) {
                        Some(analysis) => {
                            let shape = shape_of(&analysis);
                            let mut found = false;
                            let mut j: usize = 0;
                            while j < shapes.len()
                                invariant
                                    shapes@.len() == analyses@.len(),
                                    analyses@.len() == kind_lists@.len(),
                                    forall|i: int| 0 <= i < analyses@.len() ==> (#[trigger] analyses@[i]).akind() == FragmentKind::Entry,
                                    forall|i: int| 0 <= i < analyses@.len() ==> vars_match(occurrences@, #[trigger] analyses@[i].avars()),
                                decreases shapes@.len() - j,
                            {
                                if shapes_equal(&shapes[j], &shape) {
                                    let mut list = kind_lists.remove(j);
                                    list.push(copy_section_kind(&kind));
                                    kind_lists.insert(j, list);
                                    found = true;
                                    break;
                                }
                                j = j + 1;
                            }
                            if !found {
                                let mut list: Vec<SectionKind> = Vec::new();
                                list.push(kind);
                                shapes.push(shape);
                                kind_lists.push(list);
                                let ghost before = analyses@;
                                analyses.push(analysis);
                                proof {
                                    assert forall|i: int| 0 <= i < analyses@.len() implies (#[trigger] analyses@[i]).akind()
                                        == FragmentKind::Entry by {
                                        if i < before.len() {
                                            assert(analyses@[i] == before[i]);
                                        }
                                    }
                                    assert forall|i: int| 0 <= i < analyses@.len() implies vars_match(
                                        occurrences@,
                                        #[trigger] analyses@[i].avars(),
                                    ) by {
                                        if i < before.len() {
                                            assert(analyses@[i] == before[i]);
                                        }
                                    }
                                }
                            }
                        },
                        None => {},
                    }
                    t = t + 1;
                }
                while analyses.len() > 0
                    invariant
                        analyses@.len() == kind_lists@.len(),
                        forall|i: int| 0 <= i < analyses@.len() ==> (#[trigger] analyses@[i]).akind() == FragmentKind::Entry,
                        forall|i: int| 0 <= i < readings@.len() ==> (#[trigger] readings@[i]).rkind() == FragmentKind::Entry,
                        forall|i: int| 0 <= i < analyses@.len() ==> vars_match(occurrences@, #[trigger] analyses@[i].avars()),
                        forall|i: int| 0 <= i < readings@.len() ==> vars_match(occurrences@, #[trigger] readings@[i].rvars()),
                    decreases analyses@.len(),
                {
                    let ghost before = analyses@;
                    let analysis = analyses.remove(0);
                    let list = kind_lists.remove(0);
                    proof {
                        assert(analysis == before[0]);
                        assert forall|i: int| 0 <= i < analyses@.len() implies (#[trigger] analyses@[i]).akind()
                            == FragmentKind::Entry by {
                            assert(analyses@[i] == before[i + 1]);
                        }
                        assert forall|i: int| 0 <= i < analyses@.len() implies vars_match(
                            occurrences@,
                            #[trigger] analyses@[i].avars(),
                        ) by {
                            assert(analyses@[i] == before[i + 1]);
                        }
                    }
                    let ghost before_r = readings@;
                    readings.push(analysis.into_reading(list));
                    proof {
                        assert forall|i: int| 0 <= i < readings@.len() implies (#[trigger] readings@[i]).rkind()
                            == FragmentKind::Entry by {
                            if i < before_r.len() {
                                assert(readings@[i] == before_r[i]);
                            }
                        }
                        assert forall|i: int| 0 <= i < readings@.len() implies vars_match(
                            occurrences@,
                            #[trigger] readings@[i].rvars(),
                        ) by {
                            if i < before_r.len() {
                                assert(readings@[i] == before_r[i]);
                            }
                        }
                    }
                }
            }
            proof {
                assert(forall|k: int| 0 <= k < readings@.len() ==> (#[trigger] readings@[k]).rkind() == FragmentKind::Entry);
                assert(readings_ordered(readings@));
            }
            let notes = SectionKind::FreeText(FreeSectionKind::Notes);
            match analyze_in_section(style, &notes, substituted.as_str(), &occurrences) {
                Some(analysis) => {
                    let ghost before_r = readings@;
                    readings.push(analysis.into_reading(free_text_kinds()));
                    proof {
                        assert(readings@ == before_r.push(readings@[before_r.len() as int]));
                        lemma_ordered_push(before_r, readings@[before_r.len() as int]);
                        assert forall|i: int| 0 <= i < readings@.len() implies vars_match(
                            occurrences@,
                            #[trigger] readings@[i].rvars(),
                        ) by {
                            if i < before_r.len() {
                                assert(readings@[i] == before_r[i]);
                            }
                        }
                    }
                },
                None => {},
            }
            proof {
                assert(forall|k: int| 0 <= k < readings@.len() ==> kind_rank((#[trigger] readings@[k]).rkind()) <= 1);
            }
        }
        proof {
            assert(readings_ordered(readings@));
            assert(forall|k: int| 0 <= k < readings@.len() ==> kind_rank((#[trigger] readings@[k]).rkind()) <= 1);
        }
        // The section reading: exactly one SECTION and nothing else.
        if content.len() == 1 {
            let section_parsed = doc_parsed.clone();
            let index = content[0];
            let root = section_parsed.root();
            let mut is_section = false;
            if index < root.children().len() {
                match &root.children()[index] {
                    SyntaxElement::Node(n) => {
                        is_section = n.kind() == SyntaxKind::SECTION;
                    },
                    SyntaxElement::Token(_) => {},
                }
            }
            proof {
                if is_section && style == Style::Plain {
                    crate::parse::trivia::lemma_marks_has(root.kids(), index as int);
                    let ms = crate::parse::trivia::node_marks(root.kids());
                    let j = choose|j: int| 0 <= j < ms.len() && ms[j] == (root.kids()[index as int].ekind(), root.kids()[index as int].erange());
                    assert(ms[j].0 == SyntaxKind::SECTION);
                    assert(false);
                }
                if is_section {
                    let p1 = seq![index];
                    assert(root.kids()[index as int] is Node);
                    assert(p1.drop_last() =~= Seq::<usize>::empty());
                    assert(p1.last() == index);
                    assert(node_at_path(section_parsed.root_node(), Seq::<usize>::empty()) == Some(
                        section_parsed.root_node(),
                    ));
                    assert(node_at_path(section_parsed.root_node(), p1) is Some);
                }
            }
            if is_section && check_coverage(&section_parsed) {
                let mut fragment_path: Vec<usize> = Vec::new();
                fragment_path.push(index);
                proof {
                    assert(fragment_path@.drop_last() =~= Seq::<usize>::empty());
                }
                proof {
                    assert(fragment_path@ =~= seq![index]);
                }
                match locate_metavars(&section_parsed, &occurrences, fragment_path.as_slice()) {
                    Some(metavars) => {
                        let ghost before_r = readings@;
                        readings.push(
                            Reading {
                                parsed: section_parsed,
                                fragment_kind: FragmentKind::Section,
                                fragment_path,
                                section_kinds: Vec::new(),
                                metavars,
                            },
                        );
                        proof {
                            assert(readings@ == before_r.push(readings@[before_r.len() as int]));
                            lemma_ordered_push(before_r, readings@[before_r.len() as int]);
                            assert forall|k: int| 0 <= k < readings@.len() implies kind_rank(
                                (#[trigger] readings@[k]).rkind(),
                            ) <= 2 && (kind_rank(readings@[k].rkind()) >= 2 ==> readings@[k].rkinds().len() == 0) by {
                                if k < before_r.len() {
                                    assert(readings@[k] == before_r[k]);
                                }
                            }
                            assert forall|i: int| 0 <= i < readings@.len() implies vars_match(
                                occurrences@,
                                #[trigger] readings@[i].rvars(),
                            ) by {
                                if i < before_r.len() {
                                    assert(readings@[i] == before_r[i]);
                                }
                            }
                        }
                    },
                    None => {},
                }
            }
        }
        proof {
            assert(readings_ordered(readings@));
            assert(forall|k: int| 0 <= k < readings@.len() ==> kind_rank((#[trigger] readings@[k]).rkind()) <= 2);
            assert(forall|k: int|
                0 <= k < readings@.len() && kind_rank((#[trigger] readings@[k]).rkind()) >= 2 ==> readings@[k].rkinds().len()
                    == 0);
            assert(style == Style::Plain ==> readings@.len() == 0);
        }
        // The document reading, always last.
        if check_coverage(&doc_parsed) {
            let empty: Vec<usize> = Vec::new();
            match locate_metavars(&doc_parsed, &occurrences, empty.as_slice()) {
                Some(metavars) => {
                    let ghost before_r = readings@;
                    readings.push(
                        Reading {
                            parsed: doc_parsed,
                            fragment_kind: FragmentKind::Document,
                            fragment_path: empty,
                            section_kinds: Vec::new(),
                            metavars,
                        },
                    );
                    proof {
                        assert(readings@ == before_r.push(readings@[before_r.len() as int]));
                        lemma_ordered_push(before_r, readings@[before_r.len() as int]);
                        assert forall|k: int|
                            0 <= k < readings@.len() && kind_rank((#[trigger] readings@[k]).rkind()) >= 2 implies readings@[k].rkinds().len()
                                == 0 by {
                            if k < before_r.len() {
                                assert(readings@[k] == before_r[k]);
                            }
                        }
                        assert forall|i: int| 0 <= i < readings@.len() implies vars_match(
                            occurrences@,
                            #[trigger] readings@[i].rvars(),
                        ) by {
                            if i < before_r.len() {
                                assert(readings@[i] == before_r[i]);
                            }
                        }
                    }
                },
                None => {},
            }
        }
        if readings.len() == 0 {
            return Err(
                PatternError::Unparsable {
                    message: "no valid reading: every metavariable must land on a bindable site (a whole token/node, or inside prose) in at least one grammar that accepts the text".to_owned(),
                },
            );
        }
        proof {
            assert forall|i: int| 0 <= i < readings@.len() implies vars_of_text(
                b,
                ps,
                #[trigger] readings@[i].rvars(),
            ) by {
                let vs = readings@[i].rvars();
                assert(vars_match(occurrences@, vs));
                assert forall|m: int| 0 <= m < ps.len() && ps[m].var implies {
                    &&& encode_utf8((#[trigger] vs[vars_before(ps, m) as int]).vname()) == piece_name(b, ps[m])
                    &&& vs[vars_before(ps, m) as int].vmulti() == ps[m].multi
                } by {
                    assert(occurrence_is(b, stem, ps[m], vars_before(ps, m), occurrences@[vars_before(ps, m) as int]));
                    crate::pattern::lex::lemma_vars_before_bound(ps, m);
                }
            }
        }
        Ok(Pattern { style, text: text.to_owned(), readings })
    }

    /// The docstring style the pattern is parsed against.
    pub fn style(&self) -> (r: Style)
        ensures
            r == self.pstyle(),
    {
        self.style
    }

    /// The original pattern text, metavariables included.
    pub fn text(&self) -> (r: &str)
        ensures
            r@ == self.ptext(),
    {
        self.text.as_str()
    }

    /// Every valid reading of the text, in the documented enumeration
    /// order. Never empty.
    pub fn readings(&self) -> (r: &[Reading])
        ensures
            r@ == self.preadings(),
            r@.len() > 0,
    {
        proof {
            use_type_invariant(self);
        }
        self.readings.as_slice()
    }

    /// The first reading applicable under the given section kind (one
    /// whose section kinds hold `kind`). `Section` and `Document` readings
    /// carry no section kinds, so they are never returned.
    pub fn reading_for(&self, kind: &SectionKind) -> (r: Option<&Reading>)
        ensures
            match r {
                Some(x) => exists|i: int|
                    0 <= i < self.preadings().len() && *x == self.preadings()[i] && (exists|j: int|
                        0 <= j < self.preadings()[i].rkinds().len() && same_kind(
                            #[trigger] self.preadings()[i].rkinds()[j],
                            *kind,
                        )) && forall|i2: int, j2: int|
                        0 <= i2 < i && 0 <= j2 < self.preadings()[i2].rkinds().len() ==> !same_kind(
                            #[trigger] self.preadings()[i2].rkinds()[j2],
                            *kind,
                        ),
                None => forall|i2: int, j2: int|
                    0 <= i2 < self.preadings().len() && 0 <= j2 < self.preadings()[i2].rkinds().len() ==> !same_kind(
                        #[trigger] self.preadings()[i2].rkinds()[j2],
                        *kind,
                    ),
            },
    {
        let mut i: usize = 0;
        while i < self.readings.len()
            invariant
                i <= self.readings@.len(),
                self.preadings() == self.readings@,
                forall|i2: int, j2: int|
                    0 <= i2 < i && 0 <= j2 < self.preadings()[i2].rkinds().len() ==> !same_kind(
                        #[trigger] self.preadings()[i2].rkinds()[j2],
                        *kind,
                    ),
            decreases self.readings@.len() - i,
        {
            let kinds = self.readings[i].section_kinds();
            let mut j: usize = 0;
            while j < kinds.len()
                invariant
                    i < self.readings@.len(),
                    self.preadings() == self.readings@,
                    j <= kinds@.len(),
                    kinds@ == self.preadings()[i as int].rkinds(),
                    forall|i2: int, j2: int|
                        0 <= i2 < i && 0 <= j2 < self.preadings()[i2].rkinds().len() ==> !same_kind(
                            #[trigger] self.preadings()[i2].rkinds()[j2],
                            *kind,
                        ),
                    forall|j2: int| 0 <= j2 < j ==> !same_kind(#[trigger] kinds@[j2], *kind),
                decreases kinds@.len() - j,
            {
                if same_section_kind(&kinds[j], kind) {
                    let found = &self.readings[i];
                    proof {
                        let ii = i as int;
                        assert(same_kind(self.readings@[ii].rkinds()[j as int], *kind));
                        assert(exists|j: int|
                            0 <= j < self.preadings()[ii].rkinds().len() && same_kind(
                                #[trigger] self.preadings()[ii].rkinds()[j],
                                *kind,
                            ));
                        assert(0 <= ii < self.preadings().len() && *found == self.preadings()[ii]);
                    }
                    return Some(found);
                }
                j = j + 1;
            }
            i = i + 1;
        }
        None
    }

    /// The primary reading's fragment kind (`readings()[0]`).
    pub fn fragment_kind(&self) -> (r: FragmentKind)
        ensures
            self.preadings().len() > 0 && r == self.preadings()[0].rkind(),
    {
        proof {
            use_type_invariant(self);
        }
        self.readings[0].fragment_kind()
    }

    /// The primary reading's fragment root node (`readings()[0]`).
    pub fn fragment(&self) -> (r: &SyntaxNode)
        ensures
            self.preadings().len() > 0,
            node_at_path(self.preadings()[0].rparsed().root_node(), self.preadings()[0].rpath()) == Some(*r),
    {
        proof {
            use_type_invariant(self);
        }
        self.readings[0].fragment()
    }

    /// The primary reading's metavariable table (`readings()[0]`).
    pub fn metavars(&self) -> (r: &[MetaVar])
        ensures
            self.preadings().len() > 0 && r@ == self.preadings()[0].rvars(),
    {
        proof {
            use_type_invariant(self);
        }
        self.readings[0].metavars()
    }

    /// The primary reading's wrapped parse (`readings()[0]`).
    pub fn parsed(&self) -> (r: &Parsed)
        ensures
            self.preadings().len() > 0 && *r == self.preadings()[0].rparsed(),
    {
        proof {
            use_type_invariant(self);
        }
        self.readings[0].parsed()
    }
}

} // verus!
