//! Style-independent typed views over the unified syntax tree.
//!
//! Every docstring style produces the same node vocabulary (`DOCUMENT` /
//! `SECTION` / `ENTRY` / `DIRECTIVE` / `CITATION`), so one set of views —
//! [`Document`], [`Section`], [`Entry`], [`Directive`], [`Citation`],
//! [`DefaultMarker`] — walks any of them. Every view holds the [`Parsed`]
//! result it came from, so no accessor takes a `source` argument.

use vstd::prelude::*;
use vstd::string::StringSliceAdditionalSpecFns;

use crate::parse::text_block::find_text_block;
use crate::parse::text_block::first_nonempty;
use crate::parse::text_block::TextBlock;
use crate::parse::token_ref::find_token_ref;
use crate::parse::token_ref::first_tok;
use crate::parse::token_ref::ref_tok;
use crate::parse::token_ref::required_token_ref;
use crate::parse::token_ref::token_refs;
use crate::parse::token_ref::TokenRef;
use crate::syntax::any_tokens;
use crate::syntax::child_nodes;
use crate::syntax::present_tokens;
use crate::syntax::Parsed;
use crate::syntax::SyntaxKind;
use crate::syntax::SyntaxNode;
use crate::text::TextRange;
use crate::model::FreeSectionKind;
use crate::model::SectionKind;
use crate::parse::kind::google_name_kind;
use crate::parse::kind::model_kind;
use crate::parse::kind::numpy_name_kind;
use crate::parse::kind::SectionName;
use crate::parse::Style;
use crate::strs::ascii_lower;
use crate::strs::lower_seq;
use crate::text::range_bytes;

verus! {

// =============================================================================
// Document
// =============================================================================

/// Style-independent view of a parsed docstring root.
#[derive(Debug, Clone, Copy)]
pub struct Document<'a> {
    parsed: &'a Parsed,
}

impl<'a> Document<'a> {
    /// The parse result.
    pub closed spec fn dparsed(&self) -> Parsed {
        *self.parsed
    }

    /// View the root of `parsed` as a style-independent document.
    pub fn new(parsed: &'a Parsed) -> (r: Self)
        ensures
            r.dparsed() == *parsed,
    {
        Document { parsed }
    }

    /// The style the docstring was parsed as.
    pub fn style(&self) -> (r: Style)
        ensures
            r == self.dparsed().style_of(),
    {
        self.parsed.style()
    }

    /// The root `SyntaxNode`.
    pub fn syntax(&self) -> (r: &'a SyntaxNode)
        ensures
            *r == self.dparsed().root_node(),
    {
        self.parsed.root()
    }

    /// Brief summary block, if present.
    pub fn summary(&self) -> (r: Option<TextBlock<'a>>)
        ensures
            match first_nonempty(child_nodes(self.dparsed().root_node().kids(), SyntaxKind::SUMMARY)) {
                Some(n) => r matches Some(t) && t.bnode() == n && t.bparsed() == self.dparsed(),
                None => r is None,
            },
    {
        find_text_block(self.parsed, self.parsed.root(), SyntaxKind::SUMMARY)
    }

    /// Extended summary block, if present.
    pub fn extended_summary(&self) -> (r: Option<TextBlock<'a>>)
        ensures
            match first_nonempty(child_nodes(self.dparsed().root_node().kids(), SyntaxKind::EXTENDED_SUMMARY)) {
                Some(n) => r matches Some(t) && t.bnode() == n && t.bparsed() == self.dparsed(),
                None => r is None,
            },
    {
        find_text_block(self.parsed, self.parsed.root(), SyntaxKind::EXTENDED_SUMMARY)
    }

    /// Document-level directives (e.g. `.. deprecated:: 1.0`), in order.
    pub fn directives(&self) -> (r: Vec<Directive<'a>>)
        ensures
            r@.len() == child_nodes(self.dparsed().root_node().kids(), SyntaxKind::DIRECTIVE).len(),
            forall|k: int|
                0 <= k < r@.len() ==> (#[trigger] r@[k]).vnode() == child_nodes(
                    self.dparsed().root_node().kids(),
                    SyntaxKind::DIRECTIVE,
                )[k] && r@[k].vparsed() == self.dparsed(),
    {
        Directive::wrap_all(self.parsed, self.parsed.root().nodes(SyntaxKind::DIRECTIVE))
    }

    /// All sections, in source order.
    pub fn sections(&self) -> (r: Vec<Section<'a>>)
        ensures
            r@.len() == child_nodes(self.dparsed().root_node().kids(), SyntaxKind::SECTION).len(),
            forall|k: int|
                0 <= k < r@.len() ==> (#[trigger] r@[k]).vnode() == child_nodes(
                    self.dparsed().root_node().kids(),
                    SyntaxKind::SECTION,
                )[k] && r@[k].vparsed() == self.dparsed(),
    {
        Section::wrap_all(self.parsed, self.parsed.root().nodes(SyntaxKind::SECTION))
    }

    /// Stray-prose paragraph blocks between sections, in source order.
    pub fn paragraphs(&self) -> (r: Vec<TextBlock<'a>>)
        ensures
            r@.len() == child_nodes(self.dparsed().root_node().kids(), SyntaxKind::PARAGRAPH).len(),
            forall|k: int|
                0 <= k < r@.len() ==> (#[trigger] r@[k]).bnode() == child_nodes(
                    self.dparsed().root_node().kids(),
                    SyntaxKind::PARAGRAPH,
                )[k],
    {
        paragraph_blocks(self.parsed, self.parsed.root())
    }
}

/// The `PARAGRAPH` children of `node` as text blocks.
pub fn paragraph_blocks<'a>(parsed: &'a Parsed, node: &'a SyntaxNode) -> (r: Vec<TextBlock<'a>>)
    ensures
        r@.len() == child_nodes(node.kids(), SyntaxKind::PARAGRAPH).len(),
        forall|k: int|
            0 <= k < r@.len() ==> (#[trigger] r@[k]).bnode() == child_nodes(node.kids(), SyntaxKind::PARAGRAPH)[k],
{
    let ns = node.nodes(SyntaxKind::PARAGRAPH);
    proof {
        crate::syntax::lemma_child_nodes_kind(node.kids(), SyntaxKind::PARAGRAPH);
    }
    let mut out: Vec<TextBlock<'a>> = Vec::new();
    let mut i: usize = 0;
    while i < ns.len()
        invariant
            i <= ns@.len(),
            out@.len() == i,
            ns@.len() == child_nodes(node.kids(), SyntaxKind::PARAGRAPH).len(),
            forall|k: int| 0 <= k < ns@.len() ==> *#[trigger] ns@[k] == child_nodes(node.kids(), SyntaxKind::PARAGRAPH)[k],
            forall|k: int|
                0 <= k < ns@.len() ==> (#[trigger] child_nodes(node.kids(), SyntaxKind::PARAGRAPH)[k]).nkind()
                    == SyntaxKind::PARAGRAPH,
            forall|k: int| 0 <= k < i ==> (#[trigger] out@[k]).bnode() == *ns@[k],
        decreases ns@.len() - i,
    {
        let n = ns[i];
        proof {
            assert(n.nkind() == SyntaxKind::PARAGRAPH);
        }
        match TextBlock::cast(parsed, n) {
            Some(t) => out.push(t),
            None => {},
        }
        i = i + 1;
    }
    out
}

// =============================================================================
// Section
// =============================================================================

/// The section has a header whose name it is required to have.
pub open spec fn has_header_name(node: SyntaxNode) -> bool {
    child_nodes(node.kids(), SyntaxKind::SECTION_HEADER).len() > 0 && any_tokens(
        child_nodes(node.kids(), SyntaxKind::SECTION_HEADER)[0].kids(),
        SyntaxKind::NAME,
    ).len() > 0
}

/// The header name token of a section.
pub open spec fn header_name_tok(node: SyntaxNode) -> crate::syntax::SyntaxToken {
    any_tokens(child_nodes(node.kids(), SyntaxKind::SECTION_HEADER)[0].kids(), SyntaxKind::NAME)[0]
}

/// Style-independent view of a `SECTION` node.
#[derive(Debug, Clone, Copy)]
pub struct Section<'a> {
    pub(crate) parsed: &'a Parsed,
    pub(crate) node: &'a SyntaxNode,
}

impl<'a> Section<'a> {
    /// The wrapped node.
    pub closed spec fn vnode(&self) -> SyntaxNode {
        *self.node
    }

    /// The parse result.
    pub closed spec fn vparsed(&self) -> Parsed {
        *self.parsed
    }

    /// Wrap a node of the right kind.
    pub fn cast(parsed: &'a Parsed, node: &'a SyntaxNode) -> (r: Option<Self>)
        ensures
            r is Some <==> node.nkind() == SyntaxKind::SECTION,
            r matches Some(v) ==> v.vnode() == *node && v.vparsed() == *parsed,
    {
        if node.kind() == SyntaxKind::SECTION {
            Some(Section { parsed, node })
        } else {
            None
        }
    }

    /// Access the underlying `SyntaxNode`.
    pub fn syntax(&self) -> (r: &'a SyntaxNode)
        ensures
            *r == self.vnode(),
    {
        self.node
    }

    /// Wrap every node of a list.
    pub fn wrap_all(parsed: &'a Parsed, ns: Vec<&'a SyntaxNode>) -> (r: Vec<Self>)
        ensures
            r@.len() == ns@.len(),
            forall|k: int| 0 <= k < r@.len() ==> (#[trigger] r@[k]).vnode() == *ns@[k] && r@[k].vparsed() == *parsed,
    {
        let mut out: Vec<Self> = Vec::new();
        let mut i: usize = 0;
        while i < ns.len()
            invariant
                i <= ns@.len(),
                out@.len() == i,
                forall|k: int| 0 <= k < i ==> (#[trigger] out@[k]).vnode() == *ns@[k] && out@[k].vparsed() == *parsed,
            decreases ns@.len() - i,
        {
            out.push(Section { parsed, node: ns[i] });
            i = i + 1;
        }
        out
    }

    /// The source range of this node.
    pub fn range(&self) -> (r: TextRange)
        ensures
            r == self.vnode().nrange(),
    {
        self.node.range()
    }

    /// The header name text (e.g. `"Args"`, `"Parameters"`).
    pub fn header_name(&self) -> (r: &'a str)
        requires
            has_header_name(self.vnode()),
        ensures
            r.spec_bytes() == range_bytes(header_name_tok(self.vnode()).trange(), self.vparsed().src_bytes()),
    {
        match self.node.find_node(SyntaxKind::SECTION_HEADER) {
            Some(h) => h.required_token(SyntaxKind::NAME).text(self.parsed.source()),
            None => unreached(),
        }
    }

    /// The style-independent kind of this section, resolved from the header
    /// name via the source style's section-name table.
    pub fn kind(&self) -> (r: SectionKind)
        requires
            has_header_name(self.vnode()),
        ensures
            ({
                let name = range_bytes(header_name_tok(self.vnode()).trange(), self.vparsed().src_bytes());
                let k = match self.vparsed().style_of() {
                    Style::Google => google_name_kind(lower_seq(name)),
                    Style::NumPy => numpy_name_kind(lower_seq(name)),
                    Style::Plain => SectionName::Unknown,
                };
                (k != SectionName::Unknown ==> r == model_kind(k)) && (k == SectionName::Unknown ==> (
                r matches SectionKind::FreeText(FreeSectionKind::Unknown(s)) && vstd::utf8::encode_utf8(s@) == name))
            }),
    {
        let name = self.header_name();
        let b = name.as_bytes();
        let lower = ascii_lower(b, 0, b.len());
        proof {
            assert(b@.subrange(0, b@.len() as int) =~= b@);
        }
        match self.parsed.style() {
            Style::Google => SectionName::from_google_name_bytes(lower.as_slice()).to_section_kind(name),
            Style::NumPy => SectionName::from_numpy_name_bytes(lower.as_slice()).to_section_kind(name),
            Style::Plain => SectionKind::FreeText(FreeSectionKind::Unknown(name.to_owned())),
        }
    }

    /// The section's `ENTRY` nodes, in source order.
    pub fn entries(&self) -> (r: Vec<Entry<'a>>)
        ensures
            r@.len() == child_nodes(self.vnode().kids(), SyntaxKind::ENTRY).len(),
            forall|k: int|
                0 <= k < r@.len() ==> (#[trigger] r@[k]).vnode() == child_nodes(self.vnode().kids(), SyntaxKind::ENTRY)[k]
                    && r@[k].vparsed() == self.vparsed(),
    {
        Entry::wrap_all(self.parsed, self.node.nodes(SyntaxKind::ENTRY))
    }

    /// Free-text body block, if present.
    pub fn body(&self) -> (r: Option<TextBlock<'a>>)
        ensures
            match first_nonempty(child_nodes(self.vnode().kids(), SyntaxKind::DESCRIPTION)) {
                Some(n) => r matches Some(t) && t.bnode() == n && t.bparsed() == self.vparsed(),
                None => r is None,
            },
    {
        find_text_block(self.parsed, self.node, SyntaxKind::DESCRIPTION)
    }

    /// The section's `CITATION` nodes (References sections).
    pub fn citations(&self) -> (r: Vec<Citation<'a>>)
        ensures
            r@.len() == child_nodes(self.vnode().kids(), SyntaxKind::CITATION).len(),
            forall|k: int|
                0 <= k < r@.len() ==> (#[trigger] r@[k]).vnode() == child_nodes(self.vnode().kids(), SyntaxKind::CITATION)[k]
                    && r@[k].vparsed() == self.vparsed(),
    {
        Citation::wrap_all(self.parsed, self.node.nodes(SyntaxKind::CITATION))
    }
}

// =============================================================================
// Entry
// =============================================================================

/// Style-independent view of an `ENTRY` node (a parameter, return, yield,
/// exception, warning, attribute, method, or "See Also" item).
#[derive(Debug, Clone, Copy)]
pub struct Entry<'a> {
    pub(crate) parsed: &'a Parsed,
    pub(crate) node: &'a SyntaxNode,
}

impl<'a> Entry<'a> {
    /// The wrapped node.
    pub closed spec fn vnode(&self) -> SyntaxNode {
        *self.node
    }

    /// The parse result.
    pub closed spec fn vparsed(&self) -> Parsed {
        *self.parsed
    }

    /// Wrap a node of the right kind.
    pub fn cast(parsed: &'a Parsed, node: &'a SyntaxNode) -> (r: Option<Self>)
        ensures
            r is Some <==> node.nkind() == SyntaxKind::ENTRY,
            r matches Some(v) ==> v.vnode() == *node && v.vparsed() == *parsed,
    {
        if node.kind() == SyntaxKind::ENTRY {
            Some(Entry { parsed, node })
        } else {
            None
        }
    }

    /// Access the underlying `SyntaxNode`.
    pub fn syntax(&self) -> (r: &'a SyntaxNode)
        ensures
            *r == self.vnode(),
    {
        self.node
    }

    /// Wrap every node of a list.
    pub fn wrap_all(parsed: &'a Parsed, ns: Vec<&'a SyntaxNode>) -> (r: Vec<Self>)
        ensures
            r@.len() == ns@.len(),
            forall|k: int| 0 <= k < r@.len() ==> (#[trigger] r@[k]).vnode() == *ns@[k] && r@[k].vparsed() == *parsed,
    {
        let mut out: Vec<Self> = Vec::new();
        let mut i: usize = 0;
        while i < ns.len()
            invariant
                i <= ns@.len(),
                out@.len() == i,
                forall|k: int| 0 <= k < i ==> (#[trigger] out@[k]).vnode() == *ns@[k] && out@[k].vparsed() == *parsed,
            decreases ns@.len() - i,
        {
            out.push(Entry { parsed, node: ns[i] });
            i = i + 1;
        }
        out
    }

    /// The source range of this node.
    pub fn range(&self) -> (r: TextRange)
        ensures
            r == self.vnode().nrange(),
    {
        self.node.range()
    }

    /// All `NAME` tokens (an entry may declare several names).
    pub fn names(&self) -> (r: Vec<TokenRef<'a>>)
        ensures
            r@.len() == present_tokens(self.vnode().kids(), SyntaxKind::NAME).len(),
            forall|k: int|
                0 <= k < r@.len() ==> (#[trigger] r@[k]).tref() == present_tokens(
                    self.vnode().kids(),
                    SyntaxKind::NAME,
                )[k] && r@[k].pref() == self.vparsed(),
    {
        token_refs(self.parsed, self.node, SyntaxKind::NAME)
    }

    /// The first `NAME` token, if any.
    pub fn name(&self) -> (r: Option<TokenRef<'a>>)
        ensures
            ref_tok(r) == first_tok(present_tokens(self.vnode().kids(), SyntaxKind::NAME)),
            r matches Some(t) ==> t.pref() == self.vparsed(),
    {
        find_token_ref(self.parsed, self.node, SyntaxKind::NAME)
    }

    /// The `TYPE` annotation token, if present.
    pub fn type_annotation(&self) -> (r: Option<TokenRef<'a>>)
        ensures
            ref_tok(r) == first_tok(present_tokens(self.vnode().kids(), SyntaxKind::TYPE)),
            r matches Some(t) ==> t.pref() == self.vparsed(),
    {
        find_token_ref(self.parsed, self.node, SyntaxKind::TYPE)
    }

    /// Description text block, if present.
    pub fn description(&self) -> (r: Option<TextBlock<'a>>)
        ensures
            match first_nonempty(child_nodes(self.vnode().kids(), SyntaxKind::DESCRIPTION)) {
                Some(n) => r matches Some(t) && t.bnode() == n && t.bparsed() == self.vparsed(),
                None => r is None,
            },
    {
        find_text_block(self.parsed, self.node, SyntaxKind::DESCRIPTION)
    }

    /// Whether the entry carries at least one `optional` marker.
    pub fn is_optional(&self) -> (r: bool)
        ensures
            r == (present_tokens(self.vnode().kids(), SyntaxKind::OPTIONAL).len() > 0),
    {
        find_token_ref(self.parsed, self.node, SyntaxKind::OPTIONAL).is_some()
    }

    /// All `optional` marker tokens, one per occurrence.
    pub fn optionals(&self) -> (r: Vec<TokenRef<'a>>)
        ensures
            r@.len() == present_tokens(self.vnode().kids(), SyntaxKind::OPTIONAL).len(),
            forall|k: int|
                0 <= k < r@.len() ==> (#[trigger] r@[k]).tref() == present_tokens(
                    self.vnode().kids(),
                    SyntaxKind::OPTIONAL,
                )[k] && r@[k].pref() == self.vparsed(),
    {
        token_refs(self.parsed, self.node, SyntaxKind::OPTIONAL)
    }

    /// All `default …` markers, one per occurrence, in source order.
    pub fn defaults(&self) -> (r: Vec<crate::parse::unified::DefaultMarker<'a>>)
        ensures
            r@.len() == child_nodes(self.vnode().kids(), SyntaxKind::DEFAULT).len(),
            forall|k: int|
                0 <= k < r@.len() ==> (#[trigger] r@[k]).vnode() == child_nodes(self.vnode().kids(), SyntaxKind::DEFAULT)[k],
    {
        crate::parse::unified::DefaultMarker::wrap_all(self.parsed, self.node.nodes(SyntaxKind::DEFAULT))
    }

    /// The first `default …` marker's value token, if present (first
    /// occurrence wins).
    pub fn default_value(&self) -> (r: Option<TokenRef<'a>>)
        ensures
            child_nodes(self.vnode().kids(), SyntaxKind::DEFAULT).len() == 0 ==> r is None,
            child_nodes(self.vnode().kids(), SyntaxKind::DEFAULT).len() > 0 ==> ref_tok(r) == first_tok(
                present_tokens(child_nodes(self.vnode().kids(), SyntaxKind::DEFAULT)[0].kids(), SyntaxKind::DEFAULT_VALUE),
            ),
    {
        match self.node.find_node(SyntaxKind::DEFAULT) {
            Some(d) => find_token_ref(self.parsed, d, SyntaxKind::DEFAULT_VALUE),
            None => None,
        }
    }
}

// =============================================================================
// DefaultMarker
// =============================================================================

/// Typed view of one `DEFAULT` marker node (`default X` / `default=X` /
/// `default: X`).
#[derive(Debug, Clone, Copy)]
pub struct DefaultMarker<'a> {
    pub(crate) parsed: &'a Parsed,
    pub(crate) node: &'a SyntaxNode,
}

impl<'a> DefaultMarker<'a> {
    /// The wrapped node.
    pub closed spec fn vnode(&self) -> SyntaxNode {
        *self.node
    }

    /// The parse result.
    pub closed spec fn vparsed(&self) -> Parsed {
        *self.parsed
    }

    /// Wrap a node of the right kind.
    pub fn cast(parsed: &'a Parsed, node: &'a SyntaxNode) -> (r: Option<Self>)
        ensures
            r is Some <==> node.nkind() == SyntaxKind::DEFAULT,
            r matches Some(v) ==> v.vnode() == *node && v.vparsed() == *parsed,
    {
        if node.kind() == SyntaxKind::DEFAULT {
            Some(DefaultMarker { parsed, node })
        } else {
            None
        }
    }

    /// Access the underlying `SyntaxNode`.
    pub fn syntax(&self) -> (r: &'a SyntaxNode)
        ensures
            *r == self.vnode(),
    {
        self.node
    }

    /// Wrap every node of a list.
    pub fn wrap_all(parsed: &'a Parsed, ns: Vec<&'a SyntaxNode>) -> (r: Vec<Self>)
        ensures
            r@.len() == ns@.len(),
            forall|k: int| 0 <= k < r@.len() ==> (#[trigger] r@[k]).vnode() == *ns@[k] && r@[k].vparsed() == *parsed,
    {
        let mut out: Vec<Self> = Vec::new();
        let mut i: usize = 0;
        while i < ns.len()
            invariant
                i <= ns@.len(),
                out@.len() == i,
                forall|k: int| 0 <= k < i ==> (#[trigger] out@[k]).vnode() == *ns@[k] && out@[k].vparsed() == *parsed,
            decreases ns@.len() - i,
        {
            out.push(DefaultMarker { parsed, node: ns[i] });
            i = i + 1;
        }
        out
    }

    /// The source range of this node.
    pub fn range(&self) -> (r: TextRange)
        ensures
            r == self.vnode().nrange(),
    {
        self.node.range()
    }

    /// The `default` keyword token.
    pub fn keyword(&self) -> (r: TokenRef<'a>)
        requires
            any_tokens(self.vnode().kids(), SyntaxKind::DEFAULT_KEYWORD).len() > 0,
        ensures
            r.tref() == any_tokens(self.vnode().kids(), SyntaxKind::DEFAULT_KEYWORD)[0],
            r.pref() == self.vparsed(),
    {
        required_token_ref(self.parsed, self.node, SyntaxKind::DEFAULT_KEYWORD)
    }

    /// The `=` / `:` separator token, if present.
    pub fn separator(&self) -> (r: Option<TokenRef<'a>>)
        ensures
            ref_tok(r) == first_tok(present_tokens(self.vnode().kids(), SyntaxKind::DEFAULT_SEPARATOR)),
            r matches Some(t) ==> t.pref() == self.vparsed(),
    {
        find_token_ref(self.parsed, self.node, SyntaxKind::DEFAULT_SEPARATOR)
    }

    /// The value token, if present (zero-length placeholders excluded).
    pub fn value(&self) -> (r: Option<TokenRef<'a>>)
        ensures
            ref_tok(r) == first_tok(present_tokens(self.vnode().kids(), SyntaxKind::DEFAULT_VALUE)),
            r matches Some(t) ==> t.pref() == self.vparsed(),
    {
        find_token_ref(self.parsed, self.node, SyntaxKind::DEFAULT_VALUE)
    }
}

// =============================================================================
// Directive
// =============================================================================

/// Style-independent view of a `DIRECTIVE` node (e.g. `.. deprecated:: 1.6.0`).
#[derive(Debug, Clone, Copy)]
pub struct Directive<'a> {
    pub(crate) parsed: &'a Parsed,
    pub(crate) node: &'a SyntaxNode,
}

impl<'a> Directive<'a> {
    /// The wrapped node.
    pub closed spec fn vnode(&self) -> SyntaxNode {
        *self.node
    }

    /// The parse result.
    pub closed spec fn vparsed(&self) -> Parsed {
        *self.parsed
    }

    /// Wrap a node of the right kind.
    pub fn cast(parsed: &'a Parsed, node: &'a SyntaxNode) -> (r: Option<Self>)
        ensures
            r is Some <==> node.nkind() == SyntaxKind::DIRECTIVE,
            r matches Some(v) ==> v.vnode() == *node && v.vparsed() == *parsed,
    {
        if node.kind() == SyntaxKind::DIRECTIVE {
            Some(Directive { parsed, node })
        } else {
            None
        }
    }

    /// Access the underlying `SyntaxNode`.
    pub fn syntax(&self) -> (r: &'a SyntaxNode)
        ensures
            *r == self.vnode(),
    {
        self.node
    }

    /// Wrap every node of a list.
    pub fn wrap_all(parsed: &'a Parsed, ns: Vec<&'a SyntaxNode>) -> (r: Vec<Self>)
        ensures
            r@.len() == ns@.len(),
            forall|k: int| 0 <= k < r@.len() ==> (#[trigger] r@[k]).vnode() == *ns@[k] && r@[k].vparsed() == *parsed,
    {
        let mut out: Vec<Self> = Vec::new();
        let mut i: usize = 0;
        while i < ns.len()
            invariant
                i <= ns@.len(),
                out@.len() == i,
                forall|k: int| 0 <= k < i ==> (#[trigger] out@[k]).vnode() == *ns@[k] && out@[k].vparsed() == *parsed,
            decreases ns@.len() - i,
        {
            out.push(Directive { parsed, node: ns[i] });
            i = i + 1;
        }
        out
    }

    /// The source range of this node.
    pub fn range(&self) -> (r: TextRange)
        ensures
            r == self.vnode().nrange(),
    {
        self.node.range()
    }

    /// The directive name token (e.g. `deprecated`).
    pub fn name(&self) -> (r: TokenRef<'a>)
        requires
            any_tokens(self.vnode().kids(), SyntaxKind::DIRECTIVE_NAME).len() > 0,
        ensures
            r.tref() == any_tokens(self.vnode().kids(), SyntaxKind::DIRECTIVE_NAME)[0],
            r.pref() == self.vparsed(),
    {
        required_token_ref(self.parsed, self.node, SyntaxKind::DIRECTIVE_NAME)
    }

    /// The directive argument token, if present.
    pub fn argument(&self) -> (r: Option<TokenRef<'a>>)
        ensures
            ref_tok(r) == first_tok(present_tokens(self.vnode().kids(), SyntaxKind::ARGUMENT)),
            r matches Some(t) ==> t.pref() == self.vparsed(),
    {
        find_token_ref(self.parsed, self.node, SyntaxKind::ARGUMENT)
    }

    /// The directive body block, if present.
    pub fn description(&self) -> (r: Option<TextBlock<'a>>)
        ensures
            match first_nonempty(child_nodes(self.vnode().kids(), SyntaxKind::DESCRIPTION)) {
                Some(n) => r matches Some(t) && t.bnode() == n && t.bparsed() == self.vparsed(),
                None => r is None,
            },
    {
        find_text_block(self.parsed, self.node, SyntaxKind::DESCRIPTION)
    }
}

// =============================================================================
// Citation
// =============================================================================

/// Style-independent view of a `CITATION` node (`.. [label] content`, or
/// a plain reference line).
#[derive(Debug, Clone, Copy)]
pub struct Citation<'a> {
    pub(crate) parsed: &'a Parsed,
    pub(crate) node: &'a SyntaxNode,
}

impl<'a> Citation<'a> {
    /// The wrapped node.
    pub closed spec fn vnode(&self) -> SyntaxNode {
        *self.node
    }

    /// The parse result.
    pub closed spec fn vparsed(&self) -> Parsed {
        *self.parsed
    }

    /// Wrap a node of the right kind.
    pub fn cast(parsed: &'a Parsed, node: &'a SyntaxNode) -> (r: Option<Self>)
        ensures
            r is Some <==> node.nkind() == SyntaxKind::CITATION,
            r matches Some(v) ==> v.vnode() == *node && v.vparsed() == *parsed,
    {
        if node.kind() == SyntaxKind::CITATION {
            Some(Citation { parsed, node })
        } else {
            None
        }
    }

    /// Access the underlying `SyntaxNode`.
    pub fn syntax(&self) -> (r: &'a SyntaxNode)
        ensures
            *r == self.vnode(),
    {
        self.node
    }

    /// Wrap every node of a list.
    pub fn wrap_all(parsed: &'a Parsed, ns: Vec<&'a SyntaxNode>) -> (r: Vec<Self>)
        ensures
            r@.len() == ns@.len(),
            forall|k: int| 0 <= k < r@.len() ==> (#[trigger] r@[k]).vnode() == *ns@[k] && r@[k].vparsed() == *parsed,
    {
        let mut out: Vec<Self> = Vec::new();
        let mut i: usize = 0;
        while i < ns.len()
            invariant
                i <= ns@.len(),
                out@.len() == i,
                forall|k: int| 0 <= k < i ==> (#[trigger] out@[k]).vnode() == *ns@[k] && out@[k].vparsed() == *parsed,
            decreases ns@.len() - i,
        {
            out.push(Citation { parsed, node: ns[i] });
            i = i + 1;
        }
        out
    }

    /// The source range of this node.
    pub fn range(&self) -> (r: TextRange)
        ensures
            r == self.vnode().nrange(),
    {
        self.node.range()
    }

    /// The citation label token, if present.
    pub fn label(&self) -> (r: Option<TokenRef<'a>>)
        ensures
            ref_tok(r) == first_tok(present_tokens(self.vnode().kids(), SyntaxKind::LABEL)),
            r matches Some(t) ==> t.pref() == self.vparsed(),
    {
        find_token_ref(self.parsed, self.node, SyntaxKind::LABEL)
    }

    /// The citation content block, if present.
    pub fn description(&self) -> (r: Option<TextBlock<'a>>)
        ensures
            match first_nonempty(child_nodes(self.vnode().kids(), SyntaxKind::DESCRIPTION)) {
                Some(n) => r matches Some(t) && t.bnode() == n && t.bparsed() == self.vparsed(),
                None => r is None,
            },
    {
        find_text_block(self.parsed, self.node, SyntaxKind::DESCRIPTION)
    }
}

} // verus!
