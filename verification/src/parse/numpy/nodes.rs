//! Typed wrappers for NumPy-style syntax nodes: each pairs a node with the
//! [`Parsed`] result it came from and gives typed access to its children.

use vstd::prelude::*;
use vstd::string::StringSliceAdditionalSpecFns;

use crate::parse::text_block::find_text_block;
use crate::parse::text_block::first_nonempty;
use crate::parse::text_block::TextBlock;
use crate::parse::token_ref::find_token_ref;
use crate::parse::token_ref::first_tok;
use crate::parse::token_ref::ref_tok;
use crate::parse::token_ref::required_token_ref;
use crate::parse::token_ref::token_refs;
use crate::parse::token_ref::TokenRef;
use crate::syntax::any_tokens;
use crate::syntax::child_nodes;
use crate::syntax::present_tokens;
use crate::syntax::Parsed;
use crate::syntax::SyntaxKind;
use crate::syntax::SyntaxNode;
use crate::parse::kind::EntryRole;
use crate::parse::numpy::kind::numpy_kind_of;
use crate::parse::numpy::kind::numpy_kind_of_role;
use crate::parse::numpy::kind::NumPySectionKind;
use crate::parse::unified::has_header_name;
use crate::parse::unified::header_name_tok;
use crate::parse::unified::paragraph_blocks;
use crate::parse::utils::directive_is_deprecated;
use crate::parse::utils::is_deprecation_node;
use crate::strs::ascii_lower;
use crate::strs::lower_seq;
use crate::text::range_bytes;

verus! {

/// The kind a section's header name reads as.
pub open spec fn numpy_section_kind(node: SyntaxNode, p: Parsed) -> NumPySectionKind {
    numpy_kind_of(lower_seq(range_bytes(header_name_tok(node).trange(), p.src_bytes())))
}

/// The first node of `ns` that is a deprecation directive.
pub open spec fn first_deprecation(ns: Seq<SyntaxNode>, p: Parsed) -> Option<SyntaxNode>
    decreases ns.len(),
{
    if ns.len() == 0 {
        None
    } else if is_deprecation_node(ns[0], p) {
        Some(ns[0])
    } else {
        first_deprecation(ns.drop_first(), p)
    }
}

/// Typed view of a NumPy-style docstring root.
#[derive(Debug, Clone, Copy)]
pub struct NumPyDocstring<'a> {
    parsed: &'a Parsed,
    node: &'a SyntaxNode,
}

impl<'a> NumPyDocstring<'a> {
    /// The wrapped node.
    pub closed spec fn vnode(&self) -> SyntaxNode {
        *self.node
    }

    /// The parse result.
    pub closed spec fn vparsed(&self) -> Parsed {
        *self.parsed
    }

    /// Wrap a node of the right kind.
    pub fn cast(parsed: &'a Parsed, node: &'a SyntaxNode) -> (r: Option<Self>)
        ensures
            r is Some <==> node.nkind() == SyntaxKind::DOCUMENT,
            r matches Some(v) ==> v.vnode() == *node && v.vparsed() == *parsed,
    {
        if node.kind() == SyntaxKind::DOCUMENT {
            Some(NumPyDocstring { parsed, node })
        } else {
            None
        }
    }

    /// Access the underlying `SyntaxNode`.
    pub fn syntax(&self) -> (r: &'a SyntaxNode)
        ensures
            *r == self.vnode(),
    {
        self.node
    }

    /// Wrap every node of a list.
    pub fn wrap_all(parsed: &'a Parsed, ns: Vec<&'a SyntaxNode>) -> (r: Vec<Self>)
        ensures
            r@.len() == ns@.len(),
            forall|k: int| 0 <= k < r@.len() ==> (#[trigger] r@[k]).vnode() == *ns@[k] && r@[k].vparsed() == *parsed,
    {
        let mut out: Vec<Self> = Vec::new();
        let mut i: usize = 0;
        while i < ns.len()
            invariant
                i <= ns@.len(),
                out@.len() == i,
                forall|k: int| 0 <= k < i ==> (#[trigger] out@[k]).vnode() == *ns@[k] && out@[k].vparsed() == *parsed,
            decreases ns@.len() - i,
        {
            out.push(NumPyDocstring { parsed, node: ns[i] });
            i = i + 1;
        }
        out
    }

    /// Brief summary block, if present.
    pub fn summary(&self) -> (r: Option<TextBlock<'a>>)
        ensures
            match first_nonempty(child_nodes(self.vnode().kids(), SyntaxKind::SUMMARY)) {
                Some(n) => r matches Some(t) && t.bnode() == n && t.bparsed() == self.vparsed(),
                None => r is None,
            },
    {
        find_text_block(self.parsed, self.node, SyntaxKind::SUMMARY)
    }

    /// Extended summary block, if present.
    pub fn extended_summary(&self) -> (r: Option<TextBlock<'a>>)
        ensures
            match first_nonempty(child_nodes(self.vnode().kids(), SyntaxKind::EXTENDED_SUMMARY)) {
                Some(n) => r matches Some(t) && t.bnode() == n && t.bparsed() == self.vparsed(),
                None => r is None,
            },
    {
        find_text_block(self.parsed, self.node, SyntaxKind::EXTENDED_SUMMARY)
    }

    /// The deprecation directive, if present: the first `DIRECTIVE` named
    /// `deprecated`.
    pub fn deprecation(&self) -> (r: Option<NumPyDeprecation<'a>>)
        ensures
            match first_deprecation(child_nodes(self.vnode().kids(), SyntaxKind::DIRECTIVE), self.vparsed()) {
                Some(n) => r matches Some(d) && d.vnode() == n && d.vparsed() == self.vparsed(),
                None => r is None,
            },
    {
        let ns = self.node.nodes(SyntaxKind::DIRECTIVE);
        let ghost cn = child_nodes(self.vnode().kids(), SyntaxKind::DIRECTIVE);
        proof {
            assert(cn.subrange(0, cn.len() as int) =~= cn);
        }
        let mut i: usize = 0;
        while i < ns.len()
            invariant
                i <= ns@.len(),
                ns@.len() == cn.len(),
                cn == child_nodes(self.vnode().kids(), SyntaxKind::DIRECTIVE),
                forall|k: int| 0 <= k < ns@.len() ==> *#[trigger] ns@[k] == cn[k],
                first_deprecation(cn, self.vparsed()) == first_deprecation(
                    cn.subrange(i as int, cn.len() as int),
                    self.vparsed(),
                ),
            decreases ns@.len() - i,
        {
            let n = ns[i];
            proof {
                let rest = cn.subrange(i as int, cn.len() as int);
                assert(rest[0] == cn[i as int]);
                assert(rest.drop_first() =~= cn.subrange(i + 1, cn.len() as int));
            }
            if directive_is_deprecated(self.parsed, n) {
                return Some(NumPyDeprecation { parsed: self.parsed, node: n });
            }
            i = i + 1;
        }
        proof {
            assert(cn.subrange(i as int, cn.len() as int).len() == 0);
        }
        None
    }

    /// All section nodes, in source order.
    pub fn sections(&self) -> (r: Vec<NumPySection<'a>>)
        ensures
            r@.len() == child_nodes(self.vnode().kids(), SyntaxKind::SECTION).len(),
            forall|k: int|
                0 <= k < r@.len() ==> (#[trigger] r@[k]).vnode() == child_nodes(self.vnode().kids(), SyntaxKind::SECTION)[k]
                    && r@[k].vparsed() == self.vparsed(),
    {
        NumPySection::wrap_all(self.parsed, self.node.nodes(SyntaxKind::SECTION))
    }

    /// Stray-prose paragraph blocks between sections, in source order.
    pub fn paragraphs(&self) -> (r: Vec<TextBlock<'a>>)
        ensures
            r@.len() == child_nodes(self.vnode().kids(), SyntaxKind::PARAGRAPH).len(),
    {
        paragraph_blocks(self.parsed, self.node)
    }

    /// The paragraph blocks (stray lines are grouped into `PARAGRAPH`
    /// blocks).
    pub fn stray_lines(&self) -> (r: Vec<TextBlock<'a>>)
        ensures
            r@.len() == child_nodes(self.vnode().kids(), SyntaxKind::PARAGRAPH).len(),
    {
        self.paragraphs()
    }
}
/// Typed view of a deprecation directive.
#[derive(Debug, Clone, Copy)]
pub struct NumPyDeprecation<'a> {
    parsed: &'a Parsed,
    node: &'a SyntaxNode,
}

impl<'a> NumPyDeprecation<'a> {
    /// The wrapped node.
    pub closed spec fn vnode(&self) -> SyntaxNode {
        *self.node
    }

    /// The parse result.
    pub closed spec fn vparsed(&self) -> Parsed {
        *self.parsed
    }

    /// Wrap a node of the right kind.
    pub fn cast(parsed: &'a Parsed, node: &'a SyntaxNode) -> (r: Option<Self>)
        ensures
            r is Some <==> node.nkind() == SyntaxKind::DIRECTIVE,
            r matches Some(v) ==> v.vnode() == *node && v.vparsed() == *parsed,
    {
        if node.kind() == SyntaxKind::DIRECTIVE {
            Some(NumPyDeprecation { parsed, node })
        } else {
            None
        }
    }

    /// Access the underlying `SyntaxNode`.
    pub fn syntax(&self) -> (r: &'a SyntaxNode)
        ensures
            *r == self.vnode(),
    {
        self.node
    }

    /// Wrap every node of a list.
    pub fn wrap_all(parsed: &'a Parsed, ns: Vec<&'a SyntaxNode>) -> (r: Vec<Self>)
        ensures
            r@.len() == ns@.len(),
            forall|k: int| 0 <= k < r@.len() ==> (#[trigger] r@[k]).vnode() == *ns@[k] && r@[k].vparsed() == *parsed,
    {
        let mut out: Vec<Self> = Vec::new();
        let mut i: usize = 0;
        while i < ns.len()
            invariant
                i <= ns@.len(),
                out@.len() == i,
                forall|k: int| 0 <= k < i ==> (#[trigger] out@[k]).vnode() == *ns@[k] && out@[k].vparsed() == *parsed,
            decreases ns@.len() - i,
        {
            out.push(NumPyDeprecation { parsed, node: ns[i] });
            i = i + 1;
        }
        out
    }

    /// The `..` directive marker.
    pub fn directive_marker(&self) -> (r: Option<TokenRef<'a>>)
        ensures
            ref_tok(r) == first_tok(present_tokens(self.vnode().kids(), SyntaxKind::DIRECTIVE_MARKER)),
            r matches Some(t) ==> t.pref() == self.vparsed(),
    {
        find_token_ref(self.parsed, self.node, SyntaxKind::DIRECTIVE_MARKER)
    }

    /// The `deprecated` directive name.
    pub fn keyword(&self) -> (r: Option<TokenRef<'a>>)
        ensures
            ref_tok(r) == first_tok(present_tokens(self.vnode().kids(), SyntaxKind::DIRECTIVE_NAME)),
            r matches Some(t) ==> t.pref() == self.vparsed(),
    {
        find_token_ref(self.parsed, self.node, SyntaxKind::DIRECTIVE_NAME)
    }

    /// The `::` separator.
    pub fn double_colon(&self) -> (r: Option<TokenRef<'a>>)
        ensures
            ref_tok(r) == first_tok(present_tokens(self.vnode().kids(), SyntaxKind::DOUBLE_COLON)),
            r matches Some(t) ==> t.pref() == self.vparsed(),
    {
        find_token_ref(self.parsed, self.node, SyntaxKind::DOUBLE_COLON)
    }

    /// The version deprecated in.
    pub fn version(&self) -> (r: TokenRef<'a>)
        requires
            any_tokens(self.vnode().kids(), SyntaxKind::ARGUMENT).len() > 0,
        ensures
            r.tref() == any_tokens(self.vnode().kids(), SyntaxKind::ARGUMENT)[0],
            r.pref() == self.vparsed(),
    {
        required_token_ref(self.parsed, self.node, SyntaxKind::ARGUMENT)
    }

    /// Description / reason for deprecation.
    pub fn description(&self) -> (r: Option<TextBlock<'a>>)
        ensures
            match first_nonempty(child_nodes(self.vnode().kids(), SyntaxKind::DESCRIPTION)) {
                Some(n) => r matches Some(t) && t.bnode() == n && t.bparsed() == self.vparsed(),
                None => r is None,
            },
    {
        find_text_block(self.parsed, self.node, SyntaxKind::DESCRIPTION)
    }
}
/// Typed view of a NumPy-style section.
#[derive(Debug, Clone, Copy)]
pub struct NumPySection<'a> {
    parsed: &'a Parsed,
    node: &'a SyntaxNode,
}

impl<'a> NumPySection<'a> {
    /// The wrapped node.
    pub closed spec fn vnode(&self) -> SyntaxNode {
        *self.node
    }

    /// The parse result.
    pub closed spec fn vparsed(&self) -> Parsed {
        *self.parsed
    }

    /// Wrap a node of the right kind.
    pub fn cast(parsed: &'a Parsed, node: &'a SyntaxNode) -> (r: Option<Self>)
        ensures
            r is Some <==> node.nkind() == SyntaxKind::SECTION,
            r matches Some(v) ==> v.vnode() == *node && v.vparsed() == *parsed,
    {
        if node.kind() == SyntaxKind::SECTION {
            Some(NumPySection { parsed, node })
        } else {
            None
        }
    }

    /// Access the underlying `SyntaxNode`.
    pub fn syntax(&self) -> (r: &'a SyntaxNode)
        ensures
            *r == self.vnode(),
    {
        self.node
    }

    /// Wrap every node of a list.
    pub fn wrap_all(parsed: &'a Parsed, ns: Vec<&'a SyntaxNode>) -> (r: Vec<Self>)
        ensures
            r@.len() == ns@.len(),
            forall|k: int| 0 <= k < r@.len() ==> (#[trigger] r@[k]).vnode() == *ns@[k] && r@[k].vparsed() == *parsed,
    {
        let mut out: Vec<Self> = Vec::new();
        let mut i: usize = 0;
        while i < ns.len()
            invariant
                i <= ns@.len(),
                out@.len() == i,
                forall|k: int| 0 <= k < i ==> (#[trigger] out@[k]).vnode() == *ns@[k] && out@[k].vparsed() == *parsed,
            decreases ns@.len() - i,
        {
            out.push(NumPySection { parsed, node: ns[i] });
            i = i + 1;
        }
        out
    }

    /// The section header node.
    pub fn header(&self) -> (r: NumPySectionHeader<'a>)
        requires
            child_nodes(self.vnode().kids(), SyntaxKind::SECTION_HEADER).len() > 0,
        ensures
            r.vnode() == child_nodes(self.vnode().kids(), SyntaxKind::SECTION_HEADER)[0],
            r.vparsed() == self.vparsed(),
    {
        match self.node.find_node(SyntaxKind::SECTION_HEADER) {
            Some(h) => NumPySectionHeader { parsed: self.parsed, node: h },
            None => unreached(),
        }
    }

    /// The section kind, from the header name text.
    pub fn section_kind(&self) -> (r: NumPySectionKind)
        requires
            has_header_name(self.vnode()),
        ensures
            r == numpy_section_kind(self.vnode(), self.vparsed()),
    {
        let name = self.header().name().text();
        let b = name.as_bytes();
        let lower = ascii_lower(b, 0, b.len());
        proof {
            assert(b@.subrange(0, b@.len() as int) =~= b@);
        }
        NumPySectionKind::from_name_bytes(lower.as_slice())
    }

    /// The `ENTRY` children when this section's entries have `role`; none
    /// for any other section kind.
    fn entries_with_role(&self, role: EntryRole) -> (r: Vec<&'a SyntaxNode>)
        requires
            has_header_name(self.vnode()),
        ensures
            r@.len() == (if numpy_kind_of_role(numpy_section_kind(self.vnode(), self.vparsed())) == role {
                child_nodes(self.vnode().kids(), SyntaxKind::ENTRY).len()
            } else {
                0
            }),
            forall|k: int| 0 <= k < r@.len() ==> *#[trigger] r@[k] == child_nodes(self.vnode().kids(), SyntaxKind::ENTRY)[k],
    {
        if self.section_kind().entry_role() == role {
            self.node.nodes(SyntaxKind::ENTRY)
        } else {
            Vec::new()
        }
    }

    /// Parameter entries.
    pub fn parameters(&self) -> (r: Vec<NumPyParameter<'a>>)
        requires
            has_header_name(self.vnode()),
        ensures
            r@.len() == (if numpy_kind_of_role(numpy_section_kind(self.vnode(), self.vparsed())) == EntryRole::Parameter {
                child_nodes(self.vnode().kids(), SyntaxKind::ENTRY).len()
            } else {
                0
            }),
            forall|k: int| 0 <= k < r@.len() ==> (#[trigger] r@[k]).vnode() == child_nodes(self.vnode().kids(), SyntaxKind::ENTRY)[k],
    {
        NumPyParameter::wrap_all(self.parsed, self.entries_with_role(EntryRole::Parameter))
    }

    /// Returns entries.
    pub fn returns_entries(&self) -> (r: Vec<NumPyReturns<'a>>)
        requires
            has_header_name(self.vnode()),
        ensures
            r@.len() == (if numpy_kind_of_role(numpy_section_kind(self.vnode(), self.vparsed())) == EntryRole::Return {
                child_nodes(self.vnode().kids(), SyntaxKind::ENTRY).len()
            } else {
                0
            }),
            forall|k: int| 0 <= k < r@.len() ==> (#[trigger] r@[k]).vnode() == child_nodes(self.vnode().kids(), SyntaxKind::ENTRY)[k],
    {
        NumPyReturns::wrap_all(self.parsed, self.entries_with_role(EntryRole::Return))
    }

    /// Yields entries.
    pub fn yields(&self) -> (r: Vec<NumPyYields<'a>>)
        requires
            has_header_name(self.vnode()),
        ensures
            r@.len() == (if numpy_kind_of_role(numpy_section_kind(self.vnode(), self.vparsed())) == EntryRole::Yield {
                child_nodes(self.vnode().kids(), SyntaxKind::ENTRY).len()
            } else {
                0
            }),
            forall|k: int| 0 <= k < r@.len() ==> (#[trigger] r@[k]).vnode() == child_nodes(self.vnode().kids(), SyntaxKind::ENTRY)[k],
    {
        NumPyYields::wrap_all(self.parsed, self.entries_with_role(EntryRole::Yield))
    }

    /// Exception entries (Raises sections).
    pub fn exceptions(&self) -> (r: Vec<NumPyException<'a>>)
        requires
            has_header_name(self.vnode()),
        ensures
            r@.len() == (if numpy_kind_of_role(numpy_section_kind(self.vnode(), self.vparsed())) == EntryRole::Exception {
                child_nodes(self.vnode().kids(), SyntaxKind::ENTRY).len()
            } else {
                0
            }),
            forall|k: int| 0 <= k < r@.len() ==> (#[trigger] r@[k]).vnode() == child_nodes(self.vnode().kids(), SyntaxKind::ENTRY)[k],
    {
        NumPyException::wrap_all(self.parsed, self.entries_with_role(EntryRole::Exception))
    }

    /// Warning entries (Warns sections).
    pub fn warnings(&self) -> (r: Vec<NumPyWarning<'a>>)
        requires
            has_header_name(self.vnode()),
        ensures
            r@.len() == (if numpy_kind_of_role(numpy_section_kind(self.vnode(), self.vparsed())) == EntryRole::Warning {
                child_nodes(self.vnode().kids(), SyntaxKind::ENTRY).len()
            } else {
                0
            }),
            forall|k: int| 0 <= k < r@.len() ==> (#[trigger] r@[k]).vnode() == child_nodes(self.vnode().kids(), SyntaxKind::ENTRY)[k],
    {
        NumPyWarning::wrap_all(self.parsed, self.entries_with_role(EntryRole::Warning))
    }

    /// See Also items.
    pub fn see_also_items(&self) -> (r: Vec<NumPySeeAlsoItem<'a>>)
        requires
            has_header_name(self.vnode()),
        ensures
            r@.len() == (if numpy_kind_of_role(numpy_section_kind(self.vnode(), self.vparsed())) == EntryRole::SeeAlsoItem {
                child_nodes(self.vnode().kids(), SyntaxKind::ENTRY).len()
            } else {
                0
            }),
            forall|k: int| 0 <= k < r@.len() ==> (#[trigger] r@[k]).vnode() == child_nodes(self.vnode().kids(), SyntaxKind::ENTRY)[k],
    {
        NumPySeeAlsoItem::wrap_all(self.parsed, self.entries_with_role(EntryRole::SeeAlsoItem))
    }

    /// Attribute entries.
    pub fn attributes(&self) -> (r: Vec<NumPyAttribute<'a>>)
        requires
            has_header_name(self.vnode()),
        ensures
            r@.len() == (if numpy_kind_of_role(numpy_section_kind(self.vnode(), self.vparsed())) == EntryRole::Attribute {
                child_nodes(self.vnode().kids(), SyntaxKind::ENTRY).len()
            } else {
                0
            }),
            forall|k: int| 0 <= k < r@.len() ==> (#[trigger] r@[k]).vnode() == child_nodes(self.vnode().kids(), SyntaxKind::ENTRY)[k],
    {
        NumPyAttribute::wrap_all(self.parsed, self.entries_with_role(EntryRole::Attribute))
    }

    /// Method entries.
    pub fn methods(&self) -> (r: Vec<NumPyMethod<'a>>)
        requires
            has_header_name(self.vnode()),
        ensures
            r@.len() == (if numpy_kind_of_role(numpy_section_kind(self.vnode(), self.vparsed())) == EntryRole::Method {
                child_nodes(self.vnode().kids(), SyntaxKind::ENTRY).len()
            } else {
                0
            }),
            forall|k: int| 0 <= k < r@.len() ==> (#[trigger] r@[k]).vnode() == child_nodes(self.vnode().kids(), SyntaxKind::ENTRY)[k],
    {
        NumPyMethod::wrap_all(self.parsed, self.entries_with_role(EntryRole::Method))
    }

    /// The reference (citation) nodes.
    pub fn references(&self) -> (r: Vec<NumPyReference<'a>>)
        ensures
            r@.len() == child_nodes(self.vnode().kids(), SyntaxKind::CITATION).len(),
            forall|k: int|
                0 <= k < r@.len() ==> (#[trigger] r@[k]).vnode() == child_nodes(self.vnode().kids(), SyntaxKind::CITATION)[k]
                    && r@[k].vparsed() == self.vparsed(),
    {
        NumPyReference::wrap_all(self.parsed, self.node.nodes(SyntaxKind::CITATION))
    }

    /// Free-text body block, if this is a free-text section.
    pub fn body_text(&self) -> (r: Option<TextBlock<'a>>)
        ensures
            match first_nonempty(child_nodes(self.vnode().kids(), SyntaxKind::DESCRIPTION)) {
                Some(n) => r matches Some(t) && t.bnode() == n && t.bparsed() == self.vparsed(),
                None => r is None,
            },
    {
        find_text_block(self.parsed, self.node, SyntaxKind::DESCRIPTION)
    }
}
/// Typed view of a section header.
#[derive(Debug, Clone, Copy)]
pub struct NumPySectionHeader<'a> {
    parsed: &'a Parsed,
    node: &'a SyntaxNode,
}

impl<'a> NumPySectionHeader<'a> {
    /// The wrapped node.
    pub closed spec fn vnode(&self) -> SyntaxNode {
        *self.node
    }

    /// The parse result.
    pub closed spec fn vparsed(&self) -> Parsed {
        *self.parsed
    }

    /// Wrap a node of the right kind.
    pub fn cast(parsed: &'a Parsed, node: &'a SyntaxNode) -> (r: Option<Self>)
        ensures
            r is Some <==> node.nkind() == SyntaxKind::SECTION_HEADER,
            r matches Some(v) ==> v.vnode() == *node && v.vparsed() == *parsed,
    {
        if node.kind() == SyntaxKind::SECTION_HEADER {
            Some(NumPySectionHeader { parsed, node })
        } else {
            None
        }
    }

    /// Access the underlying `SyntaxNode`.
    pub fn syntax(&self) -> (r: &'a SyntaxNode)
        ensures
            *r == self.vnode(),
    {
        self.node
    }

    /// Wrap every node of a list.
    pub fn wrap_all(parsed: &'a Parsed, ns: Vec<&'a SyntaxNode>) -> (r: Vec<Self>)
        ensures
            r@.len() == ns@.len(),
            forall|k: int| 0 <= k < r@.len() ==> (#[trigger] r@[k]).vnode() == *ns@[k] && r@[k].vparsed() == *parsed,
    {
        let mut out: Vec<Self> = Vec::new();
        let mut i: usize = 0;
        while i < ns.len()
            invariant
                i <= ns@.len(),
                out@.len() == i,
                forall|k: int| 0 <= k < i ==> (#[trigger] out@[k]).vnode() == *ns@[k] && out@[k].vparsed() == *parsed,
            decreases ns@.len() - i,
        {
            out.push(NumPySectionHeader { parsed, node: ns[i] });
            i = i + 1;
        }
        out
    }

    /// The section name token.
    pub fn name(&self) -> (r: TokenRef<'a>)
        requires
            any_tokens(self.vnode().kids(), SyntaxKind::NAME).len() > 0,
        ensures
            r.tref() == any_tokens(self.vnode().kids(), SyntaxKind::NAME)[0],
            r.pref() == self.vparsed(),
    {
        required_token_ref(self.parsed, self.node, SyntaxKind::NAME)
    }

    /// The underline token.
    pub fn underline(&self) -> (r: TokenRef<'a>)
        requires
            any_tokens(self.vnode().kids(), SyntaxKind::UNDERLINE).len() > 0,
        ensures
            r.tref() == any_tokens(self.vnode().kids(), SyntaxKind::UNDERLINE)[0],
            r.pref() == self.vparsed(),
    {
        required_token_ref(self.parsed, self.node, SyntaxKind::UNDERLINE)
    }
}
/// Typed view of a parameter entry.
#[derive(Debug, Clone, Copy)]
pub struct NumPyParameter<'a> {
    parsed: &'a Parsed,
    node: &'a SyntaxNode,
}

impl<'a> NumPyParameter<'a> {
    /// The wrapped node.
    pub closed spec fn vnode(&self) -> SyntaxNode {
        *self.node
    }

    /// The parse result.
    pub closed spec fn vparsed(&self) -> Parsed {
        *self.parsed
    }

    /// Wrap a node of the right kind.
    pub fn cast(parsed: &'a Parsed, node: &'a SyntaxNode) -> (r: Option<Self>)
        ensures
            r is Some <==> node.nkind() == SyntaxKind::ENTRY,
            r matches Some(v) ==> v.vnode() == *node && v.vparsed() == *parsed,
    {
        if node.kind() == SyntaxKind::ENTRY {
            Some(NumPyParameter { parsed, node })
        } else {
            None
        }
    }

    /// Access the underlying `SyntaxNode`.
    pub fn syntax(&self) -> (r: &'a SyntaxNode)
        ensures
            *r == self.vnode(),
    {
        self.node
    }

    /// Wrap every node of a list.
    pub fn wrap_all(parsed: &'a Parsed, ns: Vec<&'a SyntaxNode>) -> (r: Vec<Self>)
        ensures
            r@.len() == ns@.len(),
            forall|k: int| 0 <= k < r@.len() ==> (#[trigger] r@[k]).vnode() == *ns@[k] && r@[k].vparsed() == *parsed,
    {
        let mut out: Vec<Self> = Vec::new();
        let mut i: usize = 0;
        while i < ns.len()
            invariant
                i <= ns@.len(),
                out@.len() == i,
                forall|k: int| 0 <= k < i ==> (#[trigger] out@[k]).vnode() == *ns@[k] && out@[k].vparsed() == *parsed,
            decreases ns@.len() - i,
        {
            out.push(NumPyParameter { parsed, node: ns[i] });
            i = i + 1;
        }
        out
    }

    /// All name tokens (e.g. `x1, x2`).
    pub fn names(&self) -> (r: Vec<TokenRef<'a>>)
        ensures
            r@.len() == present_tokens(self.vnode().kids(), SyntaxKind::NAME).len(),
            forall|k: int|
                0 <= k < r@.len() ==> (#[trigger] r@[k]).tref() == present_tokens(
                    self.vnode().kids(),
                    SyntaxKind::NAME,
                )[k] && r@[k].pref() == self.vparsed(),
    {
        token_refs(self.parsed, self.node, SyntaxKind::NAME)
    }

    /// Type annotation token, if present.
    pub fn type_annotation(&self) -> (r: Option<TokenRef<'a>>)
        ensures
            ref_tok(r) == first_tok(present_tokens(self.vnode().kids(), SyntaxKind::TYPE)),
            r matches Some(t) ==> t.pref() == self.vparsed(),
    {
        find_token_ref(self.parsed, self.node, SyntaxKind::TYPE)
    }

    /// Alias for the type annotation.
    pub fn type_(&self) -> (r: Option<TokenRef<'a>>)
        ensures
            ref_tok(r) == first_tok(present_tokens(self.vnode().kids(), SyntaxKind::TYPE)),
    {
        self.type_annotation()
    }

    /// Colon separator token, if present.
    pub fn colon(&self) -> (r: Option<TokenRef<'a>>)
        ensures
            ref_tok(r) == first_tok(present_tokens(self.vnode().kids(), SyntaxKind::COLON)),
            r matches Some(t) ==> t.pref() == self.vparsed(),
    {
        find_token_ref(self.parsed, self.node, SyntaxKind::COLON)
    }

    /// Description text block, if present.
    pub fn description(&self) -> (r: Option<TextBlock<'a>>)
        ensures
            match first_nonempty(child_nodes(self.vnode().kids(), SyntaxKind::DESCRIPTION)) {
                Some(n) => r matches Some(t) && t.bnode() == n && t.bparsed() == self.vparsed(),
                None => r is None,
            },
    {
        find_text_block(self.parsed, self.node, SyntaxKind::DESCRIPTION)
    }

    /// Whether the entry carries at least one `optional` marker.
    pub fn is_optional(&self) -> (r: bool)
        ensures
            r == (present_tokens(self.vnode().kids(), SyntaxKind::OPTIONAL).len() > 0),
    {
        find_token_ref(self.parsed, self.node, SyntaxKind::OPTIONAL).is_some()
    }

    /// First `optional` marker token, if present.
    pub fn optional_marker(&self) -> (r: Option<TokenRef<'a>>)
        ensures
            ref_tok(r) == first_tok(present_tokens(self.vnode().kids(), SyntaxKind::OPTIONAL)),
            r matches Some(t) ==> t.pref() == self.vparsed(),
    {
        find_token_ref(self.parsed, self.node, SyntaxKind::OPTIONAL)
    }

    /// Alias for the first `optional` marker.
    pub fn optional(&self) -> (r: Option<TokenRef<'a>>)
        ensures
            ref_tok(r) == first_tok(present_tokens(self.vnode().kids(), SyntaxKind::OPTIONAL)),
    {
        self.optional_marker()
    }

    /// All `optional` marker tokens, in source order.
    pub fn optionals(&self) -> (r: Vec<TokenRef<'a>>)
        ensures
            r@.len() == present_tokens(self.vnode().kids(), SyntaxKind::OPTIONAL).len(),
            forall|k: int|
                0 <= k < r@.len() ==> (#[trigger] r@[k]).tref() == present_tokens(
                    self.vnode().kids(),
                    SyntaxKind::OPTIONAL,
                )[k] && r@[k].pref() == self.vparsed(),
    {
        token_refs(self.parsed, self.node, SyntaxKind::OPTIONAL)
    }

    /// All `default …` markers, in source order.
    pub fn defaults(&self) -> (r: Vec<crate::parse::unified::DefaultMarker<'a>>)
        ensures
            r@.len() == child_nodes(self.vnode().kids(), SyntaxKind::DEFAULT).len(),
            forall|k: int|
                0 <= k < r@.len() ==> (#[trigger] r@[k]).vnode() == child_nodes(self.vnode().kids(), SyntaxKind::DEFAULT)[k],
    {
        crate::parse::unified::DefaultMarker::wrap_all(self.parsed, self.node.nodes(SyntaxKind::DEFAULT))
    }

    /// The first `default …` marker's keyword token.
    pub fn default_keyword(&self) -> (r: Option<TokenRef<'a>>)
        ensures
            child_nodes(self.vnode().kids(), SyntaxKind::DEFAULT).len() == 0 ==> r is None,
            child_nodes(self.vnode().kids(), SyntaxKind::DEFAULT).len() > 0 ==> ref_tok(r) == first_tok(
                present_tokens(child_nodes(self.vnode().kids(), SyntaxKind::DEFAULT)[0].kids(), SyntaxKind::DEFAULT_KEYWORD),
            ),
    {
        match self.node.find_node(SyntaxKind::DEFAULT) {
            Some(d) => find_token_ref(self.parsed, d, SyntaxKind::DEFAULT_KEYWORD),
            None => None,
        }
    }

    /// The first `default …` marker's separator token.
    pub fn default_separator(&self) -> (r: Option<TokenRef<'a>>)
        ensures
            child_nodes(self.vnode().kids(), SyntaxKind::DEFAULT).len() == 0 ==> r is None,
            child_nodes(self.vnode().kids(), SyntaxKind::DEFAULT).len() > 0 ==> ref_tok(r) == first_tok(
                present_tokens(child_nodes(self.vnode().kids(), SyntaxKind::DEFAULT)[0].kids(), SyntaxKind::DEFAULT_SEPARATOR),
            ),
    {
        match self.node.find_node(SyntaxKind::DEFAULT) {
            Some(d) => find_token_ref(self.parsed, d, SyntaxKind::DEFAULT_SEPARATOR),
            None => None,
        }
    }

    /// The first `default …` marker's value token (first occurrence wins).
    pub fn default_value(&self) -> (r: Option<TokenRef<'a>>)
        ensures
            child_nodes(self.vnode().kids(), SyntaxKind::DEFAULT).len() == 0 ==> r is None,
            child_nodes(self.vnode().kids(), SyntaxKind::DEFAULT).len() > 0 ==> ref_tok(r) == first_tok(
                present_tokens(child_nodes(self.vnode().kids(), SyntaxKind::DEFAULT)[0].kids(), SyntaxKind::DEFAULT_VALUE),
            ),
    {
        match self.node.find_node(SyntaxKind::DEFAULT) {
            Some(d) => find_token_ref(self.parsed, d, SyntaxKind::DEFAULT_VALUE),
            None => None,
        }
    }
}
/// Typed view of a Returns entry.
#[derive(Debug, Clone, Copy)]
pub struct NumPyReturns<'a> {
    parsed: &'a Parsed,
    node: &'a SyntaxNode,
}

impl<'a> NumPyReturns<'a> {
    /// The wrapped node.
    pub closed spec fn vnode(&self) -> SyntaxNode {
        *self.node
    }

    /// The parse result.
    pub closed spec fn vparsed(&self) -> Parsed {
        *self.parsed
    }

    /// Wrap a node of the right kind.
    pub fn cast(parsed: &'a Parsed, node: &'a SyntaxNode) -> (r: Option<Self>)
        ensures
            r is Some <==> node.nkind() == SyntaxKind::ENTRY,
            r matches Some(v) ==> v.vnode() == *node && v.vparsed() == *parsed,
    {
        if node.kind() == SyntaxKind::ENTRY {
            Some(NumPyReturns { parsed, node })
        } else {
            None
        }
    }

    /// Access the underlying `SyntaxNode`.
    pub fn syntax(&self) -> (r: &'a SyntaxNode)
        ensures
            *r == self.vnode(),
    {
        self.node
    }

    /// Wrap every node of a list.
    pub fn wrap_all(parsed: &'a Parsed, ns: Vec<&'a SyntaxNode>) -> (r: Vec<Self>)
        ensures
            r@.len() == ns@.len(),
            forall|k: int| 0 <= k < r@.len() ==> (#[trigger] r@[k]).vnode() == *ns@[k] && r@[k].vparsed() == *parsed,
    {
        let mut out: Vec<Self> = Vec::new();
        let mut i: usize = 0;
        while i < ns.len()
            invariant
                i <= ns@.len(),
                out@.len() == i,
                forall|k: int| 0 <= k < i ==> (#[trigger] out@[k]).vnode() == *ns@[k] && out@[k].vparsed() == *parsed,
            decreases ns@.len() - i,
        {
            out.push(NumPyReturns { parsed, node: ns[i] });
            i = i + 1;
        }
        out
    }

    /// Return value name token, if present.
    pub fn name(&self) -> (r: Option<TokenRef<'a>>)
        ensures
            ref_tok(r) == first_tok(present_tokens(self.vnode().kids(), SyntaxKind::NAME)),
            r matches Some(t) ==> t.pref() == self.vparsed(),
    {
        find_token_ref(self.parsed, self.node, SyntaxKind::NAME)
    }

    /// Colon separator token, if present.
    pub fn colon(&self) -> (r: Option<TokenRef<'a>>)
        ensures
            ref_tok(r) == first_tok(present_tokens(self.vnode().kids(), SyntaxKind::COLON)),
            r matches Some(t) ==> t.pref() == self.vparsed(),
    {
        find_token_ref(self.parsed, self.node, SyntaxKind::COLON)
    }

    /// Return type annotation token, if present.
    pub fn type_annotation(&self) -> (r: Option<TokenRef<'a>>)
        ensures
            ref_tok(r) == first_tok(present_tokens(self.vnode().kids(), SyntaxKind::TYPE)),
            r matches Some(t) ==> t.pref() == self.vparsed(),
    {
        find_token_ref(self.parsed, self.node, SyntaxKind::TYPE)
    }

    /// Alias for the type annotation.
    pub fn return_type(&self) -> (r: Option<TokenRef<'a>>)
        ensures
            ref_tok(r) == first_tok(present_tokens(self.vnode().kids(), SyntaxKind::TYPE)),
    {
        self.type_annotation()
    }

    /// Description text block, if present.
    pub fn description(&self) -> (r: Option<TextBlock<'a>>)
        ensures
            match first_nonempty(child_nodes(self.vnode().kids(), SyntaxKind::DESCRIPTION)) {
                Some(n) => r matches Some(t) && t.bnode() == n && t.bparsed() == self.vparsed(),
                None => r is None,
            },
    {
        find_text_block(self.parsed, self.node, SyntaxKind::DESCRIPTION)
    }
}
/// Typed view of a Yields entry.
#[derive(Debug, Clone, Copy)]
pub struct NumPyYields<'a> {
    parsed: &'a Parsed,
    node: &'a SyntaxNode,
}

impl<'a> NumPyYields<'a> {
    /// The wrapped node.
    pub closed spec fn vnode(&self) -> SyntaxNode {
        *self.node
    }

    /// The parse result.
    pub closed spec fn vparsed(&self) -> Parsed {
        *self.parsed
    }

    /// Wrap a node of the right kind.
    pub fn cast(parsed: &'a Parsed, node: &'a SyntaxNode) -> (r: Option<Self>)
        ensures
            r is Some <==> node.nkind() == SyntaxKind::ENTRY,
            r matches Some(v) ==> v.vnode() == *node && v.vparsed() == *parsed,
    {
        if node.kind() == SyntaxKind::ENTRY {
            Some(NumPyYields { parsed, node })
        } else {
            None
        }
    }

    /// Access the underlying `SyntaxNode`.
    pub fn syntax(&self) -> (r: &'a SyntaxNode)
        ensures
            *r == self.vnode(),
    {
        self.node
    }

    /// Wrap every node of a list.
    pub fn wrap_all(parsed: &'a Parsed, ns: Vec<&'a SyntaxNode>) -> (r: Vec<Self>)
        ensures
            r@.len() == ns@.len(),
            forall|k: int| 0 <= k < r@.len() ==> (#[trigger] r@[k]).vnode() == *ns@[k] && r@[k].vparsed() == *parsed,
    {
        let mut out: Vec<Self> = Vec::new();
        let mut i: usize = 0;
        while i < ns.len()
            invariant
                i <= ns@.len(),
                out@.len() == i,
                forall|k: int| 0 <= k < i ==> (#[trigger] out@[k]).vnode() == *ns@[k] && out@[k].vparsed() == *parsed,
            decreases ns@.len() - i,
        {
            out.push(NumPyYields { parsed, node: ns[i] });
            i = i + 1;
        }
        out
    }

    /// Return value name token, if present.
    pub fn name(&self) -> (r: Option<TokenRef<'a>>)
        ensures
            ref_tok(r) == first_tok(present_tokens(self.vnode().kids(), SyntaxKind::NAME)),
            r matches Some(t) ==> t.pref() == self.vparsed(),
    {
        find_token_ref(self.parsed, self.node, SyntaxKind::NAME)
    }

    /// Colon separator token, if present.
    pub fn colon(&self) -> (r: Option<TokenRef<'a>>)
        ensures
            ref_tok(r) == first_tok(present_tokens(self.vnode().kids(), SyntaxKind::COLON)),
            r matches Some(t) ==> t.pref() == self.vparsed(),
    {
        find_token_ref(self.parsed, self.node, SyntaxKind::COLON)
    }

    /// Return type annotation token, if present.
    pub fn type_annotation(&self) -> (r: Option<TokenRef<'a>>)
        ensures
            ref_tok(r) == first_tok(present_tokens(self.vnode().kids(), SyntaxKind::TYPE)),
            r matches Some(t) ==> t.pref() == self.vparsed(),
    {
        find_token_ref(self.parsed, self.node, SyntaxKind::TYPE)
    }

    /// Alias for the type annotation.
    pub fn return_type(&self) -> (r: Option<TokenRef<'a>>)
        ensures
            ref_tok(r) == first_tok(present_tokens(self.vnode().kids(), SyntaxKind::TYPE)),
    {
        self.type_annotation()
    }

    /// Description text block, if present.
    pub fn description(&self) -> (r: Option<TextBlock<'a>>)
        ensures
            match first_nonempty(child_nodes(self.vnode().kids(), SyntaxKind::DESCRIPTION)) {
                Some(n) => r matches Some(t) && t.bnode() == n && t.bparsed() == self.vparsed(),
                None => r is None,
            },
    {
        find_text_block(self.parsed, self.node, SyntaxKind::DESCRIPTION)
    }
}
/// Typed view of an exception entry.
#[derive(Debug, Clone, Copy)]
pub struct NumPyException<'a> {
    parsed: &'a Parsed,
    node: &'a SyntaxNode,
}

impl<'a> NumPyException<'a> {
    /// The wrapped node.
    pub closed spec fn vnode(&self) -> SyntaxNode {
        *self.node
    }

    /// The parse result.
    pub closed spec fn vparsed(&self) -> Parsed {
        *self.parsed
    }

    /// Wrap a node of the right kind.
    pub fn cast(parsed: &'a Parsed, node: &'a SyntaxNode) -> (r: Option<Self>)
        ensures
            r is Some <==> node.nkind() == SyntaxKind::ENTRY,
            r matches Some(v) ==> v.vnode() == *node && v.vparsed() == *parsed,
    {
        if node.kind() == SyntaxKind::ENTRY {
            Some(NumPyException { parsed, node })
        } else {
            None
        }
    }

    /// Access the underlying `SyntaxNode`.
    pub fn syntax(&self) -> (r: &'a SyntaxNode)
        ensures
            *r == self.vnode(),
    {
        self.node
    }

    /// Wrap every node of a list.
    pub fn wrap_all(parsed: &'a Parsed, ns: Vec<&'a SyntaxNode>) -> (r: Vec<Self>)
        ensures
            r@.len() == ns@.len(),
            forall|k: int| 0 <= k < r@.len() ==> (#[trigger] r@[k]).vnode() == *ns@[k] && r@[k].vparsed() == *parsed,
    {
        let mut out: Vec<Self> = Vec::new();
        let mut i: usize = 0;
        while i < ns.len()
            invariant
                i <= ns@.len(),
                out@.len() == i,
                forall|k: int| 0 <= k < i ==> (#[trigger] out@[k]).vnode() == *ns@[k] && out@[k].vparsed() == *parsed,
            decreases ns@.len() - i,
        {
            out.push(NumPyException { parsed, node: ns[i] });
            i = i + 1;
        }
        out
    }

    /// Exception / warning type name token.
    pub fn type_annotation(&self) -> (r: TokenRef<'a>)
        requires
            any_tokens(self.vnode().kids(), SyntaxKind::TYPE).len() > 0,
        ensures
            r.tref() == any_tokens(self.vnode().kids(), SyntaxKind::TYPE)[0],
            r.pref() == self.vparsed(),
    {
        required_token_ref(self.parsed, self.node, SyntaxKind::TYPE)
    }

    /// Alias for the type name.
    pub fn type_(&self) -> (r: TokenRef<'a>)
        requires
            any_tokens(self.vnode().kids(), SyntaxKind::TYPE).len() > 0,
        ensures
            r.tref() == any_tokens(self.vnode().kids(), SyntaxKind::TYPE)[0],
    {
        self.type_annotation()
    }

    /// Colon separator token, if present.
    pub fn colon(&self) -> (r: Option<TokenRef<'a>>)
        ensures
            ref_tok(r) == first_tok(present_tokens(self.vnode().kids(), SyntaxKind::COLON)),
            r matches Some(t) ==> t.pref() == self.vparsed(),
    {
        find_token_ref(self.parsed, self.node, SyntaxKind::COLON)
    }

    /// Description text block, if present.
    pub fn description(&self) -> (r: Option<TextBlock<'a>>)
        ensures
            match first_nonempty(child_nodes(self.vnode().kids(), SyntaxKind::DESCRIPTION)) {
                Some(n) => r matches Some(t) && t.bnode() == n && t.bparsed() == self.vparsed(),
                None => r is None,
            },
    {
        find_text_block(self.parsed, self.node, SyntaxKind::DESCRIPTION)
    }
}
/// Typed view of a warning entry.
#[derive(Debug, Clone, Copy)]
pub struct NumPyWarning<'a> {
    parsed: &'a Parsed,
    node: &'a SyntaxNode,
}

impl<'a> NumPyWarning<'a> {
    /// The wrapped node.
    pub closed spec fn vnode(&self) -> SyntaxNode {
        *self.node
    }

    /// The parse result.
    pub closed spec fn vparsed(&self) -> Parsed {
        *self.parsed
    }

    /// Wrap a node of the right kind.
    pub fn cast(parsed: &'a Parsed, node: &'a SyntaxNode) -> (r: Option<Self>)
        ensures
            r is Some <==> node.nkind() == SyntaxKind::ENTRY,
            r matches Some(v) ==> v.vnode() == *node && v.vparsed() == *parsed,
    {
        if node.kind() == SyntaxKind::ENTRY {
            Some(NumPyWarning { parsed, node })
        } else {
            None
        }
    }

    /// Access the underlying `SyntaxNode`.
    pub fn syntax(&self) -> (r: &'a SyntaxNode)
        ensures
            *r == self.vnode(),
    {
        self.node
    }

    /// Wrap every node of a list.
    pub fn wrap_all(parsed: &'a Parsed, ns: Vec<&'a SyntaxNode>) -> (r: Vec<Self>)
        ensures
            r@.len() == ns@.len(),
            forall|k: int| 0 <= k < r@.len() ==> (#[trigger] r@[k]).vnode() == *ns@[k] && r@[k].vparsed() == *parsed,
    {
        let mut out: Vec<Self> = Vec::new();
        let mut i: usize = 0;
        while i < ns.len()
            invariant
                i <= ns@.len(),
                out@.len() == i,
                forall|k: int| 0 <= k < i ==> (#[trigger] out@[k]).vnode() == *ns@[k] && out@[k].vparsed() == *parsed,
            decreases ns@.len() - i,
        {
            out.push(NumPyWarning { parsed, node: ns[i] });
            i = i + 1;
        }
        out
    }

    /// Exception / warning type name token.
    pub fn type_annotation(&self) -> (r: TokenRef<'a>)
        requires
            any_tokens(self.vnode().kids(), SyntaxKind::TYPE).len() > 0,
        ensures
            r.tref() == any_tokens(self.vnode().kids(), SyntaxKind::TYPE)[0],
            r.pref() == self.vparsed(),
    {
        required_token_ref(self.parsed, self.node, SyntaxKind::TYPE)
    }

    /// Alias for the type name.
    pub fn type_(&self) -> (r: TokenRef<'a>)
        requires
            any_tokens(self.vnode().kids(), SyntaxKind::TYPE).len() > 0,
        ensures
            r.tref() == any_tokens(self.vnode().kids(), SyntaxKind::TYPE)[0],
    {
        self.type_annotation()
    }

    /// Colon separator token, if present.
    pub fn colon(&self) -> (r: Option<TokenRef<'a>>)
        ensures
            ref_tok(r) == first_tok(present_tokens(self.vnode().kids(), SyntaxKind::COLON)),
            r matches Some(t) ==> t.pref() == self.vparsed(),
    {
        find_token_ref(self.parsed, self.node, SyntaxKind::COLON)
    }

    /// Description text block, if present.
    pub fn description(&self) -> (r: Option<TextBlock<'a>>)
        ensures
            match first_nonempty(child_nodes(self.vnode().kids(), SyntaxKind::DESCRIPTION)) {
                Some(n) => r matches Some(t) && t.bnode() == n && t.bparsed() == self.vparsed(),
                None => r is None,
            },
    {
        find_text_block(self.parsed, self.node, SyntaxKind::DESCRIPTION)
    }
}
/// Typed view of a See Also item.
#[derive(Debug, Clone, Copy)]
pub struct NumPySeeAlsoItem<'a> {
    parsed: &'a Parsed,
    node: &'a SyntaxNode,
}

impl<'a> NumPySeeAlsoItem<'a> {
    /// The wrapped node.
    pub closed spec fn vnode(&self) -> SyntaxNode {
        *self.node
    }

    /// The parse result.
    pub closed spec fn vparsed(&self) -> Parsed {
        *self.parsed
    }

    /// Wrap a node of the right kind.
    pub fn cast(parsed: &'a Parsed, node: &'a SyntaxNode) -> (r: Option<Self>)
        ensures
            r is Some <==> node.nkind() == SyntaxKind::ENTRY,
            r matches Some(v) ==> v.vnode() == *node && v.vparsed() == *parsed,
    {
        if node.kind() == SyntaxKind::ENTRY {
            Some(NumPySeeAlsoItem { parsed, node })
        } else {
            None
        }
    }

    /// Access the underlying `SyntaxNode`.
    pub fn syntax(&self) -> (r: &'a SyntaxNode)
        ensures
            *r == self.vnode(),
    {
        self.node
    }

    /// Wrap every node of a list.
    pub fn wrap_all(parsed: &'a Parsed, ns: Vec<&'a SyntaxNode>) -> (r: Vec<Self>)
        ensures
            r@.len() == ns@.len(),
            forall|k: int| 0 <= k < r@.len() ==> (#[trigger] r@[k]).vnode() == *ns@[k] && r@[k].vparsed() == *parsed,
    {
        let mut out: Vec<Self> = Vec::new();
        let mut i: usize = 0;
        while i < ns.len()
            invariant
                i <= ns@.len(),
                out@.len() == i,
                forall|k: int| 0 <= k < i ==> (#[trigger] out@[k]).vnode() == *ns@[k] && out@[k].vparsed() == *parsed,
            decreases ns@.len() - i,
        {
            out.push(NumPySeeAlsoItem { parsed, node: ns[i] });
            i = i + 1;
        }
        out
    }

    /// All name tokens.
    pub fn names(&self) -> (r: Vec<TokenRef<'a>>)
        ensures
            r@.len() == present_tokens(self.vnode().kids(), SyntaxKind::NAME).len(),
            forall|k: int|
                0 <= k < r@.len() ==> (#[trigger] r@[k]).tref() == present_tokens(
                    self.vnode().kids(),
                    SyntaxKind::NAME,
                )[k] && r@[k].pref() == self.vparsed(),
    {
        token_refs(self.parsed, self.node, SyntaxKind::NAME)
    }

    /// Colon separator token, if present.
    pub fn colon(&self) -> (r: Option<TokenRef<'a>>)
        ensures
            ref_tok(r) == first_tok(present_tokens(self.vnode().kids(), SyntaxKind::COLON)),
            r matches Some(t) ==> t.pref() == self.vparsed(),
    {
        find_token_ref(self.parsed, self.node, SyntaxKind::COLON)
    }

    /// Description text block, if present.
    pub fn description(&self) -> (r: Option<TextBlock<'a>>)
        ensures
            match first_nonempty(child_nodes(self.vnode().kids(), SyntaxKind::DESCRIPTION)) {
                Some(n) => r matches Some(t) && t.bnode() == n && t.bparsed() == self.vparsed(),
                None => r is None,
            },
    {
        find_text_block(self.parsed, self.node, SyntaxKind::DESCRIPTION)
    }
}
/// Typed view of a reference (citation).
#[derive(Debug, Clone, Copy)]
pub struct NumPyReference<'a> {
    parsed: &'a Parsed,
    node: &'a SyntaxNode,
}

impl<'a> NumPyReference<'a> {
    /// The wrapped node.
    pub closed spec fn vnode(&self) -> SyntaxNode {
        *self.node
    }

    /// The parse result.
    pub closed spec fn vparsed(&self) -> Parsed {
        *self.parsed
    }

    /// Wrap a node of the right kind.
    pub fn cast(parsed: &'a Parsed, node: &'a SyntaxNode) -> (r: Option<Self>)
        ensures
            r is Some <==> node.nkind() == SyntaxKind::CITATION,
            r matches Some(v) ==> v.vnode() == *node && v.vparsed() == *parsed,
    {
        if node.kind() == SyntaxKind::CITATION {
            Some(NumPyReference { parsed, node })
        } else {
            None
        }
    }

    /// Access the underlying `SyntaxNode`.
    pub fn syntax(&self) -> (r: &'a SyntaxNode)
        ensures
            *r == self.vnode(),
    {
        self.node
    }

    /// Wrap every node of a list.
    pub fn wrap_all(parsed: &'a Parsed, ns: Vec<&'a SyntaxNode>) -> (r: Vec<Self>)
        ensures
            r@.len() == ns@.len(),
            forall|k: int| 0 <= k < r@.len() ==> (#[trigger] r@[k]).vnode() == *ns@[k] && r@[k].vparsed() == *parsed,
    {
        let mut out: Vec<Self> = Vec::new();
        let mut i: usize = 0;
        while i < ns.len()
            invariant
                i <= ns@.len(),
                out@.len() == i,
                forall|k: int| 0 <= k < i ==> (#[trigger] out@[k]).vnode() == *ns@[k] && out@[k].vparsed() == *parsed,
            decreases ns@.len() - i,
        {
            out.push(NumPyReference { parsed, node: ns[i] });
            i = i + 1;
        }
        out
    }

    /// The `..` marker, if present.
    pub fn directive_marker(&self) -> (r: Option<TokenRef<'a>>)
        ensures
            ref_tok(r) == first_tok(present_tokens(self.vnode().kids(), SyntaxKind::DIRECTIVE_MARKER)),
            r matches Some(t) ==> t.pref() == self.vparsed(),
    {
        find_token_ref(self.parsed, self.node, SyntaxKind::DIRECTIVE_MARKER)
    }

    /// Opening bracket token, if present.
    pub fn open_bracket(&self) -> (r: Option<TokenRef<'a>>)
        ensures
            ref_tok(r) == first_tok(present_tokens(self.vnode().kids(), SyntaxKind::OPEN_BRACKET)),
            r matches Some(t) ==> t.pref() == self.vparsed(),
    {
        find_token_ref(self.parsed, self.node, SyntaxKind::OPEN_BRACKET)
    }

    /// Citation label token, if present.
    pub fn label(&self) -> (r: Option<TokenRef<'a>>)
        ensures
            ref_tok(r) == first_tok(present_tokens(self.vnode().kids(), SyntaxKind::LABEL)),
            r matches Some(t) ==> t.pref() == self.vparsed(),
    {
        find_token_ref(self.parsed, self.node, SyntaxKind::LABEL)
    }

    /// Alias for the citation label.
    pub fn number(&self) -> (r: Option<TokenRef<'a>>)
        ensures
            ref_tok(r) == first_tok(present_tokens(self.vnode().kids(), SyntaxKind::LABEL)),
    {
        self.label()
    }

    /// Closing bracket token, if present.
    pub fn close_bracket(&self) -> (r: Option<TokenRef<'a>>)
        ensures
            ref_tok(r) == first_tok(present_tokens(self.vnode().kids(), SyntaxKind::CLOSE_BRACKET)),
            r matches Some(t) ==> t.pref() == self.vparsed(),
    {
        find_token_ref(self.parsed, self.node, SyntaxKind::CLOSE_BRACKET)
    }

    /// Reference content block, if present.
    pub fn content(&self) -> (r: Option<TextBlock<'a>>)
        ensures
            match first_nonempty(child_nodes(self.vnode().kids(), SyntaxKind::DESCRIPTION)) {
                Some(n) => r matches Some(t) && t.bnode() == n && t.bparsed() == self.vparsed(),
                None => r is None,
            },
    {
        find_text_block(self.parsed, self.node, SyntaxKind::DESCRIPTION)
    }
}
/// Typed view of an attribute entry.
#[derive(Debug, Clone, Copy)]
pub struct NumPyAttribute<'a> {
    parsed: &'a Parsed,
    node: &'a SyntaxNode,
}

impl<'a> NumPyAttribute<'a> {
    /// The wrapped node.
    pub closed spec fn vnode(&self) -> SyntaxNode {
        *self.node
    }

    /// The parse result.
    pub closed spec fn vparsed(&self) -> Parsed {
        *self.parsed
    }

    /// Wrap a node of the right kind.
    pub fn cast(parsed: &'a Parsed, node: &'a SyntaxNode) -> (r: Option<Self>)
        ensures
            r is Some <==> node.nkind() == SyntaxKind::ENTRY,
            r matches Some(v) ==> v.vnode() == *node && v.vparsed() == *parsed,
    {
        if node.kind() == SyntaxKind::ENTRY {
            Some(NumPyAttribute { parsed, node })
        } else {
            None
        }
    }

    /// Access the underlying `SyntaxNode`.
    pub fn syntax(&self) -> (r: &'a SyntaxNode)
        ensures
            *r == self.vnode(),
    {
        self.node
    }

    /// Wrap every node of a list.
    pub fn wrap_all(parsed: &'a Parsed, ns: Vec<&'a SyntaxNode>) -> (r: Vec<Self>)
        ensures
            r@.len() == ns@.len(),
            forall|k: int| 0 <= k < r@.len() ==> (#[trigger] r@[k]).vnode() == *ns@[k] && r@[k].vparsed() == *parsed,
    {
        let mut out: Vec<Self> = Vec::new();
        let mut i: usize = 0;
        while i < ns.len()
            invariant
                i <= ns@.len(),
                out@.len() == i,
                forall|k: int| 0 <= k < i ==> (#[trigger] out@[k]).vnode() == *ns@[k] && out@[k].vparsed() == *parsed,
            decreases ns@.len() - i,
        {
            out.push(NumPyAttribute { parsed, node: ns[i] });
            i = i + 1;
        }
        out
    }

    /// Attribute name token.
    pub fn name(&self) -> (r: TokenRef<'a>)
        requires
            any_tokens(self.vnode().kids(), SyntaxKind::NAME).len() > 0,
        ensures
            r.tref() == any_tokens(self.vnode().kids(), SyntaxKind::NAME)[0],
            r.pref() == self.vparsed(),
    {
        required_token_ref(self.parsed, self.node, SyntaxKind::NAME)
    }

    /// Colon separator token, if present.
    pub fn colon(&self) -> (r: Option<TokenRef<'a>>)
        ensures
            ref_tok(r) == first_tok(present_tokens(self.vnode().kids(), SyntaxKind::COLON)),
            r matches Some(t) ==> t.pref() == self.vparsed(),
    {
        find_token_ref(self.parsed, self.node, SyntaxKind::COLON)
    }

    /// Type annotation token, if present.
    pub fn type_annotation(&self) -> (r: Option<TokenRef<'a>>)
        ensures
            ref_tok(r) == first_tok(present_tokens(self.vnode().kids(), SyntaxKind::TYPE)),
            r matches Some(t) ==> t.pref() == self.vparsed(),
    {
        find_token_ref(self.parsed, self.node, SyntaxKind::TYPE)
    }

    /// Alias for the type annotation.
    pub fn type_(&self) -> (r: Option<TokenRef<'a>>)
        ensures
            ref_tok(r) == first_tok(present_tokens(self.vnode().kids(), SyntaxKind::TYPE)),
    {
        self.type_annotation()
    }

    /// Description text block, if present.
    pub fn description(&self) -> (r: Option<TextBlock<'a>>)
        ensures
            match first_nonempty(child_nodes(self.vnode().kids(), SyntaxKind::DESCRIPTION)) {
                Some(n) => r matches Some(t) && t.bnode() == n && t.bparsed() == self.vparsed(),
                None => r is None,
            },
    {
        find_text_block(self.parsed, self.node, SyntaxKind::DESCRIPTION)
    }
}
/// Typed view of a method entry.
#[derive(Debug, Clone, Copy)]
pub struct NumPyMethod<'a> {
    parsed: &'a Parsed,
    node: &'a SyntaxNode,
}

impl<'a> NumPyMethod<'a> {
    /// The wrapped node.
    pub closed spec fn vnode(&self) -> SyntaxNode {
        *self.node
    }

    /// The parse result.
    pub closed spec fn vparsed(&self) -> Parsed {
        *self.parsed
    }

    /// Wrap a node of the right kind.
    pub fn cast(parsed: &'a Parsed, node: &'a SyntaxNode) -> (r: Option<Self>)
        ensures
            r is Some <==> node.nkind() == SyntaxKind::ENTRY,
            r matches Some(v) ==> v.vnode() == *node && v.vparsed() == *parsed,
    {
        if node.kind() == SyntaxKind::ENTRY {
            Some(NumPyMethod { parsed, node })
        } else {
            None
        }
    }

    /// Access the underlying `SyntaxNode`.
    pub fn syntax(&self) -> (r: &'a SyntaxNode)
        ensures
            *r == self.vnode(),
    {
        self.node
    }

    /// Wrap every node of a list.
    pub fn wrap_all(parsed: &'a Parsed, ns: Vec<&'a SyntaxNode>) -> (r: Vec<Self>)
        ensures
            r@.len() == ns@.len(),
            forall|k: int| 0 <= k < r@.len() ==> (#[trigger] r@[k]).vnode() == *ns@[k] && r@[k].vparsed() == *parsed,
    {
        let mut out: Vec<Self> = Vec::new();
        let mut i: usize = 0;
        while i < ns.len()
            invariant
                i <= ns@.len(),
                out@.len() == i,
                forall|k: int| 0 <= k < i ==> (#[trigger] out@[k]).vnode() == *ns@[k] && out@[k].vparsed() == *parsed,
            decreases ns@.len() - i,
        {
            out.push(NumPyMethod { parsed, node: ns[i] });
            i = i + 1;
        }
        out
    }

    /// Method name token.
    pub fn name(&self) -> (r: TokenRef<'a>)
        requires
            any_tokens(self.vnode().kids(), SyntaxKind::NAME).len() > 0,
        ensures
            r.tref() == any_tokens(self.vnode().kids(), SyntaxKind::NAME)[0],
            r.pref() == self.vparsed(),
    {
        required_token_ref(self.parsed, self.node, SyntaxKind::NAME)
    }

    /// Colon separator token, if present.
    pub fn colon(&self) -> (r: Option<TokenRef<'a>>)
        ensures
            ref_tok(r) == first_tok(present_tokens(self.vnode().kids(), SyntaxKind::COLON)),
            r matches Some(t) ==> t.pref() == self.vparsed(),
    {
        find_token_ref(self.parsed, self.node, SyntaxKind::COLON)
    }

    /// Description text block, if present.
    pub fn description(&self) -> (r: Option<TextBlock<'a>>)
        ensures
            match first_nonempty(child_nodes(self.vnode().kids(), SyntaxKind::DESCRIPTION)) {
                Some(n) => r matches Some(t) && t.bnode() == n && t.bparsed() == self.vparsed(),
                None => r is None,
            },
    {
        find_text_block(self.parsed, self.node, SyntaxKind::DESCRIPTION)
    }
}

} // verus!
