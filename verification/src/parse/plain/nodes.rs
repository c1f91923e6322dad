//! Typed wrapper for the plain-style docstring root node.

use vstd::prelude::*;

use crate::parse::text_block::find_text_block;
use crate::parse::text_block::first_nonempty;
use crate::parse::text_block::TextBlock;
use crate::syntax::child_nodes;
use crate::syntax::Parsed;
use crate::syntax::SyntaxKind;
use crate::syntax::SyntaxNode;

verus! {

/// Typed wrapper for a plain-style `DOCUMENT` node.
#[derive(Debug, Clone, Copy)]
pub struct PlainDocstring<'a> {
    parsed: &'a Parsed,
    node: &'a SyntaxNode,
}

impl<'a> PlainDocstring<'a> {
    /// The wrapped node.
    pub closed spec fn vnode(&self) -> SyntaxNode {
        *self.node
    }

    /// The parse result.
    pub closed spec fn vparsed(&self) -> Parsed {
        *self.parsed
    }

    /// Wrap a `DOCUMENT` node.
    pub fn cast(parsed: &'a Parsed, node: &'a SyntaxNode) -> (r: Option<Self>)
        ensures
            r is Some <==> node.nkind() == SyntaxKind::DOCUMENT,
            r matches Some(v) ==> v.vnode() == *node && v.vparsed() == *parsed,
    {
        if node.kind() == SyntaxKind::DOCUMENT {
            Some(PlainDocstring { parsed, node })
        } else {
            None
        }
    }

    /// Access the underlying `SyntaxNode`.
    pub fn syntax(&self) -> (r: &'a SyntaxNode)
        ensures
            *r == self.vnode(),
    {
        self.node
    }

    /// Brief summary block, if present.
    pub fn summary(&self) -> (r: Option<TextBlock<'a>>)
        ensures
            match first_nonempty(child_nodes(self.vnode().kids(), SyntaxKind::SUMMARY)) {
                Some(n) => r matches Some(t) && t.bnode() == n && t.bparsed() == self.vparsed(),
                None => r is None,
            },
    {
        find_text_block(self.parsed, self.node, SyntaxKind::SUMMARY)
    }

    /// Extended summary block, if present.
    pub fn extended_summary(&self) -> (r: Option<TextBlock<'a>>)
        ensures
            match first_nonempty(child_nodes(self.vnode().kids(), SyntaxKind::EXTENDED_SUMMARY)) {
                Some(n) => r matches Some(t) && t.bnode() == n && t.bparsed() == self.vparsed(),
                None => r is None,
            },
    {
        find_text_block(self.parsed, self.node, SyntaxKind::EXTENDED_SUMMARY)
    }
}

} // verus!
