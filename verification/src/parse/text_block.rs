//! Typed wrapper for multi-line text block nodes (`SUMMARY`,
//! `EXTENDED_SUMMARY`, `DESCRIPTION`, `PARAGRAPH`): a node wrapping one
//! `TEXT_LINE` token per content line.

use vstd::prelude::*;
use vstd::string::StringSliceAdditionalSpecFns;

use crate::parse::scan::common_indent;
use crate::parse::scan::convert_multiline_with_indentation;
use crate::parse::scan::dedent_upto;
use crate::parse::token_ref::TokenRef;
use crate::syntax::child_nodes;
use crate::syntax::present_tokens;
use crate::syntax::Parsed;
use crate::syntax::SyntaxKind;
use crate::syntax::SyntaxNode;
use crate::text::range_bytes;
use crate::text::TextRange;

verus! {

/// The text block node kinds.
pub open spec fn is_text_block_kind(kind: SyntaxKind) -> bool {
    kind == SyntaxKind::SUMMARY || kind == SyntaxKind::EXTENDED_SUMMARY || kind == SyntaxKind::DESCRIPTION || kind
        == SyntaxKind::PARAGRAPH
}

/// Typed wrapper for a multi-line text block node.
#[derive(Debug, Clone, Copy)]
pub struct TextBlock<'a> {
    parsed: &'a Parsed,
    node: &'a SyntaxNode,
}

/// The first node of `ns` with a non-empty range.
pub open spec fn first_nonempty(ns: Seq<SyntaxNode>) -> Option<SyntaxNode>
    decreases ns.len(),
{
    if ns.len() == 0 {
        None
    } else if ns[0].nrange()@.0 != ns[0].nrange()@.1 {
        Some(ns[0])
    } else {
        first_nonempty(ns.drop_first())
    }
}

impl<'a> TextBlock<'a> {
    /// The wrapped node.
    pub closed spec fn bnode(&self) -> SyntaxNode {
        *self.node
    }

    /// The parse result.
    pub closed spec fn bparsed(&self) -> Parsed {
        *self.parsed
    }

    /// Whether `kind` is one of the text block node kinds.
    pub fn can_cast(kind: SyntaxKind) -> (r: bool)
        ensures
            r == is_text_block_kind(kind),
    {
        match kind {
            SyntaxKind::SUMMARY | SyntaxKind::EXTENDED_SUMMARY | SyntaxKind::DESCRIPTION | SyntaxKind::PARAGRAPH => true,
            _ => false,
        }
    }

    /// Wrap `node` when it is a text block.
    pub fn cast(parsed: &'a Parsed, node: &'a SyntaxNode) -> (r: Option<Self>)
        ensures
            r is Some <==> is_text_block_kind(node.nkind()),
            r matches Some(t) ==> t.bnode() == *node && t.bparsed() == *parsed,
    {
        if Self::can_cast(node.kind()) {
            Some(TextBlock { parsed, node })
        } else {
            None
        }
    }

    /// The underlying node.
    pub fn syntax(&self) -> (r: &'a SyntaxNode)
        ensures
            *r == self.bnode(),
    {
        self.node
    }

    /// The block's range: from the first content line's text to the end of
    /// the last one's.
    pub fn range(&self) -> (r: TextRange)
        ensures
            r == self.bnode().nrange(),
    {
        self.node.range()
    }

    /// Whether this block is a zero-length placeholder.
    pub fn is_missing(&self) -> (r: bool)
        ensures
            r == (self.bnode().nrange()@.0 == self.bnode().nrange()@.1),
    {
        self.node.range().is_empty()
    }

    /// The per-line `TEXT_LINE` tokens.
    pub fn lines(&self) -> (r: Vec<TokenRef<'a>>)
        ensures
            r@.len() == present_tokens(self.bnode().kids(), SyntaxKind::TEXT_LINE).len(),
            forall|k: int|
                0 <= k < r@.len() ==> (#[trigger] r@[k]).tref() == present_tokens(
                    self.bnode().kids(),
                    SyntaxKind::TEXT_LINE,
                )[k] && r@[k].pref() == self.bparsed(),
    {
        let toks = self.node.tokens(SyntaxKind::TEXT_LINE);
        let mut out: Vec<TokenRef<'a>> = Vec::new();
        let mut i: usize = 0;
        while i < toks.len()
            invariant
                i <= toks@.len(),
                out@.len() == i,
                toks@.len() == present_tokens(self.bnode().kids(), SyntaxKind::TEXT_LINE).len(),
                forall|k: int| 0 <= k < toks@.len() ==> *#[trigger] toks@[k] == present_tokens(
                    self.bnode().kids(),
                    SyntaxKind::TEXT_LINE,
                )[k],
                forall|k: int|
                    0 <= k < i ==> (#[trigger] out@[k]).tref() == present_tokens(
                        self.bnode().kids(),
                        SyntaxKind::TEXT_LINE,
                    )[k] && out@[k].pref() == self.bparsed(),
            decreases toks@.len() - i,
        {
            out.push(TokenRef::new(self.parsed, toks[i]));
            i = i + 1;
        }
        out
    }

    /// The raw source slice of the block's range.
    pub fn text(&self) -> (r: &'a str)
        ensures
            r.spec_bytes() == range_bytes(self.bnode().nrange(), self.bparsed().src_bytes()),
    {
        self.node.range().source_text(self.parsed.source())
    }

    /// The logical text of the block: continuation lines dedented by their
    /// common indentation and joined with `\n`.
    pub fn logical_text(&self) -> (r: String)
        ensures
            crate::cursor::count_lines(range_bytes(self.bnode().nrange(), self.bparsed().src_bytes())) > 0
                ==> vstd::utf8::encode_utf8(r@) == dedent_upto(
                range_bytes(self.bnode().nrange(), self.bparsed().src_bytes()),
                common_indent(range_bytes(self.bnode().nrange(), self.bparsed().src_bytes())),
                crate::cursor::count_lines(range_bytes(self.bnode().nrange(), self.bparsed().src_bytes())),
            ),
    {
        let t = self.text();
        let _src = self.parsed.source();
        proof {
            let rb = range_bytes(self.bnode().nrange(), self.bparsed().src_bytes());
            if crate::text::range_valid(self.bnode().nrange(), self.bparsed().src_bytes()) {
                assert(rb.len() <= self.bparsed().src_bytes().len());
            }
        }
        convert_multiline_with_indentation(t)
    }
}

/// The first non-missing text block child of `kind`.
pub fn find_text_block<'a>(parsed: &'a Parsed, node: &'a SyntaxNode, kind: SyntaxKind) -> (r: Option<TextBlock<'a>>)
    requires
        is_text_block_kind(kind),
    ensures
        match first_nonempty(child_nodes(node.kids(), kind)) {
            Some(n) => r matches Some(t) && t.bnode() == n && t.bparsed() == *parsed,
            None => r is None,
        },
{
    let ns = node.nodes(kind);
    let ghost cn = child_nodes(node.kids(), kind);
    proof {
        crate::syntax::lemma_child_nodes_kind(node.kids(), kind);
        assert(cn.subrange(0, cn.len() as int) =~= cn);
    }
    let mut i: usize = 0;
    while i < ns.len()
        invariant
            i <= ns@.len(),
            ns@.len() == cn.len(),
            cn == child_nodes(node.kids(), kind),
            forall|k: int| 0 <= k < ns@.len() ==> *#[trigger] ns@[k] == cn[k],
            forall|k: int| 0 <= k < cn.len() ==> (#[trigger] cn[k]).nkind() == kind,
            is_text_block_kind(kind),
            first_nonempty(cn) == first_nonempty(cn.subrange(i as int, cn.len() as int)),
        decreases ns@.len() - i,
    {
        let n = ns[i];
        proof {
            let rest = cn.subrange(i as int, cn.len() as int);
            assert(rest[0] == cn[i as int]);
            assert(rest.drop_first() =~= cn.subrange(i + 1, cn.len() as int));
        }
        if !n.range().is_empty() {
            proof {
                assert(n.nkind() == kind);
                let rest = cn.subrange(i as int, cn.len() as int);
                assert(rest[0] == *n);
                assert(first_nonempty(rest) == Some(*n));
                assert(first_nonempty(cn) == Some(*n));
            }
            return TextBlock::cast(parsed, n);
        }
        i = i + 1;
    }
    proof {
        assert(cn.subrange(i as int, cn.len() as int).len() == 0);
    }
    None
}

} // verus!
