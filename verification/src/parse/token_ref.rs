//! Source-aware token handle returned by the typed views: a token bundled
//! with the [`Parsed`] result it belongs to, so its text needs no source
//! argument.

use vstd::prelude::*;
use vstd::string::StringSliceAdditionalSpecFns;

use crate::syntax::any_tokens;
use crate::syntax::present_tokens;
use crate::syntax::Parsed;
use crate::syntax::SyntaxNode;
use crate::syntax::SyntaxKind;
use crate::syntax::SyntaxToken;
use crate::text::range_bytes;
use crate::text::TextRange;

verus! {

/// A [`SyntaxToken`] bundled with the [`Parsed`] result it belongs to.
#[derive(Debug, Clone, Copy)]
pub struct TokenRef<'a> {
    parsed: &'a Parsed,
    token: &'a SyntaxToken,
}

impl<'a> TokenRef<'a> {
    /// The token.
    pub closed spec fn tref(&self) -> SyntaxToken {
        *self.token
    }

    /// The parse result it belongs to.
    pub closed spec fn pref(&self) -> Parsed {
        *self.parsed
    }

    /// Bundle `token` with the [`Parsed`] result it belongs to.
    pub fn new(parsed: &'a Parsed, token: &'a SyntaxToken) -> (r: Self)
        ensures
            r.tref() == *token,
            r.pref() == *parsed,
    {
        TokenRef { parsed, token }
    }

    /// The underlying raw [`SyntaxToken`].
    pub fn syntax(&self) -> (r: &'a SyntaxToken)
        ensures
            *r == self.tref(),
    {
        self.token
    }

    /// The kind of this token.
    pub fn kind(&self) -> (r: SyntaxKind)
        ensures
            r == self.tref().tkind(),
    {
        self.token.kind()
    }

    /// The source range of this token.
    pub fn range(&self) -> (r: TextRange)
        ensures
            r == self.tref().trange(),
    {
        self.token.range()
    }

    /// Whether this token is a zero-length placeholder.
    pub fn is_missing(&self) -> (r: bool)
        ensures
            r == (self.tref().trange()@.0 == self.tref().trange()@.1),
    {
        self.token.is_missing()
    }

    /// The token's text, sliced from the parse result's source.
    pub fn text(&self) -> (r: &'a str)
        ensures
            r.spec_bytes() == range_bytes(self.tref().trange(), self.pref().src_bytes()),
    {
        self.token.text(self.parsed.source())
    }
}


/// The first token of `s`, if any.
pub open spec fn first_tok(s: Seq<SyntaxToken>) -> Option<SyntaxToken> {
    if s.len() > 0 {
        Some(s[0])
    } else {
        None
    }
}

/// The token a handle holds, if any.
pub open spec fn ref_tok(r: Option<TokenRef>) -> Option<SyntaxToken> {
    match r {
        Some(t) => Some(t.tref()),
        None => None,
    }
}

/// The first present child token of `kind` of `node`, as a handle.
pub fn find_token_ref<'a>(parsed: &'a Parsed, node: &'a SyntaxNode, kind: SyntaxKind) -> (r: Option<TokenRef<'a>>)
    ensures
        ref_tok(r) == first_tok(present_tokens(node.kids(), kind)),
        r matches Some(t) ==> t.pref() == *parsed,
{
    match node.find_token(kind) {
        Some(t) => Some(TokenRef::new(parsed, t)),
        None => None,
    }
}

/// All present child tokens of `kind` of `node`, as handles, in order.
pub fn token_refs<'a>(parsed: &'a Parsed, node: &'a SyntaxNode, kind: SyntaxKind) -> (r: Vec<TokenRef<'a>>)
    ensures
        r@.len() == present_tokens(node.kids(), kind).len(),
        forall|k: int|
            0 <= k < r@.len() ==> (#[trigger] r@[k]).tref() == present_tokens(node.kids(), kind)[k] && r@[k].pref()
                == *parsed,
{
    let toks = node.tokens(kind);
    let mut out: Vec<TokenRef<'a>> = Vec::new();
    let mut i: usize = 0;
    while i < toks.len()
        invariant
            i <= toks@.len(),
            out@.len() == i,
            toks@.len() == present_tokens(node.kids(), kind).len(),
            forall|k: int| 0 <= k < toks@.len() ==> *#[trigger] toks@[k] == present_tokens(node.kids(), kind)[k],
            forall|k: int|
                0 <= k < i ==> (#[trigger] out@[k]).tref() == present_tokens(node.kids(), kind)[k] && out@[k].pref()
                    == *parsed,
        decreases toks@.len() - i,
    {
        out.push(TokenRef::new(parsed, toks[i]));
        i = i + 1;
    }
    out
}

/// The first child token of `kind` (present or missing), which the node
/// is required to have, as a handle.
pub fn required_token_ref<'a>(parsed: &'a Parsed, node: &'a SyntaxNode, kind: SyntaxKind) -> (r: TokenRef<'a>)
    requires
        any_tokens(node.kids(), kind).len() > 0,
    ensures
        r.tref() == any_tokens(node.kids(), kind)[0],
        r.pref() == *parsed,
{
    TokenRef::new(parsed, node.required_token(kind))
}

} // verus!
