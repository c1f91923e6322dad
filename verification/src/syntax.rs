//! Unified syntax tree types.
//!
//! Every parsed docstring is represented as a tree of [`SyntaxNode`]s
//! (branches) and [`SyntaxToken`]s (leaves), each tagged with a
//! [`SyntaxKind`]. [`Parsed`] owns the source text and the root node.
//!
//! A zero-length element is a **missing placeholder**: the parsers insert one
//! wherever a syntactically expected element is absent from the source, at
//! the offset where it would be inserted.

use vstd::prelude::*;
use vstd::string::StringExecFns;
use vstd::string::StringSliceAdditionalSpecFns;
use vstd::utf8::decode_utf8;
use vstd::utf8::encode_utf8;
use vstd::utf8::encode_utf8_decode_utf8;

use crate::parse::Style;
use crate::strs::find_line_start;
use crate::strs::lemma_ascii_run_boundary;
use crate::strs::lemma_line_start;
use crate::strs::lemma_line_start_boundary;
use crate::strs::lemma_skip_blanks;
use crate::strs::lemma_str_valid;
use crate::strs::line_start;
use crate::strs::skip_blanks;
use crate::strs::skip_blanks_from;
use crate::strs::substr;
use crate::text::hi;
use crate::text::lo;
use crate::text::range_bytes;
use crate::text::range_chars;
use crate::text::line_starts_of;
use crate::text::LineColumn;
use crate::text::LineIndex;
use crate::text::TextRange;
use crate::text::TextSize;

verus! {

// =============================================================================
// SyntaxKind
// =============================================================================

/// Node and token kinds for all docstring styles.
#[derive(Debug, Clone, Copy, PartialEq, Eq, Structural, Hash)]
#[allow(non_camel_case_types)]
#[non_exhaustive]
pub enum SyntaxKind {
    /// Section name, parameter/attribute name, or a return/yield name.
    NAME,
    /// Type annotation.
    TYPE,
    /// `:` separator.
    COLON,
    /// `,` separator.
    COMMA,
    /// Prose text block (node wrapping one `TEXT_LINE` token per line).
    DESCRIPTION,
    /// Opening bracket: `(`, `[`, `{`, or `<`.
    OPEN_BRACKET,
    /// Closing bracket: `)`, `]`, `}`, or `>`.
    CLOSE_BRACKET,
    /// `optional` marker.
    OPTIONAL,
    /// Summary block.
    SUMMARY,
    /// Extended summary paragraph.
    EXTENDED_SUMMARY,
    /// The content span of one line inside a text block node.
    TEXT_LINE,
    /// A run of spaces/tabs within a line.
    WHITESPACE,
    /// A single line break: `\n` (or `\r\n` as one two-byte token).
    NEWLINE,
    /// One entire whitespace-only line, including its terminating newline.
    BLANK_LINE,
    /// Section header underline (`----------`).
    UNDERLINE,
    /// RST directive marker (`..`).
    DIRECTIVE_MARKER,
    /// Directive name such as `deprecated`.
    DIRECTIVE_NAME,
    /// RST double colon (`::`).
    DOUBLE_COLON,
    /// Directive argument.
    ARGUMENT,
    /// `default` keyword.
    DEFAULT_KEYWORD,
    /// Default value separator (`=` or `:`).
    DEFAULT_SEPARATOR,
    /// Default value text.
    DEFAULT_VALUE,
    /// Citation label.
    LABEL,
    /// Root node of a parsed docstring.
    DOCUMENT,
    /// A complete section (header + body items).
    SECTION,
    /// Section header.
    SECTION_HEADER,
    /// A single section body entry.
    ENTRY,
    /// An rST directive block.
    DIRECTIVE,
    /// A citation/footnote entry in a References section.
    CITATION,
    /// One `default …` marker occurrence inside a type annotation.
    DEFAULT,
    /// A paragraph of stray prose lines between sections.
    PARAGRAPH,
}

/// Whether `k` is a node (branch) kind.
pub open spec fn kind_is_node(k: SyntaxKind) -> bool {
    k == SyntaxKind::SUMMARY || k == SyntaxKind::EXTENDED_SUMMARY || k == SyntaxKind::DESCRIPTION
        || k == SyntaxKind::DOCUMENT || k == SyntaxKind::SECTION || k == SyntaxKind::SECTION_HEADER
        || k == SyntaxKind::ENTRY || k == SyntaxKind::DIRECTIVE || k == SyntaxKind::CITATION || k
        == SyntaxKind::DEFAULT || k == SyntaxKind::PARAGRAPH
}

/// Whether `k` is a trivia kind (whitespace, newline, blank line).
pub open spec fn kind_is_trivia(k: SyntaxKind) -> bool {
    k == SyntaxKind::WHITESPACE || k == SyntaxKind::NEWLINE || k == SyntaxKind::BLANK_LINE
}

/// The display name of a kind.
pub open spec fn kind_name(k: SyntaxKind) -> &'static str {
    match k {
        SyntaxKind::NAME => "NAME",
        SyntaxKind::TYPE => "TYPE",
        SyntaxKind::COLON => "COLON",
        SyntaxKind::COMMA => "COMMA",
        SyntaxKind::DESCRIPTION => "DESCRIPTION",
        SyntaxKind::OPEN_BRACKET => "OPEN_BRACKET",
        SyntaxKind::CLOSE_BRACKET => "CLOSE_BRACKET",
        SyntaxKind::OPTIONAL => "OPTIONAL",
        SyntaxKind::SUMMARY => "SUMMARY",
        SyntaxKind::EXTENDED_SUMMARY => "EXTENDED_SUMMARY",
        SyntaxKind::TEXT_LINE => "TEXT_LINE",
        SyntaxKind::WHITESPACE => "WHITESPACE",
        SyntaxKind::NEWLINE => "NEWLINE",
        SyntaxKind::BLANK_LINE => "BLANK_LINE",
        SyntaxKind::UNDERLINE => "UNDERLINE",
        SyntaxKind::DIRECTIVE_MARKER => "DIRECTIVE_MARKER",
        SyntaxKind::DIRECTIVE_NAME => "DIRECTIVE_NAME",
        SyntaxKind::DOUBLE_COLON => "DOUBLE_COLON",
        SyntaxKind::ARGUMENT => "ARGUMENT",
        SyntaxKind::DEFAULT_KEYWORD => "DEFAULT_KEYWORD",
        SyntaxKind::DEFAULT_SEPARATOR => "DEFAULT_SEPARATOR",
        SyntaxKind::DEFAULT_VALUE => "DEFAULT_VALUE",
        SyntaxKind::LABEL => "LABEL",
        SyntaxKind::DOCUMENT => "DOCUMENT",
        SyntaxKind::SECTION => "SECTION",
        SyntaxKind::SECTION_HEADER => "SECTION_HEADER",
        SyntaxKind::ENTRY => "ENTRY",
        SyntaxKind::DIRECTIVE => "DIRECTIVE",
        SyntaxKind::CITATION => "CITATION",
        SyntaxKind::DEFAULT => "DEFAULT",
        SyntaxKind::PARAGRAPH => "PARAGRAPH",
    }
}

impl SyntaxKind {
    /// Whether this kind represents a node (branch) rather than a token (leaf).
    pub fn is_node(self) -> (r: bool)
        ensures
            r == kind_is_node(self),
    {
        match self {
            SyntaxKind::SUMMARY | SyntaxKind::EXTENDED_SUMMARY | SyntaxKind::DESCRIPTION
            | SyntaxKind::DOCUMENT | SyntaxKind::SECTION | SyntaxKind::SECTION_HEADER
            | SyntaxKind::ENTRY | SyntaxKind::DIRECTIVE | SyntaxKind::CITATION | SyntaxKind::DEFAULT
            | SyntaxKind::PARAGRAPH => true,
            _ => false,
        }
    }

    /// Whether this kind represents a token (leaf) rather than a node (branch).
    pub fn is_token(self) -> (r: bool)
        ensures
            r == !kind_is_node(self),
    {
        !self.is_node()
    }

    /// Whether this kind is a trivia token (whitespace, newline, blank line).
    pub fn is_trivia(self) -> (r: bool)
        ensures
            r == kind_is_trivia(self),
    {
        match self {
            SyntaxKind::WHITESPACE | SyntaxKind::NEWLINE | SyntaxKind::BLANK_LINE => true,
            _ => false,
        }
    }

    /// Display name for pretty-printing (e.g. `"ENTRY"`, `"NAME"`).
    pub fn name(self) -> (r: &'static str)
        ensures
            r == kind_name(self),
    {
        match self {
            SyntaxKind::NAME => "NAME",
            SyntaxKind::TYPE => "TYPE",
            SyntaxKind::COLON => "COLON",
            SyntaxKind::COMMA => "COMMA",
            SyntaxKind::DESCRIPTION => "DESCRIPTION",
            SyntaxKind::OPEN_BRACKET => "OPEN_BRACKET",
            SyntaxKind::CLOSE_BRACKET => "CLOSE_BRACKET",
            SyntaxKind::OPTIONAL => "OPTIONAL",
            SyntaxKind::SUMMARY => "SUMMARY",
            SyntaxKind::EXTENDED_SUMMARY => "EXTENDED_SUMMARY",
            SyntaxKind::TEXT_LINE => "TEXT_LINE",
            SyntaxKind::WHITESPACE => "WHITESPACE",
            SyntaxKind::NEWLINE => "NEWLINE",
            SyntaxKind::BLANK_LINE => "BLANK_LINE",
            SyntaxKind::UNDERLINE => "UNDERLINE",
            SyntaxKind::DIRECTIVE_MARKER => "DIRECTIVE_MARKER",
            SyntaxKind::DIRECTIVE_NAME => "DIRECTIVE_NAME",
            SyntaxKind::DOUBLE_COLON => "DOUBLE_COLON",
            SyntaxKind::ARGUMENT => "ARGUMENT",
            SyntaxKind::DEFAULT_KEYWORD => "DEFAULT_KEYWORD",
            SyntaxKind::DEFAULT_SEPARATOR => "DEFAULT_SEPARATOR",
            SyntaxKind::DEFAULT_VALUE => "DEFAULT_VALUE",
            SyntaxKind::LABEL => "LABEL",
            SyntaxKind::DOCUMENT => "DOCUMENT",
            SyntaxKind::SECTION => "SECTION",
            SyntaxKind::SECTION_HEADER => "SECTION_HEADER",
            SyntaxKind::ENTRY => "ENTRY",
            SyntaxKind::DIRECTIVE => "DIRECTIVE",
            SyntaxKind::CITATION => "CITATION",
            SyntaxKind::DEFAULT => "DEFAULT",
            SyntaxKind::PARAGRAPH => "PARAGRAPH",
        }
    }
}

// =============================================================================
// SyntaxNode / SyntaxToken / SyntaxElement
// =============================================================================

/// A leaf token in the syntax tree: a contiguous span of source text with a
/// known kind.
#[derive(Debug, PartialEq, Eq)]
pub struct SyntaxToken {
    kind: SyntaxKind,
    range: TextRange,
}

/// A branch node in the syntax tree, holding an ordered list of child
/// [`SyntaxElement`]s.
#[derive(Debug, PartialEq, Eq)]
pub struct SyntaxNode {
    kind: SyntaxKind,
    range: TextRange,
    children: Vec<SyntaxElement>,
}

/// A child element of a [`SyntaxNode`] — either a node or a token.
#[derive(Debug, PartialEq, Eq)]
pub enum SyntaxElement {
    /// A branch node.
    Node(SyntaxNode),
    /// A leaf token.
    Token(SyntaxToken),
}

impl Clone for SyntaxToken {
    fn clone(&self) -> (r: Self)
        ensures
            r == *self,
    {
        SyntaxToken { kind: self.kind, range: self.range }
    }
}

impl Clone for SyntaxNode {
    fn clone(&self) -> (r: Self)
        ensures
            r.nkind() == self.nkind(),
            r.nrange() == self.nrange(),
            r.kids().len() == self.kids().len(),
    {
        clone_node(self)
    }
}

impl Clone for SyntaxElement {
    fn clone(&self) -> (r: Self)
        ensures
            r.ekind() == self.ekind(),
            r.erange() == self.erange(),
    {
        clone_element(self)
    }
}

/// A deep copy of a node.
pub fn clone_node(n: &SyntaxNode) -> (r: SyntaxNode)
    ensures
        r.nkind() == n.nkind(),
        r.nrange() == n.nrange(),
        r.kids().len() == n.kids().len(),
        forall|k: int|
            0 <= k < n.kids().len() ==> (#[trigger] r.kids()[k]).ekind() == n.kids()[k].ekind()
                && r.kids()[k].erange() == n.kids()[k].erange() && (r.kids()[k] is Node) == (n.kids()[k] is Node),
    decreases n, 1nat,
{
    let mut kids: Vec<SyntaxElement> = Vec::new();
    let mut i: usize = 0;
    while i < n.children.len()
        invariant
            i <= n.children@.len(),
            kids@.len() == i,
            forall|k: int|
                0 <= k < i ==> (#[trigger] kids@[k]).ekind() == n.children@[k].ekind()
                    && kids@[k].erange() == n.children@[k].erange() && (kids@[k] is Node) == (n.children@[k] is Node),
        decreases n.children@.len() - i,
    {
        proof {
            assert(decreases_to!(n => n.children));
            assert(decreases_to!(n.children => n.children@[i as int]));
        }
        let e = clone_element(&n.children[i]);
        kids.push(e);
        i = i + 1;
    }
    SyntaxNode { kind: n.kind, range: n.range, children: kids }
}

/// A deep copy of an element.
pub fn clone_element(e: &SyntaxElement) -> (r: SyntaxElement)
    ensures
        r.ekind() == e.ekind(),
        r.erange() == e.erange(),
        (r is Node) == (e is Node),
    decreases e, 0nat,
{
    match e {
        SyntaxElement::Node(n) => SyntaxElement::Node(clone_node(n)),
        SyntaxElement::Token(t) => SyntaxElement::Token(SyntaxToken { kind: t.kind, range: t.range }),
    }
}

impl SyntaxToken {
    /// The token's kind.
    pub closed spec fn tkind(&self) -> SyntaxKind {
        self.kind
    }

    /// The token's range.
    pub closed spec fn trange(&self) -> TextRange {
        self.range
    }

    /// Creates a new token with the given kind and range.
    pub fn new(kind: SyntaxKind, range: TextRange) -> (r: Self)
        ensures
            r.tkind() == kind,
            r.trange() == range,
    {
        SyntaxToken { kind, range }
    }

    /// The kind of this token.
    pub fn kind(&self) -> (r: SyntaxKind)
        ensures
            r == self.tkind(),
    {
        self.kind
    }

    /// The source range of this token.
    pub fn range(&self) -> (r: TextRange)
        ensures
            r == self.trange(),
    {
        self.range
    }

    /// Whether this token is missing from the source (zero-length placeholder).
    pub fn is_missing(&self) -> (r: bool)
        ensures
            r == (self.trange()@.0 == self.trange()@.1),
    {
        self.range.is_empty()
    }

    /// Extract the corresponding text slice from source.
    pub fn text<'a>(&self, source: &'a str) -> (r: &'a str)
        ensures
            r.spec_bytes() == range_bytes(self.trange(), source.spec_bytes()),
    {
        self.range.source_text(source)
    }

    /// A copy of this token.
    pub fn copy(&self) -> (r: Self)
        ensures
            r == *self,
    {
        SyntaxToken { kind: self.kind, range: self.range }
    }

    /// Write a pretty-printed token line; a zero-length (missing
    /// placeholder) token renders as `<missing>`.
    pub fn pretty_fmt(&self, src: &str, indent: usize, out: &mut String)
        ensures
            final(out)@ == old(out)@ + indent_chars(indent as nat) + token_pretty(*self, src.spec_bytes()),
    {
        push_indent(out, indent);
        let line = if self.range.is_empty() {
            format_missing_token(self.kind.name(), &self.range.display())
        } else {
            let text = self.text(src);
            proof {
                encode_utf8_decode_utf8(text@);
            }
            format_token(self.kind.name(), text, &self.range.display())
        };
        out.append(line.as_str());
    }
}

/// A token's pretty-printed line, without indentation: `NAME: <missing>@range`
/// for a zero-length placeholder, else `NAME: "text"@range` with the text
/// in its Debug form.
pub open spec fn token_pretty(t: SyntaxToken, src: Seq<u8>) -> Seq<char> {
    if t.trange()@.0 == t.trange()@.1 {
        kind_name(t.tkind())@ + ": <missing>@"@ + range_chars(t.trange()) + "\n"@
    } else {
        kind_name(t.tkind())@ + ": "@ + spec_debug_str(decode_utf8(range_bytes(t.trange(), src))) + "@"@
            + range_chars(t.trange()) + "\n"@
    }
}

/// `n` levels of two-space indentation.
pub open spec fn indent_chars(n: nat) -> Seq<char>
    decreases n,
{
    if n == 0 {
        Seq::empty()
    } else {
        indent_chars((n - 1) as nat) + "  "@
    }
}

/// Whether `e` is a present (non-missing) token of `kind`.
pub open spec fn present_tok(e: SyntaxElement, kind: SyntaxKind) -> bool {
    match e {
        SyntaxElement::Token(t) => t.tkind() == kind && t.trange()@.0 != t.trange()@.1,
        _ => false,
    }
}

/// Whether `e` is a missing (zero-length) token of `kind`.
pub open spec fn missing_tok(e: SyntaxElement, kind: SyntaxKind) -> bool {
    match e {
        SyntaxElement::Token(t) => t.tkind() == kind && t.trange()@.0 == t.trange()@.1,
        _ => false,
    }
}

/// Whether `e` is a token of `kind`, present or missing.
pub open spec fn any_tok(e: SyntaxElement, kind: SyntaxKind) -> bool {
    match e {
        SyntaxElement::Token(t) => t.tkind() == kind,
        _ => false,
    }
}

/// Whether `e` is a node of `kind`.
pub open spec fn node_of(e: SyntaxElement, kind: SyntaxKind) -> bool {
    match e {
        SyntaxElement::Node(n) => n.nkind() == kind,
        _ => false,
    }
}

/// The token inside an element (arbitrary for a node).
pub open spec fn tok_of(e: SyntaxElement) -> SyntaxToken {
    match e {
        SyntaxElement::Token(t) => t,
        _ => arbitrary(),
    }
}

/// The node inside an element (arbitrary for a token).
pub open spec fn nd_of(e: SyntaxElement) -> SyntaxNode {
    match e {
        SyntaxElement::Node(n) => n,
        _ => arbitrary(),
    }
}

/// The present tokens of `kind` among `s`, in order.
pub open spec fn present_tokens(s: Seq<SyntaxElement>, kind: SyntaxKind) -> Seq<SyntaxToken>
    decreases s.len(),
{
    if s.len() == 0 {
        Seq::empty()
    } else if present_tok(s.last(), kind) {
        present_tokens(s.drop_last(), kind).push(tok_of(s.last()))
    } else {
        present_tokens(s.drop_last(), kind)
    }
}

/// The missing tokens of `kind` among `s`, in order.
pub open spec fn missing_tokens(s: Seq<SyntaxElement>, kind: SyntaxKind) -> Seq<SyntaxToken>
    decreases s.len(),
{
    if s.len() == 0 {
        Seq::empty()
    } else if missing_tok(s.last(), kind) {
        missing_tokens(s.drop_last(), kind).push(tok_of(s.last()))
    } else {
        missing_tokens(s.drop_last(), kind)
    }
}

/// All tokens of `kind` among `s`, present or missing, in order.
pub open spec fn any_tokens(s: Seq<SyntaxElement>, kind: SyntaxKind) -> Seq<SyntaxToken>
    decreases s.len(),
{
    if s.len() == 0 {
        Seq::empty()
    } else if any_tok(s.last(), kind) {
        any_tokens(s.drop_last(), kind).push(tok_of(s.last()))
    } else {
        any_tokens(s.drop_last(), kind)
    }
}

/// The nodes of `kind` among `s`, in order.
pub open spec fn child_nodes(s: Seq<SyntaxElement>, kind: SyntaxKind) -> Seq<SyntaxNode>
    decreases s.len(),
{
    if s.len() == 0 {
        Seq::empty()
    } else if node_of(s.last(), kind) {
        child_nodes(s.drop_last(), kind).push(nd_of(s.last()))
    } else {
        child_nodes(s.drop_last(), kind)
    }
}

/// Every node `child_nodes` lists has the kind asked for.
pub proof fn lemma_child_nodes_kind(s: Seq<SyntaxElement>, kind: SyntaxKind)
    ensures
        forall|k: int| 0 <= k < child_nodes(s, kind).len() ==> (#[trigger] child_nodes(s, kind)[k]).nkind() == kind,
    decreases s.len(),
{
    if s.len() > 0 {
        lemma_child_nodes_kind(s.drop_last(), kind);
        if node_of(s.last(), kind) {
            let p = child_nodes(s.drop_last(), kind);
            assert(child_nodes(s, kind) == p.push(nd_of(s.last())));
            assert forall|k: int| 0 <= k < child_nodes(s, kind).len() implies (#[trigger] child_nodes(s, kind)[k]).nkind() == kind by {
                if k < p.len() {
                    assert(child_nodes(s, kind)[k] == p[k]);
                }
            }
        }
    }
}

/// `r` is a reference to the first element of `s`, or `None` when `s` is
/// empty.
pub open spec fn is_first<T>(r: Option<&T>, s: Seq<T>) -> bool {
    match r {
        Some(t) => s.len() > 0 && *t == s[0],
        None => s.len() == 0,
    }
}

proof fn lemma_present_prefix(s: Seq<SyntaxElement>, kind: SyntaxKind, i: int)
    requires
        0 <= i <= s.len(),
    ensures
        present_tokens(s.take(i), kind).len() <= present_tokens(s, kind).len(),
        forall|k: int|
            0 <= k < present_tokens(s.take(i), kind).len() ==> #[trigger] present_tokens(s.take(i), kind)[k]
                == present_tokens(s, kind)[k],
    decreases s.len() - i,
{
    if i < s.len() {
        lemma_present_prefix(s, kind, i + 1);
        let t = s.take(i + 1);
        assert(t.drop_last() =~= s.take(i));
        assert(present_tokens(t, kind).len() >= present_tokens(s.take(i), kind).len());
        assert forall|k: int| 0 <= k < present_tokens(s.take(i), kind).len() implies #[trigger] present_tokens(s.take(i), kind)[k]
            == present_tokens(s, kind)[k] by {
            assert(present_tokens(t, kind)[k] == present_tokens(s.take(i), kind)[k]);
            assert(present_tokens(t, kind)[k] == present_tokens(s, kind)[k]);
        }
    } else {
        assert(s.take(i) =~= s);
    }
}

proof fn lemma_missing_prefix(s: Seq<SyntaxElement>, kind: SyntaxKind, i: int)
    requires
        0 <= i <= s.len(),
    ensures
        missing_tokens(s.take(i), kind).len() <= missing_tokens(s, kind).len(),
        forall|k: int|
            0 <= k < missing_tokens(s.take(i), kind).len() ==> #[trigger] missing_tokens(s.take(i), kind)[k]
                == missing_tokens(s, kind)[k],
    decreases s.len() - i,
{
    if i < s.len() {
        lemma_missing_prefix(s, kind, i + 1);
        let t = s.take(i + 1);
        assert(t.drop_last() =~= s.take(i));
        assert(missing_tokens(t, kind).len() >= missing_tokens(s.take(i), kind).len());
        assert forall|k: int| 0 <= k < missing_tokens(s.take(i), kind).len() implies #[trigger] missing_tokens(s.take(i), kind)[k]
            == missing_tokens(s, kind)[k] by {
            assert(missing_tokens(t, kind)[k] == missing_tokens(s.take(i), kind)[k]);
            assert(missing_tokens(t, kind)[k] == missing_tokens(s, kind)[k]);
        }
    } else {
        assert(s.take(i) =~= s);
    }
}

proof fn lemma_any_prefix(s: Seq<SyntaxElement>, kind: SyntaxKind, i: int)
    requires
        0 <= i <= s.len(),
    ensures
        any_tokens(s.take(i), kind).len() <= any_tokens(s, kind).len(),
        forall|k: int|
            0 <= k < any_tokens(s.take(i), kind).len() ==> #[trigger] any_tokens(s.take(i), kind)[k]
                == any_tokens(s, kind)[k],
    decreases s.len() - i,
{
    if i < s.len() {
        lemma_any_prefix(s, kind, i + 1);
        let t = s.take(i + 1);
        assert(t.drop_last() =~= s.take(i));
        assert(any_tokens(t, kind).len() >= any_tokens(s.take(i), kind).len());
        assert forall|k: int| 0 <= k < any_tokens(s.take(i), kind).len() implies #[trigger] any_tokens(s.take(i), kind)[k]
            == any_tokens(s, kind)[k] by {
            assert(any_tokens(t, kind)[k] == any_tokens(s.take(i), kind)[k]);
            assert(any_tokens(t, kind)[k] == any_tokens(s, kind)[k]);
        }
    } else {
        assert(s.take(i) =~= s);
    }
}

proof fn lemma_nodes_prefix(s: Seq<SyntaxElement>, kind: SyntaxKind, i: int)
    requires
        0 <= i <= s.len(),
    ensures
        child_nodes(s.take(i), kind).len() <= child_nodes(s, kind).len(),
        forall|k: int|
            0 <= k < child_nodes(s.take(i), kind).len() ==> #[trigger] child_nodes(s.take(i), kind)[k]
                == child_nodes(s, kind)[k],
    decreases s.len() - i,
{
    if i < s.len() {
        lemma_nodes_prefix(s, kind, i + 1);
        let t = s.take(i + 1);
        assert(t.drop_last() =~= s.take(i));
        assert(child_nodes(t, kind).len() >= child_nodes(s.take(i), kind).len());
        assert forall|k: int| 0 <= k < child_nodes(s.take(i), kind).len() implies #[trigger] child_nodes(s.take(i), kind)[k]
            == child_nodes(s, kind)[k] by {
            assert(child_nodes(t, kind)[k] == child_nodes(s.take(i), kind)[k]);
            assert(child_nodes(t, kind)[k] == child_nodes(s, kind)[k]);
        }
    } else {
        assert(s.take(i) =~= s);
    }
}

impl SyntaxNode {
    /// The node's kind.
    pub closed spec fn nkind(&self) -> SyntaxKind {
        self.kind
    }

    /// The node's range.
    pub closed spec fn nrange(&self) -> TextRange {
        self.range
    }

    /// The node's children.
    pub closed spec fn kids(&self) -> Seq<SyntaxElement> {
        self.children@
    }

    /// A child node is structurally smaller than its parent.
    pub proof fn lemma_kid_decreases(self, k: int)
        requires
            0 <= k < self.kids().len(),
            self.kids()[k] is Node,
        ensures
            decreases_to!(self => self.kids()[k]->Node_0),
    {
        assert(decreases_to!(self => self.children));
        assert(decreases_to!(self.children => self.children@[k]));
        assert(decreases_to!(self.children@[k] => self.children@[k]->Node_0));
    }

    /// A child element is structurally smaller than its parent.
    pub proof fn lemma_kid_elem_decreases(self, k: int)
        requires
            0 <= k < self.kids().len(),
        ensures
            decreases_to!(self => self.kids()[k]),
    {
        assert(decreases_to!(self => self.children));
        assert(decreases_to!(self.children => self.children@[k]));
    }

    /// Creates a new node with the given kind, range, and children.
    pub fn new(kind: SyntaxKind, range: TextRange, children: Vec<SyntaxElement>) -> (r: Self)
        ensures
            r.nkind() == kind,
            r.nrange() == range,
            r.kids() == children@,
            all_placed(children@, range) ==> r.well_placed(),
    {
        let r = SyntaxNode { kind, range, children };
        proof {
            if all_placed(children@, range) {
                lemma_placed_from_kids(r);
            }
        }
        r
    }

    /// The kind of this node.
    pub fn kind(&self) -> (r: SyntaxKind)
        ensures
            r == self.nkind(),
    {
        self.kind
    }

    /// The source range of this node.
    pub fn range(&self) -> (r: TextRange)
        ensures
            r == self.nrange(),
    {
        self.range
    }

    /// The ordered child elements.
    pub fn children(&self) -> (r: &[SyntaxElement])
        ensures
            r@ == self.kids(),
    {
        self.children.as_slice()
    }

    /// Take ownership of the child list, leaving it empty.
    pub fn take_children(&mut self) -> (r: Vec<SyntaxElement>)
        ensures
            r@ == old(self).kids(),
            final(self).kids() == Seq::<SyntaxElement>::empty(),
            final(self).nkind() == old(self).nkind(),
            final(self).nrange() == old(self).nrange(),
    {
        let mut out: Vec<SyntaxElement> = Vec::new();
        std::mem::swap(&mut out, &mut self.children);
        out
    }

    /// Replace the child list.
    pub fn set_children(&mut self, children: Vec<SyntaxElement>)
        ensures
            final(self).kids() == children@,
            final(self).nkind() == old(self).nkind(),
            final(self).nrange() == old(self).nrange(),
    {
        self.children = children;
    }

    /// Append a child element.
    pub fn push_child(&mut self, child: SyntaxElement)
        ensures
            final(self).kids() == old(self).kids().push(child),
            final(self).nkind() == old(self).nkind(),
            final(self).nrange() == old(self).nrange(),
    {
        self.children.push(child);
    }

    /// Extend this node's range end to `end`.
    pub fn extend_range_to(&mut self, end: TextSize)
        ensures
            final(self).nrange()@ == (old(self).nrange()@.0, end@),
            final(self).kids() == old(self).kids(),
            final(self).nkind() == old(self).nkind(),
    {
        self.range = TextRange::new(self.range.start(), end);
    }

    /// Find the first present (non-missing) token child with the given kind.
    pub fn find_token(&self, kind: SyntaxKind) -> (r: Option<&SyntaxToken>)
        ensures
            is_first(r, present_tokens(self.kids(), kind)),
    {
        let mut i: usize = 0;
        while i < self.children.len()
            invariant
                i <= self.children@.len(),
                present_tokens(self.children@.take(i as int), kind).len() == 0,
            decreases self.children@.len() - i,
        {
            proof {
                assert(self.children@.take(i + 1).drop_last() =~= self.children@.take(i as int));
            }
            match &self.children[i] {
                SyntaxElement::Token(t) => {
                    if t.kind == kind && !t.range.is_empty() {
                        proof {
                            lemma_present_prefix(self.children@, kind, i + 1);
                            let tk = self.children@.take(i + 1);
                            assert(tk.last() == self.children@[i as int]);
                            assert(present_tokens(tk, kind).len() == 1);
                            assert(present_tokens(tk, kind)[0] == *t);
                        }
                        return Some(t);
                    }
                },
                _ => {},
            }
            i = i + 1;
        }
        proof {
            assert(self.children@.take(i as int) =~= self.children@);
        }
        None
    }

    /// Find the first missing (zero-length) token child with the given kind.
    pub fn find_missing(&self, kind: SyntaxKind) -> (r: Option<&SyntaxToken>)
        ensures
            is_first(r, missing_tokens(self.kids(), kind)),
    {
        let mut i: usize = 0;
        while i < self.children.len()
            invariant
                i <= self.children@.len(),
                missing_tokens(self.children@.take(i as int), kind).len() == 0,
            decreases self.children@.len() - i,
        {
            proof {
                assert(self.children@.take(i + 1).drop_last() =~= self.children@.take(i as int));
            }
            match &self.children[i] {
                SyntaxElement::Token(t) => {
                    if t.kind == kind && t.range.is_empty() {
                        proof {
                            lemma_missing_prefix(self.children@, kind, i + 1);
                            let tk = self.children@.take(i + 1);
                            assert(tk.last() == self.children@[i as int]);
                            assert(missing_tokens(tk, kind).len() == 1);
                            assert(missing_tokens(tk, kind)[0] == *t);
                        }
                        return Some(t);
                    }
                },
                _ => {},
            }
            i = i + 1;
        }
        proof {
            assert(self.children@.take(i as int) =~= self.children@);
        }
        None
    }

    /// Find the first token child with the given kind, present or missing.
    pub fn find_any_token(&self, kind: SyntaxKind) -> (r: Option<&SyntaxToken>)
        ensures
            is_first(r, any_tokens(self.kids(), kind)),
    {
        let mut i: usize = 0;
        while i < self.children.len()
            invariant
                i <= self.children@.len(),
                any_tokens(self.children@.take(i as int), kind).len() == 0,
            decreases self.children@.len() - i,
        {
            proof {
                assert(self.children@.take(i + 1).drop_last() =~= self.children@.take(i as int));
            }
            match &self.children[i] {
                SyntaxElement::Token(t) => {
                    if t.kind == kind {
                        proof {
                            lemma_any_prefix(self.children@, kind, i + 1);
                            let tk = self.children@.take(i + 1);
                            assert(tk.last() == self.children@[i as int]);
                            assert(any_tokens(tk, kind).len() == 1);
                            assert(any_tokens(tk, kind)[0] == *t);
                        }
                        return Some(t);
                    }
                },
                _ => {},
            }
            i = i + 1;
        }
        proof {
            assert(self.children@.take(i as int) =~= self.children@);
        }
        None
    }

    /// Return the first token child with the given kind, present or
    /// missing. The node must hold one.
    pub fn required_token(&self, kind: SyntaxKind) -> (r: &SyntaxToken)
        requires
            any_tokens(self.kids(), kind).len() > 0,
        ensures
            *r == any_tokens(self.kids(), kind)[0],
    {
        match self.find_any_token(kind) {
            Some(t) => t,
            None => unreached(),
        }
    }

    /// The *present* token children with the given kind, in order.
    pub fn tokens(&self, kind: SyntaxKind) -> (r: Vec<&SyntaxToken>)
        ensures
            r@.len() == present_tokens(self.kids(), kind).len(),
            forall|k: int| 0 <= k < r@.len() ==> *#[trigger] r@[k] == present_tokens(self.kids(), kind)[k],
    {
        let mut out: Vec<&SyntaxToken> = Vec::new();
        let mut i: usize = 0;
        while i < self.children.len()
            invariant
                i <= self.children@.len(),
                out@.len() == present_tokens(self.children@.take(i as int), kind).len(),
                forall|k: int|
                    0 <= k < out@.len() ==> *#[trigger] out@[k] == present_tokens(
                        self.children@.take(i as int),
                        kind,
                    )[k],
            decreases self.children@.len() - i,
        {
            proof {
                assert(self.children@.take(i + 1).drop_last() =~= self.children@.take(i as int));
            }
            match &self.children[i] {
                SyntaxElement::Token(t) => {
                    if t.kind == kind && !t.range.is_empty() {
                        out.push(t);
                    }
                },
                _ => {},
            }
            i = i + 1;
        }
        proof {
            assert(self.children@.take(i as int) =~= self.children@);
        }
        out
    }

    /// Find the first child node with the given kind.
    pub fn find_node(&self, kind: SyntaxKind) -> (r: Option<&SyntaxNode>)
        ensures
            is_first(r, child_nodes(self.kids(), kind)),
    {
        let mut i: usize = 0;
        while i < self.children.len()
            invariant
                i <= self.children@.len(),
                child_nodes(self.children@.take(i as int), kind).len() == 0,
            decreases self.children@.len() - i,
        {
            proof {
                assert(self.children@.take(i + 1).drop_last() =~= self.children@.take(i as int));
            }
            match &self.children[i] {
                SyntaxElement::Node(n) => {
                    if n.kind == kind {
                        proof {
                            lemma_nodes_prefix(self.children@, kind, i + 1);
                            let tk = self.children@.take(i + 1);
                            assert(tk.last() == self.children@[i as int]);
                            assert(child_nodes(tk, kind).len() == 1);
                            assert(child_nodes(tk, kind)[0] == *n);
                        }
                        return Some(n);
                    }
                },
                _ => {},
            }
            i = i + 1;
        }
        proof {
            assert(self.children@.take(i as int) =~= self.children@);
        }
        None
    }

    /// All child nodes with the given kind, in order.
    pub fn nodes(&self, kind: SyntaxKind) -> (r: Vec<&SyntaxNode>)
        ensures
            r@.len() == child_nodes(self.kids(), kind).len(),
            forall|k: int| 0 <= k < r@.len() ==> *#[trigger] r@[k] == child_nodes(self.kids(), kind)[k],
    {
        let mut out: Vec<&SyntaxNode> = Vec::new();
        let mut i: usize = 0;
        while i < self.children.len()
            invariant
                i <= self.children@.len(),
                out@.len() == child_nodes(self.children@.take(i as int), kind).len(),
                forall|k: int|
                    0 <= k < out@.len() ==> *#[trigger] out@[k] == child_nodes(
                        self.children@.take(i as int),
                        kind,
                    )[k],
            decreases self.children@.len() - i,
        {
            proof {
                assert(self.children@.take(i + 1).drop_last() =~= self.children@.take(i as int));
            }
            match &self.children[i] {
                SyntaxElement::Node(n) => {
                    if n.kind == kind {
                        out.push(n);
                    }
                },
                _ => {},
            }
            i = i + 1;
        }
        proof {
            assert(self.children@.take(i as int) =~= self.children@);
        }
        out
    }

    /// Write a pretty-printed tree representation.
    pub fn pretty_fmt(&self, src: &str, indent: usize, out: &mut String)
        requires
            indent < usize::MAX,
        ensures
            final(out)@ == old(out)@ + self.pretty(src.spec_bytes(), indent as nat),
        decreases self,
    {
        let ghost start = out@;
        let ghost b = src.spec_bytes();
        push_indent(out, indent);
        let head = format_node_head(self.kind.name(), &self.range.display());
        out.append(head.as_str());
        let ghost opened = out@;
        proof {
            assert(opened =~= start + self.pretty_head(indent as nat));
        }
        let mut i: usize = 0;
        while i < self.children.len()
            invariant
                indent < usize::MAX,
                b == src.spec_bytes(),
                i <= self.kids().len(),
                out@ == opened + self.kids_pretty(b, (indent + 1) as nat, i as int),
            decreases self.children@.len() - i,
        {
            let ghost before = out@;
            match &self.children[i] {
                SyntaxElement::Node(n) => {
                    proof {
                        assert(decreases_to!(self => self.children));
                        assert(decreases_to!(self.children => self.children@[i as int]));
                    }
                    if indent + 1 < usize::MAX {
                        n.pretty_fmt(src, indent + 1, out);
                    }
                },
                SyntaxElement::Token(t) => t.pretty_fmt(src, indent + 1, out),
            }
            proof {
                assert(out@ =~= opened + self.kids_pretty(b, (indent + 1) as nat, i + 1));
            }
            i = i + 1;
        }
        push_indent(out, indent);
        let close = "}\n";
        out.append(close);
        proof {
            assert(out@ =~= start + self.pretty(b, indent as nat));
        }
    }

    /// The node's head line, indented: `NAME@start..end {`.
    pub open spec fn pretty_head(self, indent: nat) -> Seq<char> {
        indent_chars(indent) + kind_name(self.nkind())@ + "@"@ + range_chars(self.nrange()) + " {\n"@
    }

    /// The pretty-printed tree below this node at depth `indent`: the head
    /// line, each child one level deeper, then the closing brace. A child
    /// node that would sit at depth `usize::MAX` is left out.
    pub open spec fn pretty(self, src: Seq<u8>, indent: nat) -> Seq<char>
        decreases self, 1int, 0int,
    {
        self.pretty_head(indent) + self.kids_pretty(src, indent + 1, self.kids().len() as int) + indent_chars(
            indent,
        ) + "}\n"@
    }

    /// The first `k` children pretty-printed at depth `indent`.
    pub open spec fn kids_pretty(self, src: Seq<u8>, indent: nat, k: int) -> Seq<char>
        decreases self, 0int, k,
    {
        if k <= 0 || k > self.kids().len() {
            Seq::empty()
        } else {
            self.kids_pretty(src, indent, k - 1) + match self.kids()[k - 1] {
                SyntaxElement::Node(n) => {
                    proof {
                        self.lemma_kid_decreases(k - 1);
                    }
                    if indent < usize::MAX {
                        n.pretty(src, indent)
                    } else {
                        Seq::empty()
                    }
                },
                SyntaxElement::Token(t) => indent_chars(indent) + token_pretty(t, src),
            }
        }
    }
}

/// The span of the indentation of the line holding byte `offset` (clamped
/// to the end of `b`): from the line's start over its spaces and tabs.
pub open spec fn indent_span(b: Seq<u8>, offset: int) -> (int, int) {
    let o = if offset > b.len() {
        b.len() as int
    } else {
        offset
    };
    (line_start(b, o), skip_blanks(b, line_start(b, o)))
}

/// The end of the first `BLANK_LINE` token that starts at byte `at`, in a
/// depth-first walk of the children of `n` from the `i`-th on.
pub open spec fn blank_end_from(n: SyntaxNode, i: int, at: int) -> Option<int>
    decreases n, n.kids().len() - i,
{
    if i < 0 || i >= n.kids().len() {
        None
    } else {
        match n.kids()[i] {
            SyntaxElement::Token(t) => {
                if t.tkind() == SyntaxKind::BLANK_LINE && lo(t.trange()) == at {
                    Some(hi(t.trange()))
                } else {
                    blank_end_from(n, i + 1, at)
                }
            },
            SyntaxElement::Node(c) => {
                proof {
                    n.lemma_kid_decreases(i);
                }
                match blank_end_from(c, 0, at) {
                    Some(x) => Some(x),
                    None => blank_end_from(n, i + 1, at),
                }
            },
        }
    }
}

impl SyntaxNode {
    /// The end of the first `BLANK_LINE` token anywhere in this subtree
    /// (depth-first) that starts exactly at `at`.
    pub fn blank_line_end_at(&self, at: TextSize) -> (r: Option<TextSize>)
        ensures
            blank_end_from(*self, 0, at@ as int) == match r {
                Some(x) => Some(x@ as int),
                None => None::<int>,
            },
        decreases self,
    {
        self.blank_end_scan(0, at)
    }

    /// [`blank_line_end_at`](SyntaxNode::blank_line_end_at) over the
    /// children from the `i`-th on.
    fn blank_end_scan(&self, i: usize, at: TextSize) -> (r: Option<TextSize>)
        requires
            i <= self.kids().len(),
        ensures
            blank_end_from(*self, i as int, at@ as int) == match r {
                Some(x) => Some(x@ as int),
                None => None::<int>,
            },
        decreases self, self.kids().len() - i,
    {
        let kids = self.children();
        if i >= kids.len() {
            return None;
        }
        match &kids[i] {
            SyntaxElement::Token(t) => {
                if t.kind() == SyntaxKind::BLANK_LINE && t.range().start().raw() == at.raw() {
                    return Some(t.range().end());
                }
                self.blank_end_scan(i + 1, at)
            },
            SyntaxElement::Node(c) => {
                proof {
                    self.lemma_kid_decreases(i as int);
                }
                match c.blank_end_scan(0, at) {
                    Some(x) => Some(x),
                    None => self.blank_end_scan(i + 1, at),
                }
            },
        }
    }
}

/// Append `indent` copies of two spaces.
fn push_indent(out: &mut String, indent: usize)
    ensures
        final(out)@ == old(out)@ + indent_chars(indent as nat),
{
    let ghost start = out@;
    let mut k: usize = 0;
    while k < indent
        invariant
            k <= indent,
            out@ == start + indent_chars(k as nat),
        decreases indent - k,
    {
        let ghost before = out@;
        let two = "  ";
        out.append(two);
        proof {
            reveal_strlit("  ");
            assert(out@ =~= start + indent_chars((k + 1) as nat));
        }
        k = k + 1;
    }
}

/// A node's head line: `NAME@start..end {` and a newline.
fn format_node_head(name: &str, range: &str) -> (r: String)
    ensures
        r@ == name@ + "@"@ + range@ + " {\n"@,
{
    let mut out = name.to_owned();
    out.append("@");
    out.append(range);
    out.append(" {\n");
    out
}

/// What `format!("{:?}", s)` writes for the string `s`: its Debug form.
pub uninterp spec fn spec_debug_str(s: Seq<char>) -> Seq<char>;

/// `format!("{:?}", text)`: the Debug form of `text` (quoted and escaped).
/// Its exact characters are left to std's `Debug for str`; the contract
/// says only that they are a function of `text`.
#[verifier::external_body]
fn debug_str(text: &str) -> (r: String)
    ensures
        r@ == spec_debug_str(text@),
{
    format!("{:?}", text)
}

/// A present token's line: `NAME: "text"@start..end` and a newline.
fn format_token(name: &str, text: &str, range: &str) -> (r: String)
    ensures
        r@ == name@ + ": "@ + spec_debug_str(text@) + "@"@ + range@ + "\n"@,
{
    let mut out = name.to_owned();
    out.append(": ");
    let quoted = debug_str(text);
    out.append(quoted.as_str());
    out.append("@");
    out.append(range);
    out.append("\n");
    out
}

/// A missing token's line: `NAME: <missing>@start..end` and a newline.
fn format_missing_token(name: &str, range: &str) -> (r: String)
    ensures
        r@ == name@ + ": <missing>@"@ + range@ + "\n"@,
{
    let mut out = name.to_owned();
    out.append(": <missing>@");
    out.append(range);
    out.append("\n");
    out
}

// =============================================================================
// Placement: containment and source order
// =============================================================================

/// A range that is not inverted and lies within `[a, z]`.
pub open spec fn range_in(r: TextRange, a: int, z: int) -> bool {
    a <= lo(r) <= hi(r) <= z
}

/// Elements in source order: their start offsets never decrease.
pub open spec fn sorted_by_start(s: Seq<SyntaxElement>) -> bool {
    forall|k: int, l: int| 0 <= k < l < s.len() ==> lo((#[trigger] s[k]).erange()) <= lo((#[trigger] s[l]).erange())
}

/// A child list placed inside `r`: every child's range lies within `r`,
/// and the children appear in source order.
pub open spec fn kids_placed(s: Seq<SyntaxElement>, r: TextRange) -> bool {
    &&& forall|k: int| 0 <= k < s.len() ==> range_in((#[trigger] s[k]).erange(), lo(r), hi(r))
    &&& sorted_by_start(s)
}

impl SyntaxNode {
    /// The tree below this node is well placed: at every node the children
    /// lie within the node's range and appear in source order.
    pub open spec fn well_placed(self) -> bool
        decreases self, 1int,
    {
        &&& kids_placed(self.kids(), self.nrange())
        &&& forall|k: int|
            0 <= k < self.kids().len() && (#[trigger] self.kids()[k]) is Node ==> self.kid_placed(k)
    }

    /// The child node at `k` is well placed.
    pub open spec fn kid_placed(self, k: int) -> bool
        decreases self, 0int,
    {
        if 0 <= k < self.kids().len() && self.kids()[k] is Node {
            proof {
                self.lemma_kid_decreases(k);
            }
            (self.kids()[k]->Node_0).well_placed()
        } else {
            true
        }
    }
}

/// An element is well placed: a token whose range is not inverted, or a
/// well-placed node whose range is not inverted.
pub open spec fn elem_placed(e: SyntaxElement) -> bool {
    lo(e.erange()) <= hi(e.erange()) && match e {
        SyntaxElement::Node(n) => n.well_placed(),
        SyntaxElement::Token(_) => true,
    }
}

/// Well-placed elements in source order, all within `[a, z]`.
pub open spec fn elems_in(s: Seq<SyntaxElement>, a: int, z: int) -> bool {
    &&& forall|k: int| 0 <= k < s.len() ==> range_in((#[trigger] s[k]).erange(), a, z) && elem_placed(s[k])
    &&& sorted_by_start(s)
}

/// Children placed inside `r`, each well placed itself.
pub open spec fn all_placed(s: Seq<SyntaxElement>, r: TextRange) -> bool {
    elems_in(s, lo(r), hi(r))
}

/// Nothing is trivially placed.
pub proof fn lemma_elems_empty(s: Seq<SyntaxElement>, a: int, z: int)
    requires
        s.len() == 0,
    ensures
        elems_in(s, a, z),
{
}

/// One more element at or after the last start keeps a list placed.
pub proof fn lemma_elems_push(s: Seq<SyntaxElement>, x: SyntaxElement, a: int, z: int)
    requires
        elems_in(s, a, z),
        range_in(x.erange(), a, z),
        elem_placed(x),
        s.len() > 0 ==> lo(s.last().erange()) <= lo(x.erange()),
    ensures
        elems_in(s.push(x), a, z),
{
    let t = s.push(x);
    assert forall|k: int, l: int| 0 <= k < l < t.len() implies lo((#[trigger] t[k]).erange()) <= lo(
        (#[trigger] t[l]).erange(),
    ) by {
        if l == t.len() - 1 {
            assert(t[k] == s[k]);
            assert(lo(s[k].erange()) <= lo(s.last().erange()));
        } else {
            assert(t[k] == s[k] && t[l] == s[l]);
        }
    }
    assert forall|k: int| 0 <= k < t.len() implies range_in((#[trigger] t[k]).erange(), a, z) && elem_placed(t[k]) by {
        if k < s.len() {
            assert(t[k] == s[k]);
        }
    }
}

/// Placed lists stay placed in wider bounds.
pub proof fn lemma_elems_widen(s: Seq<SyntaxElement>, a: int, z: int, a2: int, z2: int)
    requires
        elems_in(s, a, z),
        a2 <= a,
        z <= z2,
    ensures
        elems_in(s, a2, z2),
{
    assert forall|k: int| 0 <= k < s.len() implies range_in((#[trigger] s[k]).erange(), a2, z2) && elem_placed(s[k]) by {
        assert(range_in(s[k].erange(), a, z));
    }
}

/// A placed list followed by a placed list lying after it is placed.
pub proof fn lemma_elems_concat(s: Seq<SyntaxElement>, t: Seq<SyntaxElement>, a: int, m: int, z: int)
    requires
        elems_in(s, a, m),
        elems_in(t, m, z),
        a <= m <= z,
    ensures
        elems_in(s + t, a, z),
{
    let u = s + t;
    assert forall|k: int| 0 <= k < u.len() implies range_in((#[trigger] u[k]).erange(), a, z) && elem_placed(u[k]) by {
        if k < s.len() {
            assert(u[k] == s[k]);
            assert(range_in(s[k].erange(), a, m));
        } else {
            assert(u[k] == t[k - s.len()]);
            assert(range_in(t[k - s.len()].erange(), m, z));
        }
    }
    assert forall|k: int, l: int| 0 <= k < l < u.len() implies lo((#[trigger] u[k]).erange()) <= lo(
        (#[trigger] u[l]).erange(),
    ) by {
        if l < s.len() {
            assert(u[k] == s[k] && u[l] == s[l]);
        } else if k >= s.len() {
            assert(u[k] == t[k - s.len()] && u[l] == t[l - s.len()]);
        } else {
            assert(u[k] == s[k] && u[l] == t[l - s.len()]);
            assert(range_in(s[k].erange(), a, m));
            assert(range_in(t[l - s.len()].erange(), m, z));
        }
    }
}

/// A node whose children are placed inside its range, each well placed,
/// is well placed.
pub proof fn lemma_placed_from_kids(n: SyntaxNode)
    requires
        all_placed(n.kids(), n.nrange()),
    ensures
        n.well_placed(),
{
    assert forall|k: int| 0 <= k < n.kids().len() && (#[trigger] n.kids()[k]) is Node implies n.kid_placed(k) by {
        assert(elem_placed(n.kids()[k]));
    }
}

/// The children of a well-placed node are placed inside its range, each
/// well placed.
pub proof fn lemma_kids_of_placed(n: SyntaxNode)
    requires
        n.well_placed(),
    ensures
        all_placed(n.kids(), n.nrange()),
{
    assert forall|k: int| 0 <= k < n.kids().len() implies elem_placed(#[trigger] n.kids()[k]) by {
        assert(range_in(n.kids()[k].erange(), lo(n.nrange()), hi(n.nrange())));
        if n.kids()[k] is Node {
            assert(n.kid_placed(k));
        }
    }
}

impl SyntaxElement {
    /// The range of an element.
    pub open spec fn erange(&self) -> TextRange {
        match self {
            SyntaxElement::Node(n) => n.nrange(),
            SyntaxElement::Token(t) => t.trange(),
        }
    }

    /// The kind of an element.
    pub open spec fn ekind(&self) -> SyntaxKind {
        match self {
            SyntaxElement::Node(n) => n.nkind(),
            SyntaxElement::Token(t) => t.tkind(),
        }
    }

    /// The source range of this element.
    pub fn range(&self) -> (r: TextRange)
        ensures
            r == self.erange(),
    {
        match self {
            SyntaxElement::Node(n) => n.range(),
            SyntaxElement::Token(t) => t.range(),
        }
    }

    /// The kind of this element.
    pub fn kind(&self) -> (r: SyntaxKind)
        ensures
            r == self.ekind(),
    {
        match self {
            SyntaxElement::Node(n) => n.kind(),
            SyntaxElement::Token(t) => t.kind(),
        }
    }
}

// =============================================================================
// Parsed
// =============================================================================

/// The result of parsing a docstring: owns the source text and the root
/// [`SyntaxNode`], and records the [`Style`] it was parsed as.
#[derive(Debug, PartialEq, Eq)]
pub struct Parsed {
    source: String,
    root: SyntaxNode,
    style: Style,
    line_index: LineIndex,
}

impl Clone for Parsed {
    fn clone(&self) -> (r: Self)
        ensures
            r.text() == self.text(),
            r.style_of() == self.style_of(),
            r.root_node().nkind() == self.root_node().nkind(),
            r.root_node().nrange() == self.root_node().nrange(),
            crate::parse::trivia::node_marks(r.root_node().kids()) == crate::parse::trivia::node_marks(
                self.root_node().kids(),
            ),
    {
        proof {
            use_type_invariant(self);
        }
        let source = self.source.clone();
        let line_index = LineIndex::new(source.as_str());
        let root = clone_node(&self.root);
        proof {
            crate::parse::trivia::lemma_marks_same(root.kids(), self.root.kids());
        }
        Parsed { source, root, style: self.style, line_index }
    }
}

impl Parsed {
    #[verifier::type_invariant]
    spec fn inv(&self) -> bool {
        &&& self.line_index@ == line_starts_of(encode_utf8(self.source@))
        &&& self.line_index.wf()
        &&& encode_utf8(self.source@).len() < u32::MAX
        &&& encode_utf8(self.source@).len() <= usize::MAX / 8
    }

    /// The source text, as characters.
    pub closed spec fn text(&self) -> Seq<char> {
        self.source@
    }

    /// The source text, as UTF-8 bytes.
    pub open spec fn src_bytes(&self) -> Seq<u8> {
        encode_utf8(self.text())
    }

    /// The root node.
    pub closed spec fn root_node(&self) -> SyntaxNode {
        self.root
    }

    /// The recorded style.
    pub closed spec fn style_of(&self) -> Style {
        self.style
    }

    /// Creates a new `Parsed` from source text, root node, and source style.
    ///
    /// A `Parsed` is expected to come from one of this crate's parsers; a
    /// hand-built tree that breaks their laws gives unspecified (but
    /// memory-safe) results from the typed views.
    pub fn new(source: String, root: SyntaxNode, style: Style) -> (r: Self)
        requires
            encode_utf8(source@).len() < u32::MAX,
            encode_utf8(source@).len() <= usize::MAX / 8,
        ensures
            r.text() == source@,
            r.root_node() == root,
            r.style_of() == style,
    {
        let line_index = LineIndex::new(source.as_str());
        Parsed { source, root, style, line_index }
    }

    /// The full source text.
    pub fn source(&self) -> (r: &str)
        ensures
            r@ == self.text(),
            r.spec_bytes() == self.src_bytes(),
            self.src_bytes().len() < u32::MAX,
            self.src_bytes().len() <= usize::MAX / 8,
    {
        proof {
            use_type_invariant(self);
        }
        self.source.as_str()
    }

    /// The root node of the syntax tree.
    pub fn root(&self) -> (r: &SyntaxNode)
        ensures
            *r == self.root_node(),
    {
        &self.root
    }

    /// The style this docstring was parsed as.
    pub fn style(&self) -> (r: Style)
        ensures
            r == self.style_of(),
    {
        self.style
    }

    /// Convert a byte offset to a [`LineColumn`] position: `lineno` is the
    /// 1-based number of the last line starting at or before `offset`, `col`
    /// the byte distance from that line's start.
    pub fn line_col(&self, offset: TextSize) -> (r: LineColumn)
        ensures
            1 <= r.lineno <= line_starts_of(self.src_bytes()).len(),
            line_starts_of(self.src_bytes())[r.lineno - 1] <= offset@,
            r.lineno < line_starts_of(self.src_bytes()).len() ==> offset@ < line_starts_of(
                self.src_bytes(),
            )[r.lineno as int],
            r.col == offset@ - line_starts_of(self.src_bytes())[r.lineno - 1],
    {
        proof {
            use_type_invariant(self);
        }
        self.line_index.line_col(offset)
    }

    /// The indentation of the line that holds `offset` (clamped to the end
    /// of the source): the spaces and tabs at the start of that line.
    pub fn line_indent(&self, offset: TextSize) -> (r: &str)
        ensures
            r.spec_bytes() == self.src_bytes().subrange(
                indent_span(self.src_bytes(), offset@ as int).0,
                indent_span(self.src_bytes(), offset@ as int).1,
            ),
    {
        let src = self.source();
        let b = src.as_bytes();
        let o = if offset.to_usize() > b.len() {
            b.len()
        } else {
            offset.to_usize()
        };
        let ls = find_line_start(b, o);
        proof {
            lemma_line_start(b@, o as int);
        }
        let e = skip_blanks_from(b, ls);
        proof {
            lemma_str_valid(src);
            lemma_skip_blanks(b@, ls as int);
            lemma_line_start_boundary(b@, o as int);
            lemma_ascii_run_boundary(b@, ls as int, e as int);
        }
        substr(src, ls, e)
    }

    /// Produce a pretty-printed representation of the tree (a debugging
    /// aid; the format is not stable).
    pub fn pretty_print(&self) -> (r: String)
        ensures
            r@ == self.root_node().pretty(encode_utf8(self.text()), 0),
    {
        let mut out = String::new();
        self.root.pretty_fmt(self.source.as_str(), 0, &mut out);
        out
    }
}

// =============================================================================
// Visitor
// =============================================================================

/// One callback of a depth-first traversal, with the element it was given.
pub enum WalkEvent {
    /// `Visitor::enter` on a node.
    Enter(SyntaxNode),
    /// `Visitor::visit_token` on a token leaf.
    Token(SyntaxToken),
    /// `Visitor::leave` on a node.
    Leave(SyntaxNode),
}

/// The callbacks a walk of `node` makes, in order: entering it, then each
/// child in source order (a node walked the same way, a token visited),
/// then leaving it.
pub open spec fn walk_events(node: SyntaxNode) -> Seq<WalkEvent>
    decreases node, 1int, 0int,
{
    seq![WalkEvent::Enter(node)] + child_events(node, node.kids().len() as int) + seq![WalkEvent::Leave(node)]
}

/// The callbacks made for the first `k` children of `node`.
pub open spec fn child_events(node: SyntaxNode, k: int) -> Seq<WalkEvent>
    decreases node, 0int, k,
{
    if k <= 0 || k > node.kids().len() {
        Seq::empty()
    } else {
        child_events(node, k - 1) + match node.kids()[k - 1] {
            SyntaxElement::Node(n) => {
                proof {
                    node.lemma_kid_decreases(k - 1);
                }
                walk_events(n)
            },
            SyntaxElement::Token(t) => seq![WalkEvent::Token(t)],
        }
    }
}

/// Trait for visiting syntax tree nodes and tokens; pass an implementation
/// to [`walk_tree`] for depth-first traversal. `log` is the sequence of
/// callbacks an implementation has received; each callback appends itself.
pub trait Visitor {
    /// The callbacks received so far; an implementation that keeps no log
    /// keeps this default.
    open spec fn log(&self) -> Seq<WalkEvent> {
        Seq::empty()
    }

    /// Called when entering a node (before visiting its children).
    fn enter(&mut self, node: &SyntaxNode)
        ensures
            final(self).log() == old(self).log().push(WalkEvent::Enter(*node)),
    ;

    /// Called when leaving a node (after visiting its children).
    fn leave(&mut self, node: &SyntaxNode)
        ensures
            final(self).log() == old(self).log().push(WalkEvent::Leave(*node)),
    ;

    /// Called for each token leaf.
    fn visit_token(&mut self, token: &SyntaxToken)
        ensures
            final(self).log() == old(self).log().push(WalkEvent::Token(*token)),
    ;
}

/// Walk the raw syntax tree depth-first, calling the visitor methods: every
/// node and token of the tree, kind-agnostic, in the order of
/// [`walk_events`].
pub fn walk_tree<V: Visitor>(node: &SyntaxNode, visitor: &mut V)
    ensures
        final(visitor).log() == old(visitor).log() + walk_events(*node),
    decreases node,
{
    let ghost start = visitor.log();
    visitor.enter(node);
    let mut i: usize = 0;
    while i < node.children.len()
        invariant
            i <= node.children@.len(),
            node.kids() == node.children@,
            visitor.log() == start + seq![WalkEvent::Enter(*node)] + child_events(*node, i as int),
        decreases node.children@.len() - i,
    {
        match &node.children[i] {
            SyntaxElement::Node(n) => {
                proof {
                    assert(decreases_to!(node => node.children));
                    assert(decreases_to!(node.children => node.children@[i as int]));
                }
                walk_tree(n, visitor);
            },
            SyntaxElement::Token(t) => visitor.visit_token(t),
        }
        proof {
            assert(child_events(*node, i + 1) == child_events(*node, i as int) + match node.kids()[i as int] {
                SyntaxElement::Node(n) => walk_events(n),
                SyntaxElement::Token(t) => seq![WalkEvent::Token(t)],
            });
        }
        i = i + 1;
    }
    visitor.leave(node);
    proof {
        assert(walk_events(*node) == seq![WalkEvent::Enter(*node)] + child_events(*node, node.kids().len() as int) + seq![WalkEvent::Leave(*node)]);
    }
}

} // verus!
