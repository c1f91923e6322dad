//! Anchor-based structural matching of [`Pattern`]s against parsed
//! docstrings.
//!
//! A pattern matches by structural unification of a reading's fragment tree
//! (in pattern coordinates) against candidate subtrees of the target (in
//! target coordinates). [`Pattern::matches`] searches the whole document;
//! [`Pattern::matches_in`] scopes the search to an anchor node.
//!
//! Matching is style-strict: a pattern only matches targets of the style it
//! was parsed with. Trees unify element by element: nodes of equal kinds
//! with unifying child lists; `WHITESPACE` and `NEWLINE` are skipped on both
//! sides (so matching is indentation-relative); `BLANK_LINE` is structure
//! but its text is not compared, nor is an `UNDERLINE`'s; every other token
//! pairs with a target token of the same kind and byte-identical text, so a
//! missing placeholder matches only a missing one.
//!
//! A `$X` site binds one target element of the same kind (never a missing
//! one). A `$$$X` site is a hole in its sibling list: siblings before it
//! match forwards, siblings after it backwards, and the hole binds the
//! possibly empty middle; an empty capture sits where sequence content would
//! be inserted. Repeated metavariables must bind byte-identical text. A
//! reading with an inexact site, or with two `$$$` holes in one sibling
//! list, contributes no matches.
//!
//! Candidates are visited in document pre-order, readings in enumeration
//! order, and a candidate overlapping an accepted match is skipped: the
//! matches are non-overlapping.

use vstd::prelude::*;
use vstd::string::StringSliceAdditionalSpecFns;

use crate::model::SectionKind;
use crate::parse::unified::has_header_name;
use crate::parse::Style;
use crate::parse::unified::Section;
use crate::pattern::same_kind;
use crate::pattern::same_section_kind;
use crate::pattern::site::node_at_path;
use crate::pattern::site::copy_path;
use crate::pattern::FragmentKind;
use crate::pattern::Pattern;
use crate::pattern::Reading;
use crate::strs::bytes_eq;
use crate::syntax::elem_placed;
use crate::syntax::lemma_kids_of_placed;
use crate::syntax::range_in;
use crate::syntax::Parsed;
use crate::syntax::SyntaxElement;
use crate::syntax::SyntaxKind;
use crate::syntax::SyntaxNode;
use crate::syntax::SyntaxToken;
use crate::text::hi;
use crate::text::lo;
use crate::text::TextRange;

verus! {

// =============================================================================
// Public types
// =============================================================================

/// A reference to one captured target element.
#[derive(Debug, Clone, Copy)]
pub enum CapturedElement<'t> {
    /// A captured branch node.
    Node(&'t SyntaxNode),
    /// A captured leaf token.
    Token(&'t SyntaxToken),
}

impl<'t> CapturedElement<'t> {
    /// The kind of the captured element.
    pub fn kind(&self) -> (r: SyntaxKind)
        ensures
            r == match self {
                CapturedElement::Node(n) => n.nkind(),
                CapturedElement::Token(t) => t.tkind(),
            },
    {
        match self {
            CapturedElement::Node(n) => n.kind(),
            CapturedElement::Token(t) => t.kind(),
        }
    }

    /// The source range of the captured element, in target coordinates.
    pub fn range(&self) -> (r: TextRange)
        ensures
            r == match self {
                CapturedElement::Node(n) => n.nrange(),
                CapturedElement::Token(t) => t.trange(),
            },
    {
        match self {
            CapturedElement::Node(n) => n.range(),
            CapturedElement::Token(t) => t.range(),
        }
    }
}

/// What a metavariable bound in one [`Match`]: one element for `$X`, the
/// bound sibling slice (possibly empty) for `$$$X`. Ranges and texts are
/// in target coordinates.
#[derive(Debug)]
pub struct Capture<'t> {
    source: &'t str,
    range: TextRange,
    multi: bool,
    elements: Vec<CapturedElement<'t>>,
}

impl<'t> Capture<'t> {
    /// The target source.
    pub closed spec fn csource(&self) -> &'t str {
        self.source
    }

    /// The captured span.
    pub closed spec fn crange(&self) -> TextRange {
        self.range
    }

    /// Whether a `$$$X` bound it.
    pub closed spec fn cmulti(&self) -> bool {
        self.multi
    }

    /// The captured elements.
    pub closed spec fn celements(&self) -> Seq<CapturedElement<'t>> {
        self.elements@
    }

    /// The captured span in target coordinates (zero-length for an empty
    /// `$$$X` capture, where the sequence would be inserted).
    pub fn range(&self) -> (r: TextRange)
        ensures
            r == self.crange(),
    {
        self.range
    }

    /// The original target bytes of the captured span.
    pub fn text(&self) -> (r: &'t str)
        ensures
            r.spec_bytes() == crate::text::range_bytes(self.crange(), self.csource().spec_bytes()),
    {
        self.range.source_text(self.source)
    }

    /// Whether this capture was bound by a `$$$X` sequence variable.
    pub fn is_multi(&self) -> (r: bool)
        ensures
            r == self.cmulti(),
    {
        self.multi
    }

    /// The captured target elements.
    pub fn elements(&self) -> (r: &[CapturedElement<'t>])
        ensures
            r@ == self.celements(),
    {
        self.elements.as_slice()
    }

    /// The single captured element, when the capture holds exactly one.
    pub fn element(&self) -> (r: Option<CapturedElement<'t>>)
        ensures
            self.celements().len() == 1 ==> r == Some(self.celements()[0]),
            self.celements().len() != 1 ==> r is None,
    {
        if self.elements.len() == 1 {
            Some(self.elements[0])
        } else {
            None
        }
    }

    /// A copy of this capture.
    pub fn copy(&self) -> (r: Self)
        ensures
            r.csource() == self.csource(),
            r.crange() == self.crange(),
            r.cmulti() == self.cmulti(),
            r.celements() == self.celements(),
    {
        let mut elements: Vec<CapturedElement<'t>> = Vec::new();
        let mut i: usize = 0;
        while i < self.elements.len()
            invariant
                i <= self.elements@.len(),
                elements@ == self.elements@.take(i as int),
            decreases self.elements@.len() - i,
        {
            elements.push(self.elements[i]);
            proof {
                assert(elements@ =~= self.elements@.take(i + 1));
            }
            i = i + 1;
        }
        proof {
            assert(self.elements@.take(i as int) =~= self.elements@);
        }
        Capture { source: self.source, range: self.range, multi: self.multi, elements }
    }
}

/// One non-overlapping match of a [`Pattern`] against a target document.
#[derive(Debug)]
pub struct Match<'t> {
    source: &'t str,
    range: TextRange,
    reading: &'t Reading,
    captures: Vec<(String, Capture<'t>)>,
}

impl<'t> Match<'t> {
    /// The target source.
    pub closed spec fn msource(&self) -> &'t str {
        self.source
    }

    /// The matched span.
    pub closed spec fn mrange(&self) -> TextRange {
        self.range
    }

    /// The reading under which the pattern matched.
    pub closed spec fn mreading(&self) -> Reading {
        *self.reading
    }

    /// The captures.
    pub closed spec fn mcaptures(&self) -> Seq<(String, Capture<'t>)> {
        self.captures@
    }

    /// The matched span, in target coordinates.
    pub fn range(&self) -> (r: TextRange)
        ensures
            r == self.mrange(),
    {
        self.range
    }

    /// The matched span's original target bytes.
    pub fn text(&self) -> (r: &'t str)
        ensures
            r.spec_bytes() == crate::text::range_bytes(self.mrange(), self.msource().spec_bytes()),
    {
        self.range.source_text(self.source)
    }

    /// The reading under which the pattern matched.
    pub fn reading(&self) -> (r: &'t Reading)
        ensures
            *r == self.mreading(),
    {
        self.reading
    }

    /// The captures, one per distinct metavariable name, in pattern source
    /// order of first occurrence.
    pub fn captures(&self) -> (r: &[(String, Capture<'t>)])
        ensures
            r@ == self.mcaptures(),
    {
        self.captures.as_slice()
    }

    /// The capture bound to metavariable `name` (without the sigil), if the
    /// match has one.
    pub fn capture(&self, name: &str) -> (r: Option<&Capture<'t>>)
        ensures
            match r {
                Some(c) => exists|i: int|
                    0 <= i < self.mcaptures().len() && self.mcaptures()[i].0@ == name@ && *c == self.mcaptures()[i].1
                        && forall|j: int| 0 <= j < i ==> (#[trigger] self.mcaptures()[j]).0@ != name@,
                None => forall|i: int| 0 <= i < self.mcaptures().len() ==> (#[trigger] self.mcaptures()[i]).0@ != name@,
            },
    {
        let mut i: usize = 0;
        while i < self.captures.len()
            invariant
                i <= self.captures@.len(),
                forall|j: int| 0 <= j < i ==> (#[trigger] self.captures@[j]).0@ != name@,
            decreases self.captures@.len() - i,
        {
            if str_eq(self.captures[i].0.as_str(), name) {
                let c = &self.captures[i].1;
                proof {
                    let ii = i as int;
                    assert(0 <= ii < self.mcaptures().len() && self.mcaptures()[ii].0@ == name@ && *c
                        == self.mcaptures()[ii].1 && forall|j: int| 0 <= j < ii ==> (#[trigger] self.mcaptures()[j]).0@ != name@);
                }
                return Some(c);
            }
            i = i + 1;
        }
        None
    }
}

/// Whether two strings are equal.
fn str_eq(a: &str, b: &str) -> (r: bool)
    ensures
        r == (a@ == b@),
{
    let r = bytes_eq(a.as_bytes(), b.as_bytes());
    proof {
        vstd::utf8::encode_utf8_decode_utf8(a@);
        vstd::utf8::encode_utf8_decode_utf8(b@);
    }
    r
}

/// `a` is `n` itself or a node among the subtrees of `n`'s children from
/// the `i`-th on.
pub open spec fn holds_from(n: SyntaxNode, a: SyntaxNode, i: int) -> bool
    decreases n, n.kids().len() - i,
{
    if i < 0 || i >= n.kids().len() {
        n == a
    } else {
        match n.kids()[i] {
            SyntaxElement::Node(c) => {
                proof {
                    n.lemma_kid_decreases(i);
                }
                holds(c, a) || holds_from(n, a, i + 1)
            },
            SyntaxElement::Token(_) => holds_from(n, a, i + 1),
        }
    }
}

/// `a` is `n` or a node of its subtree.
pub open spec fn holds(n: SyntaxNode, a: SyntaxNode) -> bool
    decreases n, n.kids().len() + 1,
{
    holds_from(n, a, 0)
}

/// What [`holds_from`] gives from a later index on.
proof fn lemma_holds_later(n: SyntaxNode, a: SyntaxNode, i: int, j: int)
    requires
        0 <= i <= j,
        holds_from(n, a, j),
    ensures
        holds_from(n, a, i),
    decreases j - i,
{
    if i < j {
        lemma_holds_later(n, a, i + 1, j);
    }
}

/// A node holds itself.
proof fn lemma_holds_self(n: SyntaxNode)
    ensures
        holds(n, n),
{
    lemma_holds_later(n, n, 0, n.kids().len() as int);
}

/// A child node's subtree lies within its parent's.
proof fn lemma_holds_kid(n: SyntaxNode, k: int, a: SyntaxNode)
    requires
        0 <= k < n.kids().len(),
        n.kids()[k] is Node,
        holds(n.kids()[k]->Node_0, a),
    ensures
        holds(n, a),
{
    lemma_holds_later(n, a, 0, k);
}

/// What a node's subtree holds, its ancestors' subtrees hold.
proof fn lemma_holds_trans(r: SyntaxNode, n: SyntaxNode, a: SyntaxNode)
    requires
        holds(r, n),
        holds(n, a),
    ensures
        holds(r, a),
    decreases r,
{
    lemma_holds_trans_from(r, n, a, 0);
}

proof fn lemma_holds_trans_from(r: SyntaxNode, n: SyntaxNode, a: SyntaxNode, i: int)
    requires
        0 <= i,
        holds_from(r, n, i),
        holds(n, a),
    ensures
        holds(r, a),
    decreases r, r.kids().len() - i,
{
    if i < r.kids().len() {
        match r.kids()[i] {
            SyntaxElement::Node(c) => {
                r.lemma_kid_decreases(i);
                if holds(c, n) {
                    lemma_holds_trans(c, n, a);
                    lemma_holds_kid(r, i, a);
                } else {
                    lemma_holds_trans_from(r, n, a, i + 1);
                }
            },
            SyntaxElement::Token(_) => {
                lemma_holds_trans_from(r, n, a, i + 1);
            },
        }
    }
}

/// `std::ptr::eq` on two node references: whether they point at the same
/// node. Two references to one node refer to equal values; equal values
/// may live at different addresses, so nothing is claimed of a `false`.
#[verifier::external_body]
fn same_node(a: &SyntaxNode, b: &SyntaxNode) -> (r: bool)
    ensures
        r ==> *a == *b,
{
    std::ptr::eq(a, b)
}

// =============================================================================
// Section headers
// =============================================================================

/// Whether a section node carries a header name (the parsers always write
/// one; a tree without it is matched as if the section had no kind).
fn header_named(node: &SyntaxNode) -> (r: bool)
    ensures
        r == has_header_name(*node),
{
    match node.find_node(SyntaxKind::SECTION_HEADER) {
        Some(h) => match h.find_any_token(SyntaxKind::NAME) {
            Some(_) => true,
            None => false,
        },
        None => false,
    }
}


// =============================================================================
// Per-reading match plan
// =============================================================================

/// Pre-computed matchability data for one reading.
struct ReadingPlan {
    /// Whether the matcher can use the reading at all: every site exact,
    /// at most one `$$$` hole per sibling list.
    usable: bool,
    /// Each exact site's full path, with its index in the metavariable
    /// table.
    sites: Vec<(Vec<usize>, usize)>,
}

impl ReadingPlan {
    /// Every site index is an index of the table of `vars`.
    spec fn fits(&self, nvars: int) -> bool {
        forall|k: int| 0 <= k < self.sites@.len() ==> (#[trigger] self.sites@[k]).1 < nvars
    }

    fn new(reading: &Reading) -> (r: Self)
        ensures
            r.fits(reading.rvars().len() as int),
    {
        let vars = reading.metavars();
        let mut sites: Vec<(Vec<usize>, usize)> = Vec::new();
        let mut usable = true;
        let mut hole_parents: Vec<Vec<usize>> = Vec::new();
        let mut index: usize = 0;
        while index < vars.len()
            invariant
                vars@ == reading.rvars(),
                index <= vars@.len(),
                forall|k: int| 0 <= k < sites@.len() ==> (#[trigger] sites@[k]).1 < vars@.len(),
            decreases vars@.len() - index,
        {
            let mv = &vars[index];
            let site = mv.site();
            if !site.is_exact() {
                usable = false;
            } else {
                let path = site.path();
                sites.push((copy_path(path), index));
                if mv.is_multi() && path.len() > 0 {
                    let mut parent: Vec<usize> = Vec::new();
                    let mut q: usize = 0;
                    while q < path.len() - 1
                        invariant
                            path@.len() > 0,
                        decreases path@.len() - q,
                    {
                        parent.push(path[q]);
                        q = q + 1;
                    }
                    let mut seen = false;
                    let mut j: usize = 0;
                    while j < hole_parents.len()
                        decreases hole_parents@.len() - j,
                    {
                        if paths_equal(hole_parents[j].as_slice(), parent.as_slice()) {
                            seen = true;
                        }
                        j = j + 1;
                    }
                    if seen {
                        usable = false;
                    }
                    hole_parents.push(parent);
                }
            }
            index = index + 1;
        }
        ReadingPlan { usable, sites }
    }

    /// The table index of the exact site at `path` (the last one listed).
    fn site_at(&self, path: &[usize]) -> (r: Option<usize>)
        ensures
            r matches Some(mv) ==> exists|k: int| 0 <= k < self.sites@.len() && (#[trigger] self.sites@[k]).1 == mv,
    {
        let mut found: Option<usize> = None;
        let mut k: usize = 0;
        while k < self.sites.len()
            invariant
                k <= self.sites@.len(),
                found matches Some(mv) ==> exists|j: int| 0 <= j < self.sites@.len() && (#[trigger] self.sites@[j]).1 == mv,
            decreases self.sites@.len() - k,
        {
            if paths_equal(self.sites[k].0.as_slice(), path) {
                found = Some(self.sites[k].1);
                proof {
                    assert(self.sites@[k as int].1 == self.sites[k as int].1);
                }
            }
            k = k + 1;
        }
        found
    }
}

/// Whether two paths are equal.
fn paths_equal(a: &[usize], b: &[usize]) -> (r: bool)
    ensures
        r == (a@ == b@),
{
    if a.len() != b.len() {
        return false;
    }
    let mut i: usize = 0;
    while i < a.len()
        invariant
            a@.len() == b@.len(),
            i <= a@.len(),
            forall|j: int| 0 <= j < i ==> a@[j] == b@[j],
        decreases a@.len() - i,
    {
        if a[i] != b[i] {
            return false;
        }
        i = i + 1;
    }
    proof {
        assert(a@ =~= b@);
    }
    true
}

// =============================================================================
// Candidate enumeration
// =============================================================================

/// Two ranges overlap.
pub open spec fn overlaps(a: TextRange, b: TextRange) -> bool {
    lo(a) < hi(b) && lo(b) < hi(a)
}

/// Exec form of [`overlaps`].
fn ranges_overlap(a: TextRange, b: TextRange) -> (r: bool)
    ensures
        r == overlaps(a, b),
{
    a.start().raw() < b.end().raw() && b.start().raw() < a.end().raw()
}

/// The matches found so far are pairwise non-overlapping, over the target
/// source, each under one of the pattern's readings.
pub open spec fn matches_ok(ms: Seq<Match>, source: Seq<char>, readings: Seq<Reading>) -> bool {
    &&& forall|a: int, b: int| 0 <= a < b < ms.len() ==> !overlaps(#[trigger] ms[a].mrange(), #[trigger] ms[b].mrange())
    &&& forall|a: int|
        0 <= a < ms.len() ==> (#[trigger] ms[a]).msource()@ == source && exists|i: int|
            0 <= i < readings.len() && ms[a].mreading() == readings[i]
}

/// Every capture of `m` lies inside the match's span, over its source.
pub open spec fn captures_within(m: Match) -> bool {
    forall|i: int|
        0 <= i < m.mcaptures().len() ==> range_in((#[trigger] m.mcaptures()[i]).1.crange(), lo(m.mrange()), hi(m.mrange()))
            && m.mcaptures()[i].1.csource() == m.msource()
}

/// Every binding so far lies within `[a, z]`, over the target source `src`.
spec fn binds_in<'t>(bs: Seq<(&'t str, Capture<'t>)>, a: int, z: int, src: &'t str) -> bool {
    forall|i: int| 0 <= i < bs.len() ==> range_in((#[trigger] bs[i]).1.crange(), a, z) && bs[i].1.csource() == src
}

/// One search run over a target.
struct Search<'t> {
    target: &'t Parsed,
    anchor: &'t SyntaxNode,
    allow_document: bool,
    readings: &'t [Reading],
    plans: Vec<ReadingPlan>,
    matches: Vec<Match<'t>>,
}

impl<'t> Search<'t> {
    spec fn wf(&self) -> bool {
        &&& self.plans@.len() == self.readings@.len()
        &&& forall|i: int|
            0 <= i < self.plans@.len() ==> (#[trigger] self.plans@[i]).fits(self.readings@[i].rvars().len() as int)
        &&& matches_ok(self.matches@, self.target.text(), self.readings@)
        &&& elem_placed(SyntaxElement::Node(self.target.root_node())) ==> forall|i: int|
            0 <= i < self.matches@.len() ==> captures_within(#[trigger] self.matches@[i])
    }

    /// Visit `node` and its subtree in pre-order.
    fn visit(
        &mut self,
        node: &'t SyntaxNode,
        inside: bool,
        section_kind: Option<&SectionKind>,
        parent_kind: Option<SyntaxKind>,
    )
        requires
            old(self).wf(),
            elem_placed(SyntaxElement::Node(old(self).target.root_node())) ==> elem_placed(SyntaxElement::Node(*node)),
            holds(old(self).target.root_node(), *node),
            inside ==> holds(old(self).target.root_node(), *old(self).anchor),
        ensures
            final(self).wf(),
            final(self).target == old(self).target,
            final(self).readings == old(self).readings,
            final(self).anchor == old(self).anchor,
            !holds(old(self).target.root_node(), *old(self).anchor) ==> final(self).matches@ == old(self).matches@,
        decreases node,
    {
        let ghost placed = elem_placed(SyntaxElement::Node(self.target.root_node()));
        let ghost root = self.target.root_node();
        let ghost m0 = self.matches@;
        let inside = inside || same_node(node, self.anchor);
        let own_kind: Option<SectionKind> = if node.kind() == SyntaxKind::SECTION && header_named(node) {
            match Section::cast(self.target, node) {
                Some(section) => Some(section.kind()),
                None => None,
            }
        } else {
            None
        };
        let sk: Option<&SectionKind> = match &own_kind {
            Some(k) => Some(k),
            None => section_kind,
        };
        if inside {
            self.try_site(node, sk, parent_kind);
        }
        let kids = node.children();
        let mut i: usize = 0;
        while i < kids.len()
            invariant
                kids@ == node.kids(),
                self.wf(),
                self.target == old(self).target,
                self.readings == old(self).readings,
                placed == elem_placed(SyntaxElement::Node(self.target.root_node())),
                placed ==> elem_placed(SyntaxElement::Node(*node)),
                root == self.target.root_node(),
                self.anchor == old(self).anchor,
                holds(root, *node),
                inside ==> holds(root, *self.anchor),
                !holds(root, *self.anchor) ==> self.matches@ == m0,
            decreases kids@.len() - i,
        {
            match &kids[i] {
                SyntaxElement::Node(n) => {
                    proof {
                        node.lemma_kid_decreases(i as int);
                        lemma_holds_self(*n);
                        lemma_holds_kid(*node, i as int, *n);
                        lemma_holds_trans(root, *node, *n);
                        if placed {
                            lemma_kids_of_placed(*node);
                            assert(elem_placed(kids@[i as int]));
                        }
                    }
                    self.visit(n, inside, sk, Some(node.kind()));
                },
                SyntaxElement::Token(_) => {},
            }
            i = i + 1;
        }
    }

    /// Try every reading against one candidate node, in reading order.
    fn try_site(&mut self, node: &'t SyntaxNode, section_kind: Option<&SectionKind>, parent_kind: Option<SyntaxKind>)
        requires
            old(self).wf(),
            elem_placed(SyntaxElement::Node(old(self).target.root_node())) ==> elem_placed(SyntaxElement::Node(*node)),
        ensures
            final(self).wf(),
            final(self).target == old(self).target,
            final(self).readings == old(self).readings,
            final(self).anchor == old(self).anchor,
    {
        let mut r: usize = 0;
        while r < self.readings.len()
            invariant
                self.wf(),
                self.target == old(self).target,
                self.readings == old(self).readings,
                self.anchor == old(self).anchor,
                elem_placed(SyntaxElement::Node(self.target.root_node())) ==> elem_placed(SyntaxElement::Node(*node)),
            decreases self.readings@.len() - r,
        {
            let readings: &'t [Reading] = self.readings;
            let reading: &'t Reading = &readings[r];
            let plan = &self.plans[r];
            if plan.usable && admits(reading, node, section_kind, parent_kind, self.allow_document) {
                let range = node.range();
                let mut overlap = false;
                let mut a: usize = 0;
                while a < self.matches.len()
                    invariant
                        a <= self.matches@.len(),
                        !overlap ==> forall|b: int| 0 <= b < a ==> !overlaps(#[trigger] self.matches@[b].mrange(), range),
                    decreases self.matches@.len() - a,
                {
                    if ranges_overlap(self.matches[a].range, range) {
                        overlap = true;
                    }
                    a = a + 1;
                }
                if !overlap {
                    let target: &'t Parsed = self.target;
                    let tsrc: &'t str = target.source();
                    let mut unifier = Unifier {
                        reading,
                        plan,
                        psrc: reading.parsed().source(),
                        tsrc,
                        bindings: Vec::new(),
                        placed: Ghost(elem_placed(SyntaxElement::Node(*node))),
                        a: Ghost(lo(node.nrange())),
                        z: Ghost(hi(node.nrange())),
                    };
                    match unifier.unify_fragment(node) {
                        Some(captures) => {
                            let ghost before = self.matches@;
                            self.matches.push(Match { source: tsrc, range, reading, captures });
                            proof {
                                assert forall|x: int, y: int| 0 <= x < y < self.matches@.len() implies !overlaps(
                                    #[trigger] self.matches@[x].mrange(),
                                    #[trigger] self.matches@[y].mrange(),
                                ) by {
                                    if y < before.len() {
                                        assert(self.matches@[x] == before[x] && self.matches@[y] == before[y]);
                                    } else {
                                        assert(self.matches@[x] == before[x]);
                                        assert(!overlaps(before[x].mrange(), range));
                                    }
                                }
                                if elem_placed(SyntaxElement::Node(self.target.root_node())) {
                                    assert forall|x: int| 0 <= x < self.matches@.len() implies captures_within(
                                        #[trigger] self.matches@[x],
                                    ) by {
                                        if x < before.len() {
                                            assert(self.matches@[x] == before[x]);
                                        }
                                    }
                                }
                                assert forall|x: int| 0 <= x < self.matches@.len() implies (#[trigger] self.matches@[x]).msource()@
                                    == self.target.text() && exists|i: int|
                                    0 <= i < self.readings@.len() && self.matches@[x].mreading() == self.readings@[i] by {
                                    if x < before.len() {
                                        assert(self.matches@[x] == before[x]);
                                    } else {
                                        assert(self.matches@[x].msource()@ == self.target.text());
                                        assert(0 <= r < self.readings@.len() && self.matches@[x].mreading()
                                            == self.readings@[r as int]);
                                    }
                                }
                            }
                        },
                        None => {},
                    }
                }
            }
            r = r + 1;
        }
    }
}

/// Whether `reading` may be tried against candidate `node` in its grammar
/// context: an entry reading at a node of its fragment's kind inside a
/// section of one of its roles; a body reading at the `DESCRIPTION` body of
/// a free-text section; a section reading at any `SECTION`; a document
/// reading at the `DOCUMENT` root when document readings take part.
fn admits(
    reading: &Reading,
    node: &SyntaxNode,
    section_kind: Option<&SectionKind>,
    parent_kind: Option<SyntaxKind>,
    allow_document: bool,
) -> (r: bool)
    ensures
        r == match reading.rkind() {
            FragmentKind::Entry => {
                &&& node_at_path(reading.rparsed().root_node(), reading.rpath()) matches Some(f)
                    && node.nkind() == f.nkind()
                &&& section_kind matches Some(k) && exists|j: int|
                    0 <= j < reading.rkinds().len() && same_kind(#[trigger] reading.rkinds()[j], *k)
            },
            FragmentKind::Body => node.nkind() == SyntaxKind::DESCRIPTION && parent_kind == Some(SyntaxKind::SECTION)
                && section_kind matches Some(SectionKind::FreeText(_)),
            FragmentKind::Section => node.nkind() == SyntaxKind::SECTION,
            FragmentKind::Document => allow_document && node.nkind() == SyntaxKind::DOCUMENT,
        },
{
    match reading.fragment_kind() {
        FragmentKind::Entry => {
            if node.kind() != reading.fragment().kind() {
                return false;
            }
            match section_kind {
                Some(kind) => {
                    let kinds = reading.section_kinds();
                    let mut j: usize = 0;
                    while j < kinds.len()
                        invariant
                            kinds@ == reading.rkinds(),
                            reading.rkind() == FragmentKind::Entry,
                            node_at_path(reading.rparsed().root_node(), reading.rpath()) matches Some(f)
                                && node.nkind() == f.nkind(),
                            section_kind == Some(kind),
                            forall|x: int| 0 <= x < j ==> !same_kind(#[trigger] kinds@[x], *kind),
                        decreases kinds@.len() - j,
                    {
                        if same_section_kind(&kinds[j], kind) {
                            proof {
                                assert(same_kind(reading.rkinds()[j as int], *kind));
                            }
                            return true;
                        }
                        j = j + 1;
                    }
                    false
                },
                None => false,
            }
        },
        FragmentKind::Body => {
            node.kind() == SyntaxKind::DESCRIPTION && match parent_kind {
                Some(k) => k == SyntaxKind::SECTION,
                None => false,
            } && match section_kind {
                Some(SectionKind::FreeText(_)) => true,
                _ => false,
            }
        },
        FragmentKind::Section => node.kind() == SyntaxKind::SECTION,
        FragmentKind::Document => allow_document && node.kind() == SyntaxKind::DOCUMENT,
    }
}

/// Whether matching skips this token kind entirely (trivia).
fn skipped(kind: SyntaxKind) -> (r: bool)
    ensures
        r == (kind == SyntaxKind::WHITESPACE || kind == SyntaxKind::NEWLINE),
{
    match kind {
        SyntaxKind::WHITESPACE | SyntaxKind::NEWLINE => true,
        _ => false,
    }
}

/// Token kinds whose text is layout, compared by kind only.
fn text_is_layout(kind: SyntaxKind) -> (r: bool)
    ensures
        r == (kind == SyntaxKind::BLANK_LINE || kind == SyntaxKind::UNDERLINE),
{
    match kind {
        SyntaxKind::BLANK_LINE | SyntaxKind::UNDERLINE => true,
        _ => false,
    }
}

/// The captured form of a target element.
fn captured<'t>(element: &'t SyntaxElement) -> (r: CapturedElement<'t>)
    ensures
        match *element {
            SyntaxElement::Node(n) => r matches CapturedElement::Node(m) && *m == n,
            SyntaxElement::Token(t) => r matches CapturedElement::Token(u) && *u == t,
        },
{
    match element {
        SyntaxElement::Node(n) => CapturedElement::Node(n),
        SyntaxElement::Token(t) => CapturedElement::Token(t),
    }
}

/// The indices of the children of `n` that matching does not skip.
fn unskipped(n: &SyntaxNode) -> (r: Vec<usize>)
    ensures
        forall|k: int| 0 <= k < r@.len() ==> #[trigger] r@[k] < n.kids().len(),
        forall|k: int, l: int| 0 <= k < l < r@.len() ==> #[trigger] r@[k] < #[trigger] r@[l],
{
    let kids = n.children();
    let mut out: Vec<usize> = Vec::new();
    let mut i: usize = 0;
    while i < kids.len()
        invariant
            kids@ == n.kids(),
            i <= kids@.len(),
            forall|k: int| 0 <= k < out@.len() ==> #[trigger] out@[k] < i,
            forall|k: int, l: int| 0 <= k < l < out@.len() ==> #[trigger] out@[k] < #[trigger] out@[l],
        decreases kids@.len() - i,
    {
        if !skipped(kids[i].kind()) {
            out.push(i);
        }
        i = i + 1;
    }
    out
}

// =============================================================================
// Structural unification
// =============================================================================

/// One unification attempt of a reading's fragment against one candidate.
struct Unifier<'a, 't> {
    reading: &'t Reading,
    plan: &'a ReadingPlan,
    psrc: &'t str,
    tsrc: &'t str,
    bindings: Vec<(&'t str, Capture<'t>)>,
    /// Whether the candidate is well placed, and its span.
    placed: Ghost<bool>,
    a: Ghost<int>,
    z: Ghost<int>,
}

impl<'a, 't> Unifier<'a, 't> {
    spec fn wf(&self) -> bool {
        &&& self.plan.fits(self.reading.rvars().len() as int)
        &&& self.placed@ ==> binds_in(self.bindings@, self.a@, self.z@, self.tsrc)
    }

    /// `b` keeps the fixed parts of `a`.
    spec fn same_frame(a: Self, b: Self) -> bool {
        &&& b.reading == a.reading
        &&& b.plan == a.plan
        &&& b.tsrc == a.tsrc
        &&& b.placed == a.placed
        &&& b.a == a.a
        &&& b.z == a.z
    }

    /// A target element the unification may bind: well placed within the
    /// candidate's span when the candidate is.
    spec fn bindable(&self, e: SyntaxElement) -> bool {
        self.placed@ ==> elem_placed(e) && range_in(e.erange(), self.a@, self.z@)
    }

    /// Unify the fragment root against the candidate; on success the
    /// captures, in pattern source order of first occurrence.
    fn unify_fragment(&mut self, node: &'t SyntaxNode) -> (r: Option<Vec<(String, Capture<'t>)>>)
        requires
            old(self).wf(),
            old(self).bindings@.len() == 0,
            old(self).a@ == lo(node.nrange()),
            old(self).z@ == hi(node.nrange()),
            old(self).placed@ == elem_placed(SyntaxElement::Node(*node)),
        ensures
            r matches Some(cs) ==> (elem_placed(SyntaxElement::Node(*node)) ==> forall|i: int|
                0 <= i < cs@.len() ==> range_in((#[trigger] cs@[i]).1.crange(), lo(node.nrange()), hi(node.nrange()))
                    && cs@[i].1.csource() == old(self).tsrc),
    {
        let mut path = copy_path(self.reading.fragment_path());
        let vars = self.reading.metavars();
        let ok = match self.plan.site_at(path.as_slice()) {
            Some(mv) => {
                let multi = vars[mv].is_multi();
                let mut elements: Vec<CapturedElement<'t>> = Vec::new();
                elements.push(CapturedElement::Node(node));
                (multi || !node.range().is_empty()) && self.bind(
                    mv,
                    Capture { source: self.tsrc, range: node.range(), multi, elements },
                )
            },
            None => {
                let fragment = self.reading.fragment();
                fragment.kind() == node.kind() && self.unify_children(fragment, node, &mut path)
            },
        };
        if !ok {
            return None;
        }
        let mut captures: Vec<(String, Capture<'t>)> = Vec::new();
        let mut k: usize = 0;
        while k < vars.len()
            invariant
                vars@ == self.reading.rvars(),
                self.wf(),
                Self::same_frame(*old(self), *self),
                self.placed@ ==> forall|i: int|
                    0 <= i < captures@.len() ==> range_in((#[trigger] captures@[i]).1.crange(), self.a@, self.z@)
                        && captures@[i].1.csource() == self.tsrc,
            decreases vars@.len() - k,
        {
            let name = vars[k].name();
            let mut seen = false;
            let mut c: usize = 0;
            while c < captures.len()
                decreases captures@.len() - c,
            {
                if str_eq(captures[c].0.as_str(), name) {
                    seen = true;
                }
                c = c + 1;
            }
            if !seen {
                let mut found: Option<Capture<'t>> = None;
                let mut b: usize = 0;
                while b < self.bindings.len()
                    invariant
                        self.wf(),
                        found matches Some(c) ==> (self.placed@ ==> range_in(c.crange(), self.a@, self.z@)
                            && c.csource() == self.tsrc),
                    decreases self.bindings@.len() - b,
                {
                    if found.is_none() && str_eq(self.bindings[b].0, name) {
                        found = Some(self.bindings[b].1.copy());
                    }
                    b = b + 1;
                }
                match found {
                    Some(capture) => {
                        let ghost before = captures@;
                        captures.push((name.to_owned(), capture));
                        proof {
                            assert forall|i: int| 0 <= i < captures@.len() && self.placed@ implies range_in(
                                (#[trigger] captures@[i]).1.crange(),
                                self.a@,
                                self.z@,
                            ) && captures@[i].1.csource() == self.tsrc by {
                                if i < before.len() {
                                    assert(captures@[i] == before[i]);
                                }
                            }
                        }
                    },
                    // Every exact site is visited during unification, so a
                    // bound name is always found.
                    None => return None,
                }
            }
            k = k + 1;
        }
        Some(captures)
    }

    /// Unify two sibling lists (trivia skipped on both sides), honouring at
    /// most one `$$$` hole.
    fn unify_children(&mut self, pnode: &'t SyntaxNode, tnode: &'t SyntaxNode, path: &mut Vec<usize>) -> (r: bool)
        requires
            old(self).wf(),
            old(self).bindable(SyntaxElement::Node(*tnode)),
        ensures
            final(self).wf(),
            Self::same_frame(*old(self), *final(self)),
            final(path)@ == old(path)@,
        decreases *pnode,
    {
        let pk = pnode.children();
        let tk = tnode.children();
        let pcs = unskipped(pnode);
        let tcs = unskipped(tnode);
        proof {
            if self.placed@ {
                lemma_kids_of_placed(*tnode);
                assert forall|x: int| 0 <= x < tk@.len() implies elem_placed(#[trigger] tk@[x]) && range_in(
                    tk@[x].erange(),
                    self.a@,
                    self.z@,
                ) by {
                    assert(range_in(tk@[x].erange(), lo(tnode.nrange()), hi(tnode.nrange())));
                }
            }
        }
        let vars = self.reading.metavars();
        let mut hole: Option<usize> = None;
        let mut h: usize = 0;
        while h < pcs.len()
            invariant
                path@ == old(path)@,
                vars@ == self.reading.rvars(),
                self.wf(),
                Self::same_frame(*old(self), *self),
                hole matches Some(x) ==> x < pcs@.len(),
            decreases pcs@.len() - h,
        {
            path.push(pcs[h]);
            let is_hole = match self.plan.site_at(path.as_slice()) {
                Some(mv) => vars[mv].is_multi(),
                None => false,
            };
            path.pop();
            proof {
                assert(path@ =~= old(path)@);
            }
            if is_hole {
                hole = Some(h);
                break;
            }
            h = h + 1;
        }
        match hole {
            None => {
                if pcs.len() != tcs.len() {
                    return false;
                }
                let mut k: usize = 0;
                while k < pcs.len()
                    invariant
                        pcs@.len() == tcs@.len(),
                        pk@ == pnode.kids(),
                        tk@ == tnode.kids(),
                        self.placed@ ==> forall|x: int|
                            0 <= x < tk@.len() ==> elem_placed(#[trigger] tk@[x]) && range_in(tk@[x].erange(), self.a@, self.z@),
                        forall|x: int| 0 <= x < pcs@.len() ==> #[trigger] pcs@[x] < pnode.kids().len(),
                        forall|x: int| 0 <= x < tcs@.len() ==> #[trigger] tcs@[x] < tnode.kids().len(),
                        path@ == old(path)@,
                        self.wf(),
                        Self::same_frame(*old(self), *self),
                    decreases pcs@.len() - k,
                {
                    proof {
                        pnode.lemma_kid_elem_decreases(pcs@[k as int] as int);
                    }
                    if !self.unify_element(pcs[k], &pk[pcs[k]], &tk[tcs[k]], path) {
                        return false;
                    }
                    k = k + 1;
                }
                true
            },
            Some(h) => {
                let suffix_len = pcs.len() - h - 1;
                if tcs.len() < h + suffix_len {
                    return false;
                }
                let mut k: usize = 0;
                while k < h
                    invariant
                        h < pcs@.len(),
                        h <= tcs@.len(),
                        pk@ == pnode.kids(),
                        tk@ == tnode.kids(),
                        self.placed@ ==> forall|x: int|
                            0 <= x < tk@.len() ==> elem_placed(#[trigger] tk@[x]) && range_in(tk@[x].erange(), self.a@, self.z@),
                        forall|x: int| 0 <= x < pcs@.len() ==> #[trigger] pcs@[x] < pnode.kids().len(),
                        forall|x: int| 0 <= x < tcs@.len() ==> #[trigger] tcs@[x] < tnode.kids().len(),
                        path@ == old(path)@,
                        self.wf(),
                        Self::same_frame(*old(self), *self),
                    decreases h - k,
                {
                    proof {
                        pnode.lemma_kid_elem_decreases(pcs@[k as int] as int);
                    }
                    if !self.unify_element(pcs[k], &pk[pcs[k]], &tk[tcs[k]], path) {
                        return false;
                    }
                    k = k + 1;
                }
                let middle_end = tcs.len() - suffix_len;
                let plen = pcs.len();
                let tlen = tcs.len();
                let mut k: usize = 0;
                while k < suffix_len
                    invariant
                        plen == pcs@.len(),
                        tlen == tcs@.len(),
                        h < pcs@.len(),
                        k <= suffix_len,
                        suffix_len == pcs@.len() - h - 1,
                        middle_end + suffix_len == tcs@.len(),
                        pk@ == pnode.kids(),
                        tk@ == tnode.kids(),
                        self.placed@ ==> forall|x: int|
                            0 <= x < tk@.len() ==> elem_placed(#[trigger] tk@[x]) && range_in(tk@[x].erange(), self.a@, self.z@),
                        forall|x: int| 0 <= x < pcs@.len() ==> #[trigger] pcs@[x] < pnode.kids().len(),
                        forall|x: int| 0 <= x < tcs@.len() ==> #[trigger] tcs@[x] < tnode.kids().len(),
                        path@ == old(path)@,
                        self.wf(),
                        Self::same_frame(*old(self), *self),
                    decreases suffix_len - k,
                {
                    let pi = pcs[h + 1 + k];
                    proof {
                        pnode.lemma_kid_elem_decreases(pi as int);
                    }
                    if !self.unify_element(pi, &pk[pi], &tk[tcs[middle_end + k]], path) {
                        return false;
                    }
                    k = k + 1;
                }
                path.push(pcs[h]);
                let site = self.plan.site_at(path.as_slice());
                path.pop();
                proof {
                    assert(path@ =~= old(path)@);
                }
                let mv = match site {
                    Some(mv) => mv,
                    None => return false,
                };
                let range = if middle_end == h {
                    let position = if h > 0 {
                        tk[tcs[h - 1]].range().end()
                    } else if middle_end < tcs.len() {
                        tk[tcs[middle_end]].range().start()
                    } else {
                        tnode.range().start()
                    };
                    TextRange::new(position, position)
                } else if middle_end - h >= 2 {
                    TextRange::new(tk[tcs[h]].range().start(), tk[tcs[middle_end - 1]].range().end())
                } else {
                    tk[tcs[h]].range()
                };
                let mut elements: Vec<CapturedElement<'t>> = Vec::new();
                let mut m = h;
                while m < middle_end
                    invariant
                        middle_end <= tcs@.len(),
                        tk@ == tnode.kids(),
                        forall|x: int| 0 <= x < tcs@.len() ==> #[trigger] tcs@[x] < tnode.kids().len(),
                    decreases middle_end - m,
                {
                    elements.push(captured(&tk[tcs[m]]));
                    m = m + 1;
                }
                self.bind(mv, Capture { source: self.tsrc, range, multi: true, elements })
            },
        }
    }

    /// Unify one pattern child element against one target child element.
    fn unify_element(&mut self, index: usize, pc: &'t SyntaxElement, tc: &'t SyntaxElement, path: &mut Vec<usize>) -> (r:
        bool)
        requires
            old(self).wf(),
            old(self).bindable(*tc),
        ensures
            final(self).wf(),
            Self::same_frame(*old(self), *final(self)),
            final(path)@ == old(path)@,
        decreases *pc,
    {
        path.push(index);
        let ok = match self.plan.site_at(path.as_slice()) {
            Some(mv) => {
                let mut elements: Vec<CapturedElement<'t>> = Vec::new();
                elements.push(captured(tc));
                tc.kind() == pc.kind() && !tc.range().is_empty() && self.bind(
                    mv,
                    Capture { source: self.tsrc, range: tc.range(), multi: false, elements },
                )
            },
            None => match (pc, tc) {
                (SyntaxElement::Token(p), SyntaxElement::Token(t)) => {
                    p.kind() == t.kind() && (text_is_layout(p.kind()) || str_eq(p.text(self.psrc), t.text(self.tsrc)))
                },
                (SyntaxElement::Node(p), SyntaxElement::Node(t)) => {
                    p.kind() == t.kind() && self.unify_children(p, t, path)
                },
                _ => false,
            },
        };
        path.pop();
        proof {
            assert(path@ =~= old(path)@);
        }
        ok
    }

    /// Record a binding; a repeated metavariable must bind byte-identical
    /// text.
    fn bind(&mut self, mv: usize, capture: Capture<'t>) -> (r: bool)
        requires
            old(self).wf(),
            old(self).placed@ ==> range_in(capture.crange(), old(self).a@, old(self).z@) && capture.csource()
                == old(self).tsrc,
            exists|k: int| 0 <= k < old(self).plan.sites@.len() && (#[trigger] old(self).plan.sites@[k]).1 == mv,
        ensures
            final(self).wf(),
            Self::same_frame(*old(self), *final(self)),
    {
        let vars = self.reading.metavars();
        proof {
            let k = choose|k: int| 0 <= k < self.plan.sites@.len() && (#[trigger] self.plan.sites@[k]).1 == mv;
        }
        let name: &'t str = vars[mv].name();
        let mut b: usize = 0;
        while b < self.bindings.len()
            invariant
                self.wf(),
                Self::same_frame(*old(self), *self),
            decreases self.bindings@.len() - b,
        {
            if str_eq(self.bindings[b].0, name) {
                return str_eq(self.bindings[b].1.text(), capture.text());
            }
            b = b + 1;
        }
        let ghost before = self.bindings@;
        self.bindings.push((name, capture));
        proof {
            assert forall|i: int| 0 <= i < self.bindings@.len() && self.placed@ implies range_in(
                (#[trigger] self.bindings@[i]).1.crange(),
                self.a@,
                self.z@,
            ) && self.bindings@[i].1.csource() == self.tsrc by {
                if i < before.len() {
                    assert(self.bindings@[i] == before[i]);
                }
            }
        }
        true
    }
}

// =============================================================================
// Entry points
// =============================================================================

impl Pattern {
    /// Find every match of this pattern in `target`: each reading, matched
    /// wherever its section kinds and fragment kind admit it, in document
    /// order, non-overlapping. Style-strict: a target of another style
    /// yields no matches. Document readings are skipped unless they are the
    /// pattern's only reading.
    pub fn matches<'t>(&'t self, target: &'t Parsed) -> (r: Vec<Match<'t>>)
        ensures
            self.pstyle() != target.style_of() ==> r@.len() == 0,
            matches_ok(r@, target.text(), self.preadings()),
            elem_placed(SyntaxElement::Node(target.root_node())) ==> forall|i: int|
                0 <= i < r@.len() ==> captures_within(#[trigger] r@[i]),
    {
        let readings = self.readings();
        let allow_document = readings.len() == 1 && match readings[0].fragment_kind() {
            FragmentKind::Document => true,
            _ => false,
        };
        self.run(target, target.root(), allow_document)
    }

    /// Find every match of this pattern inside `anchor`'s subtree (`anchor`
    /// included), with the grammar binding derived from the anchor: at a
    /// `SECTION`, only the readings its role admits bind; at the document
    /// root, Document readings take part too. An `anchor` that is not a
    /// node of `target`'s tree yields no matches.
    pub fn matches_in<'t>(&'t self, target: &'t Parsed, anchor: &'t SyntaxNode) -> (r: Vec<Match<'t>>)
        ensures
            !holds(target.root_node(), *anchor) ==> r@.len() == 0,
            self.pstyle() != target.style_of() ==> r@.len() == 0,
            matches_ok(r@, target.text(), self.preadings()),
            elem_placed(SyntaxElement::Node(target.root_node())) ==> forall|i: int|
                0 <= i < r@.len() ==> captures_within(#[trigger] r@[i]),
    {
        let allow_document = same_node(anchor, target.root());
        self.run(target, anchor, allow_document)
    }

    fn run<'t>(&'t self, target: &'t Parsed, anchor: &'t SyntaxNode, allow_document: bool) -> (r: Vec<Match<'t>>)
        ensures
            !holds(target.root_node(), *anchor) ==> r@.len() == 0,
            self.pstyle() != target.style_of() ==> r@.len() == 0,
            matches_ok(r@, target.text(), self.preadings()),
            elem_placed(SyntaxElement::Node(target.root_node())) ==> forall|i: int|
                0 <= i < r@.len() ==> captures_within(#[trigger] r@[i]),
    {
        if !same_style(self.style(), target.style()) {
            return Vec::new();
        }
        let readings = self.readings();
        let mut plans: Vec<ReadingPlan> = Vec::new();
        let mut i: usize = 0;
        while i < readings.len()
            invariant
                i <= readings@.len(),
                plans@.len() == i,
                forall|k: int| 0 <= k < i ==> (#[trigger] plans@[k]).fits(readings@[k].rvars().len() as int),
            decreases readings@.len() - i,
        {
            plans.push(ReadingPlan::new(&readings[i]));
            i = i + 1;
        }
        let mut search = Search { target, anchor, allow_document, readings, plans, matches: Vec::new() };
        let root = target.root();
        proof {
            lemma_holds_self(*root);
        }
        search.visit(root, false, None, None);
        search.matches
    }
}

/// Whether two styles are the same.
fn same_style(a: Style, b: Style) -> (r: bool)
    ensures
        r == (a == b),
{
    match (a, b) {
        (Style::NumPy, Style::NumPy) | (Style::Google, Style::Google) | (Style::Plain, Style::Plain) => true,
        _ => false,
    }
}

} // verus!
