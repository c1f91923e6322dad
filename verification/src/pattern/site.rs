//! Where metavariable placeholders land in a parsed pattern: child-index
//! paths into a tree, the chain of elements that contain a placeholder, the
//! site chosen from that chain, and the byte-coverage re-check of a
//! wrapped parse.

use vstd::prelude::*;
use vstd::string::StringSliceAdditionalSpecFns;

use crate::pattern::lex::find_bytes;
use crate::pattern::lex::occurs_at;
use crate::pattern::lex::Occurrence;
use crate::syntax::kind_is_trivia;
use crate::syntax::Parsed;
use crate::syntax::SyntaxElement;
use crate::syntax::SyntaxKind;
use crate::syntax::SyntaxNode;
use crate::text::hi;
use crate::text::lo;
use crate::text::TextRange;

verus! {

// =============================================================================
// Paths
// =============================================================================

/// The node reached from `n` by following the child indices of `p`, when
/// each step lands on a node.
pub open spec fn node_at_path(n: SyntaxNode, p: Seq<usize>) -> Option<SyntaxNode>
    decreases p.len(),
{
    if p.len() == 0 {
        Some(n)
    } else {
        match node_at_path(n, p.drop_last()) {
            Some(m) => if p.last() < m.kids().len() && m.kids()[p.last() as int] is Node {
                Some(m.kids()[p.last() as int]->Node_0)
            } else {
                None
            },
            None => None,
        }
    }
}

/// The element at the non-empty path `p` below `n`.
pub open spec fn elem_at_path(n: SyntaxNode, p: Seq<usize>) -> Option<SyntaxElement> {
    if p.len() == 0 {
        None
    } else {
        match node_at_path(n, p.drop_last()) {
            Some(m) => if p.last() < m.kids().len() {
                Some(m.kids()[p.last() as int])
            } else {
                None
            },
            None => None,
        }
    }
}

/// A path that reaches a node has prefixes that reach nodes.
proof fn lemma_path_prefix(n: SyntaxNode, p: Seq<usize>, k: int)
    requires
        node_at_path(n, p) is Some,
        0 <= k <= p.len(),
    ensures
        node_at_path(n, p.take(k)) is Some,
    decreases p.len() - k,
{
    if k < p.len() {
        lemma_path_prefix(n, p.drop_last(), k);
        assert(p.drop_last().take(k) =~= p.take(k));
    } else {
        assert(p.take(k) =~= p);
    }
}

/// Resolve a child-index path to a node.
pub fn node_at<'a>(root: &'a SyntaxNode, path: &[usize]) -> (r: &'a SyntaxNode)
    requires
        node_at_path(*root, path@) is Some,
    ensures
        node_at_path(*root, path@) == Some(*r),
{
    let mut cur = root;
    let mut k: usize = 0;
    proof {
        assert(path@.take(0) =~= Seq::<usize>::empty());
    }
    while k < path.len()
        invariant
            k <= path@.len(),
            node_at_path(*root, path@) is Some,
            node_at_path(*root, path@.take(k as int)) == Some(*cur),
        decreases path@.len() - k,
    {
        proof {
            lemma_path_prefix(*root, path@, k + 1);
            assert(path@.take(k + 1).drop_last() =~= path@.take(k as int));
        }
        let i = path[k];
        let kids = cur.children();
        cur = match &kids[i] {
            SyntaxElement::Node(n) => n,
            SyntaxElement::Token(_) => unreached(),
        };
        k = k + 1;
    }
    proof {
        assert(path@.take(k as int) =~= path@);
    }
    cur
}

/// Whether `path` starts with `prefix`.
pub open spec fn has_prefix(path: Seq<usize>, prefix: Seq<usize>) -> bool {
    prefix.len() <= path.len() && path.subrange(0, prefix.len() as int) == prefix
}

/// Exec form of [`has_prefix`].
pub fn starts_with(path: &[usize], prefix: &[usize]) -> (r: bool)
    ensures
        r == has_prefix(path@, prefix@),
{
    if prefix.len() > path.len() {
        return false;
    }
    let mut k: usize = 0;
    while k < prefix.len()
        invariant
            prefix@.len() <= path@.len(),
            k <= prefix@.len(),
            forall|j: int| 0 <= j < k ==> path@[j] == prefix@[j],
        decreases prefix@.len() - k,
    {
        if path[k] != prefix[k] {
            proof {
                assert(path@.subrange(0, prefix@.len() as int)[k as int] != prefix@[k as int]);
            }
            return false;
        }
        k = k + 1;
    }
    proof {
        assert(path@.subrange(0, prefix@.len() as int) =~= prefix@);
    }
    true
}

/// A copy of a path.
pub fn copy_path(p: &[usize]) -> (r: Vec<usize>)
    ensures
        r@ == p@,
{
    let mut out: Vec<usize> = Vec::new();
    let mut k: usize = 0;
    while k < p.len()
        invariant
            k <= p@.len(),
            out@ == p@.take(k as int),
        decreases p@.len() - k,
    {
        out.push(p[k]);
        proof {
            assert(out@ =~= p@.take(k + 1));
        }
        k = k + 1;
    }
    proof {
        assert(p@.take(k as int) =~= p@);
    }
    out
}

// =============================================================================
// The landing chain
// =============================================================================

/// Element range `r` holds the placeholder range `ph`: it is non-empty and
/// contains it.
pub open spec fn holds(r: TextRange, ph: TextRange) -> bool {
    lo(r) != hi(r) && lo(r) <= lo(ph) && hi(ph) <= hi(r)
}

/// One link of the containment chain from the root down to a placeholder.
pub struct ChainLink {
    pub path: Vec<usize>,
    pub kind: SyntaxKind,
    pub range: TextRange,
    pub is_token: bool,
}

/// Link `l` describes element `e`.
pub open spec fn link_is(l: ChainLink, e: SyntaxElement) -> bool {
    l.kind == e.ekind() && l.range == e.erange() && l.is_token == (e is Token)
}

/// `chain` is a chain of elements holding `ph`, root first, each the child
/// of the one before at the last index of its path, every link but the
/// last a node.
#[verifier::opaque]
pub open spec fn chain_ok(root: SyntaxNode, chain: Seq<ChainLink>, ph: TextRange) -> bool {
    &&& chain.len() >= 1
    &&& chain[0].path@ == Seq::<usize>::empty()
    &&& chain[0].kind == root.nkind()
    &&& chain[0].range == root.nrange()
    &&& !chain[0].is_token
    &&& forall|k: int|
        1 <= k < chain.len() ==> {
            &&& (#[trigger] chain[k]).path@.len() == k
            &&& chain[k].path@.drop_last() == chain[k - 1].path@
            &&& elem_at_path(root, chain[k].path@) matches Some(e) && link_is(chain[k], e)
            &&& holds(chain[k].range, ph)
        }
    &&& forall|k: int| 0 <= k < chain.len() - 1 ==> !(#[trigger] chain[k]).is_token
}

/// A one-link chain at the root is a chain.
proof fn lemma_chain_root(root: SyntaxNode, chain: Seq<ChainLink>, ph: TextRange)
    requires
        chain.len() == 1,
        chain[0].path@ == Seq::<usize>::empty(),
        chain[0].kind == root.nkind(),
        chain[0].range == root.nrange(),
        !chain[0].is_token,
    ensures
        chain_ok(root, chain, ph),
{
    reveal(chain_ok);
}

/// Extending a chain that ends at a node by a child holding `ph` gives a
/// chain.
#[verifier::rlimit(40)]
proof fn lemma_chain_push(root: SyntaxNode, chain: Seq<ChainLink>, l: ChainLink, ph: TextRange)
    requires
        chain_ok(root, chain, ph),
        !chain.last().is_token,
        l.path@.len() == chain.len(),
        l.path@.drop_last() == chain.last().path@,
        elem_at_path(root, l.path@) matches Some(e) && link_is(l, e),
        holds(l.range, ph),
    ensures
        chain_ok(root, chain.push(l), ph),
{
    reveal(chain_ok);
    let c = chain.push(l);
    assert forall|k: int| 1 <= k < c.len() implies {
        &&& (#[trigger] c[k]).path@.len() == k
        &&& c[k].path@.drop_last() == c[k - 1].path@
        &&& elem_at_path(root, c[k].path@) matches Some(e) && link_is(c[k], e)
        &&& holds(c[k].range, ph)
    } by {
        if k < chain.len() {
            assert(c[k] == chain[k] && c[k - 1] == chain[k - 1]);
        } else {
            assert(c[k] == l && c[k - 1] == chain.last());
        }
    }
    assert forall|k: int| 0 <= k < c.len() - 1 implies !(#[trigger] c[k]).is_token by {
        assert(c[k] == chain[k]);
    }
}

/// The facts of a chain that choosing a site needs.
pub proof fn lemma_chain_len(root: SyntaxNode, chain: Seq<ChainLink>, ph: TextRange)
    requires
        chain_ok(root, chain, ph),
    ensures
        chain.len() >= 1,
{
    reveal(chain_ok);
}

/// The chain of elements containing `ph`, root first, descending into the
/// first child that holds it at each level, ending at a token or at a node
/// none of whose children holds it.
pub fn landing_chain(root: &SyntaxNode, ph: TextRange) -> (r: Vec<ChainLink>)
    ensures
        chain_ok(*root, r@, ph),
{
    let mut chain: Vec<ChainLink> = Vec::new();
    chain.push(ChainLink { path: Vec::new(), kind: root.kind(), range: root.range(), is_token: false });
    proof {
        assert(chain@.len() == 1);
    }
    let mut path: Vec<usize> = Vec::new();
    proof {
        assert(node_at_path(*root, path@) == Some(*root));
        lemma_chain_root(*root, chain@, ph);
    }
    descend(root, root, ph, &mut path, &mut chain);
    chain
}

/// One level of [`landing_chain`] below `node`, reached from `root` by
/// `path` and last in `chain`.
fn descend(root: &SyntaxNode, node: &SyntaxNode, ph: TextRange, path: &mut Vec<usize>, chain: &mut Vec<ChainLink>)
    requires
        chain_ok(*root, old(chain)@, ph),
        old(chain)@.len() >= 1,
        node_at_path(*root, old(path)@) == Some(*node),
        old(chain)@.last().path@ == old(path)@,
        !old(chain)@.last().is_token,
        old(path)@.len() == old(chain)@.len() - 1,
    ensures
        chain_ok(*root, final(chain)@, ph),
    decreases node,
{
    let kids = node.children();
    let mut i: usize = 0;
    while i < kids.len()
        invariant
            kids@ == node.kids(),
            i <= kids@.len(),
            chain_ok(*root, chain@, ph),
            chain@ == old(chain)@,
            path@ == old(path)@,
            old(chain)@.len() >= 1,
            node_at_path(*root, old(path)@) == Some(*node),
            old(chain)@.last().path@ == old(path)@,
            !old(chain)@.last().is_token,
            old(path)@.len() == old(chain)@.len() - 1,
        decreases kids@.len() - i,
    {
        let r = kids[i].range();
        if !r.is_empty() && r.start().raw() <= ph.start().raw() && ph.end().raw() <= r.end().raw() {
            path.push(i);
            let p = copy_path(path.as_slice());
            proof {
                assert(path@.drop_last() =~= old(path)@);
            }
            match &kids[i] {
                SyntaxElement::Node(n) => {
                    let l = ChainLink { path: p, kind: n.kind(), range: r, is_token: false };
                    proof {
                        lemma_chain_push(*root, chain@, l, ph);
                    }
                    chain.push(l);
                    proof {
                        node.lemma_kid_decreases(i as int);
                        assert(node_at_path(*root, path@) == Some(*n));
                    }
                    descend(root, n, ph, path, chain);
                    return;
                },
                SyntaxElement::Token(t) => {
                    let l = ChainLink { path: p, kind: t.kind(), range: r, is_token: true };
                    proof {
                        lemma_chain_push(*root, chain@, l, ph);
                    }
                    chain.push(l);
                    return;
                },
            }
        }
        i = i + 1;
    }
}

// =============================================================================
// Choosing the site
// =============================================================================

/// The landing site of a metavariable placeholder in a wrapped pattern
/// tree.
#[derive(Debug)]
pub struct MetaVarSite {
    pub(crate) path: Vec<usize>,
    pub(crate) kind: SyntaxKind,
    pub(crate) parent_kind: SyntaxKind,
    pub(crate) range: TextRange,
    pub(crate) exact: bool,
}

impl MetaVarSite {
    /// The child-index path from the wrapped tree's root.
    pub closed spec fn spath(&self) -> Seq<usize> {
        self.path@
    }

    /// What the placeholder landed as.
    pub closed spec fn skind(&self) -> SyntaxKind {
        self.kind
    }

    /// The kind of the landed element's parent node.
    pub closed spec fn sparent(&self) -> SyntaxKind {
        self.parent_kind
    }

    /// The placeholder's byte range in the wrapped source.
    pub closed spec fn srange(&self) -> TextRange {
        self.range
    }

    /// Whether the placeholder covers the landed element exactly.
    pub closed spec fn sexact(&self) -> bool {
        self.exact
    }

    /// Child-index path from the wrapped tree's root to the landed element.
    pub fn path(&self) -> (r: &[usize])
        ensures
            r@ == self.spath(),
    {
        self.path.as_slice()
    }

    /// What the placeholder landed **as**: the kind of the landed element.
    pub fn kind(&self) -> (r: SyntaxKind)
        ensures
            r == self.skind(),
    {
        self.kind
    }

    /// The kind of the landed element's parent node.
    pub fn parent_kind(&self) -> (r: SyntaxKind)
        ensures
            r == self.sparent(),
    {
        self.parent_kind
    }

    /// The placeholder's byte range in the wrapped pattern source.
    pub fn range(&self) -> (r: TextRange)
        ensures
            r == self.srange(),
    {
        self.range
    }

    /// Whether the placeholder's bytes cover the landed element exactly;
    /// `false` means it sits inside a `TEXT_LINE` amid literal prose.
    pub fn is_exact(&self) -> (r: bool)
        ensures
            r == self.sexact(),
    {
        self.exact
    }

    /// A copy of this site.
    pub fn copy(&self) -> (r: Self)
        ensures
            r.spath() == self.spath(),
            r.skind() == self.skind(),
            r.sparent() == self.sparent(),
            r.srange() == self.srange(),
            r.sexact() == self.sexact(),
    {
        MetaVarSite {
            path: copy_path(self.path.as_slice()),
            kind: self.kind,
            parent_kind: self.parent_kind,
            range: self.range,
            exact: self.exact,
        }
    }
}

/// The links of `chain` below the root whose range is exactly `ph`.
pub open spec fn exact_link(chain: Seq<ChainLink>, ph: TextRange, i: int) -> bool {
    1 <= i < chain.len() && chain[i].range == ph
}

/// The chain index a placeholder chooses: the highest exact link below the
/// root for `$$$X`, the deepest for `$X`; with no exact link, the last
/// link when it is a `TEXT_LINE` token below the root; else none.
pub open spec fn chosen_link(chain: Seq<ChainLink>, ph: TextRange, multi: bool) -> Option<int> {
    if exists|i: int| exact_link(chain, ph, i) {
        if multi {
            Some(choose|i: int| exact_link(chain, ph, i) && forall|j: int| exact_link(chain, ph, j) ==> i <= j)
        } else {
            Some(choose|i: int| exact_link(chain, ph, i) && forall|j: int| exact_link(chain, ph, j) ==> j <= i)
        }
    } else if chain.len() >= 2 && chain.last().is_token && chain.last().kind == SyntaxKind::TEXT_LINE {
        Some(chain.len() - 1)
    } else {
        None
    }
}

/// Pick the landing site for one placeholder from its containment chain
/// ([`chosen_link`] gives the link).
pub fn choose_site(chain: &Vec<ChainLink>, ph: TextRange, multi: bool) -> (r: Option<MetaVarSite>)
    requires
        chain@.len() >= 1,
    ensures
        match chosen_link(chain@, ph, multi) {
            Some(i) => r matches Some(s) && 1 <= i < chain@.len() && s.spath() == chain@[i].path@ && s.skind()
                == chain@[i].kind && s.sparent() == chain@[i - 1].kind && s.srange() == ph && s.sexact() == (
            chain@[i].range == ph),
            None => r is None,
        },
{
    let n = chain.len();
    let mut first: Option<usize> = None;
    let mut last: Option<usize> = None;
    let mut i: usize = 1;
    while i < n
        invariant
            n == chain@.len(),
            1 <= i <= n,
            match first {
                Some(f) => f < i && exact_link(chain@, ph, f as int) && forall|j: int| exact_link(chain@, ph, j) && j < i ==> f <= j,
                None => forall|j: int| 1 <= j < i ==> !exact_link(chain@, ph, j),
            },
            match last {
                Some(l) => l < i && exact_link(chain@, ph, l as int) && forall|j: int| exact_link(chain@, ph, j) && j < i ==> j <= l,
                None => forall|j: int| 1 <= j < i ==> !exact_link(chain@, ph, j),
            },
        decreases n - i,
    {
        if chain[i].range == ph {
            if first.is_none() {
                first = Some(i);
            }
            last = Some(i);
        }
        i = i + 1;
    }
    let chosen = if multi {
        first
    } else {
        last
    };
    let idx = match chosen {
        Some(c) => c,
        None => {
            if n < 2 || !chain[n - 1].is_token || chain[n - 1].kind != SyntaxKind::TEXT_LINE {
                return None;
            }
            n - 1
        },
    };
    proof {
        if exists|j: int| exact_link(chain@, ph, j) {
            let c = idx as int;
            if multi {
                let w = choose|i: int| exact_link(chain@, ph, i) && forall|j: int| exact_link(chain@, ph, j) ==> i <= j;
                assert(exact_link(chain@, ph, c) && forall|j: int| exact_link(chain@, ph, j) ==> c <= j);
                assert(w <= c && c <= w);
            } else {
                let w = choose|i: int| exact_link(chain@, ph, i) && forall|j: int| exact_link(chain@, ph, j) ==> j <= i;
                assert(exact_link(chain@, ph, c) && forall|j: int| exact_link(chain@, ph, j) ==> j <= c);
                assert(w <= c && c <= w);
            }
        }
    }
    Some(
        MetaVarSite {
            path: copy_path(chain[idx].path.as_slice()),
            kind: chain[idx].kind,
            parent_kind: chain[idx - 1].kind,
            range: ph,
            exact: chain[idx].range == ph,
        },
    )
}

// =============================================================================
// The metavariable table
// =============================================================================

/// One metavariable occurrence in a pattern, with the site its placeholder
/// landed on.
#[derive(Debug)]
pub struct MetaVar {
    pub(crate) name: String,
    pub(crate) multi: bool,
    pub(crate) site: MetaVarSite,
}

impl MetaVar {
    /// The variable name, as characters.
    pub closed spec fn vname(&self) -> Seq<char> {
        self.name@
    }

    /// Whether it is a `$$$` sequence variable.
    pub closed spec fn vmulti(&self) -> bool {
        self.multi
    }

    /// Its landing site.
    pub closed spec fn vsite(&self) -> MetaVarSite {
        self.site
    }

    /// The variable name (without the `$` / `$$$` sigil).
    pub fn name(&self) -> (r: &str)
        ensures
            r@ == self.vname(),
    {
        self.name.as_str()
    }

    /// Whether this is a `$$$NAME` sequence variable (`true`) or a `$NAME`
    /// single-node variable (`false`).
    pub fn is_multi(&self) -> (r: bool)
        ensures
            r == self.vmulti(),
    {
        self.multi
    }

    /// Where the metavariable's placeholder landed in the wrapped tree.
    pub fn site(&self) -> (r: &MetaVarSite)
        ensures
            *r == self.vsite(),
    {
        &self.site
    }

    /// A copy of this entry.
    pub fn copy(&self) -> (r: Self)
        ensures
            r.vname() == self.vname(),
            r.vmulti() == self.vmulti(),
            r.vsite().spath() == self.vsite().spath(),
            r.vsite().skind() == self.vsite().skind(),
            r.vsite().srange() == self.vsite().srange(),
            r.vsite().sexact() == self.vsite().sexact(),
    {
        MetaVar { name: self.name.clone(), multi: self.multi, site: self.site.copy() }
    }
}

/// Locate every placeholder in the wrapped parse and build the metavariable
/// table: each placeholder is found at its first occurrence in the source,
/// its site chosen from its landing chain, and the site must lie under
/// `required_prefix` (the fragment path); `None` when a placeholder is lost
/// or lands on no bindable site, or outside the fragment.
pub fn locate_metavars(parsed: &Parsed, occurrences: &Vec<Occurrence>, required_prefix: &[usize]) -> (r: Option<
    Vec<MetaVar>,
>)
    ensures
        r matches Some(mvs) ==> {
            &&& mvs@.len() == occurrences@.len()
            &&& forall|k: int|
                0 <= k < mvs@.len() ==> {
                    &&& (#[trigger] mvs@[k]).vname() == occurrences@[k].name@
                    &&& mvs@[k].vmulti() == occurrences@[k].multi
                    &&& has_prefix(mvs@[k].vsite().spath(), required_prefix@)
                    &&& occurs_at(
                        parsed.src_bytes(),
                        vstd::utf8::encode_utf8(occurrences@[k].placeholder@),
                        lo(mvs@[k].vsite().srange()),
                    )
                }
        },
{
    let src = parsed.source();
    let b = src.as_bytes();
    let mut out: Vec<MetaVar> = Vec::new();
    let mut k: usize = 0;
    while k < occurrences.len()
        invariant
            b@ == parsed.src_bytes(),
            b@.len() < u32::MAX,
            k <= occurrences@.len(),
            out@.len() == k,
            forall|j: int|
                0 <= j < k ==> {
                    &&& (#[trigger] out@[j]).vname() == occurrences@[j].name@
                    &&& out@[j].vmulti() == occurrences@[j].multi
                    &&& has_prefix(out@[j].vsite().spath(), required_prefix@)
                    &&& occurs_at(
                        parsed.src_bytes(),
                        vstd::utf8::encode_utf8(occurrences@[j].placeholder@),
                        lo(out@[j].vsite().srange()),
                    )
                },
        decreases occurrences@.len() - k,
    {
        let occ = &occurrences[k];
        let pb = occ.placeholder.as_str().as_bytes();
        let offset = match find_bytes(b, pb) {
            Some(o) => o,
            None => return None,
        };
        let ph = TextRange::from_offset_len(offset, pb.len());
        let chain = landing_chain(parsed.root(), ph);
        proof {
            lemma_chain_len(parsed.root_node(), chain@, ph);
        }
        let site = match choose_site(&chain, ph, occ.multi) {
            Some(s) => s,
            None => return None,
        };
        if !starts_with(site.path.as_slice(), required_prefix) {
            return None;
        }
        out.push(MetaVar { name: occ.name.clone(), multi: occ.multi, site });
        k = k + 1;
    }
    Some(out)
}

// =============================================================================
// Content children and coverage
// =============================================================================

/// The indices of the non-trivia children among the first `m` of `s`.
pub open spec fn content_upto(s: Seq<SyntaxElement>, m: int) -> Seq<usize>
    decreases m,
{
    if m <= 0 || m > s.len() {
        Seq::empty()
    } else if kind_is_trivia(s[m - 1].ekind()) {
        content_upto(s, m - 1)
    } else {
        content_upto(s, m - 1).push((m - 1) as usize)
    }
}

/// Indices of the non-trivia children of `node`.
pub fn content_child_indices(node: &SyntaxNode) -> (r: Vec<usize>)
    ensures
        r@ == content_upto(node.kids(), node.kids().len() as int),
{
    let kids = node.children();
    let mut out: Vec<usize> = Vec::new();
    let mut i: usize = 0;
    while i < kids.len()
        invariant
            kids@ == node.kids(),
            i <= kids@.len(),
            out@ == content_upto(kids@, i as int),
        decreases kids@.len() - i,
    {
        if !kids[i].kind().is_trivia() {
            out.push(i);
        }
        i = i + 1;
    }
    out
}

/// The ranges of the tokens among the children of `n` from the `i`-th on,
/// depth-first.
pub open spec fn token_ranges_from(n: SyntaxNode, i: int) -> Seq<TextRange>
    decreases n, n.kids().len() - i,
{
    if i < 0 || i >= n.kids().len() {
        Seq::empty()
    } else {
        match n.kids()[i] {
            SyntaxElement::Token(t) => seq![t.trange()] + token_ranges_from(n, i + 1),
            SyntaxElement::Node(c) => {
                proof {
                    n.lemma_kid_decreases(i);
                }
                token_ranges_from(c, 0) + token_ranges_from(n, i + 1)
            },
        }
    }
}

/// Append the token ranges of `node`'s children from the `i`-th on.
fn collect_token_ranges(node: &SyntaxNode, i: usize, out: &mut Vec<TextRange>)
    requires
        i <= node.kids().len(),
    ensures
        final(out)@ == old(out)@ + token_ranges_from(*node, i as int),
    decreases node, node.kids().len() - i,
{
    let kids = node.children();
    if i >= kids.len() {
        proof {
            assert(final(out)@ =~= old(out)@ + token_ranges_from(*node, i as int));
        }
        return;
    }
    match &kids[i] {
        SyntaxElement::Token(t) => {
            out.push(t.range());
            collect_token_ranges(node, i + 1, out);
            proof {
                assert(final(out)@ =~= old(out)@ + token_ranges_from(*node, i as int));
            }
        },
        SyntaxElement::Node(c) => {
            proof {
                node.lemma_kid_decreases(i as int);
            }
            collect_token_ranges(c, 0, out);
            collect_token_ranges(node, i + 1, out);
            proof {
                assert(final(out)@ =~= old(out)@ + token_ranges_from(*node, i as int));
            }
        },
    }
}

/// The largest end among `rs` (0 for none).
pub open spec fn max_end(rs: Seq<TextRange>) -> int
    decreases rs.len(),
{
    if rs.len() == 0 {
        0
    } else if hi(rs.last()) > max_end(rs.drop_last()) {
        hi(rs.last())
    } else {
        max_end(rs.drop_last())
    }
}

/// Byte `k` lies in one of the first `n` ranges of `rs`.
pub open spec fn covered_by(rs: Seq<TextRange>, n: int, k: int) -> bool {
    exists|t: int| 0 <= t < n && lo(rs[t]) <= k < hi(#[trigger] rs[t])
}

/// `rs` cover `[0, len)`: every byte lies in some range, no range starts
/// past `len`, and the furthest end is `len`.
pub open spec fn covers(rs: Seq<TextRange>, len: int) -> bool {
    &&& forall|k: int| 0 <= k < len ==> #[trigger] covered_by(rs, rs.len() as int, k)
    &&& forall|j: int| 0 <= j < rs.len() ==> lo(#[trigger] rs[j]) <= len
    &&& max_end(rs) == len
}

/// Whether the tokens of `parsed`'s tree cover its whole source (the
/// defensive re-check of the byte-coverage law on a wrapped parse).
pub fn check_coverage(parsed: &Parsed) -> (r: bool)
    ensures
        r == covers(token_ranges_from(parsed.root_node(), 0), parsed.src_bytes().len() as int),
{
    let len = parsed.source().len();
    let root = parsed.root();
    let mut rs: Vec<TextRange> = Vec::new();
    collect_token_ranges(root, 0, &mut rs);
    proof {
        assert(rs@ =~= token_ranges_from(parsed.root_node(), 0));
    }
    let mut marks: Vec<bool> = Vec::new();
    let mut k: usize = 0;
    while k < len
        invariant
            k <= len,
            marks@.len() == k,
            forall|x: int| 0 <= x < k ==> !marks@[x],
        decreases len - k,
    {
        marks.push(false);
        k = k + 1;
    }
    let mut j: usize = 0;
    let mut maxe: u32 = 0;
    let mut starts_ok = true;
    while j < rs.len()
        invariant
            marks@.len() == len,
            len == parsed.src_bytes().len(),
            rs@ == token_ranges_from(parsed.root_node(), 0),
            j <= rs@.len(),
            maxe == max_end(rs@.take(j as int)),
            starts_ok == forall|t: int| 0 <= t < j ==> lo(#[trigger] rs@[t]) <= len,
            forall|x: int| 0 <= x < len ==> (marks@[x] <==> #[trigger] covered_by(rs@, j as int, x)),
        decreases rs@.len() - j,
    {
        let r = rs[j];
        let s = r.start().to_usize();
        let e = r.end().to_usize();
        proof {
            assert(rs@.take(j + 1).drop_last() =~= rs@.take(j as int));
        }
        if e > maxe as usize {
            maxe = r.end().raw();
        }
        if s > len {
            starts_ok = false;
        }
        let stop = if e < len {
            e
        } else {
            len
        };
        let ghost pre = marks@;
        if s < stop {
            let mut x = s;
            while x < stop
                invariant
                    marks@.len() == len,
                    pre.len() == len,
                    s <= x <= stop <= len,
                    forall|y: int| 0 <= y < len ==> (marks@[y] <==> (pre[y] || (s <= y < x))),
                decreases stop - x,
            {
                marks.set(x, true);
                x = x + 1;
            }
        }
        proof {
            assert forall|y: int| 0 <= y < len implies (marks@[y] <==> (pre[y] || (s <= y < stop))) by {
            }
        }
        proof {
            assert forall|y: int| 0 <= y < len implies (marks@[y] <==> #[trigger] covered_by(rs@, j + 1, y)) by {
                if marks@[y] && !pre[y] {
                    assert(lo(rs@[j as int]) <= y < hi(rs@[j as int]));
                }
                if covered_by(rs@, j + 1, y) {
                    let t = choose|t: int| 0 <= t < j + 1 && lo(rs@[t]) <= y < hi(#[trigger] rs@[t]);
                    if t < j {
                        assert(covered_by(rs@, j as int, y));
                        assert(pre[y]);
                    }
                }
                if pre[y] {
                    assert(covered_by(rs@, j as int, y));
                    let t = choose|t: int| 0 <= t < j && lo(rs@[t]) <= y < hi(#[trigger] rs@[t]);
                    assert(covered_by(rs@, j + 1, y));
                }
            }
        }
        j = j + 1;
    }
    proof {
        assert(rs@.take(j as int) =~= rs@);
    }
    if !starts_ok || maxe as usize != len {
        proof {
            if !starts_ok {
                let t = choose|t: int| 0 <= t < rs@.len() && !(lo(#[trigger] rs@[t]) <= len);
            }
        }
        return false;
    }
    let mut y: usize = 0;
    while y < len
        invariant
            marks@.len() == len,
            y <= len,
            len == parsed.src_bytes().len(),
            rs@ == token_ranges_from(parsed.root_node(), 0),
            max_end(rs@) == len,
            forall|t: int| 0 <= t < rs@.len() ==> lo(#[trigger] rs@[t]) <= len,
            forall|x: int| 0 <= x < len ==> (marks@[x] <==> #[trigger] covered_by(rs@, rs@.len() as int, x)),
            forall|z: int| 0 <= z < y ==> marks@[z],
        decreases len - y,
    {
        if !marks[y] {
            proof {
                assert(!covered_by(rs@, rs@.len() as int, y as int));
            }
            return false;
        }
        y = y + 1;
    }
    true
}

} // verus!
