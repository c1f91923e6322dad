//! Convert a parsed docstring of any style into the style-independent
//! [`Docstring`] model.
//!
//! The tree is style-neutral, so one walk converts every style. One switch
//! remains keyed on the style: Google dedents prose blocks (extended
//! summary, free-text section bodies) while NumPy and Plain store them raw.
//!
//! Returns / Yields bodies follow the paragraph rule: the tree keeps every
//! base-indent line as an `ENTRY`, and this layer decides which bare
//! entries are prose. A maximal run of consecutive bare entries (no colon,
//! no description, no blank line between them) becomes one
//! [`Block::Paragraph`] when the run has two lines or more or the body also
//! holds a genuine entry; a lone bare entry in an entry-less body stays a
//! type-only [`Block::Return`].

use vstd::prelude::*;
use vstd::string::StringSliceAdditionalSpecFns;

use crate::model::Attribute;
use crate::model::Block;
use crate::model::Directive;
use crate::model::Docstring;
use crate::model::ExceptionEntry;
use crate::model::Method;
use crate::model::Parameter;
use crate::model::Reference;
use crate::model::Return;
use crate::model::Section;
use crate::model::SeeAlsoEntry;
use crate::parse::kind::EntryRole;
use crate::parse::kind::SectionName;
use crate::parse::text_block::find_text_block;
use crate::parse::text_block::first_nonempty;
use crate::parse::text_block::TextBlock;
use crate::parse::Style;
use crate::strs::ascii_lower;
use crate::strs::lower_seq;
use crate::syntax::any_tokens;
use crate::syntax::present_tokens;
use crate::syntax::SyntaxToken;
use crate::parse::kind::google_name_kind;
use crate::parse::kind::numpy_name_kind;
use crate::parse::kind::model_kind;
use crate::model::SectionKind;
use crate::model::FreeSectionKind;
use vstd::utf8::encode_utf8;
use crate::text::hi;
use crate::text::lo;
use crate::syntax::child_nodes;
use crate::syntax::Parsed;
use crate::syntax::SyntaxElement;
use crate::syntax::SyntaxKind;
use crate::syntax::SyntaxNode;
use crate::text::range_bytes;
use crate::text::TextSize;

verus! {

// =============================================================================
// Text helpers
// =============================================================================

/// The text of the first present token of `kind`, owned.
fn token_text(parsed: &Parsed, node: &SyntaxNode, kind: SyntaxKind) -> (r: Option<String>)
    ensures
        opt_text_of(parsed, *node, kind, r),
{
    match node.find_token(kind) {
        Some(t) => Some(t.text(parsed.source()).to_owned()),
        None => None,
    }
}

/// `s` is the source text of token `t`.
pub open spec fn tok_text_is(parsed: &Parsed, t: SyntaxToken, s: String) -> bool {
    encode_utf8(s@) == range_bytes(t.trange(), parsed.src_bytes())
}

/// `v` holds the texts of the present `kind` tokens among `node`'s
/// children, in order.
pub open spec fn texts_of(parsed: &Parsed, node: SyntaxNode, kind: SyntaxKind, v: Seq<String>) -> bool {
    &&& v.len() == present_tokens(node.kids(), kind).len()
    &&& forall|i: int| 0 <= i < v.len() ==> tok_text_is(parsed, present_tokens(node.kids(), kind)[i], #[trigger] v[i])
}

/// `o` is the text of the first present `kind` token among `node`'s
/// children, or `None` without one.
pub open spec fn opt_text_of(parsed: &Parsed, node: SyntaxNode, kind: SyntaxKind, o: Option<String>) -> bool {
    match o {
        Some(s) => present_tokens(node.kids(), kind).len() > 0 && tok_text_is(
            parsed,
            present_tokens(node.kids(), kind)[0],
            s,
        ),
        None => present_tokens(node.kids(), kind).len() == 0,
    }
}

/// The texts of all present tokens of `kind`, owned, in order.
fn token_texts(parsed: &Parsed, node: &SyntaxNode, kind: SyntaxKind) -> (r: Vec<String>)
    ensures
        texts_of(parsed, *node, kind, r@),
{
    let toks = node.tokens(kind);
    let mut out: Vec<String> = Vec::new();
    let mut i: usize = 0;
    while i < toks.len()
        invariant
            i <= toks@.len(),
            toks@.len() == present_tokens(node.kids(), kind).len(),
            forall|k: int| 0 <= k < toks@.len() ==> *#[trigger] toks@[k] == present_tokens(node.kids(), kind)[k],
            out@.len() == i,
            forall|k: int| 0 <= k < i ==> tok_text_is(parsed, present_tokens(node.kids(), kind)[k], #[trigger] out@[k]),
        decreases toks@.len() - i,
    {
        let ghost before = out@;
        out.push(toks[i].text(parsed.source()).to_owned());
        proof {
            assert forall|k: int| 0 <= k < i + 1 implies tok_text_is(
                parsed,
                present_tokens(node.kids(), kind)[k],
                #[trigger] out@[k],
            ) by {
                if k < i {
                    assert(out@[k] == before[k]);
                } else {
                    assert(*toks@[k] == present_tokens(node.kids(), kind)[k]);
                }
            }
        }
        i = i + 1;
    }
    out
}

/// `s` is the logical text of block node `n`: its lines, continuation
/// lines dedented by their common indentation.
pub open spec fn logical_ok(parsed: &Parsed, n: SyntaxNode, s: String) -> bool {
    let rb = range_bytes(n.nrange(), parsed.src_bytes());
    crate::cursor::count_lines(rb) > 0 ==> encode_utf8(s@) == crate::parse::scan::dedent_upto(
        rb,
        crate::parse::scan::common_indent(rb),
        crate::cursor::count_lines(rb),
    )
}

/// `s` is the model text of a prose block `n`: logical text for Google,
/// the raw source text otherwise.
pub open spec fn prose_ok(parsed: &Parsed, n: SyntaxNode, s: String) -> bool {
    if parsed.style_of() == Style::Google {
        logical_ok(parsed, n, s)
    } else {
        encode_utf8(s@) == range_bytes(n.nrange(), parsed.src_bytes())
    }
}

/// `o` is the logical text of `node`'s first non-empty `DESCRIPTION`
/// child, or `None` without one.
pub open spec fn desc_ok(parsed: &Parsed, node: SyntaxNode, o: Option<String>) -> bool {
    match first_nonempty(child_nodes(node.kids(), SyntaxKind::DESCRIPTION)) {
        Some(d) => o matches Some(s) && logical_ok(parsed, d, s),
        None => o is None,
    }
}

/// `s` is the text of the first `kind` token among `node`'s children
/// (present or not), or empty without one.
pub open spec fn any_text_of(parsed: &Parsed, node: SyntaxNode, kind: SyntaxKind, s: String) -> bool {
    if any_tokens(node.kids(), kind).len() > 0 {
        tok_text_is(parsed, any_tokens(node.kids(), kind)[0], s)
    } else {
        s@.len() == 0
    }
}

/// `o` is the text of the `DEFAULT_VALUE` token of `node`'s first
/// `DEFAULT` child, or `None` without one.
pub open spec fn default_ok(parsed: &Parsed, node: SyntaxNode, o: Option<String>) -> bool {
    if child_nodes(node.kids(), SyntaxKind::DEFAULT).len() > 0 {
        opt_text_of(parsed, child_nodes(node.kids(), SyntaxKind::DEFAULT)[0], SyntaxKind::DEFAULT_VALUE, o)
    } else {
        o is None
    }
}

/// `b` is the typed block an entry `node` converts to under `role`: every
/// field the source text of the token or block it comes from.
pub open spec fn entry_block_ok(parsed: &Parsed, node: SyntaxNode, role: EntryRole, b: Block) -> bool {
    match role {
        EntryRole::Parameter => b matches Block::Parameter(p) && texts_of(parsed, node, SyntaxKind::NAME, p.names@)
            && opt_text_of(parsed, node, SyntaxKind::TYPE, p.type_annotation) && desc_ok(parsed, node, p.description)
            && p.is_optional == (present_tokens(node.kids(), SyntaxKind::OPTIONAL).len() > 0) && default_ok(
            parsed,
            node,
            p.default_value,
        ),
        EntryRole::Attribute => b matches Block::Attribute(a) && texts_of(parsed, node, SyntaxKind::NAME, a.names@)
            && opt_text_of(parsed, node, SyntaxKind::TYPE, a.type_annotation) && desc_ok(parsed, node, a.description),
        EntryRole::Return | EntryRole::Yield => b matches Block::Return(x) && opt_text_of(
            parsed,
            node,
            SyntaxKind::NAME,
            x.name,
        ) && opt_text_of(parsed, node, SyntaxKind::TYPE, x.type_annotation) && desc_ok(parsed, node, x.description),
        EntryRole::Exception | EntryRole::Warning => b matches Block::Exception(x) && any_text_of(
            parsed,
            node,
            SyntaxKind::TYPE,
            x.exception_type,
        ) && desc_ok(parsed, node, x.description),
        EntryRole::Method => b matches Block::Method(m) && any_text_of(parsed, node, SyntaxKind::NAME, m.name)
            && opt_text_of(parsed, node, SyntaxKind::TYPE, m.type_annotation) && desc_ok(parsed, node, m.description),
        EntryRole::SeeAlsoItem => b matches Block::SeeAlso(x) && texts_of(parsed, node, SyntaxKind::NAME, x.names@)
            && desc_ok(parsed, node, x.description),
        EntryRole::Citation | EntryRole::FreeText => false,
    }
}

/// The type a converted entry carries, if its kind of block has one.
pub open spec fn block_type(b: Block) -> Option<String> {
    match b {
        Block::Parameter(p) => p.type_annotation,
        Block::Attribute(a) => a.type_annotation,
        Block::Return(r) => r.type_annotation,
        Block::Method(m) => m.type_annotation,
        _ => None,
    }
}

/// The description a converted entry carries.
pub open spec fn block_description(b: Block) -> Option<String> {
    match b {
        Block::Parameter(p) => p.description,
        Block::Attribute(a) => a.description,
        Block::Return(r) => r.description,
        Block::Exception(e) => e.description,
        Block::Method(m) => m.description,
        Block::SeeAlso(x) => x.description,
        _ => None,
    }
}

/// Converting an entry keeps what its tree holds: a block of the kind its
/// section's role calls for; a description exactly when the entry has a
/// non-empty `DESCRIPTION`; for a typed kind of entry, the text of its
/// first present `TYPE` token exactly when there is one; an exception's
/// type from its `TYPE` token; the names, one per present `NAME` token.
pub proof fn law_entry_keeps_fields(parsed: &Parsed, node: SyntaxNode, role: EntryRole, b: Block)
    requires
        entry_block_ok(parsed, node, role, b),
    ensures
        role == EntryRole::Parameter ==> b is Parameter,
        role == EntryRole::Attribute ==> b is Attribute,
        (role == EntryRole::Return || role == EntryRole::Yield) ==> b is Return,
        (role == EntryRole::Exception || role == EntryRole::Warning) ==> b is Exception,
        role == EntryRole::Method ==> b is Method,
        role == EntryRole::SeeAlsoItem ==> b is SeeAlso,
        block_description(b) is Some <==> first_nonempty(child_nodes(node.kids(), SyntaxKind::DESCRIPTION)) is Some,
        (b is Parameter || b is Attribute || b is Return || b is Method) ==> (block_type(b) is Some <==> present_tokens(
            node.kids(),
            SyntaxKind::TYPE,
        ).len() > 0),
        (b is Parameter || b is Attribute || b is Return || b is Method) && block_type(b) is Some ==> tok_text_is(
            parsed,
            present_tokens(node.kids(), SyntaxKind::TYPE)[0],
            block_type(b)->0,
        ),
        b matches Block::Exception(e) ==> (any_tokens(node.kids(), SyntaxKind::TYPE).len() > 0 ==> tok_text_is(
            parsed,
            any_tokens(node.kids(), SyntaxKind::TYPE)[0],
            e.exception_type,
        )),
        b matches Block::Parameter(p) ==> p.names@.len() == present_tokens(node.kids(), SyntaxKind::NAME).len(),
        b matches Block::Attribute(a) ==> a.names@.len() == present_tokens(node.kids(), SyntaxKind::NAME).len(),
        b matches Block::SeeAlso(x) ==> x.names@.len() == present_tokens(node.kids(), SyntaxKind::NAME).len(),
{
}

/// The logical (dedented) text of a text block.
fn logical(tb: &TextBlock) -> (r: String)
    ensures
        logical_ok(&tb.bparsed(), tb.bnode(), r),
{
    tb.logical_text()
}

/// The dedented text of the first non-missing `DESCRIPTION` child.
fn description_text(parsed: &Parsed, node: &SyntaxNode) -> (r: Option<String>)
    ensures
        desc_ok(parsed, *node, r),
{
    match find_text_block(parsed, node, SyntaxKind::DESCRIPTION) {
        Some(tb) => Some(logical(&tb)),
        None => None,
    }
}

/// A prose block's model text: Google dedents, NumPy and Plain keep the
/// text raw.
fn prose_text(parsed: &Parsed, tb: &TextBlock) -> (r: String)
    requires
        tb.bparsed() == *parsed,
    ensures
        prose_ok(parsed, tb.bnode(), r),
{
    if parsed.style() == Style::Google {
        logical(tb)
    } else {
        tb.text().to_owned()
    }
}

// =============================================================================
// The paragraph rule
// =============================================================================

/// An entry is genuine when it has a colon or a description.
pub open spec fn genuine(node: SyntaxNode) -> bool {
    any_tokens(node.kids(), SyntaxKind::COLON).len() > 0 || child_nodes(node.kids(), SyntaxKind::DESCRIPTION).len() > 0
}

/// An entry is genuine when it has a colon or a description.
pub fn is_genuine_entry(node: &SyntaxNode) -> (r: bool)
    ensures
        r == genuine(*node),
{
    node.find_any_token(SyntaxKind::COLON).is_some() || node.find_node(SyntaxKind::DESCRIPTION).is_some()
}

/// The number of newline bytes among `b[i..stop)`.
pub open spec fn newlines_in(b: Seq<u8>, i: int, stop: int) -> int
    decreases stop - i,
{
    if i >= stop {
        0
    } else {
        (if b[i] == 10u8 {
            1int
        } else {
            0int
        }) + newlines_in(b, i + 1, stop)
    }
}

/// Whether a blank line separates offsets `end` and `start` of `b`: the
/// bytes between them (clamped to `b`) hold two newlines or more.
pub open spec fn blank_between(b: Seq<u8>, end: int, start: int) -> bool {
    let stop = if start < b.len() {
        start
    } else {
        b.len() as int
    };
    newlines_in(b, end, stop) >= 2
}

/// Whether a blank line separates offsets `end` and `start`: the bytes
/// between them hold two newlines or more.
pub fn blank_line_between(source: &str, end: TextSize, start: TextSize) -> (r: bool)
    ensures
        r == blank_between(source.spec_bytes(), end@ as int, start@ as int),
{
    let b = source.as_bytes();
    let mut i = end.to_usize();
    let stop = start.to_usize();
    let ghost lim: int = if stop < b@.len() {
        stop as int
    } else {
        b@.len() as int
    };
    let mut newlines: usize = 0;
    while i < stop && i < b.len()
        invariant
            newlines <= i,
            b@ == source.spec_bytes(),
            lim == (if stop < b@.len() {
                stop as int
            } else {
                b@.len() as int
            }),
            end@ <= i,
            newlines + newlines_in(b@, i as int, lim) == newlines_in(b@, end@ as int, lim),
        decreases stop - i,
    {
        if b[i] == 10u8 {
            newlines = newlines + 1;
        }
        i = i + 1;
    }
    newlines >= 2
}

/// Per-entry outcome of the paragraph rule.
pub enum EntryPlan {
    /// Convert as a typed entry.
    Entry,
    /// A prose paragraph covering this entry's run.
    Paragraph(String),
    /// Interior of a run already covered by a preceding paragraph.
    Skip,
}

/// An [`EntryPlan`] as a value: a paragraph by its UTF-8 bytes.
pub enum PlanView {
    Entry,
    Paragraph(Seq<u8>),
    Skip,
}

/// The value of a plan.
pub open spec fn plan_view(p: EntryPlan) -> PlanView {
    match p {
        EntryPlan::Entry => PlanView::Entry,
        EntryPlan::Paragraph(s) => PlanView::Paragraph(encode_utf8(s@)),
        EntryPlan::Skip => PlanView::Skip,
    }
}

/// Entry `j` and entry `j + 1` belong to one run of bare entries: the next
/// one is bare too and no blank line lies between them.
pub open spec fn joins(b: Seq<u8>, es: Seq<SyntaxNode>, j: int) -> bool {
    !genuine(es[j + 1]) && !blank_between(b, hi(es[j].nrange()), lo(es[j + 1].nrange()))
}

/// The last entry of the maximal run of bare entries that starts at `i`.
pub open spec fn run_end(b: Seq<u8>, es: Seq<SyntaxNode>, i: int) -> int
    decreases es.len() - i,
{
    if 0 <= i && i + 1 < es.len() && joins(b, es, i) {
        run_end(b, es, i + 1)
    } else {
        i
    }
}

/// Some entry is genuine.
pub open spec fn any_genuine(es: Seq<SyntaxNode>) -> bool {
    exists|k: int| 0 <= k < es.len() && genuine(#[trigger] es[k])
}

/// `k` copies of [`PlanView::Skip`].
pub open spec fn skips(k: int) -> Seq<PlanView> {
    Seq::new(k as nat, |x: int| PlanView::Skip)
}

/// The paragraph rule from entry `i` on: a genuine entry stays an entry; a
/// maximal run of bare entries becomes one paragraph over its source text
/// (then a skip for each further entry of the run) when it has two entries
/// or more or some entry of the body is genuine; a lone bare entry of an
/// entry-less body stays an entry.
pub open spec fn plans_from(b: Seq<u8>, es: Seq<SyntaxNode>, hg: bool, i: int) -> Seq<PlanView>
    decreases es.len() - i,
{
    if i < 0 || i >= es.len() {
        Seq::empty()
    } else if genuine(es[i]) {
        seq![PlanView::Entry] + plans_from(b, es, hg, i + 1)
    } else {
        let j = run_end(b, es, i);
        if j < i || j >= es.len() {
            Seq::empty()
        } else if j - i + 1 >= 2 || hg {
            seq![PlanView::Paragraph(span_bytes(b, lo(es[i].nrange()), hi(es[j].nrange())))] + skips(j - i)
                + plans_from(b, es, hg, j + 1)
        } else {
            seq![PlanView::Entry] + plans_from(b, es, hg, i + 1)
        }
    }
}

/// The bytes `[a, z)` of `b` when that is a valid slice, else nothing.
pub open spec fn span_bytes(b: Seq<u8>, a: int, z: int) -> Seq<u8> {
    if crate::strs::valid_span(b, a, z) {
        b.subrange(a, z)
    } else {
        Seq::empty()
    }
}

/// The entries a reference list points at.
pub open spec fn entry_nodes(es: Seq<&SyntaxNode>) -> Seq<SyntaxNode> {
    Seq::new(es.len(), |k: int| *es[k])
}

/// A run that starts inside the entries ends inside them.
proof fn lemma_run_end_bounds(b: Seq<u8>, es: Seq<SyntaxNode>, i: int)
    requires
        0 <= i < es.len(),
    ensures
        i <= run_end(b, es, i) < es.len(),
    decreases es.len() - i,
{
    if i + 1 < es.len() && joins(b, es, i) {
        lemma_run_end_bounds(b, es, i + 1);
    }
}

/// The paragraph rule gives one plan per entry.
proof fn lemma_plans_len(b: Seq<u8>, es: Seq<SyntaxNode>, hg: bool, i: int)
    requires
        0 <= i <= es.len(),
    ensures
        plans_from(b, es, hg, i).len() == es.len() - i,
    decreases es.len() - i,
{
    if i < es.len() {
        if genuine(es[i]) {
            lemma_plans_len(b, es, hg, i + 1);
        } else {
            lemma_run_end_bounds(b, es, i);
            let j = run_end(b, es, i);
            if j - i + 1 >= 2 || hg {
                lemma_plans_len(b, es, hg, j + 1);
            } else {
                lemma_plans_len(b, es, hg, i + 1);
            }
        }
    }
}

/// Apply the paragraph rule to a section's `ENTRY` children, in order: one
/// plan per entry.
pub fn plan_paragraph_runs(source: &str, entries: &Vec<&SyntaxNode>) -> (r: Vec<EntryPlan>)
    ensures
        ({
            let ps = plans_from(
                source.spec_bytes(),
                entry_nodes(entries@),
                any_genuine(entry_nodes(entries@)),
                0,
            );
            &&& r@.len() == ps.len()
            &&& forall|k: int| 0 <= k < r@.len() ==> plan_view(#[trigger] r@[k]) == ps[k]
        }),
{
    let ghost b = source.spec_bytes();
    let ghost es = entry_nodes(entries@);
    let n = entries.len();
    let mut genuine_flags: Vec<bool> = Vec::new();
    let mut has_genuine = false;
    let mut k: usize = 0;
    while k < n
        invariant
            k <= n,
            n == entries@.len(),
            es == entry_nodes(entries@),
            genuine_flags@.len() == k,
            forall|x: int| 0 <= x < k ==> genuine_flags@[x] == genuine(#[trigger] es[x]),
            has_genuine == exists|x: int| 0 <= x < k && genuine(#[trigger] es[x]),
        decreases n - k,
    {
        let g = is_genuine_entry(entries[k]);
        proof {
            assert(es[k as int] == *entries@[k as int]);
        }
        if g {
            has_genuine = true;
        }
        genuine_flags.push(g);
        k = k + 1;
    }
    let ghost hg = has_genuine;
    let ghost ps0 = plans_from(b, es, hg, 0);
    proof {
        assert(hg == any_genuine(es));
        lemma_plans_len(b, es, hg, 0);
    }
    let mut plans: Vec<EntryPlan> = Vec::new();
    let mut i: usize = 0;
    while i < n
        invariant
            i <= n,
            n == entries@.len(),
            es == entry_nodes(entries@),
            b == source.spec_bytes(),
            genuine_flags@.len() == n,
            forall|x: int| 0 <= x < n ==> genuine_flags@[x] == genuine(#[trigger] es[x]),
            has_genuine == hg,
            ps0 == plans_from(b, es, hg, 0),
            ps0.len() == n,
            plans@.len() == i,
            forall|x: int| 0 <= x < i ==> plan_view(#[trigger] plans@[x]) == ps0[x],
            forall|x: int| i <= x < n ==> ps0[x] == #[trigger] plans_from(b, es, hg, i as int)[x - i],
        decreases n - i,
    {
        proof {
            lemma_plans_len(b, es, hg, i as int);
        }
        if genuine_flags[i] {
            let ghost before = plans@;
            plans.push(EntryPlan::Entry);
            proof {
                lemma_plans_len(b, es, hg, i + 1);
                let pi = plans_from(b, es, hg, i as int);
                assert(pi == seq![PlanView::Entry] + plans_from(b, es, hg, i + 1));
                assert forall|x: int| 0 <= x < i + 1 implies plan_view(#[trigger] plans@[x]) == ps0[x] by {
                    if x < i {
                        assert(plans@[x] == before[x]);
                    } else {
                        assert(ps0[x] == pi[x - i]);
                    }
                }
                assert forall|x: int| i + 1 <= x < n implies ps0[x] == #[trigger] plans_from(b, es, hg, i + 1)[x - (i + 1)] by {
                    assert(ps0[x] == pi[x - i]);
                }
            }
            i = i + 1;
            continue;
        }
        // Maximal run of consecutive bare entries with no blank line between.
        let mut j = i;
        while j + 1 < n && !genuine_flags[j + 1] && !blank_line_between(
            source,
            entries[j].range().end(),
            entries[j + 1].range().start(),
        )
            invariant
                i <= j < n,
                n == entries@.len(),
                es == entry_nodes(entries@),
                b == source.spec_bytes(),
                genuine_flags@.len() == n,
                forall|x: int| 0 <= x < n ==> genuine_flags@[x] == genuine(#[trigger] es[x]),
                run_end(b, es, i as int) == run_end(b, es, j as int),
            decreases n - j,
        {
            proof {
                assert(es[j as int] == *entries@[j as int]);
                assert(es[j + 1] == *entries@[j + 1]);
                assert(joins(b, es, j as int));
            }
            j = j + 1;
        }
        proof {
            assert(es[j as int] == *entries@[j as int]);
            if j + 1 < n {
                assert(es[j + 1] == *entries@[j + 1]);
            }
            assert(run_end(b, es, j as int) == j);
            assert(!genuine(es[i as int]));
        }
        let ghost pi = plans_from(b, es, hg, i as int);
        if j - i + 1 >= 2 || has_genuine {
            let span = crate::text::TextRange::new(entries[i].range().start(), entries[j].range().end());
            let ghost before = plans@;
            let text = span.source_text(source);
            plans.push(EntryPlan::Paragraph(text.to_owned()));
            proof {
                assert(es[i as int] == *entries@[i as int]);
                lemma_plans_len(b, es, hg, j + 1);
                assert(pi == seq![PlanView::Paragraph(span_bytes(b, lo(es[i as int].nrange()), hi(es[j as int].nrange())))]
                    + skips(j - i) + plans_from(b, es, hg, j + 1));
                assert(plan_view(plans@[i as int]) == pi[0]);
            }
            let mut s = i;
            while s < j
                invariant
                    i <= s <= j < n,
                    plans@.len() == s + 1,
                    forall|x: int| 0 <= x < i ==> plan_view(#[trigger] plans@[x]) == ps0[x],
                    forall|x: int| i < x <= s ==> plans@[x] is Skip,
                    plan_view(plans@[i as int]) == pi[0],
                decreases j - s,
            {
                let ghost bs = plans@;
                plans.push(EntryPlan::Skip);
                proof {
                    assert forall|x: int| 0 <= x < i implies plan_view(#[trigger] plans@[x]) == ps0[x] by {
                        assert(plans@[x] == bs[x]);
                    }
                    assert forall|x: int| i < x <= s + 1 implies plans@[x] is Skip by {
                        if x <= s {
                            assert(plans@[x] == bs[x]);
                        }
                    }
                    assert(plans@[i as int] == bs[i as int]);
                }
                s = s + 1;
            }
            proof {
                assert forall|x: int| 0 <= x < j + 1 implies plan_view(#[trigger] plans@[x]) == ps0[x] by {
                    if x >= i {
                        assert(ps0[x] == pi[x - i]);
                        if x > i {
                            assert(pi[x - i] == skips(j - i)[x - i - 1]);
                        }
                    }
                }
                assert forall|x: int| j + 1 <= x < n implies ps0[x] == #[trigger] plans_from(b, es, hg, j + 1)[x - (j + 1)] by {
                    assert(ps0[x] == pi[x - i]);
                }
            }
        } else {
            let ghost before = plans@;
            plans.push(EntryPlan::Entry);
            proof {
                lemma_plans_len(b, es, hg, i + 1);
                assert(j == i);
                assert(pi == seq![PlanView::Entry] + plans_from(b, es, hg, i + 1));
                assert forall|x: int| 0 <= x < i + 1 implies plan_view(#[trigger] plans@[x]) == ps0[x] by {
                    if x < i {
                        assert(plans@[x] == before[x]);
                    } else {
                        assert(ps0[x] == pi[x - i]);
                    }
                }
                assert forall|x: int| i + 1 <= x < n implies ps0[x] == #[trigger] plans_from(b, es, hg, i + 1)[x - (i + 1)] by {
                    assert(ps0[x] == pi[x - i]);
                }
            }
        }
        i = j + 1;
    }
    plans
}

// =============================================================================
// Entries
// =============================================================================

/// Convert one `ENTRY` node into a typed block, by the section's role;
/// `None` for roles that own no entries.
pub fn convert_entry(parsed: &Parsed, node: &SyntaxNode, role: EntryRole) -> (r: Option<Block>)
    ensures
        match r {
            Some(b) => entry_block_ok(parsed, *node, role, b),
            None => role == EntryRole::Citation || role == EntryRole::FreeText,
        },
{
    match role {
        EntryRole::Parameter | EntryRole::Attribute => {
            let names = token_texts(parsed, node, SyntaxKind::NAME);
            let type_annotation = token_text(parsed, node, SyntaxKind::TYPE);
            let description = description_text(parsed, node);
            if role == EntryRole::Attribute {
                Some(Block::Attribute(Attribute { names, type_annotation, description }))
            } else {
                let is_optional = node.find_token(SyntaxKind::OPTIONAL).is_some();
                let default_value = match node.find_node(SyntaxKind::DEFAULT) {
                    Some(d) => token_text(parsed, d, SyntaxKind::DEFAULT_VALUE),
                    None => None,
                };
                Some(Block::Parameter(Parameter { names, type_annotation, description, is_optional, default_value }))
            }
        },
        EntryRole::Return | EntryRole::Yield => {
            Some(
                Block::Return(
                    Return {
                        name: token_text(parsed, node, SyntaxKind::NAME),
                        type_annotation: token_text(parsed, node, SyntaxKind::TYPE),
                        description: description_text(parsed, node),
                    },
                ),
            )
        },
        EntryRole::Exception | EntryRole::Warning => {
            let exception_type = match node.find_any_token(SyntaxKind::TYPE) {
                Some(t) => t.text(parsed.source()).to_owned(),
                None => String::new(),
            };
            Some(Block::Exception(ExceptionEntry { exception_type, description: description_text(parsed, node) }))
        },
        EntryRole::Method => {
            let name = match node.find_any_token(SyntaxKind::NAME) {
                Some(t) => t.text(parsed.source()).to_owned(),
                None => String::new(),
            };
            Some(
                Block::Method(
                    Method {
                        name,
                        type_annotation: token_text(parsed, node, SyntaxKind::TYPE),
                        description: description_text(parsed, node),
                    },
                ),
            )
        },
        EntryRole::SeeAlsoItem => {
            Some(
                Block::SeeAlso(
                    SeeAlsoEntry {
                        names: token_texts(parsed, node, SyntaxKind::NAME),
                        description: description_text(parsed, node),
                    },
                ),
            )
        },
        EntryRole::Citation | EntryRole::FreeText => None,
    }
}

// =============================================================================
// Sections
// =============================================================================

/// The bytes of a section's header name: the first `NAME` token of its
/// first `SECTION_HEADER` child, or nothing without one.
pub open spec fn header_name_bytes(parsed: &Parsed, section: SyntaxNode) -> Seq<u8> {
    let hs = child_nodes(section.kids(), SyntaxKind::SECTION_HEADER);
    if hs.len() > 0 && any_tokens(hs[0].kids(), SyntaxKind::NAME).len() > 0 {
        range_bytes(any_tokens(hs[0].kids(), SyntaxKind::NAME)[0].trange(), parsed.src_bytes())
    } else {
        Seq::empty()
    }
}

/// The section name a header name reads as in a style, case-insensitively.
pub open spec fn header_section_name(style: Style, name: Seq<u8>) -> SectionName {
    match style {
        Style::Google => google_name_kind(lower_seq(name)),
        Style::NumPy => numpy_name_kind(lower_seq(name)),
        Style::Plain => SectionName::Unknown,
    }
}

/// The model kind of a section: the header's section name, or an unknown
/// free-text section carrying the header text.
pub open spec fn section_kind_is(parsed: &Parsed, section: SyntaxNode, k: SectionKind) -> bool {
    let nm = header_section_name(parsed.style_of(), header_name_bytes(parsed, section));
    if nm != SectionName::Unknown {
        k == model_kind(nm)
    } else {
        k matches SectionKind::FreeText(FreeSectionKind::Unknown(n)) && encode_utf8(n@) == header_name_bytes(
            parsed,
            section,
        )
    }
}

/// The section name a section's header reads as, by the parsed style; the
/// header text (empty when the section has no header name).
fn section_name_of<'a>(parsed: &'a Parsed, section: &'a SyntaxNode) -> (r: (SectionName, &'a str))
    ensures
        r.0 == header_section_name(parsed.style_of(), header_name_bytes(parsed, *section)),
        r.1.spec_bytes() == header_name_bytes(parsed, *section),
{
    let empty = "";
    proof {
        reveal_strlit("");
    }
    let name: &str = match section.find_node(SyntaxKind::SECTION_HEADER) {
        Some(h) => match h.find_any_token(SyntaxKind::NAME) {
            Some(t) => t.text(parsed.source()),
            None => empty,
        },
        None => empty,
    };
    let b = name.as_bytes();
    proof {
        assert(b@.subrange(0, b@.len() as int) =~= b@);
    }
    let lower = ascii_lower(b, 0, b.len());
    let kind = match parsed.style() {
        Style::Google => SectionName::from_google_name_bytes(lower.as_slice()),
        Style::NumPy => SectionName::from_numpy_name_bytes(lower.as_slice()),
        Style::Plain => SectionName::Unknown,
    };
    (kind, name)
}

/// The blocks `bs` that the children of a section from the `i`-th on give,
/// with `ei` entries seen before: a `DESCRIPTION` body is a prose
/// paragraph, a `CITATION` a reference, and an `ENTRY` follows its plan
/// `ps[ei]` (a paragraph, nothing, or a typed entry), or becomes a typed
/// entry when there is no plan; entries of citation and free-text roles
/// give nothing; other children give nothing.
pub open spec fn blocks_from(
    parsed: &Parsed,
    kids: Seq<SyntaxElement>,
    role: EntryRole,
    ps: Seq<PlanView>,
    i: int,
    ei: int,
    bs: Seq<Block>,
) -> bool
    decreases kids.len() - i,
{
    if i < 0 || i >= kids.len() {
        bs.len() == 0
    } else {
        match kids[i] {
            SyntaxElement::Node(n) => {
                if n.nkind() == SyntaxKind::DESCRIPTION {
                    &&& bs.len() > 0
                    &&& bs[0] matches Block::Paragraph(t) && prose_ok(parsed, n, t)
                    &&& blocks_from(parsed, kids, role, ps, i + 1, ei, bs.drop_first())
                } else if n.nkind() == SyntaxKind::CITATION {
                    &&& bs.len() > 0
                    &&& bs[0] matches Block::Reference(x) && opt_text_of(parsed, n, SyntaxKind::LABEL, x.label)
                        && desc_ok(parsed, n, x.content)
                    &&& blocks_from(parsed, kids, role, ps, i + 1, ei, bs.drop_first())
                } else if n.nkind() == SyntaxKind::ENTRY {
                    if 0 <= ei < ps.len() && ps[ei] is Paragraph {
                        &&& bs.len() > 0
                        &&& bs[0] matches Block::Paragraph(t) && PlanView::Paragraph(encode_utf8(t@)) == ps[ei]
                        &&& blocks_from(parsed, kids, role, ps, i + 1, ei + 1, bs.drop_first())
                    } else if 0 <= ei < ps.len() && ps[ei] is Skip {
                        blocks_from(parsed, kids, role, ps, i + 1, ei + 1, bs)
                    } else if role == EntryRole::Citation || role == EntryRole::FreeText {
                        blocks_from(parsed, kids, role, ps, i + 1, ei + 1, bs)
                    } else {
                        &&& bs.len() > 0
                        &&& entry_block_ok(parsed, n, role, bs[0])
                        &&& blocks_from(parsed, kids, role, ps, i + 1, ei + 1, bs.drop_first())
                    }
                } else {
                    blocks_from(parsed, kids, role, ps, i + 1, ei, bs)
                }
            },
            SyntaxElement::Token(_) => blocks_from(parsed, kids, role, ps, i + 1, ei, bs),
        }
    }
}

/// The paragraph-rule plans of a section's entries under `role`: the rule
/// for return and yield bodies, none otherwise.
pub open spec fn section_plans(parsed: &Parsed, section: SyntaxNode, role: EntryRole) -> Seq<PlanView> {
    if role == EntryRole::Return || role == EntryRole::Yield {
        let es = child_nodes(section.kids(), SyntaxKind::ENTRY);
        plans_from(parsed.src_bytes(), es, any_genuine(es), 0)
    } else {
        Seq::empty()
    }
}

/// `sec` is the model of the section node `section`: its kind from the
/// header, its blocks from the children.
pub open spec fn section_ok(parsed: &Parsed, section: SyntaxNode, sec: Section) -> bool {
    let role = crate::parse::kind::role_of(header_section_name(parsed.style_of(), header_name_bytes(parsed, section)));
    &&& section_kind_is(parsed, section, sec.kind)
    &&& blocks_from(parsed, section.kids(), role, section_plans(parsed, section, role), 0, 0, sec.blocks@)
}

/// Build a [`Section`] by walking the section's children in source order:
/// a free-text body becomes a paragraph, citations become references, and
/// entries become typed blocks (or prose, by the paragraph rule).
pub fn convert_section(parsed: &Parsed, section: &SyntaxNode) -> (r: Section)
    ensures
        section_ok(parsed, *section, r),
{
    let (name, header_text) = section_name_of(parsed, section);
    let kind = name.to_section_kind(header_text);
    let role = name.entry_role();
    let entries = section.nodes(SyntaxKind::ENTRY);
    let ghost ps = section_plans(parsed, *section, role);
    let plans = if role == EntryRole::Return || role == EntryRole::Yield {
        proof {
            assert(entry_nodes(entries@) =~= child_nodes(section.kids(), SyntaxKind::ENTRY));
        }
        plan_paragraph_runs(parsed.source(), &entries)
    } else {
        Vec::new()
    };
    let mut blocks: Vec<Block> = Vec::new();
    let mut entry_index: usize = 0;
    let kids = section.children();
    proof {
        assert forall|rest: Seq<Block>| #[trigger]
            blocks_from(parsed, kids@, role, ps, 0, 0, rest) implies blocks_from(
            parsed,
            kids@,
            role,
            ps,
            0,
            0,
            blocks@ + rest,
        ) by {
            assert(blocks@ + rest =~= rest);
        }
    }
    let mut i: usize = 0;
    while i < kids.len()
        invariant
            i <= kids@.len(),
            entry_index <= i,
            kids@ == section.kids(),
            plans@.len() == ps.len(),
            forall|x: int| 0 <= x < plans@.len() ==> plan_view(#[trigger] plans@[x]) == ps[x],
            forall|rest: Seq<Block>| #[trigger]
                blocks_from(parsed, kids@, role, ps, i as int, entry_index as int, rest) ==> blocks_from(
                    parsed,
                    kids@,
                    role,
                    ps,
                    0,
                    0,
                    blocks@ + rest,
                ),
        decreases kids@.len() - i,
    {
        let ghost b0 = blocks@;
        let ghost e0 = entry_index as int;
        if let SyntaxElement::Node(node) = &kids[i] {
            let k = node.kind();
            if k == SyntaxKind::DESCRIPTION {
                match TextBlock::cast(parsed, node) {
                    Some(tb) => blocks.push(Block::Paragraph(prose_text(parsed, &tb))),
                    None => {},
                }
            } else if k == SyntaxKind::CITATION {
                let label = token_text(parsed, node, SyntaxKind::LABEL);
                let content = description_text(parsed, node);
                blocks.push(Block::Reference(Reference { label, content }));
            } else if k == SyntaxKind::ENTRY {
                if entry_index < plans.len() {
                    match &plans[entry_index] {
                        EntryPlan::Paragraph(text) => blocks.push(Block::Paragraph(text.clone())),
                        EntryPlan::Skip => {},
                        EntryPlan::Entry => {
                            match convert_entry(parsed, node, role) {
                                Some(b) => blocks.push(b),
                                None => {},
                            }
                        },
                    }
                } else {
                    match convert_entry(parsed, node, role) {
                        Some(b) => blocks.push(b),
                        None => {},
                    }
                }
                entry_index = entry_index + 1;
            }
        }
        proof {
            assert(blocks@.len() == b0.len() || blocks@.len() == b0.len() + 1);
            assert forall|rest: Seq<Block>| #[trigger]
                blocks_from(parsed, kids@, role, ps, i + 1, entry_index as int, rest) implies blocks_from(
                parsed,
                kids@,
                role,
                ps,
                0,
                0,
                blocks@ + rest,
            ) by {
                if blocks@.len() == b0.len() + 1 {
                    let bb = blocks@[b0.len() as int];
                    assert((seq![bb] + rest).drop_first() =~= rest);
                    assert(blocks_from(parsed, kids@, role, ps, i as int, e0, seq![bb] + rest));
                    assert(b0 + (seq![bb] + rest) =~= blocks@ + rest);
                } else {
                    assert(blocks@ =~= b0);
                    assert(blocks_from(parsed, kids@, role, ps, i as int, e0, rest));
                }
            }
        }
        i = i + 1;
    }
    proof {
        assert(blocks_from(parsed, kids@, role, ps, i as int, entry_index as int, Seq::<Block>::empty()));
        assert(blocks@ + Seq::<Block>::empty() =~= blocks@);
    }
    Section::new(kind, blocks)
}

/// The document-level directives as model directives.
pub fn convert_directives(parsed: &Parsed) -> (r: Vec<Directive>)
    ensures
        r@.len() == child_nodes(parsed.root_node().kids(), SyntaxKind::DIRECTIVE).len(),
{
    let ns = parsed.root().nodes(SyntaxKind::DIRECTIVE);
    let mut out: Vec<Directive> = Vec::new();
    let mut i: usize = 0;
    while i < ns.len()
        invariant
            i <= ns@.len(),
            out@.len() == i,
        decreases ns@.len() - i,
    {
        let n = ns[i];
        let name = match n.find_any_token(SyntaxKind::DIRECTIVE_NAME) {
            Some(t) => t.text(parsed.source()).to_owned(),
            None => String::new(),
        };
        out.push(
            Directive {
                name,
                argument: token_text(parsed, n, SyntaxKind::ARGUMENT),
                description: description_text(parsed, n),
            },
        );
        i = i + 1;
    }
    out
}

/// Build a [`Docstring`] from a [`Parsed`] result of any style.
///
/// The summary is the summary block's text; the directives and sections
/// are the document's, one model item per node, in order.
pub fn to_model_any(parsed: &Parsed) -> (r: Docstring)
    ensures
        match first_nonempty(child_nodes(parsed.root_node().kids(), SyntaxKind::SUMMARY)) {
            Some(n) => r.summary matches Some(s) && vstd::utf8::encode_utf8(s@) == range_bytes(
                n.nrange(),
                parsed.src_bytes(),
            ),
            None => r.summary is None,
        },
        match first_nonempty(child_nodes(parsed.root_node().kids(), SyntaxKind::EXTENDED_SUMMARY)) {
            Some(n) => r.extended_summary matches Some(s) && prose_ok(parsed, n, s),
            None => r.extended_summary is None,
        },
        r.directives@.len() == child_nodes(parsed.root_node().kids(), SyntaxKind::DIRECTIVE).len(),
        r.sections@.len() == child_nodes(parsed.root_node().kids(), SyntaxKind::SECTION).len(),
        forall|i: int|
            0 <= i < r.sections@.len() ==> section_ok(
                parsed,
                child_nodes(parsed.root_node().kids(), SyntaxKind::SECTION)[i],
                #[trigger] r.sections@[i],
            ),
{
    let root = parsed.root();
    let summary = match find_text_block(parsed, root, SyntaxKind::SUMMARY) {
        Some(tb) => Some(tb.text().to_owned()),
        None => None,
    };
    let extended_summary = match find_text_block(parsed, root, SyntaxKind::EXTENDED_SUMMARY) {
        Some(tb) => Some(prose_text(parsed, &tb)),
        None => None,
    };
    let directives = convert_directives(parsed);
    let ns = root.nodes(SyntaxKind::SECTION);
    let mut sections: Vec<Section> = Vec::new();
    let mut i: usize = 0;
    while i < ns.len()
        invariant
            i <= ns@.len(),
            sections@.len() == i,
            ns@.len() == child_nodes(root.kids(), SyntaxKind::SECTION).len(),
            forall|k: int| 0 <= k < ns@.len() ==> *#[trigger] ns@[k] == child_nodes(root.kids(), SyntaxKind::SECTION)[k],
            forall|k: int| 0 <= k < i ==> section_ok(parsed, *ns@[k], #[trigger] sections@[k]),
        decreases ns@.len() - i,
    {
        let ghost before = sections@;
        sections.push(convert_section(parsed, ns[i]));
        proof {
            assert forall|k: int| 0 <= k < i + 1 implies section_ok(parsed, *ns@[k], #[trigger] sections@[k]) by {
                if k < i {
                    assert(sections@[k] == before[k]);
                }
            }
        }
        i = i + 1;
    }
    Docstring { summary, extended_summary, directives, sections }
}

} // verus!
