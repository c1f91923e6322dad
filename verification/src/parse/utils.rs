//! Node builders shared by the style parsers: text blocks, leading-token
//! entries, continuation lines, citations and directives.

use vstd::prelude::*;
use vstd::string::StringSliceAdditionalSpecFns;

use crate::cursor::indent_cols;
use crate::cursor::LineCursor;
use crate::parse::scan::Marker;
use crate::strs::skip_ws_forward;
use crate::strs::trim_hi;
use crate::strs::trim_lo;
use crate::strs::trim_window;
use crate::syntax::all_placed;
use crate::syntax::elem_placed;
use crate::syntax::elems_in;
use crate::syntax::lemma_elems_widen;
use crate::syntax::lemma_kids_of_placed;
use crate::syntax::lemma_placed_from_kids;
use crate::syntax::node_of;
use crate::syntax::lemma_elems_push;
use crate::syntax::present_tokens;
use crate::syntax::range_in;
use crate::syntax::Parsed;
use crate::syntax::SyntaxElement;
use crate::syntax::SyntaxKind;
use crate::syntax::SyntaxNode;
use crate::syntax::SyntaxToken;
use crate::text::hi;
use crate::text::lo;
use crate::text::TextRange;
use crate::text::TextSize;

verus! {

// =============================================================================
// Small element helpers
// =============================================================================

/// A token element of `kind` over `range`.
pub fn tok(kind: SyntaxKind, range: TextRange) -> (r: SyntaxElement)
    ensures
        r matches SyntaxElement::Token(t) && t.tkind() == kind && t.trange() == range,
{
    SyntaxElement::Token(SyntaxToken::new(kind, range))
}

/// A zero-length range at `pos`.
pub fn empty_at(pos: TextSize) -> (r: TextRange)
    ensures
        r@ == (pos@, pos@),
{
    TextRange::new(pos, pos)
}

/// Whether `e` lies in `[0, n]` and is not inverted.
pub open spec fn within(r: TextRange, n: int) -> bool {
    lo(r) <= hi(r) <= n
}

// =============================================================================
// Text blocks
// =============================================================================

/// A text block of `kind` whose single content line is `range`.
pub fn text_block_single(kind: SyntaxKind, range: TextRange) -> (r: SyntaxNode)
    ensures
        r.nkind() == kind,
        r.nrange() == range,
        r.kids().len() == 1,
        r.kids()[0] matches SyntaxElement::Token(t) && t.tkind() == SyntaxKind::TEXT_LINE && t.trange() == range,
        lo(range) <= hi(range) ==> elem_placed(SyntaxElement::Node(r)),
{
    let mut children: Vec<SyntaxElement> = Vec::new();
    children.push(tok(SyntaxKind::TEXT_LINE, range));
    proof {
        if lo(range) <= hi(range) {
            assert(all_placed(children@, range));
        }
    }
    SyntaxNode::new(kind, range, children)
}

/// A zero-length placeholder text block of `kind` at `pos`: the element is
/// grammatically expected but absent.
pub fn missing_text_block(kind: SyntaxKind, pos: TextSize) -> (r: SyntaxNode)
    ensures
        r.nkind() == kind,
        r.nrange()@ == (pos@, pos@),
        r.kids().len() == 0,
        elem_placed(SyntaxElement::Node(r)),
{
    let range = empty_at(pos);
    let children: Vec<SyntaxElement> = Vec::new();
    proof {
        assert(all_placed(children@, range));
    }
    SyntaxNode::new(kind, range, children)
}

/// The element is a `TEXT_LINE` token inside `[a, b)` with content.
pub open spec fn is_text_line_in(e: SyntaxElement, a: int, b: int) -> bool {
    e matches SyntaxElement::Token(t) && t.tkind() == SyntaxKind::TEXT_LINE && a <= lo(t.trange()) < hi(
        t.trange(),
    ) <= b
}

/// Build a text block node of `kind` over `range`: one `TEXT_LINE` token
/// per non-blank line, each covering the line's trimmed content clipped to
/// the range.
pub fn build_text_block(kind: SyntaxKind, range: TextRange, source: &str) -> (r: SyntaxNode)
    ensures
        r.nkind() == kind,
        r.nrange() == range,
        forall|i: int| 0 <= i < r.kids().len() ==> is_text_line_in(#[trigger] r.kids()[i], lo(range), hi(range)),
        forall|i: int, j: int|
            0 <= i < j < r.kids().len() ==> hi(#[trigger] r.kids()[i].erange()) <= lo(#[trigger] r.kids()[j].erange()),
        lo(range) <= hi(range) ==> elem_placed(SyntaxElement::Node(r)),
{
    let b = source.as_bytes();
    let start = range.start().to_usize();
    let mut end = range.end().to_usize();
    if end > b.len() {
        end = b.len();
    }
    let mut children: Vec<SyntaxElement> = Vec::new();
    let mut pos = start;
    while pos < end
        invariant
            start <= pos,
            end <= b@.len(),
            end <= hi(range),
            start == lo(range),
            end <= u32::MAX,
            forall|i: int| 0 <= i < children@.len() ==> is_text_line_in(#[trigger] children@[i], lo(range), end as int),
            forall|i: int| 0 <= i < children@.len() ==> hi((#[trigger] children@[i]).erange()) <= pos,
            forall|i: int, j: int|
                0 <= i < j < children@.len() ==> hi(#[trigger] children@[i].erange()) <= lo(
                    #[trigger] children@[j].erange(),
                ),
        decreases end - pos,
    {
        // The line segment [pos, e): up to the next newline or the end.
        let mut e = pos;
        while e < end && b[e] != 10u8
            invariant
                pos <= e <= end,
                end <= b@.len(),
            decreases end - e,
        {
            e = e + 1;
        }
        let (ts, te) = trim_window(b, pos, e);
        if ts < te {
            let ghost old_children = children@;
            children.push(tok(SyntaxKind::TEXT_LINE, TextRange::from_usizes(ts, te)));
            proof {
                assert forall|i: int| 0 <= i < children@.len() implies is_text_line_in(
                    #[trigger] children@[i],
                    lo(range),
                    end as int,
                ) by {
                    if i < old_children.len() {
                        assert(is_text_line_in(old_children[i], lo(range), end as int));
                    }
                }
                assert forall|i: int, j: int|
                    0 <= i < j < children@.len() implies hi(#[trigger] children@[i].erange()) <= lo(
                        #[trigger] children@[j].erange(),
                    ) by {
                    if j == children@.len() - 1 {
                        assert(hi(old_children[i].erange()) <= pos);
                    }
                }
            }
        }
        pos = if e < end {
            e + 1
        } else {
            end
        };
    }
    proof {
        if lo(range) <= hi(range) {
            assert forall|k: int| 0 <= k < children@.len() implies range_in(
                (#[trigger] children@[k]).erange(),
                lo(range),
                hi(range),
            ) && elem_placed(children@[k]) by {
                assert(is_text_line_in(children@[k], lo(range), end as int));
            }
            assert forall|k: int, l: int| 0 <= k < l < children@.len() implies lo(
                (#[trigger] children@[k]).erange(),
            ) <= lo((#[trigger] children@[l]).erange()) by {
                assert(is_text_line_in(children@[k], lo(range), end as int));
            }
            assert(all_placed(children@, range));
        }
    }
    SyntaxNode::new(kind, range, children)
}

// =============================================================================
// Entries
// =============================================================================

/// The ranges of a leading-token entry lie in order inside its range:
/// the leading token, then the colon, then the first description line.
pub open spec fn leading_entry_ok(
    first: TextRange,
    colon: Option<TextRange>,
    first_desc: Option<TextRange>,
    range: TextRange,
) -> bool {
    &&& range_in(first, lo(range), hi(range))
    &&& (colon matches Some(c) ==> range_in(c, hi(first), hi(range)))
    &&& (first_desc matches Some(d) ==> range_in(
        d,
        match colon {
            Some(c) => hi(c),
            None => hi(first),
        },
        hi(range),
    ))
}

/// Build an `ENTRY` led by one token of `first_kind` (the `TYPE` of an
/// exception or warning, the `NAME` of a method), then the colon and the
/// first description line. A colon without description gets a zero-length
/// `DESCRIPTION` placeholder right after it.
pub fn build_leading_token_entry(
    first_kind: SyntaxKind,
    first: TextRange,
    colon: Option<TextRange>,
    first_desc: Option<TextRange>,
    range: TextRange,
) -> (r: SyntaxNode)
    ensures
        leading_entry_ok(first, colon, first_desc, range) ==> elem_placed(SyntaxElement::Node(r)),
        desc_last(r),
        r.nkind() == SyntaxKind::ENTRY,
        r.nrange() == range,
        r.kids().len() >= 1,
        r.kids()[0] matches SyntaxElement::Token(t) && t.tkind() == first_kind && t.trange() == first,
        r.kids().len() == 1 + (if colon is Some {
            1int
        } else {
            0
        }) + (if first_desc is Some || colon is Some {
            1int
        } else {
            0
        }),
{
    let ghost ok = leading_entry_ok(first, colon, first_desc, range);
    let mut children: Vec<SyntaxElement> = Vec::new();
    let t0 = tok(first_kind, first);
    proof {
        if ok {
            lemma_elems_push(children@, t0, lo(range), hi(range));
        }
    }
    children.push(t0);
    match colon {
        Some(c) => {
            let t1 = tok(SyntaxKind::COLON, c);
            proof {
                if ok {
                    lemma_elems_push(children@, t1, lo(range), hi(range));
                }
            }
            children.push(t1);
        },
        None => {},
    }
    match first_desc {
        Some(d) => {
            let t2 = SyntaxElement::Node(text_block_single(SyntaxKind::DESCRIPTION, d));
            proof {
                if ok {
                    lemma_elems_push(children@, t2, lo(range), hi(range));
                }
            }
            children.push(t2);
        },
        None => match colon {
            Some(c) => {
                let t3 = SyntaxElement::Node(missing_text_block(SyntaxKind::DESCRIPTION, c.end()));
                proof {
                    if ok {
                        lemma_elems_push(children@, t3, lo(range), hi(range));
                    }
                }
                children.push(t3);
            },
            None => {},
        },
    }
    let node = SyntaxNode::new(SyntaxKind::ENTRY, range, children);
    proof {
        assert forall|k: int| 0 <= k < node.kids().len() - 1 implies !node_of(
            #[trigger] node.kids()[k],
            SyntaxKind::DESCRIPTION,
        ) by {
            assert(node.kids()[k] is Token);
        }
    }
    node
}

/// The syntax elements of scanned type markers: an `OPTIONAL` token per
/// `optional`, a `DEFAULT` node per `default …` (keyword, separator if
/// written, value — zero-length when none is written).
pub fn marker_syntax_elements(markers: &Vec<Marker>) -> (r: Vec<SyntaxElement>)
    requires
        forall|i: int|
            0 <= i < markers@.len() ==> (#[trigger] markers@[i]).end <= u32::MAX && markers@[i].start
                <= markers@[i].keyword_end <= markers@[i].value_start <= markers@[i].end
                && (markers@[i].separator matches Some(p) ==> markers@[i].keyword_end <= p < markers@[i].value_start),
    ensures
        r@.len() == markers@.len(),
        forall|i: int|
            0 <= i < r@.len() ==> (#[trigger] r@[i]).ekind() == (if markers@[i].is_default {
                SyntaxKind::DEFAULT
            } else {
                SyntaxKind::OPTIONAL
            }) && lo(r@[i].erange()) == markers@[i].start && hi(r@[i].erange()) == markers@[i].end
                && elem_placed(r@[i]),
{
    let mut out: Vec<SyntaxElement> = Vec::new();
    let mut i: usize = 0;
    while i < markers.len()
        invariant
            i <= markers@.len(),
            out@.len() == i,
            forall|k: int|
                0 <= k < markers@.len() ==> (#[trigger] markers@[k]).end <= u32::MAX && markers@[k].start
                    <= markers@[k].keyword_end <= markers@[k].value_start <= markers@[k].end
                    && (markers@[k].separator matches Some(p) ==> markers@[k].keyword_end <= p
                    < markers@[k].value_start),
            forall|k: int|
                0 <= k < i ==> (#[trigger] out@[k]).ekind() == (if markers@[k].is_default {
                    SyntaxKind::DEFAULT
                } else {
                    SyntaxKind::OPTIONAL
                }) && lo(out@[k].erange()) == markers@[k].start && hi(out@[k].erange()) == markers@[k].end
                    && elem_placed(out@[k]),
        decreases markers@.len() - i,
    {
        let m = markers[i];
        let whole = TextRange::from_usizes(m.start, m.end);
        if m.is_default {
            let mut kids: Vec<SyntaxElement> = Vec::new();
            let k0 = tok(SyntaxKind::DEFAULT_KEYWORD, TextRange::from_usizes(m.start, m.keyword_end));
            proof {
                lemma_elems_push(kids@, k0, lo(whole), hi(whole));
            }
            kids.push(k0);
            match m.separator {
                Some(p) => {
                    let k1 = tok(SyntaxKind::DEFAULT_SEPARATOR, TextRange::from_usizes(p, p + 1));
                    proof {
                        lemma_elems_push(kids@, k1, lo(whole), hi(whole));
                    }
                    kids.push(k1);
                },
                None => {},
            }
            let k2 = tok(SyntaxKind::DEFAULT_VALUE, TextRange::from_usizes(m.value_start, m.end));
            proof {
                lemma_elems_push(kids@, k2, lo(whole), hi(whole));
            }
            kids.push(k2);
            out.push(SyntaxElement::Node(SyntaxNode::new(SyntaxKind::DEFAULT, whole, kids)));
        } else {
            out.push(tok(SyntaxKind::OPTIONAL, whole));
        }
        i = i + 1;
    }
    out
}

// =============================================================================
// Source order
// =============================================================================

/// `a` comes no later than `b` in source order: by start, then by end.
pub open spec fn pos_le(a: SyntaxElement, b: SyntaxElement) -> bool {
    lo(a.erange()) < lo(b.erange()) || (lo(a.erange()) == lo(b.erange()) && hi(a.erange()) <= hi(b.erange()))
}

/// Elements in source order.
pub open spec fn in_source_order(s: Seq<SyntaxElement>) -> bool {
    forall|i: int, j: int| 0 <= i < j < s.len() ==> pos_le(#[trigger] s[i], #[trigger] s[j])
}

/// Every element of `s` is well placed and lies within `[a, z]`.
pub open spec fn members_in(s: Seq<SyntaxElement>, a: int, z: int) -> bool {
    forall|k: int| 0 <= k < s.len() ==> range_in((#[trigger] s[k]).erange(), a, z) && elem_placed(s[k])
}

/// One more well-placed element within `[a, z]`.
pub proof fn lemma_members_push(s: Seq<SyntaxElement>, x: SyntaxElement, a: int, z: int)
    requires
        members_in(s, a, z),
        range_in(x.erange(), a, z),
        elem_placed(x),
    ensures
        members_in(s.push(x), a, z),
{
    assert forall|k: int| 0 <= k < s.push(x).len() implies range_in((#[trigger] s.push(x)[k]).erange(), a, z)
        && elem_placed(s.push(x)[k]) by {
        if k < s.len() {
            assert(s.push(x)[k] == s[k]);
        }
    }
}

/// Two lists of well-placed elements within `[a, z]`, joined.
pub proof fn lemma_members_concat(s: Seq<SyntaxElement>, t: Seq<SyntaxElement>, a: int, z: int)
    requires
        members_in(s, a, z),
        members_in(t, a, z),
    ensures
        members_in(s + t, a, z),
{
    assert forall|k: int| 0 <= k < (s + t).len() implies range_in((#[trigger] (s + t)[k]).erange(), a, z) && elem_placed(
        (s + t)[k],
    ) by {
        if k < s.len() {
            assert((s + t)[k] == s[k]);
        } else {
            assert((s + t)[k] == t[k - s.len()]);
        }
    }
}

/// Sorting well-placed elements lying within `[a, z]` gives a placed list.
pub proof fn lemma_sorted_placed(v: Seq<SyntaxElement>, r: Seq<SyntaxElement>, a: int, z: int)
    requires
        members_in(v, a, z),
        r.to_multiset() == v.to_multiset(),
        in_source_order(r),
    ensures
        elems_in(r, a, z),
{
    broadcast use vstd::seq_lib::group_to_multiset_ensures;

    assert forall|k: int| 0 <= k < r.len() implies range_in((#[trigger] r[k]).erange(), a, z) && elem_placed(r[k]) by {
        assert(r.to_multiset().count(r[k]) > 0);
        assert(v.to_multiset().count(r[k]) > 0);
        assert(v.contains(r[k]));
        let j = choose|j: int| 0 <= j < v.len() && v[j] == r[k];
        assert(range_in(v[j].erange(), a, z) && elem_placed(v[j]));
    }
    assert forall|k: int, l: int| 0 <= k < l < r.len() implies lo((#[trigger] r[k]).erange()) <= lo(
        (#[trigger] r[l]).erange(),
    ) by {
        assert(pos_le(r[k], r[l]));
    }
}

/// Sort elements into source order (by start, then end); equal keys keep
/// their relative order.
pub fn sort_by_position(v: Vec<SyntaxElement>) -> (r: Vec<SyntaxElement>)
    ensures
        r@.to_multiset() == v@.to_multiset(),
        in_source_order(r@),
{
    broadcast use vstd::seq_lib::group_to_multiset_ensures;

    let ghost orig = v@;
    let mut rest = crate::model::reverse_vec(v);
    let mut out: Vec<SyntaxElement> = Vec::new();
    proof {
        assert(rest@ =~= orig.subrange(0, orig.len() as int).reverse());
    }
    while rest.len() > 0
        invariant
            out@.len() + rest@.len() == orig.len(),
            rest@ == orig.subrange(out@.len() as int, orig.len() as int).reverse(),
            out@.to_multiset() == orig.take(out@.len() as int).to_multiset(),
            in_source_order(out@),
        decreases rest@.len(),
    {
        let ghost k: int = out@.len() as int;
        let ghost rb = rest@;
        let x = rest.pop().unwrap();
        proof {
            assert(rb.last() == orig.subrange(k, orig.len() as int)[0]);
            assert(x == orig[k]);
            assert(rest@ =~= orig.subrange(k + 1, orig.len() as int).reverse());
            assert(orig.take(k + 1) =~= orig.take(k).push(orig[k]));
        }
        let xs = x.range().start().raw();
        let xe = x.range().end().raw();
        // Insert after every element that is not after x.
        let mut p = out.len();
        while p > 0
            invariant
                p <= out@.len(),
                lo(x.erange()) == xs,
                hi(x.erange()) == xe,
                forall|j: int| p <= j < out@.len() ==> !pos_le(#[trigger] out@[j], x),
            ensures
                p <= out@.len(),
                forall|j: int| p <= j < out@.len() ==> !pos_le(#[trigger] out@[j], x),
                p > 0 ==> pos_le(out@[p - 1], x),
            decreases p,
        {
            let r = out[p - 1].range();
            let ps = r.start().raw();
            let pe = r.end().raw();
            if ps < xs || (ps == xs && pe <= xe) {
                break;
            }
            p = p - 1;
        }
        let ghost before = out@;
        proof {
            if p > 0 {
                assert(pos_le(before[p - 1], x));
            }
        }
        out.insert(p, x);
        proof {
            assert(out@ == before.insert(p as int, x));
            assert forall|i: int, j: int| 0 <= i < j < out@.len() implies pos_le(#[trigger] out@[i], #[trigger] out@[j]) by {
                if j < p {
                    assert(out@[i] == before[i] && out@[j] == before[j]);
                } else if j == p {
                    assert(out@[i] == before[i]);
                    assert(pos_le(before[i], before[p - 1]) || i == p - 1);
                } else if i == p {
                    assert(out@[j] == before[j - 1]);
                    assert(!pos_le(before[j - 1], x));
                } else if i < p {
                    assert(out@[i] == before[i] && out@[j] == before[j - 1]);
                } else {
                    assert(out@[i] == before[i - 1] && out@[j] == before[j - 1]);
                }
            }
            vstd::seq_lib::to_multiset_insert(before, p as int, x);
            orig.take(k).to_multiset_ensures();
            assert(orig.take(k).push(orig[k]).to_multiset() =~= orig.take(k).to_multiset().insert(orig[k]));
            assert(out@.to_multiset() == orig.take(k + 1).to_multiset());
        }
    }
    proof {
        assert(orig.take(orig.len() as int) =~= orig);
    }
    out
}


// =============================================================================
// Line helpers
// =============================================================================

/// The trimmed content `[s, e)` of line `idx`, as absolute offsets.
pub fn line_content(cursor: &LineCursor, idx: usize) -> (r: (usize, usize))
    requires
        cursor.wf(),
    ensures
        r.0 == trim_lo(cursor.bytes(), cursor.span(idx as int).0, cursor.span(idx as int).1),
        r.1 == trim_hi(cursor.bytes(), cursor.span(idx as int).0, cursor.span(idx as int).1),
        r.0 <= r.1 <= cursor.bytes().len(),
        r.1 < u32::MAX,
{
    proof {
        crate::cursor::lemma_line_span(cursor.bytes(), idx as int);
        crate::strs::lemma_trim_bounds(cursor.bytes(), cursor.span(idx as int).0, cursor.span(idx as int).1);
    }
    (cursor.line_content_start(idx), cursor.line_content_end(idx))
}

/// A `PARAGRAPH` text block over the content of lines `first..=last`.
pub fn build_paragraph(cursor: &LineCursor, first: usize, last: usize) -> (r: SyntaxNode)
    requires
        cursor.wf(),
    ensures
        r.nkind() == SyntaxKind::PARAGRAPH,
        lo(r.nrange()) == trim_lo(cursor.bytes(), cursor.span(first as int).0, cursor.span(first as int).1),
        hi(r.nrange()) == trim_hi(cursor.bytes(), cursor.span(last as int).0, cursor.span(last as int).1),
        first <= last ==> elem_placed(SyntaxElement::Node(r)),
{
    let (s, _e0) = line_content(cursor, first);
    let (_s1, e) = line_content(cursor, last);
    proof {
        if first < last {
            crate::cursor::lemma_span_mono(cursor.bytes(), first as int, last as int);
            crate::cursor::lemma_line_span(cursor.bytes(), first as int);
            crate::cursor::lemma_line_span(cursor.bytes(), last as int);
            crate::strs::lemma_trim_bounds(cursor.bytes(), cursor.span(last as int).0, cursor.span(last as int).1);
        }
    }
    build_text_block(SyntaxKind::PARAGRAPH, TextRange::from_usizes(s, e), cursor.source())
}

// =============================================================================
// Continuation lines
// =============================================================================

/// No child but the last is a `DESCRIPTION` node.
pub open spec fn desc_last(n: SyntaxNode) -> bool {
    forall|k: int| 0 <= k < n.kids().len() - 1 ==> !node_of(#[trigger] n.kids()[k], SyntaxKind::DESCRIPTION)
}

/// Every node of a body list keeps its description last.
pub open spec fn all_desc_last(s: Seq<SyntaxElement>) -> bool {
    forall|k: int| 0 <= k < s.len() ==> ((#[trigger] s[k]) is Node ==> desc_last(s[k]->Node_0))
}

/// Extend `node`'s description to the line content `line` (a continuation
/// line): the `DESCRIPTION` child grows to cover it (a missing placeholder
/// is replaced, an absent one added), and so does the node's range.
pub fn extend_description(node: &mut SyntaxNode, line: TextRange, source: &str)
    ensures
        final(node).nkind() == old(node).nkind(),
        lo(final(node).nrange()) == lo(old(node).nrange()),
        hi(final(node).nrange()) == hi(line),
        elem_placed(SyntaxElement::Node(*old(node))) && desc_last(*old(node)) && hi(old(node).nrange()) <= lo(line)
            <= hi(line) ==> elem_placed(SyntaxElement::Node(*final(node))) && desc_last(*final(node)),
{
    let ghost g = *node;
    let mut kids = node.take_children();
    let mut idx: Option<usize> = None;
    let mut i: usize = 0;
    while i < kids.len()
        invariant
            i <= kids@.len(),
            idx matches Some(k) ==> k < kids@.len() && node_of(kids@[k as int], SyntaxKind::DESCRIPTION),
            idx is None ==> forall|j: int| 0 <= j < i ==> !node_of(#[trigger] kids@[j], SyntaxKind::DESCRIPTION),
        decreases kids@.len() - i,
    {
        if let SyntaxElement::Node(n) = &kids[i] {
            if n.kind() == SyntaxKind::DESCRIPTION {
                idx = Some(i);
            }
        }
        i = i + 1;
    }
    let ghost ok = elem_placed(SyntaxElement::Node(g)) && desc_last(g) && hi(g.nrange()) <= lo(line) <= hi(line);
    proof {
        if ok {
            lemma_kids_of_placed(g);
        }
    }
    let ghost nlo = lo(g.nrange());
    let ghost nhi = hi(line);
    let ghost before = kids@;
    match idx {
        Some(k) if k < kids.len() => {
            let old_range = kids[k].range();
            let new_range = if old_range.is_empty() {
                line
            } else {
                TextRange::new(old_range.start(), line.end())
            };
            let block = build_text_block(SyntaxKind::DESCRIPTION, new_range, source);
            kids.set(k, SyntaxElement::Node(block));
            proof {
                if ok {
                    assert(k == before.len() - 1);
                    assert(kids@ == before.update(k as int, SyntaxElement::Node(block)));
                    assert forall|j: int| 0 <= j < kids@.len() implies range_in(
                        (#[trigger] kids@[j]).erange(),
                        nlo,
                        nhi,
                    ) && elem_placed(kids@[j]) by {
                        if j != k {
                            assert(kids@[j] == before[j]);
                            assert(range_in(before[j].erange(), nlo, hi(g.nrange())));
                        } else {
                            assert(range_in(before[j].erange(), nlo, hi(g.nrange())));
                        }
                    }
                    assert forall|x: int, y: int| 0 <= x < y < kids@.len() implies lo(
                        (#[trigger] kids@[x]).erange(),
                    ) <= lo((#[trigger] kids@[y]).erange()) by {
                        assert(kids@[x] == before[x]);
                        assert(range_in(before[x].erange(), nlo, hi(g.nrange())));
                        if y != k {
                            assert(kids@[y] == before[y]);
                        } else {
                            assert(lo(before[x].erange()) <= lo(before[k as int].erange()));
                        }
                    }
                }
            }
        },
        _ => {
            let block = build_text_block(SyntaxKind::DESCRIPTION, line, source);
            proof {
                if ok {
                    lemma_elems_widen(before, nlo, hi(g.nrange()), nlo, nhi);
                    lemma_elems_push(before, SyntaxElement::Node(block), nlo, nhi);
                    assert(idx is None);
                }
            }
            kids.push(SyntaxElement::Node(block));
        },
    }
    let ghost kv = kids@;
    node.set_children(kids);
    node.extend_range_to(line.end());
    proof {
        if ok {
            assert(all_placed(node.kids(), node.nrange()));
            lemma_placed_from_kids(*node);
            assert(kv == node.kids());
        }
    }
}

/// Where the trimmed content of line `i` starts.
pub open spec fn cs_of(c: LineCursor, i: int) -> int {
    trim_lo(c.bytes(), c.span(i).0, c.span(i).1)
}

/// Where the trimmed content of line `i` ends.
pub open spec fn ce_of(c: LineCursor, i: int) -> int {
    trim_hi(c.bytes(), c.span(i).0, c.span(i).1)
}

/// Where the cursor's text lines end: the end of the last one.
pub open spec fn lines_end(c: LineCursor) -> int {
    if c.nlines() == 0 {
        0
    } else {
        c.span(c.nlines() - 1).1
    }
}

/// The content of a text line lies in its span, which ends no later than
/// the text lines and than the next line starts.
pub proof fn lemma_content(c: LineCursor, i: int)
    requires
        c.wf(),
        0 <= i < c.nlines(),
    ensures
        c.span(i).0 <= cs_of(c, i) <= ce_of(c, i) <= c.span(i).1 <= lines_end(c),
        c.span(i).1 <= c.span(i + 1).0,
        c.span(i).1 <= c.bytes().len(),
{
    crate::cursor::lemma_line_span(c.bytes(), i);
    crate::strs::lemma_trim_bounds(c.bytes(), c.span(i).0, c.span(i).1);
    crate::cursor::lemma_span_mono(c.bytes(), i, i + 1);
    if i < c.nlines() - 1 {
        crate::cursor::lemma_span_mono(c.bytes(), i, c.nlines() - 1);
        crate::cursor::lemma_line_span(c.bytes(), c.nlines() - 1);
    }
}

/// Where the trimmed content of the cursor's line starts.
pub open spec fn cur_cs(c: LineCursor) -> int {
    cs_of(c, c.pos())
}

/// Where the trimmed content of the cursor's line ends.
pub open spec fn cur_ce(c: LineCursor) -> int {
    ce_of(c, c.pos())
}

/// A body line's effect on the placed list of body elements: a list placed
/// within `[a, cs]` before the line is placed within `[a, ce]` after it,
/// descriptions staying last.
pub open spec fn line_step_ok(before: Seq<SyntaxElement>, after: Seq<SyntaxElement>, a: int, cs: int, ce: int) -> bool {
    a <= cs && elems_in(before, a, cs) && all_desc_last(before) ==> elems_in(after, a, ce) && all_desc_last(after)
}

/// Replacing the last element by one with the same start that reaches
/// further keeps a list placed.
pub proof fn lemma_replace_last(s: Seq<SyntaxElement>, x: SyntaxElement, a: int, z: int, z2: int)
    requires
        elems_in(s, a, z),
        s.len() > 0,
        lo(x.erange()) == lo(s.last().erange()),
        range_in(x.erange(), a, z2),
        elem_placed(x),
        z <= z2,
    ensures
        elems_in(s.drop_last().push(x), a, z2),
{
    let d = s.drop_last();
    assert forall|k: int| 0 <= k < d.len() implies range_in((#[trigger] d[k]).erange(), a, z) && elem_placed(d[k]) by {
        assert(d[k] == s[k]);
    }
    assert forall|k: int, l: int| 0 <= k < l < d.len() implies lo((#[trigger] d[k]).erange()) <= lo(
        (#[trigger] d[l]).erange(),
    ) by {
        assert(d[k] == s[k] && d[l] == s[l]);
    }
    lemma_elems_widen(d, a, z, a, z2);
    if d.len() > 0 {
        assert(d.last() == s[s.len() - 2]);
        assert(lo(s[s.len() - 2].erange()) <= lo(s.last().erange()));
    }
    lemma_elems_push(d, x, a, z2);
}

/// A new element placed on the current line, after the body so far, is a
/// good line step.
pub proof fn lemma_line_push(before: Seq<SyntaxElement>, x: SyntaxElement, a: int, cs: int, ce: int)
    requires
        range_in(x.erange(), cs, ce),
        elem_placed(x),
        x is Node ==> desc_last(x->Node_0),
    ensures
        line_step_ok(before, before.push(x), a, cs, ce),
{
    if a <= cs && elems_in(before, a, cs) && all_desc_last(before) {
        lemma_elems_widen(before, a, cs, a, ce);
        if before.len() > 0 {
            assert(range_in(before.last().erange(), a, cs));
        }
        lemma_elems_push(before, x, a, ce);
        let after = before.push(x);
        assert forall|k: int| 0 <= k < after.len() implies ((#[trigger] after[k]) is Node ==> desc_last(
            after[k]->Node_0,
        )) by {
            if k < before.len() {
                assert(after[k] == before[k]);
            }
        }
    }
}

/// Whether the cursor's line continues the last body element: the first
/// body line fixes the entry indentation; a later line indented deeper than
/// it extends the last entry's description (and `true` is returned).
pub fn entry_continuation_guard(
    cursor: &LineCursor,
    nodes: &mut Vec<SyntaxElement>,
    entry_indent: &mut Option<usize>,
) -> (r: bool)
    requires
        cursor.wf(),
    ensures
        !r ==> final(nodes)@ == old(nodes)@,
        r ==> final(nodes)@.len() == old(nodes)@.len() && old(nodes)@.len() > 0,
        (*old(entry_indent)) is None ==> !r && *final(entry_indent) == Some(
            indent_cols(cursor.bytes().subrange(cursor.span(cursor.pos()).0, cursor.span(cursor.pos()).1)) as usize,
        ),
        (*old(entry_indent)) is Some ==> *final(entry_indent) == *old(entry_indent),
        r ==> forall|a: int|
            #[trigger] line_step_ok(old(nodes)@, final(nodes)@, a, cur_cs(*cursor), cur_ce(*cursor)),
{
    let ind = cursor.current_indent_columns();
    let e = match *entry_indent {
        None => {
            *entry_indent = Some(ind);
            return false;
        },
        Some(e) => e,
    };
    if ind <= e || nodes.len() == 0 {
        return false;
    }
    let line = cursor.current_trimmed_range();
    proof {
        crate::cursor::lemma_line_span(cursor.bytes(), cursor.pos());
        crate::strs::lemma_trim_bounds(cursor.bytes(), cursor.span(cursor.pos()).0, cursor.span(cursor.pos()).1);
    }
    let ghost before = nodes@;
    let last = nodes.pop().unwrap();
    match last {
        SyntaxElement::Node(n) => {
            let mut n = n;
            let ghost n0 = n;
            extend_description(&mut n, line, cursor.source());
            nodes.push(SyntaxElement::Node(n));
            proof {
                assert(before.last() == SyntaxElement::Node(n0));
                assert forall|a: int| #[trigger] line_step_ok(before, nodes@, a, cur_cs(*cursor), cur_ce(*cursor)) by {
                    if a <= cur_cs(*cursor) && elems_in(before, a, cur_cs(*cursor)) && all_desc_last(before) {
                        assert(range_in(before.last().erange(), a, cur_cs(*cursor)) && elem_placed(before.last()));
                        assert(desc_last(n0));
                        lemma_replace_last(before, SyntaxElement::Node(n), a, cur_cs(*cursor), cur_ce(*cursor));
                        assert(nodes@ == before.drop_last().push(SyntaxElement::Node(n)));
                        assert forall|k: int| 0 <= k < nodes@.len() implies ((#[trigger] nodes@[k]) is Node
                            ==> desc_last(nodes@[k]->Node_0)) by {
                            if k < before.len() - 1 {
                                assert(nodes@[k] == before[k]);
                            }
                        }
                    }
                }
            }
            true
        },
        SyntaxElement::Token(t) => {
            let ghost before = nodes@;
            nodes.push(SyntaxElement::Token(t));
            proof {
                assert(nodes@ =~= old(nodes)@);
            }
            false
        },
    }
}

// =============================================================================
// Citations
// =============================================================================

/// One line of a References body: `.. [label] content` becomes a
/// `CITATION` with its marker, brackets, label and content; any other line
/// is a `CITATION` with content only. Deeper-indented lines continue the
/// previous citation.
pub fn process_reference_line(cursor: &LineCursor, nodes: &mut Vec<SyntaxElement>, entry_indent: &mut Option<usize>)
    requires
        cursor.wf(),
    ensures
        forall|a: int| #[trigger] line_step_ok(old(nodes)@, final(nodes)@, a, cur_cs(*cursor), cur_ce(*cursor)),
{
    if entry_continuation_guard(cursor, nodes, entry_indent) {
        return;
    }
    let b = cursor.source().as_bytes();
    let (s, e) = cursor.current_trimmed_bounds();
    proof {
        crate::cursor::lemma_line_span(cursor.bytes(), cursor.pos());
    }
    let ghost before = nodes@;
    let range = TextRange::from_usizes(s, e);
    let mut children: Vec<SyntaxElement> = Vec::new();
    if s + 2 <= e && b[s] == 46u8 && b[s + 1] == 46u8 {
        let p = skip_ws_forward(b, s + 2, e);
        if p < e && b[p] == 91u8 {
            // Find the closing bracket of the label.
            let mut q = p + 1;
            while q < e && b[q] != 93u8
                invariant
                    p < q <= e,
                    e <= b@.len(),
                decreases e - q,
            {
                q = q + 1;
            }
            if q < e {
                let c0 = tok(SyntaxKind::DIRECTIVE_MARKER, TextRange::from_usizes(s, s + 2));
                proof {
                    lemma_elems_push(children@, c0, s as int, e as int);
                }
                children.push(c0);
                let c1 = tok(SyntaxKind::OPEN_BRACKET, TextRange::from_usizes(p, p + 1));
                proof {
                    lemma_elems_push(children@, c1, s as int, e as int);
                }
                children.push(c1);
                let (ls, le) = trim_window(b, p + 1, q);
                if ls < le {
                    let c2 = tok(SyntaxKind::LABEL, TextRange::from_usizes(ls, le));
                    proof {
                        lemma_elems_push(children@, c2, s as int, e as int);
                    }
                    children.push(c2);
                }
                let c3 = tok(SyntaxKind::CLOSE_BRACKET, TextRange::from_usizes(q, q + 1));
                proof {
                    lemma_elems_push(children@, c3, s as int, e as int);
                }
                children.push(c3);
                let (cs, ce) = trim_window(b, q + 1, e);
                if cs < ce {
                    let c4 = SyntaxElement::Node(
                        text_block_single(SyntaxKind::DESCRIPTION, TextRange::from_usizes(cs, ce)),
                    );
                    proof {
                        lemma_elems_push(children@, c4, s as int, e as int);
                    }
                    children.push(c4);
                }
                let ghost kv = children@;
                let node = SyntaxNode::new(SyntaxKind::CITATION, range, children);
                proof {
                    assert(desc_last(node)) by {
                        assert forall|k: int| 0 <= k < node.kids().len() - 1 implies !node_of(
                            #[trigger] node.kids()[k],
                            SyntaxKind::DESCRIPTION,
                        ) by {
                            assert(node.kids()[k] is Token);
                        }
                    }
                    assert forall|a: int| #[trigger] line_step_ok(before, before.push(SyntaxElement::Node(node)), a, s as int, e as int) by {
                        lemma_line_push(before, SyntaxElement::Node(node), a, s as int, e as int);
                    }
                }
                nodes.push(SyntaxElement::Node(node));
                return;
            }
        }
    }
    let c = SyntaxElement::Node(text_block_single(SyntaxKind::DESCRIPTION, range));
    proof {
        lemma_elems_push(children@, c, s as int, e as int);
    }
    children.push(c);
    let node = SyntaxNode::new(SyntaxKind::CITATION, range, children);
    proof {
        assert forall|a: int| #[trigger] line_step_ok(before, before.push(SyntaxElement::Node(node)), a, s as int, e as int) by {
            lemma_line_push(before, SyntaxElement::Node(node), a, s as int, e as int);
        }
    }
    nodes.push(SyntaxElement::Node(node));
}

// =============================================================================
// Directives
// =============================================================================

/// The first `::` in `[from, hi)`, if any.
pub fn find_double_colon(b: &[u8], from: usize, hi: usize) -> (r: Option<usize>)
    requires
        from <= hi <= b@.len(),
    ensures
        r matches Some(q) ==> from <= q && q + 2 <= hi && b@[q as int] == 58u8 && b@[q + 1] == 58u8
            && forall|j: int| from <= j < q ==> !(#[trigger] b@[j] == 58u8 && b@[j + 1] == 58u8),
        r is None ==> forall|j: int| from <= j && j + 1 < hi ==> !(#[trigger] b@[j] == 58u8 && b@[j + 1] == 58u8),
{
    let mut q = from;
    while q < hi && hi - q > 1
        invariant
            from <= q,
            hi <= b@.len(),
            q <= hi,
            forall|j: int| from <= j < q ==> !(#[trigger] b@[j] == 58u8 && b@[j + 1] == 58u8),
        decreases hi - q,
    {
        if b[q] == 58u8 && b[q + 1] == 58u8 {
            return Some(q);
        }
        q = q + 1;
    }
    None
}

/// Try to read an rST directive block (`.. name:: argument`, then the
/// lines indented deeper than it) at the cursor's line. On success the
/// cursor moves past the block; otherwise it does not move.
pub fn try_parse_directive(cursor: &mut LineCursor) -> (r: Option<SyntaxNode>)
    requires
        old(cursor).wf(),
        old(cursor).pos() < old(cursor).nlines(),
    ensures
        final(cursor).same_text(old(cursor)),
        r is None ==> final(cursor).pos() == old(cursor).pos(),
        r is Some ==> final(cursor).pos() > old(cursor).pos(),
        final(cursor).pos() <= final(cursor).nlines(),
        r matches Some(n) ==> n.nkind() == SyntaxKind::DIRECTIVE && elem_placed(SyntaxElement::Node(n)) && lo(
            n.nrange(),
        ) == cur_cs(*old(cursor)) && hi(n.nrange()) <= final(cursor).span(final(cursor).pos()).0 && hi(n.nrange())
            <= final(cursor).span(final(cursor).pos() - 1).1,
        r matches Some(n) ==> hi(n.nrange()) == ce_of(*final(cursor), final(cursor).pos() - 1),
{
    proof {
        cursor.lemma_wf();
        crate::cursor::lemma_line_span(cursor.bytes(), cursor.pos());
    }
    let src = cursor.source();
    let b = src.as_bytes();
    let (s, e) = cursor.current_trimmed_bounds();
    if !(s + 3 <= e && b[s] == 46u8 && b[s + 1] == 46u8 && (b[s + 2] == 32u8 || b[s + 2] == 9u8)) {
        return None;
    }
    let p = skip_ws_forward(b, s + 2, e);
    let q = match find_double_colon(b, p, e) {
        Some(q) => q,
        None => return None,
    };
    if q <= p {
        return None;
    }
    // The name holds no whitespace.
    let mut k = p;
    while k < q
        invariant
            p <= k <= q,
            q <= b@.len(),
            cursor.wf(),
            cursor.pos() < cursor.nlines(),
            cursor.same_text(old(cursor)),
            cursor.pos() == old(cursor).pos(),
        decreases q - k,
    {
        if b[k] == 32u8 || b[k] == 9u8 {
            return None;
        }
        k = k + 1;
    }
    let ghost sl = cursor.pos();
    let mut children: Vec<SyntaxElement> = Vec::new();
    let c0 = tok(SyntaxKind::DIRECTIVE_MARKER, TextRange::from_usizes(s, s + 2));
    proof {
        lemma_elems_push(children@, c0, s as int, e as int);
    }
    children.push(c0);
    let c1 = tok(SyntaxKind::DIRECTIVE_NAME, TextRange::from_usizes(p, q));
    proof {
        lemma_elems_push(children@, c1, s as int, e as int);
    }
    children.push(c1);
    let c2 = tok(SyntaxKind::DOUBLE_COLON, TextRange::from_usizes(q, q + 2));
    proof {
        lemma_elems_push(children@, c2, s as int, e as int);
    }
    children.push(c2);
    let (as_, ae) = trim_window(b, q + 2, e);
    if as_ < ae {
        let c3 = tok(SyntaxKind::ARGUMENT, TextRange::from_usizes(as_, ae));
        proof {
            lemma_elems_push(children@, c3, s as int, e as int);
        }
        children.push(c3);
    }
    let indent = cursor.current_indent_columns();
    let mut end = e;
    let start_line = cursor.line();
    proof {
        cursor.lemma_wf();
    }
    cursor.advance();
    // Body lines: indented deeper than the directive; blank lines inside
    // the body are kept when a deeper line follows.
    let mut body_start: Option<usize> = None;
    let mut body_end: usize = e;
    let mut last_line = start_line;
    let mut probe = start_line + 1;
    let n = cursor.total_lines();
    while probe < n
        invariant
            cursor.wf(),
            cursor.same_text(old(cursor)),
            cursor.pos() == start_line + 1,
            n == cursor.nlines(),
            start_line < n,
            start_line + 1 <= probe,
            start_line <= last_line < n,
            last_line < probe,
            body_end <= cursor.bytes().len(),
            end <= cursor.bytes().len(),
            e <= cursor.span(start_line as int).1,
            e <= end,
            end <= cursor.span(last_line as int).1,
            body_start matches Some(bs) ==> e <= bs <= body_end && body_end == end,
            body_start is None ==> last_line == start_line && end == e,
            end == ce_of(*cursor, last_line as int),
        decreases n - probe,
    {
        if cursor.line_is_blank(probe) {
            probe = probe + 1;
            continue;
        }
        let (ls, le) = line_content(cursor, probe);
        proof {
            crate::cursor::lemma_span_mono(cursor.bytes(), start_line as int, probe as int);
            if last_line < probe {
                crate::cursor::lemma_span_mono(cursor.bytes(), last_line as int, probe as int);
            }
            crate::cursor::lemma_line_span(cursor.bytes(), probe as int);
            crate::strs::lemma_trim_bounds(cursor.bytes(), cursor.span(probe as int).0, cursor.span(probe as int).1);
        }
        cursor.set_line(probe);
        let ind = cursor.current_indent_columns();
        cursor.set_line(start_line + 1);
        if ind <= indent {
            break;
        }
        if body_start.is_none() {
            body_start = Some(ls);
        }
        body_end = le;
        last_line = probe;
        end = le;
        probe = probe + 1;
    }
    // Move past the consumed body lines (trailing blank lines stay).
    if let Some(bs) = body_start {
        cursor.set_line(last_line + 1);
        let c4 = SyntaxElement::Node(build_text_block(SyntaxKind::DESCRIPTION, TextRange::from_usizes(bs, body_end), src));
        proof {
            lemma_elems_widen(children@, s as int, e as int, s as int, end as int);
            lemma_elems_push(children@, c4, s as int, end as int);
        }
        children.push(c4);
    } else {
        proof {
            lemma_elems_widen(children@, s as int, e as int, s as int, end as int);
        }
    }
    proof {
        assert(end < u32::MAX);
        crate::cursor::lemma_span_mono(cursor.bytes(), last_line as int, last_line + 1);
        crate::cursor::lemma_span_mono(cursor.bytes(), start_line as int, start_line + 1);
    }
    let node = SyntaxNode::new(SyntaxKind::DIRECTIVE, TextRange::from_usizes(s, end), children);
    Some(node)
}


/// A directive node whose name reads `deprecated`.
pub open spec fn is_deprecation_node(n: SyntaxNode, p: Parsed) -> bool {
    present_tokens(n.kids(), SyntaxKind::DIRECTIVE_NAME).len() > 0 && crate::text::range_bytes(
        present_tokens(n.kids(), SyntaxKind::DIRECTIVE_NAME)[0].trange(),
        p.src_bytes(),
    ) == "deprecated".spec_bytes()
}

/// Whether a directive node is a deprecation (its name is `deprecated`).
pub fn directive_is_deprecated(parsed: &Parsed, node: &SyntaxNode) -> (r: bool)
    ensures
        r == is_deprecation_node(*node, *parsed),
{
    match node.find_token(SyntaxKind::DIRECTIVE_NAME) {
        Some(t) => crate::strs::bytes_eq(t.text(parsed.source()).as_bytes(), "deprecated".as_bytes()),
        None => false,
    }
}

} // verus!
