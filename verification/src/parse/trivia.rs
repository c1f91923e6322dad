//! Post-parse pass that tokenizes trivia (whitespace, newlines, blank
//! lines).
//!
//! The parsers produce content tokens only; the bytes between them —
//! indentation, inter-token spacing, line breaks, blank lines — are not in
//! the tree. [`attach_trivia`] walks the finished tree and splices
//! `WHITESPACE` / `NEWLINE` / `BLANK_LINE` tokens into the child list of the
//! deepest node whose range covers each gap.
//!
//! Non-whitespace bytes in a gap are content a parser dropped; they stay
//! uncovered (the whitespace around them is tokenized normally).

use vstd::prelude::*;
use vstd::string::StringSliceAdditionalSpecFns;

use crate::parse::utils::tok;
use crate::syntax::all_placed;
use crate::syntax::child_nodes;
use crate::syntax::any_tok;
use crate::syntax::any_tokens;
use crate::syntax::node_of;
use crate::syntax::nd_of;
use crate::parse::unified::has_header_name;
use crate::syntax::elem_placed;
use crate::syntax::elems_in;
use crate::syntax::kind_is_trivia;
use crate::syntax::lemma_elems_push;
use crate::syntax::lemma_elems_widen;
use crate::syntax::lemma_kids_of_placed;
use crate::syntax::lemma_placed_from_kids;
use crate::syntax::range_in;
use crate::syntax::SyntaxElement;
use crate::syntax::SyntaxKind;
use crate::syntax::SyntaxNode;
use crate::text::hi;
use crate::text::lo;
use crate::text::TextRange;
use crate::text::TextSize;

verus! {

/// A space or a tab.
pub open spec fn is_blank_byte(c: u8) -> bool {
    c == 32u8 || c == 9u8
}

/// The first position at or after `i` whose byte is not a space or tab.
pub open spec fn skip_blanks_from(b: Seq<u8>, i: int) -> int
    decreases b.len() - i,
{
    if 0 <= i < b.len() && is_blank_byte(b[i]) {
        skip_blanks_from(b, i + 1)
    } else {
        i
    }
}

/// Where the `BLANK_LINE` token of a whitespace-only line starting at
/// `pos` ends: past its `\n` (or `\r\n`), or at the end of input for an
/// unterminated final line with at least one byte; `None` when the line
/// holds other bytes, is empty at the end of input, or runs past `end`.
pub open spec fn blank_line_end_spec(b: Seq<u8>, pos: int, end: int) -> Option<usize> {
    let i = skip_blanks_from(b, pos);
    let term: Option<int> = if i < b.len() && b[i] == 10u8 {
        Some(i + 1)
    } else if i + 1 < b.len() && b[i] == 13u8 && b[i + 1] == 10u8 {
        Some(i + 2)
    } else if i < b.len() {
        None
    } else if i > pos {
        Some(i)
    } else {
        None
    };
    match term {
        Some(t) => if t <= end {
            Some(t as usize)
        } else {
            None
        },
        None => None,
    }
}

proof fn lemma_skip_blanks_bounds(b: Seq<u8>, i: int)
    requires
        0 <= i <= b.len(),
    ensures
        i <= skip_blanks_from(b, i) <= b.len(),
    decreases b.len() - i,
{
    if i < b.len() && is_blank_byte(b[i]) {
        lemma_skip_blanks_bounds(b, i + 1);
    }
}

/// If the line starting at `pos` is whitespace-only and lies entirely
/// within `[pos, end)`, the end offset of its `BLANK_LINE` token.
pub fn blank_line_end(bytes: &[u8], pos: usize, end: usize) -> (r: Option<usize>)
    requires
        pos <= bytes@.len(),
    ensures
        r == blank_line_end_spec(bytes@, pos as int, end as int),
{
    let mut i = pos;
    while i < bytes.len() && (bytes[i] == 32u8 || bytes[i] == 9u8)
        invariant
            pos <= i <= bytes@.len(),
            skip_blanks_from(bytes@, i as int) == skip_blanks_from(bytes@, pos as int),
        decreases bytes@.len() - i,
    {
        i = i + 1;
    }
    let term = if i < bytes.len() && bytes[i] == 10u8 {
        i + 1
    } else if i < bytes.len() && bytes.len() - i > 1 && bytes[i] == 13u8 && bytes[i + 1] == 10u8 {
        i + 2
    } else if i < bytes.len() {
        return None;
    } else if i > pos {
        i
    } else {
        return None;
    };
    if term <= end {
        Some(term)
    } else {
        None
    }
}

/// The elements from index `from` on are trivia tokens, in order, inside
/// `[a, z]`.
pub open spec fn trivia_tail(s: Seq<SyntaxElement>, from: int, a: int, z: int) -> bool {
    &&& forall|k: int| from <= k < s.len() ==> kind_is_trivia((#[trigger] s[k]).ekind()) && s[k] is Token
    &&& forall|k: int| from <= k < s.len() ==> a <= lo((#[trigger] s[k]).erange()) < hi(s[k].erange()) <= z
    &&& forall|k: int, l: int|
        from <= k < l < s.len() ==> hi((#[trigger] s[k]).erange()) <= lo((#[trigger] s[l]).erange())
}

/// Lex `source[start..end]` into trivia tokens appended to `out`: a
/// whitespace-only line starting at a line start becomes one `BLANK_LINE`
/// (with its newline), `\n` and `\r\n` become `NEWLINE`, runs of spaces,
/// tabs and lone `\r` become `WHITESPACE`; other bytes are skipped.
pub fn lex_gap(source: &str, start: usize, end: usize, out: &mut Vec<SyntaxElement>)
    requires
        start <= end <= source.spec_bytes().len(),
        source.spec_bytes().len() < u32::MAX,
    ensures
        final(out)@.len() >= old(out)@.len(),
        final(out)@.subrange(0, old(out)@.len() as int) == old(out)@,
        trivia_tail(final(out)@, old(out)@.len() as int, start as int, end as int),
{
    let bytes = source.as_bytes();
    let ghost base = old(out)@.len() as int;
    let mut pos = start;
    while pos < end
        invariant
            start <= pos <= end <= bytes@.len(),
            bytes@.len() < u32::MAX,
            out@.len() >= base,
            base == old(out)@.len(),
            out@.subrange(0, base) == old(out)@,
            trivia_tail(out@, base, start as int, pos as int),
        decreases end - pos,
    {
        let ghost before = out@;
        let at_line_start = pos == 0 || bytes[pos - 1] == 10u8;
        if at_line_start {
            match blank_line_end(bytes, pos, end) {
                Some(line_end) => {
                    proof {
                        lemma_skip_blanks_bounds(bytes@, pos as int);
                        assert(pos < line_end <= end);
                    }
                    out.push(tok(SyntaxKind::BLANK_LINE, TextRange::from_usizes(pos, line_end)));
                    proof {
                        assert(out@.subrange(0, before.len() as int) =~= before);
                        lemma_tail_push(before, out@, base, start as int, pos as int, line_end as int);
                    }
                    pos = line_end;
                    continue;
                },
                None => {},
            }
        }
        let c = bytes[pos];
        if c == 10u8 {
            out.push(tok(SyntaxKind::NEWLINE, TextRange::from_usizes(pos, pos + 1)));
            proof {
                assert(out@.subrange(0, before.len() as int) =~= before);
                lemma_tail_push(before, out@, base, start as int, pos as int, pos + 1);
            }
            pos = pos + 1;
        } else if c == 13u8 && end - pos > 1 && bytes[pos + 1] == 10u8 {
            out.push(tok(SyntaxKind::NEWLINE, TextRange::from_usizes(pos, pos + 2)));
            proof {
                assert(out@.subrange(0, before.len() as int) =~= before);
                lemma_tail_push(before, out@, base, start as int, pos as int, pos + 2);
            }
            pos = pos + 2;
        } else if c == 32u8 || c == 9u8 || c == 13u8 {
            let run_start = pos;
            pos = pos + 1;
            while pos < end && (bytes[pos] == 32u8 || bytes[pos] == 9u8 || bytes[pos] == 13u8)
                invariant
                    start <= run_start < pos <= end <= bytes@.len(),
                    bytes@.len() < u32::MAX,
                    out@ == before,
                decreases end - pos,
            {
                if bytes[pos] == 13u8 && end - pos > 1 && bytes[pos + 1] == 10u8 {
                    break;
                }
                pos = pos + 1;
            }
            out.push(tok(SyntaxKind::WHITESPACE, TextRange::from_usizes(run_start, pos)));
            proof {
                assert(out@.subrange(0, before.len() as int) =~= before);
                lemma_tail_push(before, out@, base, start as int, run_start as int, pos as int);
            }
        } else {
            let ghost p0 = pos;
            pos = pos + 1;
            while pos < end && !(bytes[pos] == 32u8 || bytes[pos] == 9u8 || bytes[pos] == 13u8 || bytes[pos] == 10u8)
                invariant
                    start <= p0 < pos <= end <= bytes@.len(),
                    bytes@.len() < u32::MAX,
                    out@ == before,
                decreases end - pos,
            {
                pos = pos + 1;
            }
        }
    }
}

proof fn lemma_tail_push(before: Seq<SyntaxElement>, after: Seq<SyntaxElement>, base: int, a: int, pos: int, e: int)
    requires
        0 <= base <= before.len(),
        trivia_tail(before, base, a, pos),
        after.len() == before.len() + 1,
        after.subrange(0, before.len() as int) == before,
        kind_is_trivia(after.last().ekind()),
        after.last() is Token,
        a <= pos,
        pos == lo(after.last().erange()),
        lo(after.last().erange()) < hi(after.last().erange()),
        hi(after.last().erange()) == e,
    ensures
        trivia_tail(after, base, a, e),
        after.subrange(0, base) == before.subrange(0, base),
{
    assert(after.subrange(0, base) =~= before.subrange(0, base)) by {
        assert forall|k: int| 0 <= k < base implies after[k] == before[k] by {
            assert(after.subrange(0, before.len() as int)[k] == after[k]);
        }
    }
    assert forall|k: int| base <= k < before.len() implies after[k] == before[k] by {
        assert(after.subrange(0, before.len() as int)[k] == after[k]);
    }
}

// =============================================================================
// Splicing trivia into the tree
// =============================================================================

/// Splice trivia tokens into `root` for every gap between content tokens;
/// the root's range is extended to the end of `source` when the parser left
/// trailing newlines or blank lines outside of it.
pub fn attach_trivia(root: SyntaxNode, source: &str) -> (r: SyntaxNode)
    requires
        source.spec_bytes().len() < u32::MAX,
    ensures
        r.nkind() == root.nkind(),
        lo(r.nrange()) == lo(root.nrange()),
        hi(r.nrange()) == (if hi(root.nrange()) < source.spec_bytes().len() {
            source.spec_bytes().len() as int
        } else {
            hi(root.nrange())
        }),
        root.well_placed() && lo(root.nrange()) <= hi(root.nrange()) ==> r.well_placed() && node_marks(r.kids())
            == node_marks(root.kids()) && keeps_all(nodes_of(root.kids()), nodes_of(r.kids())) && (root.kids().len()
            == 0 ==> forall|q: int| 0 <= q < r.kids().len() ==> kind_is_trivia((#[trigger] r.kids()[q]).ekind())),
{
    let ghost ok = root.well_placed() && lo(root.nrange()) <= hi(root.nrange());
    let mut root = root;
    let n = source.len();
    if root.range().end().to_usize() < n {
        let ghost g = root;
        root.extend_range_to(TextSize::from_usize(n));
        proof {
            if ok {
                lemma_kids_of_placed(g);
                lemma_elems_widen(g.kids(), lo(g.nrange()), hi(g.nrange()), lo(root.nrange()), hi(root.nrange()));
                lemma_placed_from_kids(root);
            }
        }
    }
    attach(root, source)
}

/// Insertion sort of `(start, end)` pairs.
fn sort_pairs(v: Vec<(u32, u32)>) -> (r: Vec<(u32, u32)>)
    ensures
        r@.len() == v@.len(),
        forall|k: int| 0 <= k < r@.len() ==> v@.contains(#[trigger] r@[k]),
{
    let mut out: Vec<(u32, u32)> = Vec::new();
    let mut i: usize = 0;
    while i < v.len()
        invariant
            i <= v@.len(),
            out@.len() == i,
            forall|k: int| 0 <= k < out@.len() ==> v@.contains(#[trigger] out@[k]),
        decreases v@.len() - i,
    {
        let x = v[i];
        let mut p = out.len();
        while p > 0
            invariant
                p <= out@.len(),
            decreases p,
        {
            let y = out[p - 1];
            if y.0 < x.0 || (y.0 == x.0 && y.1 <= x.1) {
                break;
            }
            p = p - 1;
        }
        let ghost before = out@;
        out.insert(p, x);
        proof {
            assert(v@.contains(x)) by {
                assert(v@[i as int] == x);
            }
            assert forall|k: int| 0 <= k < out@.len() implies v@.contains(#[trigger] out@[k]) by {
                if k < p {
                    assert(out@[k] == before[k]);
                } else if k > p {
                    assert(out@[k] == before[k - 1]);
                }
            }
        }
        i = i + 1;
    }
    out
}

/// Elements in reverse source order (the next to take comes last).
pub open spec fn rev_sorted(s: Seq<SyntaxElement>) -> bool {
    forall|k: int, l: int| 0 <= k < l < s.len() ==> lo((#[trigger] s[k]).erange()) >= lo((#[trigger] s[l]).erange())
}

/// Every element of `s` starts at or after `p`.
pub open spec fn all_from(s: Seq<SyntaxElement>, p: int) -> bool {
    forall|k: int| 0 <= k < s.len() ==> p <= lo((#[trigger] s[k]).erange())
}

/// Recursively splice trivia into `node`'s child list: the gaps inside
/// its range that no child covers are lexed, and the trivia tokens are
/// merged in before the first child that starts after them.
#[verifier::rlimit(40)]
fn attach(input: SyntaxNode, source: &str) -> (r: SyntaxNode)
    requires
        source.spec_bytes().len() < u32::MAX,
    ensures
        r.nkind() == input.nkind(),
        r.nrange() == input.nrange(),
        input.well_placed() && lo(input.nrange()) <= hi(input.nrange()) ==> r.well_placed() && node_marks(r.kids())
            == node_marks(input.kids()) && keeps(input, r) && keeps_all(nodes_of(input.kids()), nodes_of(r.kids()))
            && (input.kids().len() == 0 ==> forall|q: int|
            0 <= q < r.kids().len() ==> kind_is_trivia((#[trigger] r.kids()[q]).ekind())),
    decreases input,
{
    let ghost g = input;
    let ghost ok = input.well_placed() && lo(input.nrange()) <= hi(input.nrange());
    let ghost a = lo(input.nrange());
    let ghost z = hi(input.nrange());
    let mut node = input;
    let kids = node.take_children();
    proof {
        assert(kids@ == g.kids());
        if ok {
            lemma_kids_of_placed(g);
        }
    }
    // Recurse into child nodes first.
    let mut rest = crate::model::reverse_vec(kids);
    let ghost orig = g.kids();
    let mut old: Vec<SyntaxElement> = Vec::new();
    while rest.len() > 0
        invariant
            old@.len() + rest@.len() == orig.len(),
            rest@ == orig.subrange(old@.len() as int, orig.len() as int).reverse(),
            orig == g.kids(),
            g == input,
            source.spec_bytes().len() < u32::MAX,
            forall|j: int| 0 <= j < old@.len() ==> (#[trigger] old@[j]).erange() == orig[j].erange(),
            forall|j: int|
                0 <= j < old@.len() ==> ((#[trigger] old@[j]) is Node) == (orig[j] is Node) && old@[j].ekind()
                    == orig[j].ekind(),
            ok ==> forall|j: int|
                0 <= j < old@.len() ==> (orig[j] is Token ==> #[trigger] old@[j] == orig[j]) && (orig[j] is Node ==> keeps(
                    orig[j]->Node_0,
                    old@[j]->Node_0,
                )),
            ok ==> all_placed(orig, g.nrange()),
            ok ==> forall|j: int| 0 <= j < old@.len() ==> elem_placed(#[trigger] old@[j]),
        decreases rest@.len(),
    {
        let ghost k: int = old@.len() as int;
        let ghost rb = rest@;
        let child = rest.pop().unwrap();
        proof {
            assert(rb.last() == orig.subrange(k, orig.len() as int)[0]);
            assert(child == orig[k]);
            assert(rest@ =~= orig.subrange(k + 1, orig.len() as int).reverse());
        }
        match child {
            SyntaxElement::Node(n) => {
                proof {
                    g.lemma_kid_decreases(k);
                    assert(n == g.kids()[k]->Node_0);
                    assert(decreases_to!(input => n));
                    if ok {
                        assert(elem_placed(orig[k]));
                    }
                }
                let n2 = attach(n, source);
                old.push(SyntaxElement::Node(n2));
            },
            SyntaxElement::Token(t) => {
                proof {
                    if ok {
                        assert(elem_placed(orig[k]));
                    }
                }
                old.push(SyntaxElement::Token(t));
            },
        }
    }
    proof {
        if ok {
            assert(elems_in(old@, a, z)) by {
                assert forall|j: int| 0 <= j < old@.len() implies range_in((#[trigger] old@[j]).erange(), a, z)
                    && elem_placed(old@[j]) by {
                    assert(range_in(orig[j].erange(), a, z));
                }
                assert forall|x: int, y: int| 0 <= x < y < old@.len() implies lo((#[trigger] old@[x]).erange()) <= lo(
                    (#[trigger] old@[y]).erange(),
                ) by {
                    assert(lo(orig[x].erange()) <= lo(orig[y].erange()));
                }
            }
        }
    }
    // Gaps between the (position-sorted) child ranges.
    let mut pairs: Vec<(u32, u32)> = Vec::new();
    let mut i: usize = 0;
    while i < old.len()
        invariant
            i <= old@.len(),
            pairs@.len() == i,
            forall|j: int| 0 <= j < i ==> (#[trigger] pairs@[j]).0 == lo(old@[j].erange()) && pairs@[j].1 == hi(
                old@[j].erange(),
            ),
        decreases old@.len() - i,
    {
        let r = old[i].range();
        pairs.push((r.start().raw(), r.end().raw()));
        i = i + 1;
    }
    proof {
        if ok {
            assert forall|j: int| 0 <= j < pairs@.len() implies a <= (#[trigger] pairs@[j]).0 <= pairs@[j].1 <= z by {
                assert(range_in(old@[j].erange(), a, z));
            }
        }
    }
    let ranges = sort_pairs(pairs);
    proof {
        if ok {
            assert forall|j: int| 0 <= j < ranges@.len() implies a <= (#[trigger] ranges@[j]).0 <= ranges@[j].1 <= z by {
                assert(pairs@.contains(ranges@[j]));
                let q = choose|q: int| 0 <= q < pairs@.len() && pairs@[q] == ranges@[j];
                assert(a <= pairs@[q].0 <= pairs@[q].1 <= z);
            }
        }
    }
    let mut trivia: Vec<SyntaxElement> = Vec::new();
    let len = source.len();
    let node_start = node.range().start().to_usize();
    let node_end = node.range().end().to_usize();
    let mut pos = node_start;
    let mut j: usize = 0;
    while j < ranges.len()
        invariant
            j <= ranges@.len(),
            len == source.spec_bytes().len(),
            len < u32::MAX,
            node_start == a,
            node_end == z,
            a <= pos,
            ok ==> pos <= z,
            ok ==> forall|q: int| 0 <= q < ranges@.len() ==> a <= (#[trigger] ranges@[q]).0 <= ranges@[q].1 <= z,
            ok ==> trivia_tail(trivia@, 0, a, pos as int),
        decreases ranges@.len() - j,
    {
        let (rs, re) = ranges[j];
        let start = rs as usize;
        let ghost mut g: int = pos as int;
        proof {
            if ok {
                assert(a <= ranges@[j as int].0 <= ranges@[j as int].1 <= z);
            }
        }
        if pos < start && start <= len {
            let ghost before = trivia@;
            lex_gap(source, pos, start, &mut trivia);
            proof {
                if ok {
                    lemma_tail_join(before, trivia@, a, pos as int, start as int);
                }
                g = start as int;
            }
        }
        if (re as usize) > pos {
            pos = re as usize;
        }
        proof {
            if ok {
                lemma_tail_widen(trivia@, a, g, pos as int);
            }
        }
        j = j + 1;
    }
    if pos < node_end && node_end <= len {
        let ghost before = trivia@;
        lex_gap(source, pos, node_end, &mut trivia);
        proof {
            if ok {
                lemma_tail_join(before, trivia@, a, pos as int, node_end as int);
            }
        }
    } else {
        proof {
            if ok {
                lemma_tail_widen(trivia@, a, pos as int, z);
            }
        }
    }
    proof {
        if ok {
            assert(trivia_tail(trivia@, 0, a, z));
        }
    }
    // Merge the trivia into the child list.
    let ghost tv = trivia@;
    let ghost ov = old@;
    let mut pending = crate::model::reverse_vec(trivia);
    let mut src_kids = crate::model::reverse_vec(old);
    let mut children: Vec<SyntaxElement> = Vec::new();
    let ghost mut last_lo: int = a;
    proof {
        if ok {
            lemma_rev_sorted_trivia(tv, pending@, a, z);
            lemma_rev_sorted_kids(ov, src_kids@, a, z);
            assert forall|q: int| 0 <= q < pending@.len() implies #[trigger] pending@[q] is Token && kind_is_trivia(
                pending@[q].ekind(),
            ) by {
                assert(pending@[q] == tv[tv.len() - 1 - q]);
            }
        }
        assert(ov.take(0) =~= Seq::<SyntaxElement>::empty());
    }
    while src_kids.len() > 0
        invariant
            src_kids@.len() <= ov.len(),
            ov.len() == 0 ==> children@.len() == 0,
            forall|q: int| 0 <= q < src_kids@.len() ==> #[trigger] src_kids@[q] == ov[ov.len() - 1 - q],
            ok ==> node_marks(children@) == node_marks(ov.take(ov.len() - src_kids@.len())),
            ok ==> nodes_of(children@) == nodes_of(ov.take(ov.len() - src_kids@.len())),
            ok ==> forall|q: int|
                0 <= q < ov.len() - src_kids@.len() && (#[trigger] ov[q]) is Token ==> children@.contains(ov[q]),
            ok ==> forall|q: int| 0 <= q < pending@.len() ==> #[trigger] pending@[q] is Token && kind_is_trivia(
                pending@[q].ekind(),
            ),
            ok ==> elems_in(children@, a, z),
            ok ==> members_in_rev(pending@, a, z),
            ok ==> members_in_rev(src_kids@, a, z),
            ok ==> rev_sorted(pending@) && rev_sorted(src_kids@),
            ok ==> all_from(pending@, last_lo) && all_from(src_kids@, last_lo),
            ok ==> (children@.len() > 0 ==> lo(children@.last().erange()) <= last_lo),
            ok ==> a <= last_lo,
        decreases src_kids@.len(),
    {
        let ghost sb = src_kids@;
        let ghost taken: int = ov.len() - sb.len();
        let child = src_kids.pop().unwrap();
        proof {
            assert(child == sb[sb.len() - 1]);
            assert(child == ov[taken]);
        }
        let cs = child.range().start().raw();
        while pending.len() > 0 && pending[pending.len() - 1].range().start().raw() < cs
            invariant
                ok ==> node_marks(children@) == node_marks(ov.take(taken)),
                ok ==> nodes_of(children@) == nodes_of(ov.take(taken)),
                ok ==> forall|q: int| 0 <= q < taken && (#[trigger] ov[q]) is Token ==> children@.contains(ov[q]),
                ok ==> forall|q: int| 0 <= q < pending@.len() ==> #[trigger] pending@[q] is Token && kind_is_trivia(
                pending@[q].ekind(),
            ),
                ok ==> elems_in(children@, a, z),
                ok ==> members_in_rev(pending@, a, z),
                ok ==> rev_sorted(pending@),
                ok ==> all_from(pending@, last_lo),
                ok ==> (children@.len() > 0 ==> lo(children@.last().erange()) <= last_lo),
                ok ==> last_lo <= cs,
                ok ==> a <= last_lo,
                cs == lo(child.erange()),
            decreases pending@.len(),
        {
            let ghost pb = pending@;
            let t = pending.pop().unwrap();
            proof {
                if ok {
                    assert(t == pb.last());
                    lemma_rev_pop(pb, a, z, last_lo);
                    if children@.len() > 0 {
                        assert(lo(children@.last().erange()) <= last_lo);
                    }
                    lemma_elems_push(children@, t, a, z);
                    last_lo = lo(t.erange());
                    lemma_marks_push(children@, t);
                    assert(pb[pb.len() - 1] is Token);
                    lemma_nodes_push(children@, t);
                    assert forall|q: int| 0 <= q < taken && (#[trigger] ov[q]) is Token implies children@.push(t).contains(
                        ov[q],
                    ) by {
                        lemma_contains_push(children@, t, ov[q]);
                    }
                }
            }
            children.push(t);
        }
        proof {
            if ok {
                lemma_nodes_push(children@, child);
                lemma_nodes_push(ov.take(taken), child);
                assert forall|q: int| 0 <= q < taken + 1 && (#[trigger] ov[q]) is Token implies children@.push(child).contains(
                    ov[q],
                ) by {
                    if q < taken {
                        lemma_contains_push(children@, child, ov[q]);
                    } else {
                        assert(children@.push(child)[children@.len() as int] == ov[q]);
                    }
                }
                lemma_marks_push(children@, child);
                lemma_marks_push(ov.take(taken), child);
                assert(ov.take(taken).push(child) =~= ov.take(taken + 1));
                if children@.len() > 0 {
                    assert(lo(children@.last().erange()) <= last_lo);
                }
                lemma_elems_push(children@, child, a, z);
                last_lo = cs as int;
                assert(pending@.len() > 0 ==> lo(pending@.last().erange()) >= cs);
            }
        }
        children.push(child);
    }
    proof {
        assert(ov.take(ov.len() as int) =~= ov);
    }
    while pending.len() > 0
        invariant
            ok ==> node_marks(children@) == node_marks(ov),
            ok ==> nodes_of(children@) == nodes_of(ov),
            ok && ov.len() == 0 ==> forall|q: int| 0 <= q < children@.len() ==> kind_is_trivia((#[trigger] children@[q]).ekind()),
            ok ==> forall|q: int| 0 <= q < ov.len() && (#[trigger] ov[q]) is Token ==> children@.contains(ov[q]),
            ok ==> forall|q: int| 0 <= q < pending@.len() ==> #[trigger] pending@[q] is Token && kind_is_trivia(
                pending@[q].ekind(),
            ),
            ok ==> elems_in(children@, a, z),
            ok ==> members_in_rev(pending@, a, z),
            ok ==> rev_sorted(pending@),
            ok ==> all_from(pending@, last_lo),
            ok ==> (children@.len() > 0 ==> lo(children@.last().erange()) <= last_lo),
        decreases pending@.len(),
    {
        let ghost pb = pending@;
        let t = pending.pop().unwrap();
        proof {
            if ok {
                assert(t == pb.last());
                lemma_rev_pop(pb, a, z, last_lo);
                lemma_elems_push(children@, t, a, z);
                last_lo = lo(t.erange());
                lemma_marks_push(children@, t);
                assert(pb[pb.len() - 1] is Token);
                lemma_nodes_push(children@, t);
                assert(kind_is_trivia(t.ekind()));
                assert forall|q: int| 0 <= q < ov.len() && (#[trigger] ov[q]) is Token implies children@.push(t).contains(
                    ov[q],
                ) by {
                    lemma_contains_push(children@, t, ov[q]);
                }
            }
        }
        children.push(t);
    }
    let ghost cv = children@;
    node.set_children(children);
    proof {
        if ok {
            assert(node.kids() == cv);
            lemma_placed_from_kids(node);
            lemma_marks_same(ov, orig);
            lemma_nodes_keep(orig, ov);
            assert forall|k: int| 0 <= k < g.kids().len() && (#[trigger] g.kids()[k]) is Token implies node.kids().contains(
                g.kids()[k],
            ) by {
                assert(ov[k] == orig[k]);
            }
            if has_header_name(g) {
                lemma_header_kept(g, node);
            }
        }
    }
    node
}

/// The kind and range of each node among `s`, in order (tokens skipped).
pub open spec fn node_marks(s: Seq<SyntaxElement>) -> Seq<(SyntaxKind, TextRange)>
    decreases s.len(),
{
    if s.len() == 0 {
        Seq::empty()
    } else {
        node_marks(s.drop_last()) + mark_of(s.last())
    }
}

/// The mark of one element: its kind and range for a node, nothing for a
/// token.
pub open spec fn mark_of(e: SyntaxElement) -> Seq<(SyntaxKind, TextRange)> {
    if e is Node {
        seq![(e.ekind(), e.erange())]
    } else {
        Seq::empty()
    }
}

/// Appending an element appends its mark.
pub proof fn lemma_marks_push(s: Seq<SyntaxElement>, x: SyntaxElement)
    ensures
        node_marks(s.push(x)) == node_marks(s) + mark_of(x),
{
    assert(s.push(x).drop_last() =~= s);
}

/// Two lists whose elements agree in node-ness, kind and range have the
/// same marks.
pub proof fn lemma_marks_same(s: Seq<SyntaxElement>, t: Seq<SyntaxElement>)
    requires
        s.len() == t.len(),
        forall|j: int|
            0 <= j < s.len() ==> ((#[trigger] s[j]) is Node) == (t[j] is Node) && s[j].ekind() == t[j].ekind()
                && s[j].erange() == t[j].erange(),
    ensures
        node_marks(s) == node_marks(t),
    decreases s.len(),
{
    if s.len() > 0 {
        lemma_marks_same(s.drop_last(), t.drop_last());
        assert(mark_of(s.last()) == mark_of(t.last()));
    }
}

/// The nodes among `s`, in order (tokens skipped).
pub open spec fn nodes_of(s: Seq<SyntaxElement>) -> Seq<SyntaxNode>
    decreases s.len(),
{
    if s.len() == 0 {
        Seq::empty()
    } else if s.last() is Node {
        nodes_of(s.drop_last()).push(s.last()->Node_0)
    } else {
        nodes_of(s.drop_last())
    }
}

/// `b` keeps `a`: the same kind and range, every token child of `a` still
/// a child of `b`, and a section's header name kept.
pub open spec fn keeps(a: SyntaxNode, b: SyntaxNode) -> bool {
    &&& a.nkind() == b.nkind()
    &&& a.nrange() == b.nrange()
    &&& forall|k: int| 0 <= k < a.kids().len() && (#[trigger] a.kids()[k]) is Token ==> b.kids().contains(a.kids()[k])
    &&& has_header_name(a) ==> has_header_name(b)
}

/// Two node lists that agree pointwise by [`keeps`].
pub open spec fn keeps_all(a: Seq<SyntaxNode>, b: Seq<SyntaxNode>) -> bool {
    &&& a.len() == b.len()
    &&& forall|j: int| 0 <= j < a.len() ==> keeps(#[trigger] a[j], b[j])
}

/// Appending an element appends its node, if it is one.
pub proof fn lemma_nodes_push(s: Seq<SyntaxElement>, x: SyntaxElement)
    ensures
        nodes_of(s.push(x)) == (if x is Node {
            nodes_of(s).push(x->Node_0)
        } else {
            nodes_of(s)
        }),
{
    assert(s.push(x).drop_last() =~= s);
}

/// Lists whose elements agree in node-ness, with tokens equal and nodes
/// kept, have kept node lists.
proof fn lemma_nodes_keep(s: Seq<SyntaxElement>, t: Seq<SyntaxElement>)
    requires
        s.len() == t.len(),
        forall|j: int|
            0 <= j < s.len() ==> ((#[trigger] s[j]) is Node) == (t[j] is Node) && (s[j] is Node ==> keeps(
                s[j]->Node_0,
                t[j]->Node_0,
            )),
    ensures
        keeps_all(nodes_of(s), nodes_of(t)),
    decreases s.len(),
{
    if s.len() > 0 {
        lemma_nodes_keep(s.drop_last(), t.drop_last());
        let a = nodes_of(s);
        let b = nodes_of(t);
        assert forall|j: int| 0 <= j < a.len() implies keeps(#[trigger] a[j], b[j]) by {
            if j < nodes_of(s.drop_last()).len() {
                assert(a[j] == nodes_of(s.drop_last())[j]);
                assert(b[j] == nodes_of(t.drop_last())[j]);
            }
        }
    }
}

/// The nodes of `kind` among lists with kept node lists are kept too.
pub proof fn lemma_child_nodes_keep(s: Seq<SyntaxElement>, t: Seq<SyntaxElement>, kind: SyntaxKind)
    requires
        keeps_all(nodes_of(s), nodes_of(t)),
    ensures
        keeps_all(child_nodes(s, kind), child_nodes(t, kind)),
{
    lemma_child_nodes_from_nodes(s, kind);
    lemma_child_nodes_from_nodes(t, kind);
    lemma_filter_keep(nodes_of(s), nodes_of(t), kind);
}

/// The nodes of `kind` among `s`, taken from its node list.
pub open spec fn of_kind(ns: Seq<SyntaxNode>, kind: SyntaxKind) -> Seq<SyntaxNode>
    decreases ns.len(),
{
    if ns.len() == 0 {
        Seq::empty()
    } else if ns.last().nkind() == kind {
        of_kind(ns.drop_last(), kind).push(ns.last())
    } else {
        of_kind(ns.drop_last(), kind)
    }
}

proof fn lemma_child_nodes_from_nodes(s: Seq<SyntaxElement>, kind: SyntaxKind)
    ensures
        child_nodes(s, kind) == of_kind(nodes_of(s), kind),
    decreases s.len(),
{
    if s.len() > 0 {
        lemma_child_nodes_from_nodes(s.drop_last(), kind);
        if s.last() is Node {
            assert(nodes_of(s).drop_last() =~= nodes_of(s.drop_last()));
        }
    }
}

proof fn lemma_filter_keep(a: Seq<SyntaxNode>, b: Seq<SyntaxNode>, kind: SyntaxKind)
    requires
        keeps_all(a, b),
    ensures
        keeps_all(of_kind(a, kind), of_kind(b, kind)),
    decreases a.len(),
{
    if a.len() > 0 {
        assert(keeps(a[a.len() - 1], b[b.len() - 1]));
        assert(keeps_all(a.drop_last(), b.drop_last())) by {
            assert forall|j: int| 0 <= j < a.drop_last().len() implies keeps(#[trigger] a.drop_last()[j], b.drop_last()[j]) by {
                assert(keeps(a[j], b[j]));
            }
        }
        lemma_filter_keep(a.drop_last(), b.drop_last(), kind);
        let fa = of_kind(a, kind);
        let fb = of_kind(b, kind);
        assert forall|j: int| 0 <= j < fa.len() implies keeps(#[trigger] fa[j], fb[j]) by {
            if j < of_kind(a.drop_last(), kind).len() {
                assert(fa[j] == of_kind(a.drop_last(), kind)[j]);
                assert(fb[j] == of_kind(b.drop_last(), kind)[j]);
            }
        }
    }
}

/// A token of `kind` among `s` puts `kind` among its tokens.
pub proof fn lemma_any_tokens_has(s: Seq<SyntaxElement>, kind: SyntaxKind, k: int)
    requires
        0 <= k < s.len(),
        any_tok(s[k], kind),
    ensures
        any_tokens(s, kind).len() > 0,
    decreases s.len(),
{
    if k < s.len() - 1 {
        lemma_any_tokens_has(s.drop_last(), kind, k);
    }
}

/// When `kind` is among the tokens of `s`, some element is such a token.
proof fn lemma_any_tokens_elem(s: Seq<SyntaxElement>, kind: SyntaxKind)
    requires
        any_tokens(s, kind).len() > 0,
    ensures
        exists|k: int| 0 <= k < s.len() && any_tok(#[trigger] s[k], kind),
    decreases s.len(),
{
    if any_tok(s.last(), kind) {
        assert(any_tok(s[s.len() - 1], kind));
    } else {
        lemma_any_tokens_elem(s.drop_last(), kind);
        let k = choose|k: int| 0 <= k < s.drop_last().len() && any_tok(#[trigger] s.drop_last()[k], kind);
        assert(s[k] == s.drop_last()[k]);
    }
}

/// A section whose token children and child nodes are kept keeps its
/// header name.
proof fn lemma_header_kept(a: SyntaxNode, b: SyntaxNode)
    requires
        has_header_name(a),
        forall|k: int| 0 <= k < a.kids().len() && (#[trigger] a.kids()[k]) is Token ==> b.kids().contains(a.kids()[k]),
        keeps_all(nodes_of(a.kids()), nodes_of(b.kids())),
    ensures
        has_header_name(b),
{
    lemma_child_nodes_keep(a.kids(), b.kids(), SyntaxKind::SECTION_HEADER);
    let ha = child_nodes(a.kids(), SyntaxKind::SECTION_HEADER)[0];
    let hb = child_nodes(b.kids(), SyntaxKind::SECTION_HEADER)[0];
    assert(keeps(ha, hb));
    lemma_any_tokens_elem(ha.kids(), SyntaxKind::NAME);
    let k = choose|k: int| 0 <= k < ha.kids().len() && any_tok(#[trigger] ha.kids()[k], SyntaxKind::NAME);
    assert(hb.kids().contains(ha.kids()[k]));
    let m = choose|m: int| 0 <= m < hb.kids().len() && hb.kids()[m] == ha.kids()[k];
    lemma_any_tokens_has(hb.kids(), SyntaxKind::NAME, m);
}

/// An element already in `s` stays when another is appended.
proof fn lemma_contains_push(s: Seq<SyntaxElement>, x: SyntaxElement, y: SyntaxElement)
    requires
        s.contains(y),
    ensures
        s.push(x).contains(y),
{
    let i = choose|i: int| 0 <= i < s.len() && s[i] == y;
    assert(s.push(x)[i] == y);
}

/// Every section among `s` carries a header name.
pub open spec fn sections_named_in(s: Seq<SyntaxElement>) -> bool {
    forall|j: int|
        0 <= j < s.len() && node_of(#[trigger] s[j], SyntaxKind::SECTION) ==> has_header_name(s[j]->Node_0)
}

/// Appending a non-section, or a named section, keeps the sections named.
pub proof fn lemma_named_push(s: Seq<SyntaxElement>, x: SyntaxElement)
    requires
        sections_named_in(s),
        node_of(x, SyntaxKind::SECTION) ==> has_header_name(x->Node_0),
    ensures
        sections_named_in(s.push(x)),
{
    assert forall|j: int|
        0 <= j < s.push(x).len() && node_of(#[trigger] s.push(x)[j], SyntaxKind::SECTION) implies has_header_name(
        s.push(x)[j]->Node_0,
    ) by {
        if j < s.len() {
            assert(s.push(x)[j] == s[j]);
        }
    }
}

/// The sections of a list whose sections are named are named.
pub proof fn lemma_named_sections(s: Seq<SyntaxElement>)
    requires
        sections_named_in(s),
    ensures
        forall|k: int|
            0 <= k < child_nodes(s, SyntaxKind::SECTION).len() ==> has_header_name(
                #[trigger] child_nodes(s, SyntaxKind::SECTION)[k],
            ),
    decreases s.len(),
{
    if s.len() > 0 {
        assert(sections_named_in(s.drop_last())) by {
            assert forall|j: int|
                0 <= j < s.drop_last().len() && node_of(#[trigger] s.drop_last()[j], SyntaxKind::SECTION) implies has_header_name(
                s.drop_last()[j]->Node_0,
            ) by {
                assert(s[j] == s.drop_last()[j]);
            }
        }
        lemma_named_sections(s.drop_last());
        let c = child_nodes(s, SyntaxKind::SECTION);
        assert forall|k: int| 0 <= k < c.len() implies has_header_name(#[trigger] c[k]) by {
            if k < child_nodes(s.drop_last(), SyntaxKind::SECTION).len() {
                assert(c[k] == child_nodes(s.drop_last(), SyntaxKind::SECTION)[k]);
            } else {
                assert(node_of(s[s.len() - 1], SyntaxKind::SECTION));
            }
        }
    }
}

/// The sections kept from named sections are named.
pub proof fn lemma_named_kept(s: Seq<SyntaxElement>, t: Seq<SyntaxElement>)
    requires
        sections_named_in(s),
        keeps_all(nodes_of(s), nodes_of(t)),
    ensures
        forall|k: int|
            0 <= k < child_nodes(t, SyntaxKind::SECTION).len() ==> has_header_name(
                #[trigger] child_nodes(t, SyntaxKind::SECTION)[k],
            ),
{
    lemma_named_sections(s);
    lemma_child_nodes_keep(s, t, SyntaxKind::SECTION);
    assert forall|k: int| 0 <= k < child_nodes(t, SyntaxKind::SECTION).len() implies has_header_name(
        #[trigger] child_nodes(t, SyntaxKind::SECTION)[k],
    ) by {
        assert(keeps(child_nodes(s, SyntaxKind::SECTION)[k], child_nodes(t, SyntaxKind::SECTION)[k]));
        assert(has_header_name(child_nodes(s, SyntaxKind::SECTION)[k]));
    }
}

/// The first element of `s`, a node of `kind`, comes first among the
/// nodes of that kind.
pub proof fn lemma_child_nodes_first(s: Seq<SyntaxElement>, kind: SyntaxKind)
    requires
        s.len() > 0,
        node_of(s[0], kind),
    ensures
        child_nodes(s, kind).len() > 0,
        child_nodes(s, kind)[0] == s[0]->Node_0,
    decreases s.len(),
{
    let dl = s.drop_last();
    if s.len() > 1 {
        lemma_child_nodes_first(dl, kind);
        assert(dl[0] == s[0]);
        let c = child_nodes(dl, kind);
        if node_of(s.last(), kind) {
            assert(child_nodes(s, kind) == c.push(nd_of(s.last())));
            assert(c.push(nd_of(s.last()))[0] == c[0]);
        } else {
            assert(child_nodes(s, kind) == c);
        }
    } else {
        assert(dl.len() == 0);
        assert(child_nodes(dl, kind) == Seq::<SyntaxNode>::empty());
        assert(s.last() == s[0]);
        assert(child_nodes(s, kind) == Seq::<SyntaxNode>::empty().push(nd_of(s[0])));
    }
}

/// A node among `s` leaves its mark.
pub proof fn lemma_marks_has(s: Seq<SyntaxElement>, k: int)
    requires
        0 <= k < s.len(),
        s[k] is Node,
    ensures
        exists|j: int| 0 <= j < node_marks(s).len() && node_marks(s)[j] == (s[k].ekind(), s[k].erange()),
    decreases s.len(),
{
    if k == s.len() - 1 {
        assert(node_marks(s)[node_marks(s.drop_last()).len() as int] == (s[k].ekind(), s[k].erange()));
    } else {
        lemma_marks_has(s.drop_last(), k);
        let j = choose|j: int|
            0 <= j < node_marks(s.drop_last()).len() && node_marks(s.drop_last())[j] == (s[k].ekind(), s[k].erange());
        assert(node_marks(s)[j] == node_marks(s.drop_last())[j]);
    }
}

/// Every element of `s` is well placed within `[a, z]`.
pub open spec fn members_in_rev(s: Seq<SyntaxElement>, a: int, z: int) -> bool {
    forall|k: int| 0 <= k < s.len() ==> range_in((#[trigger] s[k]).erange(), a, z) && elem_placed(s[k])
}

/// Lexed trivia after earlier trivia keeps the trivia ordered.
proof fn lemma_tail_join(before: Seq<SyntaxElement>, after: Seq<SyntaxElement>, a: int, p: int, q: int)
    requires
        trivia_tail(before, 0, a, p),
        after.len() >= before.len(),
        after.subrange(0, before.len() as int) == before,
        trivia_tail(after, before.len() as int, p, q),
        a <= p <= q,
    ensures
        trivia_tail(after, 0, a, q),
{
    assert forall|k: int| 0 <= k < before.len() implies after[k] == before[k] by {
        assert(after.subrange(0, before.len() as int)[k] == after[k]);
    }
    assert forall|k: int| 0 <= k < after.len() implies kind_is_trivia((#[trigger] after[k]).ekind()) && after[k] is Token by {
        if k < before.len() {
            assert(after[k] == before[k]);
        }
    }
    assert forall|k: int| 0 <= k < after.len() implies a <= lo((#[trigger] after[k]).erange()) < hi(after[k].erange())
        <= q by {
        if k < before.len() {
            assert(after[k] == before[k]);
        }
    }
    assert forall|k: int, l: int| 0 <= k < l < after.len() implies hi((#[trigger] after[k]).erange()) <= lo(
        (#[trigger] after[l]).erange(),
    ) by {
        if l < before.len() {
            assert(after[k] == before[k] && after[l] == before[l]);
        } else if k < before.len() {
            assert(after[k] == before[k]);
        }
    }
}

/// Ordered trivia within `[a, p]` lies within any wider `[a, q]`.
proof fn lemma_tail_widen(s: Seq<SyntaxElement>, a: int, p: int, q: int)
    requires
        trivia_tail(s, 0, a, p),
        p <= q,
    ensures
        trivia_tail(s, 0, a, q),
{
}

/// Reversed ordered trivia, ready to be taken from the end.
proof fn lemma_rev_sorted_trivia(t: Seq<SyntaxElement>, r: Seq<SyntaxElement>, a: int, z: int)
    requires
        trivia_tail(t, 0, a, z),
        r == t.reverse(),
    ensures
        members_in_rev(r, a, z),
        rev_sorted(r),
        all_from(r, a),
{
    assert forall|k: int| 0 <= k < r.len() implies range_in((#[trigger] r[k]).erange(), a, z) && elem_placed(r[k]) by {
        assert(r[k] == t[t.len() - 1 - k]);
    }
    assert forall|k: int, l: int| 0 <= k < l < r.len() implies lo((#[trigger] r[k]).erange()) >= lo(
        (#[trigger] r[l]).erange(),
    ) by {
        assert(r[k] == t[t.len() - 1 - k]);
        assert(r[l] == t[t.len() - 1 - l]);
        assert(hi(t[t.len() - 1 - l].erange()) <= lo(t[t.len() - 1 - k].erange()));
    }
    assert forall|k: int| 0 <= k < r.len() implies a <= lo((#[trigger] r[k]).erange()) by {
        assert(r[k] == t[t.len() - 1 - k]);
    }
}

/// Reversed placed children, ready to be taken from the end.
proof fn lemma_rev_sorted_kids(o: Seq<SyntaxElement>, r: Seq<SyntaxElement>, a: int, z: int)
    requires
        elems_in(o, a, z),
        r == o.reverse(),
    ensures
        members_in_rev(r, a, z),
        rev_sorted(r),
        all_from(r, a),
{
    assert forall|k: int| 0 <= k < r.len() implies range_in((#[trigger] r[k]).erange(), a, z) && elem_placed(r[k]) by {
        assert(r[k] == o[o.len() - 1 - k]);
    }
    assert forall|k: int, l: int| 0 <= k < l < r.len() implies lo((#[trigger] r[k]).erange()) >= lo(
        (#[trigger] r[l]).erange(),
    ) by {
        assert(r[k] == o[o.len() - 1 - k]);
        assert(r[l] == o[o.len() - 1 - l]);
    }
    assert forall|k: int| 0 <= k < r.len() implies a <= lo((#[trigger] r[k]).erange()) by {
        assert(r[k] == o[o.len() - 1 - k]);
    }
}

/// Taking the last of a reversed list leaves one whose elements all start
/// at or after it.
proof fn lemma_rev_pop(s: Seq<SyntaxElement>, a: int, z: int, p: int)
    requires
        s.len() > 0,
        members_in_rev(s, a, z),
        rev_sorted(s),
        all_from(s, p),
    ensures
        members_in_rev(s.drop_last(), a, z),
        rev_sorted(s.drop_last()),
        all_from(s.drop_last(), lo(s.last().erange())),
        range_in(s.last().erange(), a, z),
        elem_placed(s.last()),
        p <= lo(s.last().erange()),
{
    let d = s.drop_last();
    assert forall|k: int| 0 <= k < d.len() implies range_in((#[trigger] d[k]).erange(), a, z) && elem_placed(d[k]) by {
        assert(d[k] == s[k]);
    }
    assert forall|k: int, l: int| 0 <= k < l < d.len() implies lo((#[trigger] d[k]).erange()) >= lo(
        (#[trigger] d[l]).erange(),
    ) by {
        assert(d[k] == s[k] && d[l] == s[l]);
    }
    assert forall|k: int| 0 <= k < d.len() implies lo(s.last().erange()) <= lo((#[trigger] d[k]).erange()) by {
        assert(d[k] == s[k]);
        assert(lo(s[k].erange()) >= lo(s[s.len() - 1].erange()));
    }
}

} // verus!
