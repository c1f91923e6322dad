//! Anchored splice edits over a parsed docstring.
//!
//! An edit list is anchored on byte ranges, nodes, or tokens of a [`Parsed`]
//! result. Edits are collected with [`Parsed::edit`], validated and spliced
//! by [`Edits::apply`] into a new source string, and optionally re-parsed
//! with the same style parser by [`Edits::apply_reparsed`].
//!
//! Everything an edit does not touch is preserved byte-for-byte: the result
//! of `apply` is the source with each edited range replaced by its text,
//! taken in position order ([`splice_from`]). An empty edit list reproduces
//! the source exactly ([`law_empty_edits_reproduce_source`]), and replacing
//! a range with its own text is the identity
//! ([`law_replace_with_own_text_is_identity`]).

use vstd::prelude::*;
use vstd::string::StringExecFns;
use vstd::string::StringSliceAdditionalSpecFns;
use vstd::utf8::decode_utf8;
use vstd::utf8::decode_utf8_split;
use vstd::utf8::encode_utf8;
use vstd::utf8::encode_utf8_decode_utf8;
use vstd::utf8::encode_utf8_valid_utf8;
use vstd::utf8::is_char_boundary;
use vstd::utf8::valid_utf8;
use vstd::utf8::valid_utf8_split;

use crate::edit::layout::close_paren_lit;
use crate::edit::layout::colon_lit;
use crate::edit::layout::colon_space_lit;
use crate::edit::layout::cont_indent;
use crate::edit::layout::contains_newline;
use crate::edit::layout::continuation_indent;
use crate::edit::layout::extent_end;
use crate::edit::layout::extent_start;
use crate::edit::layout::first_node_from;
use crate::edit::layout::first_node_index;
use crate::edit::layout::first_tok_from;
use crate::edit::layout::first_token_index;
use crate::edit::layout::has_newline;
use crate::edit::layout::line_extent;
use crate::edit::layout::newline_lit;
use crate::edit::layout::open_paren_lit;
use crate::edit::layout::over_blanks;
use crate::edit::layout::over_blanks_from;
use crate::edit::layout::reindent;
use crate::edit::layout::reindented;
use crate::edit::layout::space_lit;
use crate::edit::layout::spaced_colon_lit;
use crate::edit::layout::widen_from;
use crate::edit::layout::widened_lo;
use crate::parse::Entry;
use crate::parse::Style;
use crate::strs::lemma_encode_concat;
use crate::strs::lemma_str_valid;
use crate::strs::substr;
use crate::strs::valid_span;
use crate::syntax::blank_end_from;
use crate::syntax::nd_of;
use crate::syntax::present_tokens;
use crate::syntax::tok_of;
use crate::syntax::Parsed;
use crate::syntax::SyntaxElement;
use crate::syntax::SyntaxKind;
use crate::syntax::SyntaxNode;
use crate::syntax::SyntaxToken;
use crate::text::hi;
use crate::text::lo;
use crate::text::range_bytes;
use crate::text::range_chars;
use crate::text::range_valid;
use crate::text::TextRange;
use crate::text::TextSize;

pub mod layout;

verus! {

// =============================================================================
// EditError
// =============================================================================

/// An error raised by [`Edits::apply`] when the edit list is invalid.
#[derive(Debug, Clone, Copy, PartialEq, Eq, Structural)]
#[non_exhaustive]
pub enum EditError {
    /// Two edits cover overlapping byte ranges (touching ranges do not
    /// overlap).
    Overlap {
        /// The earlier edit's range (in the position-sorted order).
        a: TextRange,
        /// The later edit's range that overlaps `a`.
        b: TextRange,
    },
    /// An edit's range does not denote a valid span of the source: it runs
    /// past the end, is inverted, or an endpoint falls inside a multi-byte
    /// character.
    OutOfBounds {
        /// The offending range.
        range: TextRange,
    },
}

impl EditError {
    /// The error's message, as it is displayed.
    pub fn message(&self) -> (r: String)
        ensures
            match *self {
                EditError::Overlap { a, b } => r@ == "overlapping edits at "@ + range_chars(a) + " and "@
                    + range_chars(b),
                EditError::OutOfBounds { range } => r@ == "edit range "@ + range_chars(range)
                    + " is not a valid span of the source: it runs past the end, its start is after its end, or an endpoint falls inside a multi-byte character"@,
            },
    {
        match self {
            EditError::Overlap { a, b } => {
                let mut out = "overlapping edits at ".to_owned();
                let da = a.display();
                out.append(da.as_str());
                out.append(" and ");
                let db = b.display();
                out.append(db.as_str());
                out
            },
            EditError::OutOfBounds { range } => {
                let mut out = "edit range ".to_owned();
                let d = range.display();
                out.append(d.as_str());
                out.append(
                    " is not a valid span of the source: it runs past the end, its start is after its end, or an endpoint falls inside a multi-byte character",
                );
                out
            },
        }
    }
}

// =============================================================================
// Specification of a splice
// =============================================================================

/// A pending edit as seen by the specifications: a range and its new text.
pub type EditSpec = (TextRange, Seq<char>);

/// Edit `a` comes before edit `b` in position order: by start, then end,
/// then call order.
pub open spec fn pos_before(es: Seq<EditSpec>, a: int, b: int) -> bool {
    ||| lo(es[a].0) < lo(es[b].0)
    ||| (lo(es[a].0) == lo(es[b].0) && hi(es[a].0) < hi(es[b].0))
    ||| (lo(es[a].0) == lo(es[b].0) && hi(es[a].0) == hi(es[b].0) && a < b)
}

/// `ord` lists every edit index exactly once, in position order.
pub open spec fn is_pos_order(ord: Seq<int>, es: Seq<EditSpec>) -> bool {
    &&& ord.len() == es.len()
    &&& forall|k: int| 0 <= k < ord.len() ==> 0 <= #[trigger] ord[k] < es.len()
    &&& forall|k: int, l: int| 0 <= k < l < ord.len() ==> pos_before(es, #[trigger] ord[k], #[trigger] ord[l])
}

/// Consecutive edits in the order do not overlap.
pub open spec fn disjoint_in(ord: Seq<int>, es: Seq<EditSpec>) -> bool {
    forall|k: int| 0 <= k < ord.len() - 1 ==> hi(es[#[trigger] ord[k]].0) <= lo(es[ord[k + 1]].0)
}

/// Every edit's range is a valid span of `b`.
pub open spec fn all_valid(b: Seq<u8>, es: Seq<EditSpec>) -> bool {
    forall|i: int| 0 <= i < es.len() ==> range_valid(#[trigger] es[i].0, b)
}

/// The text of the splice from the `k`-th edit in `ord` on, resuming the
/// source at byte `pos`: the untouched source bytes up to the edit, the
/// edit's text, and the rest.
#[verifier::opaque]
pub open spec fn splice_from(b: Seq<u8>, es: Seq<EditSpec>, ord: Seq<int>, k: int, pos: int) -> Seq<
    char,
>
    decreases ord.len() - k,
{
    if k < 0 || k >= ord.len() {
        decode_utf8(b.subrange(pos, b.len() as int))
    } else {
        decode_utf8(b.subrange(pos, lo(es[ord[k]].0))) + es[ord[k]].1 + splice_from(
            b,
            es,
            ord,
            k + 1,
            hi(es[ord[k]].0),
        )
    }
}

/// One step of [`splice_from`].
pub proof fn lemma_splice_step(b: Seq<u8>, es: Seq<EditSpec>, ord: Seq<int>, k: int, pos: int)
    requires
        0 <= k < ord.len(),
    ensures
        splice_from(b, es, ord, k, pos) == decode_utf8(b.subrange(pos, lo(es[ord[k]].0))) + es[ord[k]].1
            + splice_from(b, es, ord, k + 1, hi(es[ord[k]].0)),
{
    reveal(splice_from);
}

/// The end of [`splice_from`]: the rest of the source.
pub proof fn lemma_splice_end(b: Seq<u8>, es: Seq<EditSpec>, ord: Seq<int>, pos: int)
    ensures
        splice_from(b, es, ord, ord.len() as int, pos) == decode_utf8(b.subrange(pos, b.len() as int)),
{
    reveal(splice_from);
}

/// The preconditions of a splice, bundled.
#[verifier::opaque]
pub open spec fn splice_ok(b: Seq<u8>, es: Seq<EditSpec>, ord: Seq<int>) -> bool {
    all_valid(b, es) && is_pos_order(ord, es) && disjoint_in(ord, es)
}

/// What one step of a splice needs from [`splice_ok`].
proof fn lemma_splice_ok_step(b: Seq<u8>, es: Seq<EditSpec>, ord: Seq<int>, k: int)
    requires
        splice_ok(b, es, ord),
        0 <= k < ord.len(),
    ensures
        0 <= ord[k] < es.len(),
        range_valid(es[ord[k]].0, b),
        k + 1 < ord.len() ==> hi(es[ord[k]].0) <= lo(es[ord[k + 1]].0),
{
    reveal(splice_ok);
}

/// Accumulating one step of [`splice_from`] onto an output prefix.
proof fn lemma_splice_acc(
    b: Seq<u8>,
    es: Seq<EditSpec>,
    ord: Seq<int>,
    k: int,
    pos: int,
    before: Seq<char>,
    after: Seq<char>,
)
    requires
        0 <= k < ord.len(),
        after == before + decode_utf8(b.subrange(pos, lo(es[ord[k]].0))) + es[ord[k]].1,
    ensures
        after + splice_from(b, es, ord, k + 1, hi(es[ord[k]].0)) == before + splice_from(b, es, ord, k, pos),
{
    lemma_splice_step(b, es, ord, k, pos);
    assert(after + splice_from(b, es, ord, k + 1, hi(es[ord[k]].0)) =~= before + splice_from(b, es, ord, k, pos));
}

/// The source with every edit spliced in, in position order.
pub open spec fn spliced(b: Seq<u8>, es: Seq<EditSpec>, ord: Seq<int>) -> Seq<char> {
    splice_from(b, es, ord, 0, 0)
}

/// What [`Edits::apply`] promises of its outcome `r` on source bytes `b`
/// and pending edits `es`: `Ok` with the splice in position order exactly
/// when every range is valid and no two position-consecutive edits
/// overlap; else the first invalid range (in call order), or else the first
/// pair of position-consecutive edits that overlap.
pub open spec fn apply_post(b: Seq<u8>, es: Seq<EditSpec>, r: Result<Seq<char>, EditError>) -> bool {
    match r {
        Ok(out) => all_valid(b, es) && exists|ord: Seq<int>|
            #[trigger] is_pos_order(ord, es) && disjoint_in(ord, es) && out == spliced(b, es, ord),
        Err(EditError::OutOfBounds { range }) => exists|i: int|
            0 <= i < es.len() && #[trigger] es[i].0 == range && !range_valid(range, b) && forall|j: int|
                0 <= j < i ==> range_valid(#[trigger] es[j].0, b),
        Err(EditError::Overlap { a, b: bb }) => all_valid(b, es) && exists|ord: Seq<int>, k: int|
            #![trigger is_pos_order(ord, es), ord[k]]
            is_pos_order(ord, es) && 0 <= k < ord.len() - 1 && es[ord[k]].0 == a && es[ord[k + 1]].0 == bb
                && hi(a) > lo(bb) && forall|j: int| 0 <= j < k ==> hi(es[#[trigger] ord[j]].0) <= lo(es[ord[j + 1]].0),
    }
}

/// Text the parsers take: its UTF-8 length within their limits.
pub open spec fn fits(s: Seq<char>) -> bool {
    encode_utf8(s).len() < u32::MAX && encode_utf8(s).len() <= usize::MAX / 8
}

/// A position order lists every edit index.
proof fn lemma_pos_order_onto(ord: Seq<int>, es: Seq<EditSpec>, x: int)
    requires
        is_pos_order(ord, es),
        0 <= x < es.len(),
    ensures
        ord.contains(x),
{
    broadcast use vstd::set::group_set_axioms, vstd::seq_lib::seq_to_set_is_finite;

    assert(ord.no_duplicates()) by {
        assert forall|k: int, l: int| 0 <= k < ord.len() && 0 <= l < ord.len() && k != l implies ord[k] != ord[l] by {
            if k < l {
                assert(pos_before(es, ord[k], ord[l]));
            } else {
                assert(pos_before(es, ord[l], ord[k]));
            }
        }
    }
    ord.unique_seq_to_set();
    vstd::set_lib::lemma_int_range(0, es.len() as int);
    let all = vstd::set_lib::set_int_range(0, es.len() as int);
    assert(ord.to_set().subset_of(all)) by {
        assert forall|y: int| ord.to_set().contains(y) implies all.contains(y) by {
            let k = choose|k: int| 0 <= k < ord.len() && ord[k] == y;
        }
    }
    vstd::set_lib::lemma_subset_equality(ord.to_set(), all);
    assert(all.contains(x));
    assert(ord.to_set().contains(x));
}

/// Two position orders agree on their first `k` entries.
proof fn lemma_pos_order_prefix(es: Seq<EditSpec>, o1: Seq<int>, o2: Seq<int>, k: int)
    requires
        is_pos_order(o1, es),
        is_pos_order(o2, es),
        0 <= k <= es.len(),
    ensures
        forall|j: int| 0 <= j < k ==> o1[j] == o2[j],
    decreases k,
{
    if k > 0 {
        lemma_pos_order_prefix(es, o1, o2, k - 1);
        let j = k - 1;
        let x = o1[j];
        let y = o2[j];
        if x != y {
            lemma_pos_order_onto(o2, es, x);
            lemma_pos_order_onto(o1, es, y);
            let m = choose|m: int| 0 <= m < o2.len() && o2[m] == x;
            let n = choose|n: int| 0 <= n < o1.len() && o1[n] == y;
            if pos_before(es, x, y) {
                if m > j {
                    assert(pos_before(es, o2[j], o2[m]));
                } else {
                    assert(o1[m] == o2[m]);
                    if m < j {
                        assert(pos_before(es, o1[m], o1[j]));
                    }
                }
            } else {
                assert(pos_before(es, y, x));
                if n > j {
                    assert(pos_before(es, o1[j], o1[n]));
                } else {
                    assert(o1[n] == o2[n]);
                    if n < j {
                        assert(pos_before(es, o2[n], o2[j]));
                    }
                }
            }
        }
    }
}

/// The position order of a list of edits is unique, so the outcome that
/// [`apply_post`] describes (the splice, the first invalid range, or the
/// first overlapping pair) is determined by the source and the edits.
pub proof fn law_pos_order_unique(es: Seq<EditSpec>, o1: Seq<int>, o2: Seq<int>)
    requires
        is_pos_order(o1, es),
        is_pos_order(o2, es),
    ensures
        o1 == o2,
{
    lemma_pos_order_prefix(es, o1, o2, es.len() as int);
    assert(o1 =~= o2);
}

/// [`apply_post`] admits exactly one outcome for given source bytes and
/// edits: applying the same edits to the same source always gives the same
/// text, or the same error.
#[verifier::spinoff_prover]
#[verifier::rlimit(80)]
pub proof fn law_apply_outcome_unique(
    b: Seq<u8>,
    es: Seq<EditSpec>,
    r1: Result<Seq<char>, EditError>,
    r2: Result<Seq<char>, EditError>,
)
    requires
        apply_post(b, es, r1),
        apply_post(b, es, r2),
    ensures
        r1 == r2,
{
    match (r1, r2) {
        (Ok(x), Ok(y)) => {
            let o1 = choose|ord: Seq<int>| #[trigger] is_pos_order(ord, es) && disjoint_in(ord, es) && x == spliced(b, es, ord);
            let o2 = choose|ord: Seq<int>| #[trigger] is_pos_order(ord, es) && disjoint_in(ord, es) && y == spliced(b, es, ord);
            law_pos_order_unique(es, o1, o2);
        },
        (Ok(x), Err(EditError::Overlap { a, b: bb })) => {
            let o1 = choose|ord: Seq<int>| #[trigger] is_pos_order(ord, es) && disjoint_in(ord, es) && x == spliced(b, es, ord);
            let (o2, k) = choose|ord: Seq<int>, k: int|
                #![trigger is_pos_order(ord, es), ord[k]]
                is_pos_order(ord, es) && 0 <= k < ord.len() - 1 && es[ord[k]].0 == a && es[ord[k + 1]].0 == bb && hi(a)
                    > lo(bb) && forall|j: int| 0 <= j < k ==> hi(es[#[trigger] ord[j]].0) <= lo(es[ord[j + 1]].0);
            law_pos_order_unique(es, o1, o2);
            assert(hi(es[o1[k]].0) <= lo(es[o1[k + 1]].0));
        },
        (Err(EditError::Overlap { a, b: bb }), Ok(y)) => {
            let o2 = choose|ord: Seq<int>| #[trigger] is_pos_order(ord, es) && disjoint_in(ord, es) && y == spliced(b, es, ord);
            let (o1, k) = choose|ord: Seq<int>, k: int|
                #![trigger is_pos_order(ord, es), ord[k]]
                is_pos_order(ord, es) && 0 <= k < ord.len() - 1 && es[ord[k]].0 == a && es[ord[k + 1]].0 == bb && hi(a)
                    > lo(bb) && forall|j: int| 0 <= j < k ==> hi(es[#[trigger] ord[j]].0) <= lo(es[ord[j + 1]].0);
            law_pos_order_unique(es, o1, o2);
            assert(hi(es[o2[k]].0) <= lo(es[o2[k + 1]].0));
        },
        (Err(EditError::Overlap { a: a1, b: b1 }), Err(EditError::Overlap { a: a2, b: b2 })) => {
            let (o1, k1) = choose|ord: Seq<int>, k: int|
                #![trigger is_pos_order(ord, es), ord[k]]
                is_pos_order(ord, es) && 0 <= k < ord.len() - 1 && es[ord[k]].0 == a1 && es[ord[k + 1]].0 == b1 && hi(a1)
                    > lo(b1) && forall|j: int| 0 <= j < k ==> hi(es[#[trigger] ord[j]].0) <= lo(es[ord[j + 1]].0);
            let (o2, k2) = choose|ord: Seq<int>, k: int|
                #![trigger is_pos_order(ord, es), ord[k]]
                is_pos_order(ord, es) && 0 <= k < ord.len() - 1 && es[ord[k]].0 == a2 && es[ord[k + 1]].0 == b2 && hi(a2)
                    > lo(b2) && forall|j: int| 0 <= j < k ==> hi(es[#[trigger] ord[j]].0) <= lo(es[ord[j + 1]].0);
            law_pos_order_unique(es, o1, o2);
            if k1 < k2 {
                assert(hi(es[o2[k1]].0) <= lo(es[o2[k1 + 1]].0));
            } else if k2 < k1 {
                assert(hi(es[o1[k2]].0) <= lo(es[o1[k2 + 1]].0));
            }
        },
        (Err(EditError::OutOfBounds { range: x }), Err(EditError::OutOfBounds { range: y })) => {
            let i1 = choose|i: int|
                0 <= i < es.len() && #[trigger] es[i].0 == x && !range_valid(x, b) && forall|j: int|
                    0 <= j < i ==> range_valid(#[trigger] es[j].0, b);
            let i2 = choose|i: int|
                0 <= i < es.len() && #[trigger] es[i].0 == y && !range_valid(y, b) && forall|j: int|
                    0 <= j < i ==> range_valid(#[trigger] es[j].0, b);
            if i1 < i2 {
                assert(range_valid(es[i1].0, b));
            } else if i2 < i1 {
                assert(range_valid(es[i2].0, b));
            }
        },
        _ => {},
    }
}

/// An empty edit list reproduces the source exactly.
pub proof fn law_empty_edits_reproduce_source(p: &Parsed)
    ensures
        is_pos_order(Seq::empty(), Seq::<EditSpec>::empty()),
        spliced(p.src_bytes(), Seq::empty(), Seq::empty()) == p.text(),
{
    let b = p.src_bytes();
    assert(b.subrange(0, b.len() as int) =~= b);
    encode_utf8_decode_utf8(p.text());
    lemma_splice_end(b, Seq::empty(), Seq::empty(), 0);
}

/// Replacing a valid span with its own text is the identity.
#[verifier::spinoff_prover]
#[verifier::rlimit(40)]
pub proof fn law_replace_with_own_text_is_identity(p: &Parsed, r: TextRange)
    requires
        range_valid(r, p.src_bytes()),
    ensures
        is_pos_order(seq![0int], seq![(r, decode_utf8(p.src_bytes().subrange(lo(r), hi(r))))]),
        spliced(
            p.src_bytes(),
            seq![(r, decode_utf8(p.src_bytes().subrange(lo(r), hi(r))))],
            seq![0int],
        ) == p.text(),
{
    let b = p.src_bytes();
    let es = seq![(r, decode_utf8(b.subrange(lo(r), hi(r))))];
    let ord = seq![0int];
    encode_utf8_valid_utf8(p.text());
    encode_utf8_decode_utf8(p.text());
    let s = lo(r);
    let e = hi(r);
    // Split the source at s, then the tail at e - s.
    decode_utf8_split(b, s);
    valid_utf8_split(b, s);
    let tail = b.subrange(s, b.len() as int);
    assert(is_char_boundary(tail, e - s)) by {
        lemma_boundary_shift(b, s, e);
    }
    decode_utf8_split(tail, e - s);
    assert(tail.subrange(0, e - s) =~= b.subrange(s, e));
    assert(tail.subrange(e - s, tail.len() as int) =~= b.subrange(e, b.len() as int));
    lemma_splice_end(b, es, ord, e);
    lemma_splice_step(b, es, ord, 0, 0);
    assert(b.subrange(0, b.len() as int) =~= b);
    assert(b.subrange(0, s) + b.subrange(s, b.len() as int) =~= b);
}

/// Replacing a root-level node of a parsed docstring with its own text is
/// the identity: the parsers give every root-level node a range at
/// character boundaries (`marks_valid`).
pub proof fn law_root_node_own_text_is_identity(p: &Parsed, j: int)
    requires
        crate::parse::dispatch::marks_valid(p.src_bytes(), crate::parse::trivia::node_marks(p.root_node().kids())),
        0 <= j < crate::parse::trivia::node_marks(p.root_node().kids()).len(),
    ensures
        ({
            let r = crate::parse::trivia::node_marks(p.root_node().kids())[j].1;
            spliced(p.src_bytes(), seq![(r, decode_utf8(p.src_bytes().subrange(lo(r), hi(r))))], seq![0int])
                == p.text()
        }),
{
    let r = crate::parse::trivia::node_marks(p.root_node().kids())[j].1;
    law_replace_with_own_text_is_identity(p, r);
}

/// Every edit puts back exactly the text its span already holds.
pub open spec fn own_text_edits(b: Seq<u8>, es: Seq<EditSpec>) -> bool {
    forall|i: int| 0 <= i < es.len() ==> (#[trigger] es[i]).1 == decode_utf8(b.subrange(lo(es[i].0), hi(es[i].0)))
}

/// From the `k`-th edit on, a splice of edits that put back their own text
/// is the rest of the source.
proof fn lemma_own_text_from(b: Seq<u8>, es: Seq<EditSpec>, ord: Seq<int>, k: int, pos: int)
    requires
        valid_utf8(b),
        0 <= k <= ord.len(),
        0 <= pos <= b.len(),
        is_char_boundary(b, pos),
        all_valid(b, es),
        is_pos_order(ord, es),
        disjoint_in(ord, es),
        own_text_edits(b, es),
        k < ord.len() ==> pos <= lo(es[ord[k]].0),
    ensures
        splice_from(b, es, ord, k, pos) == decode_utf8(b.subrange(pos, b.len() as int)),
    decreases ord.len() - k,
{
    if k == ord.len() {
        lemma_splice_end(b, es, ord, pos);
    } else {
        let i = ord[k];
        let s = lo(es[i].0);
        let e = hi(es[i].0);
        assert(range_valid(es[i].0, b));
        if k + 1 < ord.len() {
            assert(hi(es[ord[k]].0) <= lo(es[ord[k + 1]].0));
        }
        lemma_own_text_from(b, es, ord, k + 1, e);
        lemma_splice_step(b, es, ord, k, pos);
        // The rest from `pos`: split at `s`, then at `e`.
        let t = b.subrange(pos, b.len() as int);
        valid_utf8_split(b, pos);
        assert(valid_span(b, pos, s));
        lemma_boundary_shift(b, pos, s);
        decode_utf8_split(t, s - pos);
        assert(t.subrange(0, s - pos) =~= b.subrange(pos, s));
        let u = t.subrange(s - pos, t.len() as int);
        assert(u =~= b.subrange(s, b.len() as int));
        lemma_boundary_shift(b, s, e);
        decode_utf8_split(u, e - s);
        assert(u.subrange(0, e - s) =~= b.subrange(s, e));
        assert(u.subrange(e - s, u.len() as int) =~= b.subrange(e, b.len() as int));
    }
}

/// Splicing edits that each put back the text their span already holds
/// reproduces the source exactly.
pub proof fn law_own_text_edits_are_identity(p: &Parsed, es: Seq<EditSpec>, ord: Seq<int>)
    requires
        all_valid(p.src_bytes(), es),
        is_pos_order(ord, es),
        disjoint_in(ord, es),
        own_text_edits(p.src_bytes(), es),
    ensures
        spliced(p.src_bytes(), es, ord) == p.text(),
{
    let b = p.src_bytes();
    encode_utf8_valid_utf8(p.text());
    encode_utf8_decode_utf8(p.text());
    crate::strs::lemma_boundary_at(b, 0);
    if ord.len() > 0 {
        assert(range_valid(es[ord[0]].0, b));
    }
    lemma_own_text_from(b, es, ord, 0, 0);
    assert(b.subrange(0, b.len() as int) =~= b);
}

/// A boundary at `e` in `b` is a boundary at `e - s` in the suffix from the
/// boundary `s`.
pub proof fn lemma_boundary_shift(b: Seq<u8>, s: int, e: int)
    requires
        valid_utf8(b),
        valid_span(b, s, e),
    ensures
        valid_utf8(b.subrange(s, b.len() as int)),
        is_char_boundary(b.subrange(s, b.len() as int), e - s),
{
    valid_utf8_split(b, s);
    let t = b.subrange(s, b.len() as int);
    if e < b.len() {
        vstd::utf8::is_char_boundary_iff_not_is_continuation_byte(b, e);
        assert(t[e - s] == b[e]);
    }
    crate::strs::lemma_boundary_at(t, e - s);
}

// =============================================================================
// Specification of the line and entry edits
// =============================================================================

/// The span [`Edits::remove_lines_range`] deletes for `r`: a range that is
/// not a valid span is kept as it is (so `apply` reports it); otherwise it
/// grows to its line extent, plus one `BLANK_LINE` token of the tree that
/// starts exactly where the extent ends.
pub open spec fn lines_extent(b: Seq<u8>, root: SyntaxNode, r: TextRange) -> (int, int) {
    if !range_valid(r, b) {
        (lo(r), hi(r))
    } else {
        let e = extent_end(b, hi(r));
        (
            extent_start(b, lo(r)),
            match blank_end_from(root, 0, e) {
                Some(x) => x,
                None => e,
            },
        )
    }
}

/// Entries of this style follow the NumPy grammar (description on its own
/// line, type after the colon) rather than Google's inline `x (int): desc`.
pub open spec fn numpy_grammar(style: Style) -> bool {
    style == Style::NumPy
}

/// A recorded edit is the `(start, end, bytes of the text)` triple `x`.
pub open spec fn edit_matches(e: EditSpec, x: (int, int, Seq<u8>)) -> bool {
    lo(e.0) == x.0 && hi(e.0) == x.1 && encode_utf8(e.1) == x.2
}

/// `t` as a block on its own line at indent `ind`.
pub open spec fn own_line_block(t: Seq<u8>, ind: Seq<u8>) -> Seq<u8> {
    seq![10u8] + ind + reindented(t, ind)
}

/// The edit [`Edits::set_description`] records for `entry` and text `t`.
pub open spec fn description_edit(b: Seq<u8>, entry: SyntaxNode, numpy: bool, t: Seq<u8>) -> (int, int, Seq<u8>) {
    let kids = entry.kids();
    let di = first_node_from(kids, SyntaxKind::DESCRIPTION, 0);
    let block = own_line_block(t, cont_indent(b, entry, di));
    let own_line = numpy || has_newline(t);
    if di < kids.len() {
        let d = nd_of(kids[di]).nrange();
        if lo(d) != hi(d) {
            if own_line {
                (widened_lo(kids, di, d), hi(d), block)
            } else {
                (lo(d), hi(d), t)
            }
        } else {
            (
                widened_lo(kids, di, d),
                over_blanks(b, hi(d)),
                if own_line {
                    block
                } else {
                    seq![32u8] + t
                },
            )
        }
    } else {
        let colon = if numpy || present_tokens(kids, SyntaxKind::COLON).len() > 0 {
            Seq::<u8>::empty()
        } else {
            seq![58u8]
        };
        let e = hi(entry.nrange());
        (
            e,
            over_blanks(b, e),
            colon + if own_line {
                block
            } else {
                seq![32u8] + t
            },
        )
    }
}

/// The edit [`Edits::prepend_to_description`] records for `entry` and
/// text `t`.
pub open spec fn prepend_edit(b: Seq<u8>, entry: SyntaxNode, numpy: bool, t: Seq<u8>) -> (int, int, Seq<u8>) {
    let kids = entry.kids();
    let di = first_node_from(kids, SyntaxKind::DESCRIPTION, 0);
    if di < kids.len() && lo(nd_of(kids[di]).nrange()) != hi(nd_of(kids[di]).nrange()) {
        let d = nd_of(kids[di]).nrange();
        let ind = cont_indent(b, entry, di);
        (
            widened_lo(kids, di, d),
            hi(d),
            own_line_block(t, ind) + seq![10u8, 10u8] + ind + range_bytes(d, b),
        )
    } else {
        description_edit(b, entry, numpy, t)
    }
}

/// The edit [`Edits::set_type`] records for `entry` and text `t`.
pub open spec fn type_edit(b: Seq<u8>, entry: SyntaxNode, numpy: bool, t: Seq<u8>) -> (int, int, Seq<u8>) {
    let kids = entry.kids();
    let pi = first_tok_from(kids, SyntaxKind::TYPE, false, 0);
    let mi = first_tok_from(kids, SyntaxKind::TYPE, true, 0);
    let names = present_tokens(kids, SyntaxKind::NAME);
    if pi < kids.len() {
        (lo(tok_of(kids[pi]).trange()), hi(tok_of(kids[pi]).trange()), t)
    } else if mi < kids.len() {
        let r = tok_of(kids[mi]).trange();
        if numpy {
            (widened_lo(kids, mi, r), hi(r), seq![32u8] + t)
        } else {
            (lo(r), hi(r), t)
        }
    } else if names.len() > 0 {
        let e = hi(names.last().trange());
        (
            e,
            e,
            if numpy {
                seq![32u8, 58u8, 32u8] + t
            } else {
                seq![32u8, 40u8] + t + seq![41u8]
            },
        )
    } else {
        let s = lo(entry.nrange());
        (
            s,
            s,
            if numpy {
                t + seq![10u8] + cont_indent(b, entry, first_node_from(kids, SyntaxKind::DESCRIPTION, 0))
            } else {
                t + seq![58u8, 32u8]
            },
        )
    }
}

/// Exec form of [`numpy_grammar`].
fn numpy_entry_grammar(style: Style) -> (r: bool)
    ensures
        r == numpy_grammar(style),
{
    match style {
        Style::NumPy => true,
        Style::Google | Style::Plain => false,
    }
}

/// `a` followed by `c`.
fn concat2(a: &str, c: &str) -> (r: String)
    ensures
        encode_utf8(r@) == a.spec_bytes() + c.spec_bytes(),
{
    let mut out = a.to_owned();
    out.append(c);
    proof {
        lemma_encode_concat(a@, c@);
    }
    out
}

/// `a`, then `c`, then `d`.
fn concat3(a: &str, c: &str, d: &str) -> (r: String)
    ensures
        encode_utf8(r@) == a.spec_bytes() + c.spec_bytes() + d.spec_bytes(),
{
    let ac = concat2(a, c);
    let mut out = ac;
    let ghost before = out@;
    out.append(d);
    proof {
        lemma_encode_concat(before, d@);
    }
    out
}

/// `text` as a block on its own line at `indent`.
fn own_line_text(text: &str, indent: &str) -> (r: String)
    ensures
        encode_utf8(r@) == own_line_block(text.spec_bytes(), indent.spec_bytes()),
{
    let body = reindent(text, indent);
    concat3(newline_lit(), indent, body.as_str())
}

// =============================================================================
// Edits
// =============================================================================

/// One pending splice: replace `range` with `text`.
#[derive(Debug)]
struct SpliceEdit {
    range: TextRange,
    text: String,
}

/// A list of pending edits anchored on one [`Parsed`] result, created by
/// [`Parsed::edit`]. Validation (bounds and overlaps) happens in `apply`.
#[derive(Debug)]
pub struct Edits<'a> {
    parsed: &'a Parsed,
    edits: Vec<SpliceEdit>,
}

impl Parsed {
    /// Start an empty edit list anchored on this parse result.
    pub fn edit(&self) -> (r: Edits<'_>)
        ensures
            *r.anchor() == *self,
            r.pending() == Seq::<EditSpec>::empty(),
    {
        Edits { parsed: self, edits: Vec::new() }
    }
}

impl<'a> Edits<'a> {
    /// The parse result the edits are anchored on.
    pub closed spec fn anchor(&self) -> &'a Parsed {
        self.parsed
    }

    /// The pending edits, in call order.
    pub closed spec fn pending(&self) -> Seq<EditSpec> {
        self.edits@.map_values(|e: SpliceEdit| (e.range, e.text@))
    }

    /// The parse result this edit list is anchored on.
    pub fn parsed(&self) -> (r: &'a Parsed)
        ensures
            r == self.anchor(),
    {
        self.parsed
    }

    // ── Range-anchored core ────────────────────────────────────────────

    /// Replace the bytes of `range` with `text` (a zero-length range
    /// inserts; empty text deletes). The range is validated by `apply`.
    pub fn replace(&mut self, range: TextRange, text: &str) -> (r: &mut Self)
        ensures
            r.anchor() == old(self).anchor(),
            r.pending() == old(self).pending().push((range, text@)),
            *final(self) == *final(r),
    {
        let t = text.to_owned();
        self.edits.push(SpliceEdit { range, text: t });
        proof {
            assert(self.pending() =~= old(self).pending().push((range, text@)));
        }
        self
    }

    /// Insert `text` at byte offset `at` (replacing the empty range
    /// `at..at`).
    pub fn insert(&mut self, at: TextSize, text: &str) -> (r: &mut Self)
        ensures
            r.anchor() == old(self).anchor(),
            r.pending().len() == old(self).pending().len() + 1,
            r.pending().drop_last() == old(self).pending(),
            r.pending().last().0@ == (at@, at@),
            r.pending().last().1 == text@,
            *final(self) == *final(r),
    {
        let r = TextRange::new(at, at);
        self.replace(r, text);
        proof {
            assert(self.pending().drop_last() =~= old(self).pending());
        }
        self
    }

    /// Delete the bytes of `range` (replacing them with the empty string).
    pub fn delete(&mut self, range: TextRange) -> (r: &mut Self)
        ensures
            r.anchor() == old(self).anchor(),
            r.pending() == old(self).pending().push((range, Seq::<char>::empty())),
            *final(self) == *final(r),
    {
        let e = "";
        proof {
            reveal_strlit("");
            assert(e@ =~= Seq::<char>::empty());
        }
        self.replace(range, e);
        self
    }

    // ── Node / token conveniences ──────────────────────────────────────

    /// Replace `node`'s exact content span with `text`.
    pub fn replace_node(&mut self, node: &SyntaxNode, text: &str) -> (r: &mut Self)
        ensures
            r.anchor() == old(self).anchor(),
            r.pending() == old(self).pending().push((node.nrange(), text@)),
            *final(self) == *final(r),
    {
        self.replace(node.range(), text);
        self
    }

    /// Replace `token`'s exact span with `text`; on a missing placeholder
    /// this inserts at the anchor offset.
    pub fn replace_token(&mut self, token: &SyntaxToken, text: &str) -> (r: &mut Self)
        ensures
            r.anchor() == old(self).anchor(),
            r.pending() == old(self).pending().push((token.trange(), text@)),
            *final(self) == *final(r),
    {
        self.replace(token.range(), text);
        self
    }

    // ── Line removal ───────────────────────────────────────────────────

    /// Delete `node` together with the whole line(s) it occupies: its span
    /// grown as [`remove_lines_range`](Edits::remove_lines_range) grows it.
    pub fn remove_lines(&mut self, node: &SyntaxNode) -> (r: &mut Self)
        ensures
            r.anchor() == old(self).anchor(),
            r.pending().len() == old(self).pending().len() + 1,
            r.pending().drop_last() == old(self).pending(),
            r.pending().last().1 == Seq::<char>::empty(),
            lo(r.pending().last().0) == lines_extent(
                old(self).anchor().src_bytes(),
                old(self).anchor().root_node(),
                node.nrange(),
            ).0,
            hi(r.pending().last().0) == lines_extent(
                old(self).anchor().src_bytes(),
                old(self).anchor().root_node(),
                node.nrange(),
            ).1,
            *final(self) == *final(r),
    {
        self.remove_lines_range(node.range());
        self
    }

    /// Delete `range` together with the whole line(s) it occupies.
    ///
    /// The start moves back to the start of its line when only indentation
    /// precedes it there; the end moves past trailing spaces and tabs and
    /// the line's newline (`\n` or `\r\n`), or to the end of the source when
    /// only blanks follow; then one `BLANK_LINE` token of the tree starting
    /// exactly there is taken too. A range that is not a valid span of the
    /// source is recorded as it is, for `apply` to report.
    pub fn remove_lines_range(&mut self, range: TextRange) -> (r: &mut Self)
        ensures
            r.anchor() == old(self).anchor(),
            r.pending().len() == old(self).pending().len() + 1,
            r.pending().drop_last() == old(self).pending(),
            r.pending().last().1 == Seq::<char>::empty(),
            lo(r.pending().last().0) == lines_extent(
                old(self).anchor().src_bytes(),
                old(self).anchor().root_node(),
                range,
            ).0,
            hi(r.pending().last().0) == lines_extent(
                old(self).anchor().src_bytes(),
                old(self).anchor().root_node(),
                range,
            ).1,
            *final(self) == *final(r),
    {
        let parsed: &'a Parsed = self.parsed;
        let source = parsed.source();
        let b = source.as_bytes();
        let start = range.start().to_usize();
        let end = range.end().to_usize();
        if !(start <= end && end <= b.len() && source.is_char_boundary(start) && source.is_char_boundary(
            end,
        )) {
            self.delete(range);
            return self;
        }
        let (s, e1) = line_extent(b, start, end);
        let e = match parsed.root().blank_line_end_at(TextSize::from_usize(e1)) {
            Some(x) => x.to_usize(),
            None => e1,
        };
        self.delete(TextRange::from_usizes(s, e));
        self
    }

    // ── Entry edits ────────────────────────────────────────────────────

    /// Replace `entry`'s description with `text`, or write one where the
    /// entry has none ([`description_edit`] gives the edit exactly).
    ///
    /// A single-line `text` keeps the entry's shape: inline stays inline.
    /// A multi-line `text`, or any text in NumPy style, goes on its own
    /// line at the entry's continuation indent, its interior indentation
    /// kept relative to that. Where there is no description, one is written
    /// after the entry (after a colon that Google style adds if missing).
    pub fn set_description(&mut self, entry: Entry<'_>, text: &str) -> (r: &mut Self)
        ensures
            r.anchor() == old(self).anchor(),
            r.pending().len() == old(self).pending().len() + 1,
            r.pending().drop_last() == old(self).pending(),
            edit_matches(
                r.pending().last(),
                description_edit(
                    old(self).anchor().src_bytes(),
                    entry.vnode(),
                    numpy_grammar(old(self).anchor().style_of()),
                    text.spec_bytes(),
                ),
            ),
            *final(self) == *final(r),
    {
        let parsed: &'a Parsed = self.parsed;
        let b = parsed.source().as_bytes();
        let node = entry.syntax();
        let kids = node.children();
        let di = first_node_index(kids, SyntaxKind::DESCRIPTION);
        let indent = continuation_indent(parsed, node, di);
        let numpy = numpy_entry_grammar(parsed.style());
        let own_line = numpy || contains_newline(text.as_bytes());
        let block = own_line_text(text, indent.as_str());
        if di < kids.len() {
            let d = match &kids[di] {
                SyntaxElement::Node(d) => d,
                SyntaxElement::Token(_) => unreached(),
            };
            let dr = d.range();
            if !dr.is_empty() {
                if own_line {
                    let w = widen_from(kids, di, dr);
                    self.replace(w, block.as_str());
                } else {
                    self.replace(dr, text);
                }
            } else {
                let w = widen_from(kids, di, dr);
                let e = over_blanks_from(b, dr.end().to_usize());
                let r = TextRange::new(w.start(), TextSize::from_usize(e));
                if own_line {
                    self.replace(r, block.as_str());
                } else {
                    let t = concat2(space_lit(), text);
                    self.replace(r, t.as_str());
                }
            }
        } else {
            let has_colon = node.find_token(SyntaxKind::COLON).is_some();
            let end = entry.range().end();
            let e = over_blanks_from(b, end.to_usize());
            let r = TextRange::new(end, TextSize::from_usize(e));
            let colon = if numpy || has_colon {
                ""
            } else {
                colon_lit()
            };
            proof {
                if numpy || has_colon {
                    reveal_strlit("");
                    assert(colon.spec_bytes() =~= Seq::<u8>::empty());
                }
            }
            let t = if own_line {
                concat2(colon, block.as_str())
            } else {
                concat3(colon, space_lit(), text)
            };
            proof {
                let cb = colon.spec_bytes();
                if own_line {
                    assert(encode_utf8(t@) =~= cb + own_line_block(text.spec_bytes(), encode_utf8(indent@)));
                } else {
                    assert(encode_utf8(t@) =~= cb + (seq![32u8] + text.spec_bytes()));
                }
            }
            self.replace(r, t.as_str());
        }
        self
    }

    /// Insert `text` as a new paragraph before `entry`'s description,
    /// keeping the description's own bytes ([`prepend_edit`] gives the edit
    /// exactly): `text` goes on its own line at the continuation indent, a
    /// blank line after it. An entry with no description gets `text` as
    /// its description, as [`set_description`](Edits::set_description)
    /// writes it.
    pub fn prepend_to_description(&mut self, entry: Entry<'_>, text: &str) -> (r: &mut Self)
        ensures
            r.anchor() == old(self).anchor(),
            r.pending().len() == old(self).pending().len() + 1,
            r.pending().drop_last() == old(self).pending(),
            edit_matches(
                r.pending().last(),
                prepend_edit(
                    old(self).anchor().src_bytes(),
                    entry.vnode(),
                    numpy_grammar(old(self).anchor().style_of()),
                    text.spec_bytes(),
                ),
            ),
            *final(self) == *final(r),
    {
        let parsed: &'a Parsed = self.parsed;
        let src = parsed.source();
        let node = entry.syntax();
        let kids = node.children();
        let di = first_node_index(kids, SyntaxKind::DESCRIPTION);
        if di < kids.len() {
            let d = match &kids[di] {
                SyntaxElement::Node(d) => d,
                SyntaxElement::Token(_) => unreached(),
            };
            let dr = d.range();
            if !dr.is_empty() {
                let indent = continuation_indent(parsed, node, di);
                let block = own_line_text(text, indent.as_str());
                let kept = dr.source_text(src);
                let nl = newline_lit();
                let gap = concat2(nl, nl);
                let head = concat2(block.as_str(), gap.as_str());
                let t = concat3(head.as_str(), indent.as_str(), kept);
                proof {
                    assert(encode_utf8(t@) =~= own_line_block(text.spec_bytes(), encode_utf8(indent@))
                        + seq![10u8, 10u8] + encode_utf8(indent@) + kept.spec_bytes());
                }
                let w = widen_from(kids, di, dr);
                self.replace(w, t.as_str());
                return self;
            }
        }
        self.set_description(entry, text);
        self
    }

    /// Set `entry`'s type annotation to `text`, or write one where the
    /// entry has none ([`type_edit`] gives the edit exactly): a present or
    /// placeholder type is replaced; with no type marker, one is written
    /// after the last name (`x (int)` / `x : int`), or, with no name
    /// either, in front of the entry.
    pub fn set_type(&mut self, entry: Entry<'_>, text: &str) -> (r: &mut Self)
        ensures
            r.anchor() == old(self).anchor(),
            r.pending().len() == old(self).pending().len() + 1,
            r.pending().drop_last() == old(self).pending(),
            edit_matches(
                r.pending().last(),
                type_edit(
                    old(self).anchor().src_bytes(),
                    entry.vnode(),
                    numpy_grammar(old(self).anchor().style_of()),
                    text.spec_bytes(),
                ),
            ),
            *final(self) == *final(r),
    {
        let parsed: &'a Parsed = self.parsed;
        let numpy = numpy_entry_grammar(parsed.style());
        let node = entry.syntax();
        let kids = node.children();
        let pi = first_token_index(kids, SyntaxKind::TYPE, false);
        if pi < kids.len() {
            let r = match &kids[pi] {
                SyntaxElement::Token(t) => t.range(),
                SyntaxElement::Node(_) => unreached(),
            };
            self.replace(r, text);
            return self;
        }
        let mi = first_token_index(kids, SyntaxKind::TYPE, true);
        if mi < kids.len() {
            let r = match &kids[mi] {
                SyntaxElement::Token(t) => t.range(),
                SyntaxElement::Node(_) => unreached(),
            };
            if numpy {
                let w = widen_from(kids, mi, r);
                let t = concat2(space_lit(), text);
                self.replace(w, t.as_str());
            } else {
                self.replace(r, text);
            }
            return self;
        }
        let names = node.tokens(SyntaxKind::NAME);
        if names.len() > 0 {
            let at = names[names.len() - 1].range().end();
            let t = if numpy {
                concat2(spaced_colon_lit(), text)
            } else {
                concat3(open_paren_lit(), text, close_paren_lit())
            };
            self.replace(TextRange::new(at, at), t.as_str());
            return self;
        }
        let at = entry.range().start();
        let t = if numpy {
            let di = first_node_index(kids, SyntaxKind::DESCRIPTION);
            let indent = continuation_indent(parsed, node, di);
            concat3(text, newline_lit(), indent.as_str())
        } else {
            concat2(text, colon_space_lit())
        };
        self.replace(TextRange::new(at, at), t.as_str());
        self
    }

    // ── Application ────────────────────────────────────────────────────

    /// Validate the edit list and splice it into a new source string.
    ///
    /// Edits are applied in position order (start, then end, then call
    /// order). Errors: [`EditError::OutOfBounds`] for the first edit (in
    /// call order) whose range is not a valid span of the source;
    /// otherwise [`EditError::Overlap`] for the first pair of
    /// position-consecutive edits that overlap.
    pub fn apply(&self) -> (r: Result<String, EditError>)
        ensures
            apply_post(
                self.anchor().src_bytes(),
                self.pending(),
                match r {
                    Ok(out) => Ok(out@),
                    Err(e) => Err(e),
                },
            ),
    {
        match self.first_invalid() {
            Some(i) => {
                return Err(EditError::OutOfBounds { range: self.edits[i].range });
            },
            None => {},
        }
        let order = self.position_order();
        let n = order.len();
        match self.first_overlap(&order) {
            Some(k) => {
                let ghost ord = order@.map_values(|x: usize| x as int);
                assert(ord.len() == order@.len());
                let a = self.edits[order[k]].range;
                let bb = self.edits[order[k + 1]].range;
                proof {
                    assert(ord[k as int] == order@[k as int] as int);
                    assert(ord[k + 1] == order@[k + 1] as int);
                }
                return Err(EditError::Overlap { a, b: bb });
            },
            None => {},
        }
        Ok(self.splice(&order))
    }

    /// [`apply`](Edits::apply) the edits, then re-parse the result with the
    /// parser of the same style as the original (the style is not
    /// re-detected). The spliced text must fit the parsers' limits.
    pub fn apply_reparsed(&self) -> (r: Result<Parsed, EditError>)
        requires
            forall|ord: Seq<int>|
                #[trigger] is_pos_order(ord, self.pending()) && disjoint_in(ord, self.pending()) && all_valid(
                    self.anchor().src_bytes(),
                    self.pending(),
                ) ==> fits(spliced(self.anchor().src_bytes(), self.pending(), ord)),
        ensures
            apply_post(
                self.anchor().src_bytes(),
                self.pending(),
                match r {
                    Ok(p) => Ok(p.text()),
                    Err(e) => Err(e),
                },
            ),
            r matches Ok(p) ==> {
                &&& p.style_of() == self.anchor().style_of()
                &&& p.root_node().nkind() == SyntaxKind::DOCUMENT
                &&& lo(p.root_node().nrange()) == 0
                &&& hi(p.root_node().nrange()) == p.src_bytes().len()
            },
    {
        let text = match self.apply() {
            Ok(t) => t,
            Err(e) => return Err(e),
        };
        let s = text.as_str();
        let p = match self.parsed.style() {
            Style::NumPy => crate::parse::numpy::parser::parse_numpy(s),
            Style::Google => crate::parse::google::parser::parse_google(s),
            Style::Plain => crate::parse::plain::parser::parse_plain(s),
        };
        Ok(p)
    }

    /// The first edit (in call order) whose range is not a valid span.
    fn first_invalid(&self) -> (r: Option<usize>)
        ensures
            ({
                let b = self.anchor().src_bytes();
                let es = self.pending();
                match r {
                    Some(i) => i < es.len() && es[i as int].0 == self.edits@[i as int].range && !range_valid(es[i as int].0, b)
                        && forall|j: int| 0 <= j < i ==> range_valid(#[trigger] es[j].0, b),
                    None => all_valid(b, es),
                }
            }),
    {
        let source = self.parsed.source();
        let ghost b = source.spec_bytes();
        let ghost es = self.pending();
        let n = self.edits.len();
        let mut i: usize = 0;
        proof {
            lemma_str_valid(source);
        }
        while i < n
            invariant
                n == self.edits@.len(),
                es == self.pending(),
                b == source.spec_bytes(),
                valid_utf8(b),
                b.len() < u32::MAX,
                b == self.anchor().src_bytes(),
                i <= n,
                forall|j: int| 0 <= j < i ==> range_valid(#[trigger] es[j].0, b),
            decreases n - i,
        {
            let range = self.edits[i].range;
            proof {
                assert(es[i as int].0 == range);
            }
            let start = range.start().to_usize();
            let end = range.end().to_usize();
            let len = source.len();
            let ok = start <= end && end <= len && source.is_char_boundary(start)
                && source.is_char_boundary(end);
            proof {
                assert(len == b.len());
                if ok {
                    assert(valid_span(b, start as int, end as int));
                }
            }
            if !ok {
                proof {
                    assert(!valid_span(b, start as int, end as int));
                    assert(lo(range) == start && hi(range) == end);
                    assert(!range_valid(es[i as int].0, b));
                }
                return Some(i);
            }
            i = i + 1;
        }
        None
    }

    /// The first position `k` where position-consecutive edits overlap.
    fn first_overlap(&self, order: &Vec<usize>) -> (r: Option<usize>)
        requires
            is_pos_order(order@.map_values(|x: usize| x as int), self.pending()),
        ensures
            ({
                let es = self.pending();
                let ord = order@.map_values(|x: usize| x as int);
                match r {
                    Some(k) => k + 1 < ord.len() && hi(es[ord[k as int]].0) > lo(es[ord[k + 1]].0) && forall|m: int|
                        0 <= m < k ==> hi(es[#[trigger] ord[m]].0) <= lo(es[ord[m + 1]].0),
                    None => disjoint_in(ord, es),
                }
            }),
    {
        let ghost es = self.pending();
        let ghost ord = order@.map_values(|x: usize| x as int);
        let n = order.len();
        if n == 0 {
            return None;
        }
        let mut k: usize = 0;
        while k < n - 1
            invariant
                n == self.edits@.len(),
                n == order@.len(),
                n > 0,
                k < n,
                es == self.pending(),
                ord == order@.map_values(|x: usize| x as int),
                is_pos_order(ord, es),
                forall|m: int| 0 <= m < k ==> hi(es[#[trigger] ord[m]].0) <= lo(es[ord[m + 1]].0),
            decreases n - k,
        {
            let ia = order[k];
            let ib = order[k + 1];
            proof {
                assert(ord[k as int] == ia && ord[k + 1] == ib);
                assert(es[ia as int].0 == self.edits@[ia as int].range);
                assert(es[ib as int].0 == self.edits@[ib as int].range);
            }
            let a = self.edits[ia].range;
            let bb = self.edits[ib].range;
            if a.end().raw() > bb.start().raw() {
                return Some(k);
            }
            k = k + 1;
        }
        None
    }

    /// Splice valid, disjoint edits in position order.
    fn splice(&self, order: &Vec<usize>) -> (out: String)
        requires
            all_valid(self.anchor().src_bytes(), self.pending()),
            is_pos_order(order@.map_values(|x: usize| x as int), self.pending()),
            disjoint_in(order@.map_values(|x: usize| x as int), self.pending()),
        ensures
            out@ == spliced(self.anchor().src_bytes(), self.pending(), order@.map_values(|x: usize| x as int)),
    {
        let source = self.parsed.source();
        let ghost b = source.spec_bytes();
        let ghost es = self.pending();
        let ghost ord = order@.map_values(|x: usize| x as int);
        let n = self.edits.len();
        proof {
            lemma_str_valid(source);
            crate::strs::lemma_boundary_at(b, 0);
            reveal(splice_ok);
        }
        let mut out = String::new();
        let mut pos: usize = 0;
        let mut k: usize = 0;
        while k < n
            invariant
                n == self.edits@.len(),
                n == order@.len(),
                es == self.pending(),
                b == source.spec_bytes(),
                ord == order@.map_values(|x: usize| x as int),
                splice_ok(b, es, ord),
                k <= n,
                pos <= b.len(),
                is_char_boundary(b, pos as int),
                k < n ==> pos <= lo(es[ord[k as int]].0),
                out@ + splice_from(b, es, ord, k as int, pos as int) == spliced(b, es, ord),
            decreases n - k,
        {
            let idx = order[k];
            proof {
                lemma_splice_ok_step(b, es, ord, k as int);
                assert(ord[k as int] == idx);
                assert(es[idx as int].0 == self.edits@[idx as int].range);
                assert(es[idx as int].1 == self.edits@[idx as int].text@);
            }
            let range = self.edits[idx].range;
            let start = range.start().to_usize();
            let end = range.end().to_usize();
            let piece = substr(source, pos, start);
            proof {
                encode_utf8_decode_utf8(piece@);
            }
            let ghost before = out@;
            out.append(piece);
            out.append(self.edits[idx].text.as_str());
            proof {
                lemma_splice_acc(b, es, ord, k as int, pos as int, before, out@);
            }
            pos = end;
            k = k + 1;
        }
        proof {
            lemma_str_valid(source);
            crate::strs::lemma_boundary_at(b, b.len() as int);
        }
        let rest = substr(source, pos, source.len());
        proof {
            encode_utf8_decode_utf8(rest@);
        }
        let ghost before = out@;
        out.append(rest);
        proof {
            lemma_splice_end(b, es, ord, pos as int);
            assert(out@ =~= before + splice_from(b, es, ord, k as int, pos as int));
        }
        out
    }

    /// The edit indices in position order.
    fn position_order(&self) -> (r: Vec<usize>)
        ensures
            is_pos_order(r@.map_values(|x: usize| x as int), self.pending()),
    {
        let ghost es = self.pending();
        let n = self.edits.len();
        let mut order: Vec<usize> = Vec::new();
        let mut i: usize = 0;
        while i < n
            invariant
                n == self.edits@.len(),
                es == self.pending(),
                i <= n,
                order@.len() == i,
                forall|k: int| 0 <= k < order@.len() ==> 0 <= #[trigger] order@[k] < i,
                forall|k: int, l: int|
                    0 <= k < l < order@.len() ==> pos_before(es, #[trigger] order@[k] as int, #[trigger] order@[l] as int),
            decreases n - i,
        {
            let s = self.edits[i].range.start().raw();
            let e = self.edits[i].range.end().raw();
            // Find the first position whose edit comes after edit i.
            let mut p: usize = 0;
            while p < order.len()
                invariant
                    n == self.edits@.len(),
                    es == self.pending(),
                    i < n,
                    order@.len() == i,
                    p <= order@.len(),
                    s == es[i as int].0@.0,
                    e == es[i as int].0@.1,
                    forall|k: int| 0 <= k < order@.len() ==> 0 <= #[trigger] order@[k] < i,
                    forall|k: int| 0 <= k < p ==> pos_before(es, #[trigger] order@[k] as int, i as int),
                ensures
                    p <= order@.len(),
                    forall|k: int| 0 <= k < p ==> pos_before(es, #[trigger] order@[k] as int, i as int),
                    p < order@.len() ==> pos_before(es, i as int, order@[p as int] as int),
                decreases order@.len() - p,
            {
                let j = order[p];
                proof {
                    assert(es[j as int].0 == self.edits@[j as int].range);
                    assert(es[i as int].0 == self.edits@[i as int].range);
                }
                let sj = self.edits[j].range.start().raw();
                let ej = self.edits[j].range.end().raw();
                if sj > s || (sj == s && ej > e) {
                    break;
                }
                p = p + 1;
            }
            proof {
                // Everything from p on comes after i.
                assert forall|k: int| p <= k < order@.len() implies pos_before(es, i as int, #[trigger] order@[k] as int) by {
                    if k > p {
                        assert(pos_before(es, order@[p as int] as int, order@[k] as int));
                    }
                }
            }
            let ghost old_order = order@;
            order.insert(p, i);
            proof {
                assert forall|k: int| 0 <= k < order@.len() implies 0 <= #[trigger] order@[k] < i + 1 by {
                    if k < p {
                        assert(order@[k] == old_order[k]);
                    } else if k > p {
                        assert(order@[k] == old_order[k - 1]);
                    }
                }
                assert forall|k: int, l: int| 0 <= k < l < order@.len() implies pos_before(es, #[trigger] order@[k] as int, #[trigger] order@[l] as int) by {
                    if k < p && l < p {
                        assert(order@[k] == old_order[k] && order@[l] == old_order[l]);
                    } else if k < p && l == p {
                        assert(order@[k] == old_order[k]);
                    } else if k < p && l > p {
                        assert(order@[k] == old_order[k] && order@[l] == old_order[l - 1]);
                    } else if k == p {
                        assert(order@[l] == old_order[l - 1]);
                    } else {
                        assert(order@[k] == old_order[k - 1] && order@[l] == old_order[l - 1]);
                    }
                }
            }
            i = i + 1;
        }
        proof {
            let ord = order@.map_values(|x: usize| x as int);
            assert forall|k: int, l: int| 0 <= k < l < ord.len() implies pos_before(es, #[trigger] ord[k], #[trigger] ord[l]) by {
                assert(pos_before(es, order@[k] as int, order@[l] as int));
            }
        }
        order
    }
}

} // verus!
