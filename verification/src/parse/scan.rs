//! Bracket-aware scanning of entry lines: top-level colons and commas,
//! matching brackets, and the `optional` / `default` markers of a type.
//!
//! Every scanner works on a byte window `[lo, hi)` of a source and reports
//! absolute offsets; the `&str` forms over a whole string are thin shells.

use vstd::prelude::*;
use vstd::string::StringSliceAdditionalSpecFns;
use vstd::utf8::encode_utf8;
use vstd::utf8::is_char_boundary;
use vstd::utf8::valid_utf8;

use crate::cursor::count_lines;
use crate::cursor::lemma_line_span;
use crate::cursor::lemma_line_span_boundary;
use crate::cursor::line_span;
use crate::cursor::LineCursor;
use crate::strs::lemma_ascii_boundary;
use crate::strs::lemma_encode_concat;
use crate::strs::slice_or_empty;
use crate::strs::lemma_boundary_at;
use crate::strs::lemma_skip_back_boundary;
use crate::strs::lemma_trim_boundary;
use crate::strs::lemma_skip_back_bounds;
use crate::strs::lemma_skip_fwd_bounds;
use crate::strs::lemma_str_valid;
use crate::strs::lemma_trim_bounds;
use crate::strs::skip_ws_back;
use crate::strs::skip_ws_backward;
use crate::strs::skip_ws_forward;
use crate::strs::skip_ws_fwd;
use crate::strs::substr;
use crate::strs::trim_hi;
use crate::strs::trim_lo;
use crate::strs::trim_window;
use crate::strs::valid_span;

verus! {

// =============================================================================
// Bracket depth
// =============================================================================

/// `(`, `[`, `{` or `<`.
pub open spec fn is_open(c: u8) -> bool {
    c == 40u8 || c == 91u8 || c == 123u8 || c == 60u8
}

/// `)`, `]`, `}` or `>`.
pub open spec fn is_close(c: u8) -> bool {
    c == 41u8 || c == 93u8 || c == 125u8 || c == 62u8
}

/// Bracket depth before byte `i`, counting from `lo`: each opening bracket
/// adds one, each closing bracket removes one (never below zero).
pub open spec fn depth_at(b: Seq<u8>, lo: int, i: int) -> int
    decreases i - lo,
{
    if i <= lo {
        0
    } else {
        let d = depth_at(b, lo, i - 1);
        let c = b[i - 1];
        if is_open(c) {
            d + 1
        } else if is_close(c) {
            if d > 0 {
                d - 1
            } else {
                0
            }
        } else {
            d
        }
    }
}

/// Bracket depth ignoring parentheses: only `[`, `{`, `<` and their
/// closers count.
pub open spec fn depth_np_at(b: Seq<u8>, lo: int, i: int) -> int
    decreases i - lo,
{
    if i <= lo {
        0
    } else {
        let d = depth_np_at(b, lo, i - 1);
        let c = b[i - 1];
        if c == 91u8 || c == 123u8 || c == 60u8 {
            d + 1
        } else if c == 93u8 || c == 125u8 || c == 62u8 {
            if d > 0 {
                d - 1
            } else {
                0
            }
        } else {
            d
        }
    }
}

pub proof fn lemma_depth_bound(b: Seq<u8>, lo: int, i: int)
    ensures
        0 <= depth_at(b, lo, i) <= if i > lo {
            i - lo
        } else {
            0
        },
        0 <= depth_np_at(b, lo, i) <= if i > lo {
            i - lo
        } else {
            0
        },
    decreases i - lo,
{
    if i > lo {
        lemma_depth_bound(b, lo, i - 1);
    }
}

/// A top-level `:` at `j`.
pub open spec fn top_colon(b: Seq<u8>, lo: int, j: int) -> bool {
    b[j] == 58u8 && depth_at(b, lo, j) == 0
}

/// A top-level `,` at `j`.
pub open spec fn top_comma(b: Seq<u8>, lo: int, j: int) -> bool {
    b[j] == 44u8 && depth_at(b, lo, j) == 0
}

/// `r` is the first position in `[from, hi)` satisfying `p`, or `None`
/// when there is none.
pub open spec fn first_in(r: Option<usize>, from: int, hi: int, p: spec_fn(int) -> bool) -> bool {
    match r {
        Some(i) => from <= i < hi && p(i as int) && forall|j: int| from <= j < i ==> !#[trigger] p(j),
        None => forall|j: int| from <= j < hi ==> !#[trigger] p(j),
    }
}

/// The first top-level colon of the window `[lo, hi)` (colons inside
/// balanced brackets are skipped).
pub fn find_entry_colon_in(b: &[u8], lo: usize, hi: usize) -> (r: Option<usize>)
    requires
        lo <= hi <= b@.len(),
    ensures
        first_in(r, lo as int, hi as int, |j: int| top_colon(b@, lo as int, j)),
{
    let mut depth: usize = 0;
    let mut i = lo;
    while i < hi
        invariant
            lo <= i <= hi <= b@.len(),
            depth == depth_at(b@, lo as int, i as int),
            forall|j: int| lo <= j < i ==> !#[trigger] top_colon(b@, lo as int, j),
        decreases hi - i,
    {
        proof {
            lemma_depth_bound(b@, lo as int, i as int);
        }
        let c = b[i];
        if c == 58u8 && depth == 0 {
            return Some(i);
        }
        if c == 40u8 || c == 91u8 || c == 123u8 || c == 60u8 {
            depth = depth + 1;
        } else if c == 41u8 || c == 93u8 || c == 125u8 || c == 62u8 {
            if depth > 0 {
                depth = depth - 1;
            }
        }
        i = i + 1;
    }
    None
}

/// The first `:` in `[from, hi)` outside `[]`, `{}` and `<>` (parentheses
/// are not tracked), with depth counted from `from`.
pub fn find_colon_ignoring_parens_in(b: &[u8], from: usize, hi: usize) -> (r: Option<usize>)
    requires
        from <= hi <= b@.len(),
    ensures
        first_in(r, from as int, hi as int, |j: int| b@[j] == 58u8 && depth_np_at(b@, from as int, j) == 0),
{
    let mut depth: usize = 0;
    let mut i = from;
    while i < hi
        invariant
            from <= i <= hi <= b@.len(),
            depth == depth_np_at(b@, from as int, i as int),
            forall|j: int|
                from <= j < i ==> !(#[trigger] b@[j] == 58u8 && depth_np_at(b@, from as int, j) == 0),
        decreases hi - i,
    {
        proof {
            lemma_depth_bound(b@, from as int, i as int);
        }
        let c = b[i];
        if c == 58u8 && depth == 0 {
            return Some(i);
        }
        if c == 91u8 || c == 123u8 || c == 60u8 {
            depth = depth + 1;
        } else if c == 93u8 || c == 125u8 || c == 62u8 {
            if depth > 0 {
                depth = depth - 1;
            }
        }
        i = i + 1;
    }
    None
}

/// The top-level commas of `[lo, hi)`, in order.
pub open spec fn top_commas(b: Seq<u8>, lo: int, hi: int) -> Seq<int>
    decreases hi - lo,
{
    if hi <= lo {
        Seq::empty()
    } else if top_comma(b, lo, hi - 1) {
        top_commas(b, lo, hi - 1).push(hi - 1)
    } else {
        top_commas(b, lo, hi - 1)
    }
}

pub proof fn lemma_top_commas(b: Seq<u8>, lo: int, hi: int)
    ensures
        forall|k: int|
            0 <= k < top_commas(b, lo, hi).len() ==> lo <= #[trigger] top_commas(b, lo, hi)[k] < hi
                && top_comma(b, lo, top_commas(b, lo, hi)[k]),
        forall|k: int, l: int|
            0 <= k < l < top_commas(b, lo, hi).len() ==> top_commas(b, lo, hi)[k] < top_commas(b, lo, hi)[l],
    decreases hi - lo,
{
    if hi > lo {
        lemma_top_commas(b, lo, hi - 1);
        let p = top_commas(b, lo, hi - 1);
        if top_comma(b, lo, hi - 1) {
            assert(top_commas(b, lo, hi) == p.push(hi - 1));
        } else {
            assert(top_commas(b, lo, hi) == p);
        }
    }
}

/// The segments of `[lo, hi)` between top-level commas: starts and ends.
pub open spec fn comma_part(b: Seq<u8>, lo: int, hi: int, k: int) -> (int, int) {
    let c = top_commas(b, lo, hi);
    (if k == 0 {
        lo
    } else {
        c[k - 1] + 1
    }, if k < c.len() {
        c[k]
    } else {
        hi
    })
}

/// Split the window `[lo, hi)` at its top-level commas into
/// `(start, end)` segment spans.
pub fn split_comma_spans(b: &[u8], lo: usize, hi: usize) -> (r: Vec<(usize, usize)>)
    requires
        lo <= hi <= b@.len(),
    ensures
        r@.len() == top_commas(b@, lo as int, hi as int).len() + 1,
        forall|k: int|
            0 <= k < r@.len() ==> (#[trigger] r@[k]).0 == comma_part(b@, lo as int, hi as int, k).0
                && r@[k].1 == comma_part(b@, lo as int, hi as int, k).1,
{
    let mut parts: Vec<(usize, usize)> = Vec::new();
    let mut depth: usize = 0;
    let mut start = lo;
    let mut i = lo;
    while i < hi
        invariant
            lo <= start <= i <= hi <= b@.len(),
            depth == depth_at(b@, lo as int, i as int),
            parts@.len() == top_commas(b@, lo as int, i as int).len(),
            start == (if parts@.len() == 0 {
                lo as int
            } else {
                top_commas(b@, lo as int, i as int).last() + 1
            }),
            forall|k: int|
                0 <= k < parts@.len() ==> (#[trigger] parts@[k]).0 == comma_part(b@, lo as int, i as int, k).0
                    && parts@[k].1 == comma_part(b@, lo as int, i as int, k).1,
        decreases hi - i,
    {
        proof {
            lemma_depth_bound(b@, lo as int, i as int);
            lemma_top_commas(b@, lo as int, i as int);
        }
        let c = b[i];
        let ghost prev = top_commas(b@, lo as int, i as int);
        if c == 44u8 && depth == 0 {
            parts.push((start, i));
            start = i + 1;
            proof {
                let now = top_commas(b@, lo as int, i + 1);
                assert(now == prev.push(i as int));
                assert forall|k: int| 0 <= k < parts@.len() implies (#[trigger] parts@[k]).0 == comma_part(
                    b@,
                    lo as int,
                    i + 1,
                    k,
                ).0 && parts@[k].1 == comma_part(b@, lo as int, i + 1, k).1 by {
                    if k < parts@.len() - 1 {
                        assert(now[k] == prev[k]);
                        if k > 0 {
                            assert(now[k - 1] == prev[k - 1]);
                        }
                    } else if k > 0 {
                        assert(now[k - 1] == prev[k - 1]);
                    }
                }
            }
        } else {
            proof {
                let now = top_commas(b@, lo as int, i + 1);
                assert(now == prev);
            }
        }
        if c == 40u8 || c == 91u8 || c == 123u8 || c == 60u8 {
            depth = depth + 1;
        } else if c == 41u8 || c == 93u8 || c == 125u8 || c == 62u8 {
            if depth > 0 {
                depth = depth - 1;
            }
        }
        i = i + 1;
    }
    parts.push((start, hi));
    proof {
        let c = top_commas(b@, lo as int, hi as int);
        assert forall|k: int| 0 <= k < parts@.len() implies (#[trigger] parts@[k]).0 == comma_part(
            b@,
            lo as int,
            hi as int,
            k,
        ).0 && parts@[k].1 == comma_part(b@, lo as int, hi as int, k).1 by {
            if k == parts@.len() - 1 && k > 0 {
                assert(c.last() == c[k - 1]);
            }
        }
    }
    parts
}

// =============================================================================
// Matching brackets
// =============================================================================

/// The closing counterpart of an opening bracket.
pub open spec fn closer_of(c: u8) -> u8 {
    if c == 40u8 {
        41u8
    } else if c == 91u8 {
        93u8
    } else if c == 123u8 {
        125u8
    } else {
        62u8
    }
}

/// Nesting of the bracket kind `open` after `[from, i)`, starting at 1.
pub open spec fn same_depth(b: Seq<u8>, open: u8, from: int, i: int) -> int
    decreases i - from,
{
    if i <= from {
        1
    } else {
        let d = same_depth(b, open, from, i - 1);
        if b[i - 1] == open {
            d + 1
        } else if b[i - 1] == closer_of(open) {
            d - 1
        } else {
            d
        }
    }
}

pub proof fn lemma_same_depth_bound(b: Seq<u8>, open: u8, from: int, i: int)
    requires
        from <= i,
    ensures
        same_depth(b, open, from, i) <= 1 + i - from,
    decreases i - from,
{
    if i > from {
        lemma_same_depth_bound(b, open, from, i - 1);
    }
}

/// The matching closing bracket of the opening bracket at `open_pos` within
/// `[open_pos, hi)`: only the same bracket kind nests.
pub fn find_matching_close_in(b: &[u8], open_pos: usize, hi: usize) -> (r: Option<usize>)
    requires
        open_pos < hi <= b@.len(),
    ensures
        !is_open(b@[open_pos as int]) ==> r is None,
        is_open(b@[open_pos as int]) ==> first_in(
            r,
            open_pos + 1,
            hi as int,
            |j: int| b@[j] == closer_of(b@[open_pos as int]) && same_depth(b@, b@[open_pos as int], open_pos + 1, j) == 1,
        ),
{
    let open = b[open_pos];
    let close = if open == 40u8 {
        41u8
    } else if open == 91u8 {
        93u8
    } else if open == 123u8 {
        125u8
    } else if open == 60u8 {
        62u8
    } else {
        return None;
    };
    let mut depth: usize = 1;
    let mut i = open_pos + 1;
    while i < hi
        invariant
            open_pos < i <= hi <= b@.len(),
            open == b@[open_pos as int],
            is_open(open),
            close == closer_of(open),
            depth >= 1,
            depth == same_depth(b@, open, open_pos + 1, i as int),
            forall|j: int|
                open_pos + 1 <= j < i ==> !(#[trigger] b@[j] == close && same_depth(b@, open, open_pos + 1, j)
                    == 1),
        decreases hi - i,
    {
        proof {
            lemma_same_depth_bound(b@, open, open_pos + 1, i as int);
        }
        let c = b[i];
        if c == open {
            depth = depth + 1;
        } else if c == close {
            if depth == 1 {
                return Some(i);
            }
            depth = depth - 1;
        }
        i = i + 1;
    }
    None
}

/// Find the matching closing bracket for an opening bracket at `open_pos`
/// (only the *same* bracket kind nests); `None` if unmatched or if the byte
/// at `open_pos` is not an opening bracket.
pub fn find_matching_close(s: &str, open_pos: usize) -> (r: Option<usize>)
    requires
        open_pos < s.spec_bytes().len(),
    ensures
        !is_open(s.spec_bytes()[open_pos as int]) ==> r is None,
        is_open(s.spec_bytes()[open_pos as int]) ==> first_in(
            r,
            open_pos + 1,
            s.spec_bytes().len() as int,
            |j: int|
                s.spec_bytes()[j] == closer_of(s.spec_bytes()[open_pos as int]) && same_depth(
                    s.spec_bytes(),
                    s.spec_bytes()[open_pos as int],
                    open_pos + 1,
                    j,
                ) == 1,
        ),
{
    let b = s.as_bytes();
    find_matching_close_in(b, open_pos, b.len())
}

/// Find the byte offset of the first entry-separating colon in `text`,
/// skipping colons inside balanced brackets.
pub fn find_entry_colon(text: &str) -> (r: Option<usize>)
    ensures
        first_in(r, 0, text.spec_bytes().len() as int, |j: int| top_colon(text.spec_bytes(), 0, j)),
{
    let b = text.as_bytes();
    find_entry_colon_in(b, 0, b.len())
}

/// The term colon of an entry line: its first top-level colon.
pub fn find_term_colon(text: &str) -> (r: Option<usize>)
    ensures
        first_in(r, 0, text.spec_bytes().len() as int, |j: int| top_colon(text.spec_bytes(), 0, j)),
{
    find_entry_colon(text)
}

/// The first `:` at or after `start` that is not inside `[]`, `{}` or `<>`
/// (parentheses are not tracked); an absolute offset.
pub fn find_colon_ignoring_parens(text: &str, start: usize) -> (r: Option<usize>)
    requires
        start <= text.spec_bytes().len(),
    ensures
        first_in(
            r,
            start as int,
            text.spec_bytes().len() as int,
            |j: int| text.spec_bytes()[j] == 58u8 && depth_np_at(text.spec_bytes(), start as int, j) == 0,
        ),
{
    let b = text.as_bytes();
    find_colon_ignoring_parens_in(b, start, b.len())
}

/// The first opening bracket after at least one byte of `[lo, hi)`.
pub fn first_open_bracket_in(b: &[u8], lo: usize, hi: usize) -> (r: Option<usize>)
    requires
        lo <= hi <= b@.len(),
    ensures
        r matches Some(p) ==> is_first_open(b@, lo as int, hi as int, p as int),
        r is None ==> forall|j: int| lo + 1 <= j < hi ==> !is_open(#[trigger] b@[j]),
{
    if lo >= hi {
        return None;
    }
    let mut i = lo + 1;
    while i < hi
        invariant
            lo + 1 <= i <= hi <= b@.len(),
            forall|j: int| lo + 1 <= j < i ==> !is_open(#[trigger] b@[j]),
        decreases hi - i,
    {
        let c = b[i];
        if c == 40u8 || c == 91u8 || c == 123u8 || c == 60u8 {
            return Some(i);
        }
        i = i + 1;
    }
    None
}

/// `p` is the first opening bracket of `[lo, hi)` after its first byte.
pub open spec fn is_first_open(b: Seq<u8>, lo: int, hi: int, p: int) -> bool {
    lo + 1 <= p < hi && is_open(b[p]) && forall|j: int| lo + 1 <= j < p ==> !is_open(#[trigger] b[j])
}

/// No top-level colon of the window starting at `lo` precedes `p`.
pub open spec fn no_colon_before(b: Seq<u8>, lo: int, p: int) -> bool {
    forall|j: int| lo <= j < p ==> !#[trigger] top_colon(b, lo, j)
}

/// An entry's opening bracket in `[lo, hi)`: the first opening bracket
/// after at least one byte, provided no top-level colon comes before it.
pub open spec fn entry_open_bracket(b: Seq<u8>, lo: int, hi: int, r: Option<usize>) -> bool {
    &&& (forall|j: int| lo + 1 <= j < hi ==> !is_open(#[trigger] b[j])) ==> r is None
    &&& forall|p: int| #[trigger]
        is_first_open(b, lo, hi, p) ==> r == (if no_colon_before(b, lo, p) {
            Some(p as usize)
        } else {
            None
        })
    &&& (r matches Some(p) ==> is_first_open(b, lo, hi, p as int) && no_colon_before(b, lo, p as int))
}

/// Window form of [`find_entry_open_bracket`].
pub fn find_entry_open_bracket_in(b: &[u8], lo: usize, hi: usize) -> (r: Option<usize>)
    requires
        lo <= hi <= b@.len(),
    ensures
        entry_open_bracket(b@, lo as int, hi as int, r),
{
    let p = match first_open_bracket_in(b, lo, hi) {
        Some(p) => p,
        None => return None,
    };
    proof {
        assert(is_first_open(b@, lo as int, hi as int, p as int));
        assert forall|q: int| #[trigger] is_first_open(b@, lo as int, hi as int, q) implies q == p by {
            if q < p {
                assert(!is_open(b@[q]));
            } else if q > p {
                assert(!is_open(b@[p as int]));
            }
        }
    }
    match find_entry_colon_in(b, lo, hi) {
        Some(c) => {
            if c < p {
                proof {
                    assert(top_colon(b@, lo as int, c as int));
                    assert(!no_colon_before(b@, lo as int, p as int));
                }
                return None;
            }
            proof {
                assert forall|j: int| lo <= j < p implies !#[trigger] top_colon(b@, lo as int, j) by {
                    let f = |j: int| top_colon(b@, lo as int, j);
                    assert(!f(j));
                }
            }
        },
        None => {
            proof {
                assert forall|j: int| lo <= j < p implies !#[trigger] top_colon(b@, lo as int, j) by {
                    let f = |j: int| top_colon(b@, lo as int, j);
                    assert(!f(j));
                }
            }
        },
    }
    Some(p)
}

/// Try to find an opening bracket for a bracket-style entry: a `(`, `[`,
/// `{`, or `<` after at least one character, before any top-level colon.
pub fn find_entry_open_bracket(text: &str) -> (r: Option<usize>)
    ensures
        entry_open_bracket(text.spec_bytes(), 0, text.spec_bytes().len() as int, r),
{
    let b = text.as_bytes();
    find_entry_open_bracket_in(b, 0, b.len())
}


// =============================================================================
// Literal comparison
// =============================================================================

/// Whether the window `b[lo..hi)` holds exactly the bytes `lit`.
pub fn window_eq(b: &[u8], lo: usize, hi: usize, lit: &[u8]) -> (r: bool)
    requires
        lo <= hi <= b@.len(),
    ensures
        r == (b@.subrange(lo as int, hi as int) == lit@),
{
    if hi - lo != lit.len() {
        proof {
            if b@.subrange(lo as int, hi as int) == lit@ {
                assert(b@.subrange(lo as int, hi as int).len() == lit@.len());
            }
        }
        return false;
    }
    let mut i: usize = 0;
    while i < lit.len()
        invariant
            lit@.len() == hi - lo,
            lo <= hi <= b@.len(),
            i <= lit@.len(),
            forall|k: int| 0 <= k < i ==> b@[lo + k] == lit@[k],
        decreases lit@.len() - i,
    {
        if b[lo + i] != lit[i] {
            proof {
                assert(b@.subrange(lo as int, hi as int)[i as int] != lit@[i as int]);
            }
            return false;
        }
        i = i + 1;
    }
    assert(b@.subrange(lo as int, hi as int) =~= lit@);
    true
}

/// Whether the window `b[lo..hi)` starts with the bytes `lit`.
pub fn window_starts_with(b: &[u8], lo: usize, hi: usize, lit: &[u8]) -> (r: bool)
    requires
        lo <= hi <= b@.len(),
    ensures
        r == (lit@.len() <= hi - lo && b@.subrange(lo as int, lo + lit@.len()) == lit@),
{
    if lit.len() > hi - lo {
        return false;
    }
    window_eq(b, lo, lo + lit.len(), lit)
}

// =============================================================================
// Type markers: `optional` and `default …`
// =============================================================================

/// The word `optional`.
pub open spec fn optional_word() -> Seq<u8> {
    "optional".spec_bytes()
}

/// The word `default`.
pub open spec fn default_word() -> Seq<u8> {
    "default".spec_bytes()
}

/// What may follow the word `default` in a marker: a space, a tab, `=` or
/// `:`.
pub open spec fn default_follow(c: u8) -> bool {
    c == 32u8 || c == 9u8 || c == 61u8 || c == 58u8
}

/// One marker occurrence inside a type annotation, as absolute offsets.
///
/// An `optional` marker spans `[start, end)` with `keyword_end == end`; a
/// `default` marker spans `[start, end)` with the keyword `[start,
/// keyword_end)`, an optional `=` / `:` separator byte, and the value
/// `[value_start, end)` (empty when no value is written).
#[derive(Debug, Clone, Copy, PartialEq, Eq, Structural)]
pub struct Marker {
    pub is_default: bool,
    pub start: usize,
    pub end: usize,
    pub keyword_end: usize,
    pub separator: Option<usize>,
    pub value_start: usize,
}

/// The marker written in the trimmed comma segment `[s, e)`, if any;
/// `default` markers count only when `with_default` is set.
pub open spec fn seg_marker(b: Seq<u8>, s: int, e: int, with_default: bool) -> Option<Marker> {
    let k = s + default_word().len();
    if b.subrange(s, e) == optional_word() {
        Some(
            Marker {
                is_default: false,
                start: s as usize,
                end: e as usize,
                keyword_end: e as usize,
                separator: None,
                value_start: e as usize,
            },
        )
    } else if with_default && k <= e && b.subrange(s, k) == default_word() && (k == e || default_follow(b[k])) {
        let p = skip_ws_fwd(b, k, e);
        let has_sep = p < e && (b[p] == 61u8 || b[p] == 58u8);
        Some(
            Marker {
                is_default: true,
                start: s as usize,
                end: e as usize,
                keyword_end: k as usize,
                separator: if has_sep {
                    Some(p as usize)
                } else {
                    None
                },
                value_start: (if has_sep {
                    skip_ws_fwd(b, p + 1, e)
                } else {
                    p
                }) as usize,
            },
        )
    } else {
        None
    }
}

/// The trimmed bounds of comma segment `k` of `[lo, hi)`.
pub open spec fn seg_trim(b: Seq<u8>, lo: int, hi: int, k: int) -> (int, int) {
    let (ps, pe) = comma_part(b, lo, hi, k);
    (trim_lo(b, ps, pe), trim_hi(b, ps, pe))
}

/// The marker of comma segment `k` of `[lo, hi)`.
pub open spec fn part_marker(b: Seq<u8>, lo: int, hi: int, k: int, with_default: bool) -> Option<Marker> {
    seg_marker(b, seg_trim(b, lo, hi, k).0, seg_trim(b, lo, hi, k).1, with_default)
}

/// The markers of the first `n` comma segments of `[lo, hi)`, in order.
pub open spec fn markers_upto(b: Seq<u8>, lo: int, hi: int, n: int, with_default: bool) -> Seq<Marker>
    decreases n,
{
    if n <= 0 {
        Seq::empty()
    } else {
        let prev = markers_upto(b, lo, hi, n - 1, with_default);
        match part_marker(b, lo, hi, n - 1, with_default) {
            Some(m) => prev.push(m),
            None => prev,
        }
    }
}

/// The end of the type text among the first `n` segments: the trimmed end
/// of the last non-blank segment that is not a marker (`lo` if none).
pub open spec fn type_end_upto(b: Seq<u8>, lo: int, hi: int, n: int, with_default: bool) -> int
    decreases n,
{
    if n <= 0 {
        lo
    } else {
        let t = seg_trim(b, lo, hi, n - 1);
        if t.0 < t.1 && part_marker(b, lo, hi, n - 1, with_default) is None {
            t.1
        } else {
            type_end_upto(b, lo, hi, n - 1, with_default)
        }
    }
}

/// Number of comma segments of `[lo, hi)`.
pub open spec fn seg_count(b: Seq<u8>, lo: int, hi: int) -> int {
    top_commas(b, lo, hi).len() + 1int
}

/// `e` with trailing commas, then trailing whitespace, dropped (down to
/// `lo`).
pub open spec fn strip_commas(b: Seq<u8>, lo: int, e: int) -> int
    decreases e - lo,
{
    if e > lo && b[e - 1] == 44u8 {
        strip_commas(b, lo, e - 1)
    } else {
        e
    }
}

/// End of the clean type of `[lo, hi)`: the whole window when there is no
/// marker; otherwise the type text's end with trailing commas and
/// whitespace dropped.
pub open spec fn clean_type_end(b: Seq<u8>, lo: int, hi: int, with_default: bool) -> int {
    if markers_upto(b, lo, hi, seg_count(b, lo, hi), with_default).len() == 0 {
        hi
    } else {
        skip_ws_back(b, lo, strip_commas(b, lo, type_end_upto(b, lo, hi, seg_count(b, lo, hi), with_default)))
    }
}

/// The markers found by [`scan_markers_in`], the end of the clean type, and
/// the top-level separator commas after the clean type.
pub struct TypeScan {
    pub clean_end: usize,
    pub commas: Vec<usize>,
    pub markers: Vec<Marker>,
}

pub proof fn lemma_type_end_bounds(b: Seq<u8>, lo: int, hi: int, n: int, with_default: bool)
    requires
        lo <= hi <= b.len(),
        n <= seg_count(b, lo, hi),
    ensures
        lo <= type_end_upto(b, lo, hi, n, with_default) <= hi,
    decreases n,
{
    if n > 0 {
        lemma_type_end_bounds(b, lo, hi, n - 1, with_default);
        lemma_comma_part_bounds(b, lo, hi, n - 1);
        let (ps, pe) = comma_part(b, lo, hi, n - 1);
        lemma_trim_bounds(b, ps, pe);
    }
}

pub proof fn lemma_comma_part_bounds(b: Seq<u8>, lo: int, hi: int, k: int)
    requires
        lo <= hi <= b.len(),
        0 <= k < seg_count(b, lo, hi),
    ensures
        lo <= comma_part(b, lo, hi, k).0 <= comma_part(b, lo, hi, k).1 <= hi,
{
    lemma_top_commas(b, lo, hi);
    let c = top_commas(b, lo, hi);
    if k > 0 && k < c.len() {
        assert(c[k - 1] < c[k]);
    }
}

pub proof fn lemma_strip_commas_bounds(b: Seq<u8>, lo: int, e: int)
    requires
        lo <= e,
    ensures
        lo <= strip_commas(b, lo, e) <= e,
    decreases e - lo,
{
    if e > lo && b[e - 1] == 44u8 {
        lemma_strip_commas_bounds(b, lo, e - 1);
    }
}

/// Classify the trimmed segment `[s, e)`: its marker, if any.
fn classify_segment(b: &[u8], s: usize, e: usize, with_default: bool) -> (r: Option<Marker>)
    requires
        s <= e <= b@.len(),
    ensures
        r == seg_marker(b@, s as int, e as int, with_default),
{
    let opt = "optional".as_bytes();
    let dft = "default".as_bytes();
    if window_eq(b, s, e, opt) {
        return Some(Marker { is_default: false, start: s, end: e, keyword_end: e, separator: None, value_start: e });
    }
    if !with_default || !window_starts_with(b, s, e, dft) {
        return None;
    }
    let k = s + dft.len();
    if k < e {
        let c = b[k];
        if !(c == 32u8 || c == 9u8 || c == 61u8 || c == 58u8) {
            return None;
        }
    }
    let p = skip_ws_forward(b, k, e);
    if p < e && (b[p] == 61u8 || b[p] == 58u8) {
        let v = skip_ws_forward(b, p + 1, e);
        Some(Marker { is_default: true, start: s, end: e, keyword_end: k, separator: Some(p), value_start: v })
    } else {
        Some(Marker { is_default: true, start: s, end: e, keyword_end: k, separator: None, value_start: p })
    }
}

/// Scan the type text `[lo, hi)` for `optional` (and, with `with_default`,
/// `default …`) markers among its top-level comma segments.
pub fn scan_markers_in(b: &[u8], lo: usize, hi: usize, with_default: bool) -> (r: TypeScan)
    requires
        lo <= hi <= b@.len(),
    ensures
        r.markers@ == markers_upto(b@, lo as int, hi as int, seg_count(b@, lo as int, hi as int), with_default),
        r.clean_end == clean_type_end(b@, lo as int, hi as int, with_default),
        lo <= r.clean_end <= hi,
        r.markers@.len() == 0 ==> r.commas@.len() == 0,
        forall|i: int| 0 <= i < r.commas@.len() ==> top_comma(b@, lo as int, #[trigger] r.commas@[i] as int)
            && lo <= r.commas@[i] < hi && r.commas@[i] >= r.clean_end,
        forall|i: int, j: int| 0 <= i < j < r.commas@.len() ==> r.commas@[i] < r.commas@[j],
        r.markers@.len() > 0 ==> forall|p: int|
            lo <= p < hi && p >= r.clean_end && #[trigger] top_comma(b@, lo as int, p) ==> r.commas@.contains(
                p as usize,
            ),
{
    let parts = split_comma_spans(b, lo, hi);
    let ghost n = seg_count(b@, lo as int, hi as int);
    let mut markers: Vec<Marker> = Vec::new();
    let mut type_end = lo;
    let mut i: usize = 0;
    while i < parts.len()
        invariant
            lo <= hi <= b@.len(),
            parts@.len() == n,
            n == seg_count(b@, lo as int, hi as int),
            forall|k: int|
                0 <= k < parts@.len() ==> (#[trigger] parts@[k]).0 == comma_part(b@, lo as int, hi as int, k).0
                    && parts@[k].1 == comma_part(b@, lo as int, hi as int, k).1,
            i <= parts@.len(),
            markers@ == markers_upto(b@, lo as int, hi as int, i as int, with_default),
            type_end == type_end_upto(b@, lo as int, hi as int, i as int, with_default),
            lo <= type_end <= hi,
        decreases parts@.len() - i,
    {
        let (ps, pe) = parts[i];
        proof {
            lemma_comma_part_bounds(b@, lo as int, hi as int, i as int);
        }
        let (ts, te) = trim_window(b, ps, pe);
        let m = classify_segment(b, ts, te, with_default);
        match m {
            Some(mk) => {
                markers.push(mk);
            },
            None => {
                if ts < te {
                    type_end = te;
                }
            },
        }
        i = i + 1;
    }
    let mut commas: Vec<usize> = Vec::new();
    if markers.len() == 0 {
        return TypeScan { clean_end: hi, commas, markers };
    }
    // Trailing commas, then trailing whitespace, are not part of the type.
    let mut e = type_end;
    while e > lo && b[e - 1] == 44u8
        invariant
            lo <= e <= type_end <= hi <= b@.len(),
            strip_commas(b@, lo as int, e as int) == strip_commas(b@, lo as int, type_end as int),
        decreases e,
    {
        e = e - 1;
    }
    let clean_end = skip_ws_backward(b, lo, e);
    proof {
        lemma_top_commas(b@, lo as int, hi as int);
    }
    let mut k: usize = 0;
    let last = parts.len() - 1;
    while k < last
        invariant
            lo <= clean_end <= hi <= b@.len(),
            parts@.len() == n,
            last == n - 1,
            n == seg_count(b@, lo as int, hi as int),
            forall|j: int|
                0 <= j < parts@.len() ==> (#[trigger] parts@[j]).0 == comma_part(b@, lo as int, hi as int, j).0
                    && parts@[j].1 == comma_part(b@, lo as int, hi as int, j).1,
            forall|j: int|
                0 <= j < top_commas(b@, lo as int, hi as int).len() ==> lo <= #[trigger] top_commas(
                    b@,
                    lo as int,
                    hi as int,
                )[j] < hi && top_comma(b@, lo as int, top_commas(b@, lo as int, hi as int)[j]),
            forall|j: int, l: int|
                0 <= j < l < top_commas(b@, lo as int, hi as int).len() ==> top_commas(b@, lo as int, hi as int)[j]
                    < top_commas(b@, lo as int, hi as int)[l],
            k <= last,
            forall|i: int| 0 <= i < commas@.len() ==> top_comma(b@, lo as int, #[trigger] commas@[i] as int)
                && lo <= commas@[i] < hi && commas@[i] >= clean_end,
            forall|i: int|
                #![trigger commas@[i]]
                0 <= i < commas@.len() ==> exists|j: int|
                    0 <= j < k && #[trigger] top_commas(b@, lo as int, hi as int)[j] == commas@[i] as int,
            forall|i: int, j: int| 0 <= i < j < commas@.len() ==> commas@[i] < commas@[j],
            forall|j: int|
                0 <= j < k && #[trigger] top_commas(b@, lo as int, hi as int)[j] >= clean_end ==> commas@.contains(
                    top_commas(b@, lo as int, hi as int)[j] as usize,
                ),
        decreases last - k,
    {
        let c = parts[k].1;
        let ghost tc = top_commas(b@, lo as int, hi as int);
        let ghost old_commas = commas@;
        proof {
            assert(c == tc[k as int]);
        }
        if c >= clean_end {
            commas.push(c);
            proof {
                assert forall|i: int| 0 <= i < old_commas.len() implies old_commas[i] < c by {
                    let j = choose|j: int| 0 <= j < k && #[trigger] tc[j] == old_commas[i] as int;
                    assert(tc[j] < tc[k as int]);
                }
                assert forall|i: int|
                    #![trigger commas@[i]]
                    0 <= i < commas@.len() implies exists|j: int|
                        0 <= j < k + 1 && #[trigger] tc[j] == commas@[i] as int by {
                    if i < old_commas.len() {
                        let j = choose|j: int| 0 <= j < k && #[trigger] tc[j] == old_commas[i] as int;
                        assert(tc[j] == commas@[i] as int);
                    } else {
                        assert(tc[k as int] == commas@[i] as int);
                    }
                }
                assert forall|j: int| 0 <= j < k + 1 && #[trigger] tc[j] >= clean_end implies commas@.contains(
                    tc[j] as usize,
                ) by {
                    if j < k {
                        assert(old_commas.contains(tc[j] as usize));
                        let i = choose|i: int| 0 <= i < old_commas.len() && old_commas[i] == tc[j] as usize;
                        assert(commas@[i] == tc[j] as usize);
                    } else {
                        assert(commas@[old_commas.len() as int] == tc[j] as usize);
                    }
                }
            }
        } else {
            proof {
                assert forall|j: int| 0 <= j < k + 1 && #[trigger] tc[j] >= clean_end implies commas@.contains(
                    tc[j] as usize,
                ) by {
                }
            }
        }
        k = k + 1;
    }
    proof {
        let tc = top_commas(b@, lo as int, hi as int);
        assert forall|p: int| lo <= p < hi && p >= clean_end && #[trigger] top_comma(b@, lo as int, p) implies commas@.contains(
            p as usize,
        ) by {
            lemma_top_comma_listed(b@, lo as int, hi as int, p);
        }
    }
    TypeScan { clean_end, commas, markers }
}

/// Every top-level comma of a window is listed by [`top_commas`].
pub proof fn lemma_top_comma_listed(b: Seq<u8>, lo: int, hi: int, p: int)
    requires
        lo <= p < hi,
        top_comma(b, lo, p),
    ensures
        exists|j: int| 0 <= j < top_commas(b, lo, hi).len() && #[trigger] top_commas(b, lo, hi)[j] == p,
    decreases hi - lo,
{
    if hi - 1 == p {
        assert(top_commas(b, lo, hi) == top_commas(b, lo, hi - 1).push(p));
        assert(top_commas(b, lo, hi)[top_commas(b, lo, hi).len() - 1] == p);
    } else {
        lemma_top_comma_listed(b, lo, hi - 1, p);
        let j = choose|j: int| 0 <= j < top_commas(b, lo, hi - 1).len() && #[trigger] top_commas(b, lo, hi - 1)[j] == p;
        if top_comma(b, lo, hi - 1) {
            assert(top_commas(b, lo, hi) == top_commas(b, lo, hi - 1).push(hi - 1));
            assert(top_commas(b, lo, hi)[j] == p);
        } else {
            assert(top_commas(b, lo, hi) == top_commas(b, lo, hi - 1));
        }
    }
}


// =============================================================================
// Character boundaries of the scanned positions
// =============================================================================

/// The ends of every comma segment are character boundaries.
pub proof fn lemma_comma_part_boundary(b: Seq<u8>, lo: int, hi: int, k: int)
    requires
        valid_utf8(b),
        0 <= lo <= hi <= b.len(),
        is_char_boundary(b, lo),
        is_char_boundary(b, hi),
        0 <= k < seg_count(b, lo, hi),
    ensures
        valid_span(b, comma_part(b, lo, hi, k).0, comma_part(b, lo, hi, k).1),
        valid_span(b, seg_trim(b, lo, hi, k).0, seg_trim(b, lo, hi, k).1),
{
    lemma_top_commas(b, lo, hi);
    lemma_comma_part_bounds(b, lo, hi, k);
    let c = top_commas(b, lo, hi);
    if k > 0 {
        lemma_ascii_boundary(b, c[k - 1]);
    }
    if k < c.len() {
        lemma_ascii_boundary(b, c[k]);
    }
    let (ps, pe) = comma_part(b, lo, hi, k);
    lemma_trim_boundary(b, ps, pe);
    lemma_trim_bounds(b, ps, pe);
}

pub proof fn lemma_type_end_boundary(b: Seq<u8>, lo: int, hi: int, n: int, with_default: bool)
    requires
        valid_utf8(b),
        0 <= lo <= hi <= b.len(),
        is_char_boundary(b, lo),
        is_char_boundary(b, hi),
        n <= seg_count(b, lo, hi),
    ensures
        is_char_boundary(b, type_end_upto(b, lo, hi, n, with_default)),
    decreases n,
{
    if n > 0 {
        lemma_type_end_boundary(b, lo, hi, n - 1, with_default);
        lemma_comma_part_boundary(b, lo, hi, n - 1);
    }
}

pub proof fn lemma_strip_commas_boundary(b: Seq<u8>, lo: int, e: int)
    requires
        valid_utf8(b),
        0 <= lo <= e <= b.len(),
        is_char_boundary(b, e),
    ensures
        is_char_boundary(b, strip_commas(b, lo, e)),
    decreases e - lo,
{
    if e > lo && b[e - 1] == 44u8 {
        lemma_ascii_boundary(b, e - 1);
        lemma_strip_commas_bounds(b, lo, e - 1);
        lemma_strip_commas_boundary(b, lo, e - 1);
    }
}

/// The clean type end of a window between boundaries is a boundary.
pub proof fn lemma_clean_end_boundary(b: Seq<u8>, lo: int, hi: int, with_default: bool)
    requires
        valid_utf8(b),
        0 <= lo <= hi <= b.len(),
        is_char_boundary(b, lo),
        is_char_boundary(b, hi),
    ensures
        is_char_boundary(b, clean_type_end(b, lo, hi, with_default)),
        lo <= clean_type_end(b, lo, hi, with_default) <= hi,
{
    let n = seg_count(b, lo, hi);
    lemma_type_end_boundary(b, lo, hi, n, with_default);
    lemma_type_end_bounds(b, lo, hi, n, with_default);
    let t = type_end_upto(b, lo, hi, n, with_default);
    lemma_strip_commas_boundary(b, lo, t);
    lemma_strip_commas_bounds(b, lo, t);
    lemma_skip_back_boundary(b, lo, strip_commas(b, lo, t));
    lemma_skip_back_bounds(b, lo, strip_commas(b, lo, t));
}

// =============================================================================
// String-level scanners
// =============================================================================

/// Split `text` by top-level commas (respecting `()`, `[]`, `{}` and `<>`
/// depth) into `(byte_offset, segment)` pairs, where `byte_offset` is the
/// segment's start within `text`.
pub fn split_comma_parts(text: &str) -> (r: Vec<(usize, &str)>)
    ensures
        r@.len() == seg_count(text.spec_bytes(), 0, text.spec_bytes().len() as int),
        forall|k: int|
            0 <= k < r@.len() ==> (#[trigger] r@[k]).0 == comma_part(text.spec_bytes(), 0, text.spec_bytes().len() as int, k).0
                && r@[k].1.spec_bytes() == text.spec_bytes().subrange(
                comma_part(text.spec_bytes(), 0, text.spec_bytes().len() as int, k).0,
                comma_part(text.spec_bytes(), 0, text.spec_bytes().len() as int, k).1,
            ),
{
    let b = text.as_bytes();
    let spans = split_comma_spans(b, 0, b.len());
    let ghost bs = text.spec_bytes();
    proof {
        lemma_str_valid(text);
        lemma_boundary_at(bs, 0);
        lemma_boundary_at(bs, bs.len() as int);
    }
    let mut out: Vec<(usize, &str)> = Vec::new();
    let mut i: usize = 0;
    while i < spans.len()
        invariant
            b@ == bs,
            bs == text.spec_bytes(),
            valid_utf8(bs),
            is_char_boundary(bs, 0),
            is_char_boundary(bs, bs.len() as int),
            spans@.len() == seg_count(bs, 0, bs.len() as int),
            forall|k: int|
                0 <= k < spans@.len() ==> (#[trigger] spans@[k]).0 == comma_part(bs, 0, bs.len() as int, k).0
                    && spans@[k].1 == comma_part(bs, 0, bs.len() as int, k).1,
            i <= spans@.len(),
            out@.len() == i,
            forall|k: int|
                0 <= k < i ==> (#[trigger] out@[k]).0 == comma_part(bs, 0, bs.len() as int, k).0
                    && out@[k].1.spec_bytes() == bs.subrange(
                    comma_part(bs, 0, bs.len() as int, k).0,
                    comma_part(bs, 0, bs.len() as int, k).1,
                ),
        decreases spans@.len() - i,
    {
        let (ps, pe) = spans[i];
        proof {
            lemma_comma_part_boundary(bs, 0, bs.len() as int, i as int);
        }
        out.push((ps, substr(text, ps, pe)));
        i = i + 1;
    }
    out
}

/// The last `optional` (non-`default`) marker's start, if any.
pub open spec fn last_optional(m: Seq<Marker>) -> Option<usize>
    decreases m.len(),
{
    if m.len() == 0 {
        None
    } else if !m.last().is_default {
        Some(m.last().start)
    } else {
        last_optional(m.drop_last())
    }
}

fn find_last_optional(m: &Vec<Marker>) -> (r: Option<usize>)
    ensures
        r == last_optional(m@),
{
    let mut i = m.len();
    assert(m@.take(i as int) =~= m@);
    while i > 0
        invariant
            i <= m@.len(),
            last_optional(m@) == last_optional(m@.take(i as int)),
        decreases i,
    {
        assert(m@.take(i as int).drop_last() =~= m@.take(i - 1));
        if !m[i - 1].is_default {
            return Some(m[i - 1].start);
        }
        i = i - 1;
    }
    None
}

/// Strip a trailing `optional` marker from a type annotation: the clean
/// type (up to the last non-marker segment, trailing commas and whitespace
/// dropped) and the offset of the `optional` keyword; the whole text and
/// `None` when no segment reads `optional`.
pub fn strip_optional(type_content: &str) -> (r: (&str, Option<usize>))
    ensures
        r.0.spec_bytes() == type_content.spec_bytes().subrange(
            0,
            clean_type_end(type_content.spec_bytes(), 0, type_content.spec_bytes().len() as int, false),
        ),
        r.1 == last_optional(
            markers_upto(
                type_content.spec_bytes(),
                0,
                type_content.spec_bytes().len() as int,
                seg_count(type_content.spec_bytes(), 0, type_content.spec_bytes().len() as int),
                false,
            ),
        ),
{
    let b = type_content.as_bytes();
    let scan = scan_markers_in(b, 0, b.len(), false);
    proof {
        let bs = type_content.spec_bytes();
        lemma_str_valid(type_content);
        lemma_boundary_at(bs, 0);
        lemma_boundary_at(bs, bs.len() as int);
        lemma_clean_end_boundary(bs, 0, bs.len() as int, false);
    }
    let opt = find_last_optional(&scan.markers);
    (substr(type_content, 0, scan.clean_end), opt)
}


// =============================================================================
// Bracket-style entries: `name (type): desc`
// =============================================================================

/// `c` is the bracket matching the opening bracket at `p`: the first
/// closer of the same kind at nesting one.
pub open spec fn is_match(b: Seq<u8>, p: int, hi: int, c: int) -> bool {
    &&& p < c < hi
    &&& b[c] == closer_of(b[p])
    &&& same_depth(b, b[p], p + 1, c) == 1
    &&& forall|j: int| p + 1 <= j < c ==> !(#[trigger] b[j] == closer_of(b[p]) && same_depth(b, b[p], p + 1, j) == 1)
}

/// After the closing bracket at `c` comes only whitespace, or whitespace
/// and a colon.
pub open spec fn after_close_ok(b: Seq<u8>, c: int, hi: int) -> bool {
    let a = skip_ws_fwd(b, c + 1, hi);
    a == hi || b[a] == 58u8
}

/// The pieces of a bracket-style entry line, as absolute offsets.
pub struct BracketSpan {
    /// Opening bracket.
    pub open: usize,
    /// Matching closing bracket.
    pub close: usize,
    /// End of the name (the text before the bracket, end-trimmed).
    pub name_end: usize,
    /// Trimmed type text between the brackets.
    pub type_start: usize,
    pub type_end: usize,
    /// Markers and clean type of the type text.
    pub scan: TypeScan,
    /// The colon after the closing bracket, if any.
    pub colon: Option<usize>,
    /// The trimmed description after the colon, if non-empty.
    pub desc: Option<(usize, usize)>,
}

/// What a successful [`bracket_entry_in`] reports.
pub open spec fn bracket_fields(b: Seq<u8>, lo: int, hi: int, e: BracketSpan) -> bool {
    let a = skip_ws_fwd(b, e.close + 1, hi);
    &&& is_first_open(b, lo, hi, e.open as int)
    &&& no_colon_before(b, lo, e.open as int)
    &&& is_match(b, e.open as int, hi, e.close as int)
    &&& after_close_ok(b, e.close as int, hi)
    &&& e.name_end == skip_ws_back(b, lo, e.open as int)
    &&& e.type_start == trim_lo(b, e.open + 1, e.close as int)
    &&& e.type_end == trim_hi(b, e.open + 1, e.close as int)
    &&& e.scan.clean_end == clean_type_end(b, e.type_start as int, e.type_end as int, true)
    &&& e.scan.markers@ == markers_upto(
        b,
        e.type_start as int,
        e.type_end as int,
        seg_count(b, e.type_start as int, e.type_end as int),
        true,
    )
    &&& forall|i: int|
        0 <= i < e.scan.commas@.len() ==> e.type_start <= #[trigger] e.scan.commas@[i] < e.type_end
    &&& e.colon == (if a < hi {
        Some(a as usize)
    } else {
        None
    })
    &&& e.desc == (if a < hi && trim_lo(b, a + 1, hi) < trim_hi(b, a + 1, hi) {
        Some((trim_lo(b, a + 1, hi) as usize, trim_hi(b, a + 1, hi) as usize))
    } else {
        None
    })
}

/// No bracket-style entry can be read from `[lo, hi)`.
pub open spec fn bracket_none(b: Seq<u8>, lo: int, hi: int) -> bool {
    forall|p: int, c: int|
        #[trigger] is_first_open(b, lo, hi, p) && no_colon_before(b, lo, p) && #[trigger] is_match(b, p, hi, c)
            ==> !after_close_ok(b, c, hi)
}

/// Read `[lo, hi)` as a bracket-style entry `name (type): desc` or
/// `name(type)`: an opening bracket after at least one byte and before any
/// top-level colon, its matching close, then nothing or a colon.
pub fn bracket_entry_in(b: &[u8], lo: usize, hi: usize) -> (r: Option<BracketSpan>)
    requires
        lo <= hi <= b@.len(),
    ensures
        r matches Some(e) ==> bracket_fields(b@, lo as int, hi as int, e),
        r is None ==> bracket_none(b@, lo as int, hi as int),
{
    let p = match find_entry_open_bracket_in(b, lo, hi) {
        Some(p) => p,
        None => {
            proof {
                assert forall|p: int, c: int|
                    #[trigger] is_first_open(b@, lo as int, hi as int, p) && no_colon_before(b@, lo as int, p)
                        && #[trigger] is_match(b@, p, hi as int, c) implies !after_close_ok(b@, c, hi as int) by {
                    assert(!is_open(b@[p]) || !is_first_open(b@, lo as int, hi as int, p));
                }
            }
            return None;
        },
    };
    proof {
        assert(is_first_open(b@, lo as int, hi as int, p as int));
    }
    let c = match find_matching_close_in(b, p, hi) {
        Some(c) => c,
        None => {
            proof {
                assert forall|q: int, c: int|
                    #[trigger] is_first_open(b@, lo as int, hi as int, q) && no_colon_before(b@, lo as int, q)
                        && #[trigger] is_match(b@, q, hi as int, c) implies !after_close_ok(b@, c, hi as int) by {
                    if q < p {
                        assert(!is_open(b@[q]));
                    } else if q > p {
                        assert(!is_open(b@[p as int]));
                    }
                    let f = |j: int|
                        b@[j] == closer_of(b@[p as int]) && same_depth(b@, b@[p as int], p + 1, j) == 1;
                    assert(!f(c));
                }
            }
            return None;
        },
    };
    proof {
        let f = |j: int| b@[j] == closer_of(b@[p as int]) && same_depth(b@, b@[p as int], p + 1, j) == 1;
        assert(f(c as int));
        assert forall|j: int| p + 1 <= j < c implies !(#[trigger] b@[j] == closer_of(b@[p as int]) && same_depth(
            b@,
            b@[p as int],
            p + 1,
            j,
        ) == 1) by {
            assert(!f(j));
        }
        assert(is_match(b@, p as int, hi as int, c as int));
    }
    let a = skip_ws_forward(b, c + 1, hi);
    if a < hi && b[a] != 58u8 {
        proof {
            assert forall|q: int, d: int|
                #[trigger] is_first_open(b@, lo as int, hi as int, q) && no_colon_before(b@, lo as int, q)
                    && #[trigger] is_match(b@, q, hi as int, d) implies !after_close_ok(b@, d, hi as int) by {
                if q < p {
                    assert(!is_open(b@[q]));
                } else if q > p {
                    assert(!is_open(b@[p as int]));
                }
                if d < c {
                    assert(!(b@[d] == closer_of(b@[p as int]) && same_depth(b@, b@[p as int], p + 1, d) == 1));
                } else if d > c {
                    assert(!(b@[c as int] == closer_of(b@[p as int]) && same_depth(b@, b@[p as int], p + 1, c as int)
                        == 1));
                }
            }
        }
        return None;
    }
    let name_end = skip_ws_backward(b, lo, p);
    let (ts, te) = trim_window(b, p + 1, c);
    let scan = scan_markers_in(b, ts, te, true);
    let (colon, desc) = if a < hi {
        let (ds, de) = trim_window(b, a + 1, hi);
        if ds < de {
            (Some(a), Some((ds, de)))
        } else {
            (Some(a), None)
        }
    } else {
        (None, None)
    };
    Some(BracketSpan { open: p, close: c, name_end, type_start: ts, type_end: te, scan, colon, desc })
}

/// A parsed bracket-style entry `name(type): desc`, with byte offsets
/// relative to the start of the parsed text.
pub struct BracketEntry<'a> {
    /// Name text before the bracket (end-trimmed).
    pub name: &'a str,
    /// Clean type text (markers stripped) inside the brackets.
    pub clean_type: &'a str,
    /// Byte offset of the type text start.
    pub type_offset: usize,
    /// Byte offset of the last `optional` keyword, if present.
    pub optional_offset: Option<usize>,
    /// Byte offset of the colon after the close bracket, if present.
    pub colon: Option<usize>,
    /// Description text after the colon (trimmed), if present.
    pub description: Option<&'a str>,
    /// Byte offset of the description start, if present.
    pub description_offset: Option<usize>,
    /// Byte offset of the opening bracket.
    pub open_bracket: usize,
    /// Byte offset of the closing bracket.
    pub close_bracket: usize,
    /// Separator commas after the clean type.
    pub commas: Vec<usize>,
    /// `optional` / `default` markers inside the brackets.
    pub markers: Vec<Marker>,
}

/// Try to parse a bracket-style entry `name (type): desc` or
/// `name(type): desc`: `Some` exactly when [`bracket_entry_in`] reads one
/// from the whole text.
pub fn try_parse_bracket_entry(text: &str) -> (r: Option<BracketEntry<'_>>)
    ensures
        r is None <==> bracket_none(text.spec_bytes(), 0, text.spec_bytes().len() as int),
        r matches Some(e) ==> exists|sp: BracketSpan|
            #![trigger bracket_fields(text.spec_bytes(), 0, text.spec_bytes().len() as int, sp)]
            bracket_fields(text.spec_bytes(), 0, text.spec_bytes().len() as int, sp)
            && e.name.spec_bytes() == text.spec_bytes().subrange(0, sp.name_end as int)
            && e.clean_type.spec_bytes() == text.spec_bytes().subrange(sp.type_start as int, sp.scan.clean_end as int)
            && e.type_offset == sp.type_start && e.open_bracket == sp.open && e.close_bracket == sp.close
            && e.colon == sp.colon && e.markers@ == sp.scan.markers@ && e.commas@ == sp.scan.commas@
            && e.optional_offset == last_optional(sp.scan.markers@)
            && (match sp.desc {
                Some(d) => e.description_offset == Some(d.0) && (e.description matches Some(t) && t.spec_bytes()
                    == text.spec_bytes().subrange(d.0 as int, d.1 as int)),
                None => e.description_offset is None && e.description is None,
            }),
{
    let b = text.as_bytes();
    let ghost bs = text.spec_bytes();
    let sp = match bracket_entry_in(b, 0, b.len()) {
        Some(sp) => sp,
        None => return None,
    };
    proof {
        lemma_str_valid(text);
        lemma_boundary_at(bs, 0);
        lemma_boundary_at(bs, bs.len() as int);
        let p = sp.open as int;
        let c = sp.close as int;
        lemma_ascii_boundary(bs, p);
        lemma_ascii_boundary(bs, c);
        lemma_skip_back_boundary(bs, 0, p);
        lemma_skip_back_bounds(bs, 0, p);
        lemma_trim_boundary(bs, p + 1, c);
        lemma_trim_bounds(bs, p + 1, c);
        lemma_clean_end_boundary(bs, sp.type_start as int, sp.type_end as int, true);
        if sp.colon is Some {
            let a = sp.colon->0 as int;
            lemma_skip_fwd_bounds(bs, c + 1, bs.len() as int);
            lemma_ascii_boundary(bs, a);
            lemma_trim_boundary(bs, a + 1, bs.len() as int);
            lemma_trim_bounds(bs, a + 1, bs.len() as int);
        }
    }
    let name = substr(text, 0, sp.name_end);
    let clean_type = substr(text, sp.type_start, sp.scan.clean_end);
    let (description, description_offset) = match sp.desc {
        Some((ds, de)) => (Some(substr(text, ds, de)), Some(ds)),
        None => (None, None),
    };
    let optional_offset = find_last_optional(&sp.scan.markers);
    let ghost spg = sp;
    let e = BracketEntry {
        name,
        clean_type,
        type_offset: sp.type_start,
        optional_offset,
        colon: sp.colon,
        description,
        description_offset,
        open_bracket: sp.open,
        close_bracket: sp.close,
        commas: sp.scan.commas,
        markers: sp.scan.markers,
    };
    proof {
        assert(bracket_fields(bs, 0, bs.len() as int, spg));
    }
    Some(e)
}


// =============================================================================
// Dedenting multi-line text
// =============================================================================

/// Line `i` of `b` as `str::lines` yields it: without its `\n`, and
/// without a `\r` right before it.
pub open spec fn rust_line(b: Seq<u8>, i: int) -> (int, int) {
    let (a, z) = line_span(b, i);
    if z > a && b[z - 1] == 13u8 {
        (a, z - 1)
    } else {
        (a, z)
    }
}

/// Leading-whitespace width of line `i`.
pub open spec fn line_indent(b: Seq<u8>, i: int) -> int {
    skip_ws_fwd(b, rust_line(b, i).0, rust_line(b, i).1) - rust_line(b, i).0
}

/// Whether line `i` holds only whitespace.
pub open spec fn line_is_blank(b: Seq<u8>, i: int) -> bool {
    skip_ws_fwd(b, rust_line(b, i).0, rust_line(b, i).1) == rust_line(b, i).1
}

/// The smallest indentation among the non-blank lines `1..k`.
pub open spec fn min_indent(b: Seq<u8>, k: int) -> Option<int>
    decreases k,
{
    if k <= 1 {
        None
    } else {
        let prev = min_indent(b, k - 1);
        if line_is_blank(b, k - 1) {
            prev
        } else {
            match prev {
                None => Some(line_indent(b, k - 1)),
                Some(m) => Some(if line_indent(b, k - 1) < m {
                    line_indent(b, k - 1)
                } else {
                    m
                }),
            }
        }
    }
}

/// The common indentation of the continuation lines (0 when they are all
/// blank).
pub open spec fn common_indent(b: Seq<u8>) -> int {
    match min_indent(b, count_lines(b)) {
        Some(m) => m,
        None => 0,
    }
}

/// The bytes of `[s, e)`, or nothing when that is not a slice at character
/// boundaries.
pub open spec fn slice_bytes(b: Seq<u8>, s: int, e: int) -> Seq<u8> {
    if valid_span(b, s, e) {
        b.subrange(s, e)
    } else {
        Seq::empty()
    }
}

/// Continuation line `i` dedented by `ind` and end-trimmed (empty when it
/// is shorter than the indentation).
pub open spec fn dedented(b: Seq<u8>, i: int, ind: int) -> Seq<u8> {
    let (a, z) = rust_line(b, i);
    if ind >= z - a {
        Seq::empty()
    } else {
        slice_bytes(b, a + ind, skip_ws_back(b, a + ind, z))
    }
}

/// The first `k` output lines joined by newlines: the first line
/// end-trimmed, the others dedented.
pub open spec fn dedent_upto(b: Seq<u8>, ind: int, k: int) -> Seq<u8>
    decreases k,
{
    if k <= 1 {
        b.subrange(rust_line(b, 0).0, skip_ws_back(b, rust_line(b, 0).0, rust_line(b, 0).1))
    } else {
        dedent_upto(b, ind, k - 1) + "\n".spec_bytes() + dedented(b, k - 1, ind)
    }
}

pub proof fn lemma_rust_line(s: &str, i: int)
    ensures
        valid_span(s.spec_bytes(), rust_line(s.spec_bytes(), i).0, rust_line(s.spec_bytes(), i).1),
{
    let b = s.spec_bytes();
    lemma_line_span_boundary(s, i);
    lemma_line_span(b, i);
    let (a, z) = line_span(b, i);
    if z > a && b[z - 1] == 13u8 {
        lemma_str_valid(s);
        lemma_ascii_boundary(b, z - 1);
    }
}

/// Convert a multi-line description to its logical text: the first line
/// end-trimmed, every continuation line dedented by the smallest
/// indentation among the non-blank continuation lines and end-trimmed,
/// joined with `\n`. The empty text gives the empty string.
pub fn convert_multiline_with_indentation(text: &str) -> (r: String)
    requires
        text.spec_bytes().len() < u32::MAX,
        text.spec_bytes().len() <= usize::MAX / 8,
    ensures
        count_lines(text.spec_bytes()) == 0 ==> r@.len() == 0,
        count_lines(text.spec_bytes()) > 0 ==> encode_utf8(r@) == dedent_upto(
            text.spec_bytes(),
            common_indent(text.spec_bytes()),
            count_lines(text.spec_bytes()),
        ),
{
    let cursor = LineCursor::new(text);
    let ghost b = text.spec_bytes();
    let n = cursor.total_lines();
    let tb = text.as_bytes();
    proof {
        cursor.lemma_wf();
    }
    // Common indentation of the non-blank continuation lines.
    let mut ind: Option<usize> = None;
    let mut i: usize = 1;
    while i < n
        invariant
            cursor.wf(),
            cursor.src() == text,
            tb@ == b,
            b == text.spec_bytes(),
            n == count_lines(b),
            1 <= i,
            i <= n || n == 0,
            ind matches Some(m) ==> min_indent(b, i as int) == Some(m as int),
            ind is None ==> min_indent(b, i as int) is None,
        decreases n - i,
    {
        let (a0, z0) = cursor.span_exec(i);
        let z = if z0 > a0 && tb[z0 - 1] == 13u8 {
            z0 - 1
        } else {
            z0
        };
        let f = skip_ws_forward(tb, a0, z);
        if f < z {
            let w = f - a0;
            ind = match ind {
                None => Some(w),
                Some(m) => Some(if w < m {
                    w
                } else {
                    m
                }),
            };
        }
        i = i + 1;
    }
    let ind_v: usize = match ind {
        Some(m) => m,
        None => 0,
    };
    let mut out = String::new();
    if n == 0 {
        return out;
    }
    proof {
        lemma_rust_line(text, 0);
    }
    let (fa0, fz0) = cursor.span_exec(0);
    let fz = if fz0 > fa0 && tb[fz0 - 1] == 13u8 {
        fz0 - 1
    } else {
        fz0
    };
    let fe = skip_ws_backward(tb, fa0, fz);
    proof {
        lemma_str_valid(text);
        lemma_skip_back_boundary(b, fa0 as int, fz as int);
        lemma_skip_back_bounds(b, fa0 as int, fz as int);
    }
    let first = substr(text, fa0, fe);
    out.append(first);
    proof {
        assert(Seq::<char>::empty() + first@ =~= first@);
    }
    let mut k: usize = 1;
    while k < n
        invariant
            cursor.wf(),
            cursor.src() == text,
            tb@ == b,
            b == text.spec_bytes(),
            n == count_lines(b),
            1 <= k <= n,
            ind_v == common_indent(b),
            encode_utf8(out@) == dedent_upto(b, ind_v as int, k as int),
        decreases n - k,
    {
        let (a0, z0) = cursor.span_exec(k);
        let z = if z0 > a0 && tb[z0 - 1] == 13u8 {
            z0 - 1
        } else {
            z0
        };
        let piece: &str = if ind_v >= z - a0 {
            let e = "";
            proof {
                reveal_strlit("");
            }
            e
        } else {
            let e = skip_ws_backward(tb, a0 + ind_v, z);
            slice_or_empty(text, a0 + ind_v, e)
        };
        let nl = "\n";
        let ghost before = out@;
        out.append(nl);
        let ghost mid = out@;
        out.append(piece);
        proof {
            lemma_encode_concat(before, nl@);
            lemma_encode_concat(mid, piece@);
            assert(piece.spec_bytes() == dedented(b, k as int, ind_v as int));
            assert(encode_utf8(out@) == encode_utf8(before) + nl.spec_bytes() + piece.spec_bytes());
            assert(dedent_upto(b, ind_v as int, k + 1) == dedent_upto(b, ind_v as int, k as int) + "\n".spec_bytes()
                + dedented(b, k as int, ind_v as int));
            assert(encode_utf8(out@) == dedent_upto(b, ind_v as int, k + 1));
        }
        k = k + 1;
    }
    out
}


// =============================================================================
// Marker bounds
// =============================================================================

/// A marker's offsets are ordered and lie in `[lo, hi]`.
pub open spec fn marker_in(m: Marker, lo: int, hi: int) -> bool {
    &&& lo <= m.start <= m.keyword_end <= m.end <= hi
    &&& m.keyword_end <= m.value_start <= m.end
    &&& (m.separator matches Some(p) ==> m.keyword_end <= p < m.value_start)
}

pub proof fn lemma_seg_marker_in(b: Seq<u8>, s: int, e: int, wd: bool)
    requires
        0 <= s <= e <= b.len(),
        b.len() <= usize::MAX,
    ensures
        seg_marker(b, s, e, wd) matches Some(m) ==> marker_in(m, s, e),
{
    let k = s + default_word().len();
    if k <= e {
        lemma_skip_fwd_bounds(b, k, e);
        let p = skip_ws_fwd(b, k, e);
        if p < e {
            lemma_skip_fwd_bounds(b, p + 1, e);
        }
    }
}

/// Every scanned marker lies inside the scanned window.
pub proof fn lemma_markers_in(b: Seq<u8>, lo: int, hi: int, n: int, wd: bool)
    requires
        0 <= lo <= hi <= b.len(),
        b.len() <= usize::MAX,
        n <= seg_count(b, lo, hi),
    ensures
        forall|i: int|
            0 <= i < markers_upto(b, lo, hi, n, wd).len() ==> marker_in(
                #[trigger] markers_upto(b, lo, hi, n, wd)[i],
                lo,
                hi,
            ),
    decreases n,
{
    if n > 0 {
        lemma_markers_in(b, lo, hi, n - 1, wd);
        lemma_comma_part_bounds(b, lo, hi, n - 1);
        let (ps, pe) = comma_part(b, lo, hi, n - 1);
        lemma_trim_bounds(b, ps, pe);
        let t = seg_trim(b, lo, hi, n - 1);
        lemma_seg_marker_in(b, t.0, t.1, wd);
        let prev = markers_upto(b, lo, hi, n - 1, wd);
        match part_marker(b, lo, hi, n - 1, wd) {
            Some(m) => {
                assert(markers_upto(b, lo, hi, n, wd) == prev.push(m));
                assert(marker_in(m, lo, hi));
                assert forall|i: int| 0 <= i < prev.len() + 1 implies marker_in(
                    #[trigger] markers_upto(b, lo, hi, n, wd)[i],
                    lo,
                    hi,
                ) by {
                    if i < prev.len() {
                        assert(markers_upto(b, lo, hi, n, wd)[i] == prev[i]);
                    }
                }
            },
            None => {
                assert(markers_upto(b, lo, hi, n, wd) == prev);
            },
        }
    }
}


/// The clean type end lies inside its window.
pub proof fn lemma_clean_end_bounds(b: Seq<u8>, lo: int, hi: int, with_default: bool)
    requires
        0 <= lo <= hi <= b.len(),
    ensures
        lo <= clean_type_end(b, lo, hi, with_default) <= hi,
{
    let n = seg_count(b, lo, hi);
    lemma_type_end_bounds(b, lo, hi, n, with_default);
    let t = type_end_upto(b, lo, hi, n, with_default);
    lemma_strip_commas_bounds(b, lo, t);
    lemma_skip_back_bounds(b, lo, strip_commas(b, lo, t));
}

} // verus!
