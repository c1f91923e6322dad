//! Google-style docstring parser: `Name:` section headers, `name (type):
//! description` entries, indent-closed sections.

use vstd::prelude::*;
use vstd::string::StringSliceAdditionalSpecFns;

use crate::cursor::LineCursor;
use crate::parse::dispatch::parse_document;
use crate::parse::dispatch::Dialect;
use crate::parse::dispatch::header_at;
use crate::parse::dispatch::header_info_ok;
use crate::parse::dispatch::HeaderMarker;
use crate::parse::dispatch::SectionHeaderInfo;
use crate::parse::kind::google_name_kind;
use crate::parse::kind::SectionName;
use crate::parse::scan::find_colon_ignoring_parens_in;
use crate::parse::scan::find_entry_colon_in;
use crate::parse::scan::find_entry_open_bracket_in;
use crate::parse::scan::find_matching_close_in;
use crate::parse::scan::entry_open_bracket;
use crate::parse::scan::top_colon;
use crate::parse::scan::lemma_markers_in;
use crate::parse::scan::scan_markers_in;
use crate::parse::utils::build_leading_token_entry;
use crate::parse::utils::build_text_block;
use crate::parse::utils::entry_continuation_guard;
use crate::parse::utils::line_content;
use crate::parse::utils::leading_entry_ok;
use crate::parse::utils::marker_syntax_elements;
use crate::parse::utils::cur_ce;
use crate::parse::utils::cur_cs;
use crate::parse::utils::desc_last;
use crate::parse::utils::lemma_line_push;
use crate::parse::utils::line_step_ok;
use crate::parse::utils::lemma_members_concat;
use crate::parse::utils::lemma_members_push;
use crate::parse::utils::lemma_sorted_placed;
use crate::parse::utils::members_in;
use crate::parse::utils::missing_text_block;
use crate::parse::utils::sort_by_position;
use crate::parse::utils::text_block_single;
use crate::parse::utils::tok;
use crate::parse::ParseOptions;
use crate::parse::Style;
use crate::strs::ascii_lower;
use crate::strs::lower_seq;
use crate::strs::skip_ws_backward;
use crate::strs::skip_ws_forward;
use crate::strs::trim_window;
use crate::syntax::elem_placed;
use crate::syntax::elems_in;
use crate::syntax::node_of;
use crate::syntax::lemma_elems_push;
use crate::syntax::lemma_elems_widen;
use crate::syntax::range_in;
use crate::syntax::Parsed;
use crate::syntax::SyntaxElement;
use crate::syntax::SyntaxKind;
use crate::syntax::SyntaxNode;
use crate::text::hi;
use crate::text::lo;
use crate::text::TextRange;

verus! {

// =============================================================================
// Entry header parsing
// =============================================================================

/// Type information from a parsed entry header.
pub struct TypeInfo {
    /// The opening bracket.
    pub open_bracket: TextRange,
    /// The clean type text, if any.
    pub type_range: Option<TextRange>,
    /// The closing bracket, if the bracket is matched.
    pub close_bracket: Option<TextRange>,
    /// Separator commas after the clean type.
    pub commas: Vec<TextRange>,
    /// `OPTIONAL` tokens and `DEFAULT` nodes, one per marker occurrence, in
    /// source order.
    pub markers: Vec<SyntaxElement>,
}

/// Parsed components of a Google-style entry header line.
pub struct EntryHeader {
    /// From the name to the end of what the header line holds.
    pub range: TextRange,
    /// The name (everything before the bracket or colon).
    pub name: TextRange,
    /// The bracketed type, when the line has one.
    pub type_info: Option<TypeInfo>,
    /// The colon, if present.
    pub colon: Option<TextRange>,
    /// The first description line, if non-empty.
    pub first_description: Option<TextRange>,
}

/// `r` is the one-byte range at `p`.
pub open spec fn at_byte(r: TextRange, p: int) -> bool {
    lo(r) == p && hi(r) == p + 1
}

/// The text after a colon at `c`: its trimmed remainder of `[c + 1, e)`,
/// if non-empty.
pub open spec fn desc_after(b: Seq<u8>, c: int, e: int, d: Option<TextRange>) -> bool {
    let ds = crate::strs::trim_lo(b, c + 1, e);
    let de = crate::strs::trim_hi(b, c + 1, e);
    if ds < de {
        d matches Some(x) && lo(x) == ds && hi(x) == de
    } else {
        d is None
    }
}

/// The clean type of the bracket content `[tlo, thi)`: trimmed, with
/// trailing markers cut off; none when nothing is left.
pub open spec fn type_of_window(b: Seq<u8>, tlo: int, thi: int, t: Option<TextRange>) -> bool {
    let ts = crate::strs::trim_lo(b, tlo, thi);
    let te = crate::strs::trim_hi(b, tlo, thi);
    let ce = crate::parse::scan::clean_type_end(b, ts, te, true);
    if ce > ts {
        t matches Some(x) && lo(x) == ts && hi(x) == ce
    } else {
        t is None
    }
}

/// Byte `j` closes the bracket opened at `bp`, at its own depth.
pub open spec fn close_at(b: Seq<u8>, bp: int, j: int) -> bool {
    b[j] == crate::parse::scan::closer_of(b[bp]) && crate::parse::scan::same_depth(b, b[bp], bp + 1, j) == 1
}

/// Byte `j` is a colon outside parentheses, counting from after `bp`.
pub open spec fn np_colon_at(b: Seq<u8>, bp: int, j: int) -> bool {
    b[j] == 58u8 && crate::parse::scan::depth_np_at(b, bp + 1, j) == 0
}

/// Where the bracket content ends: at the closing bracket, else at the
/// colon, else at the line's end `e`.
pub open spec fn type_end(close: Option<TextRange>, colon: Option<TextRange>, e: int) -> int {
    match close {
        Some(cb) => lo(cb),
        None => match colon {
            Some(c) => lo(c),
            None => e,
        },
    }
}

/// Where a bracketed header ends: with its description, else its colon,
/// else its closing bracket, else at the line's end `e`.
pub open spec fn bracket_end(desc: Option<TextRange>, colon: Option<TextRange>, close: Option<TextRange>, e: int) -> int {
    match desc {
        Some(d) => hi(d),
        None => match colon {
            Some(c) => hi(c),
            None => match close {
                Some(cb) => hi(cb),
                None => e,
            },
        },
    }
}

/// What follows the opening bracket at `bp` on a line ending at `e`: the
/// matching closing bracket, if any, then a colon and description, or a
/// description alone; without a closing bracket, the first colon outside
/// parentheses and the description after it, or nothing.
pub open spec fn bracket_tail(
    b: Seq<u8>,
    bp: int,
    e: int,
    close: Option<TextRange>,
    colon: Option<TextRange>,
    desc: Option<TextRange>,
) -> bool {
    match close {
        Some(cb) => {
            let cp = lo(cb);
            let a = crate::strs::skip_ws_fwd(b, cp + 1, e);
            &&& at_byte(cb, cp) && bp + 1 <= cp < e && close_at(b, bp, cp)
            &&& forall|j: int| bp + 1 <= j < cp ==> !#[trigger] close_at(b, bp, j)
            &&& if a < e && b[a] == 58u8 {
                colon matches Some(c) && at_byte(c, a) && desc_after(b, a, e, desc)
            } else if a < e {
                colon is None && (desc matches Some(d) && lo(d) == a && hi(d) == e)
            } else {
                colon is None && desc is None
            }
        },
        None => {
            &&& forall|j: int| bp + 1 <= j < e ==> !#[trigger] close_at(b, bp, j)
            &&& match colon {
                Some(c) => {
                    &&& at_byte(c, lo(c)) && bp + 1 <= lo(c) < e && np_colon_at(b, bp, lo(c))
                    &&& forall|j: int| bp + 1 <= j < lo(c) ==> !#[trigger] np_colon_at(b, bp, j)
                    &&& desc_after(b, lo(c), e, desc)
                },
                None => {
                    &&& forall|j: int| bp + 1 <= j < e ==> !#[trigger] np_colon_at(b, bp, j)
                    &&& desc is None
                },
            }
        },
    }
}

/// How a bracketed entry line `[s, e)` splits, with the opening bracket at
/// `lo(ti.open_bracket)`: the name runs up to the bracket (trailing blanks
/// dropped), the bracket content up to [`type_end`] holds the type, and
/// [`bracket_tail`] says what follows.
pub open spec fn bracket_split(b: Seq<u8>, s: int, e: int, h: EntryHeader, ti: TypeInfo) -> bool {
    let bp = lo(ti.open_bracket);
    &&& entry_open_bracket(b, s, e, Some(bp as usize)) && at_byte(ti.open_bracket, bp)
    &&& lo(h.name) == s && hi(h.name) == crate::strs::skip_ws_back(b, s, bp)
    &&& bracket_tail(b, bp, e, ti.close_bracket, h.colon, h.first_description)
    &&& type_of_window(b, bp + 1, type_end(ti.close_bracket, h.colon, e), ti.type_range)
    &&& lo(h.range) == s && hi(h.range) == bracket_end(h.first_description, h.colon, ti.close_bracket, e)
}

/// How an entry line `[s, e)` without a bracketed type splits: at its
/// first top-level colon when a name precedes it (the name up to the
/// colon, the rest after blanks as description), else the whole line is a
/// bare name.
pub open spec fn colon_split(b: Seq<u8>, s: int, e: int, h: EntryHeader) -> bool {
    &&& lo(h.name) == s && lo(h.range) == s
    &&& match h.colon {
        Some(c) => {
            let ds = crate::strs::skip_ws_fwd(b, lo(c) + 1, e);
            &&& at_byte(c, lo(c)) && s <= lo(c) < e && top_colon(b, s, lo(c)) && forall|j: int| s <= j < lo(c) ==> !#[trigger] top_colon(b, s, j)
            &&& hi(h.name) == crate::strs::skip_ws_back(b, s, lo(c)) && hi(h.name) > s
            &&& if ds < e {
                h.first_description matches Some(d) && lo(d) == ds && hi(d) == e && hi(h.range) == e
            } else {
                h.first_description is None && hi(h.range) == hi(c)
            }
        },
        None => {
            &&& forall|c: int| s <= c < e && #[trigger] top_colon(b, s, c) && (forall|j: int| s <= j < c ==> !#[trigger] top_colon(b, s, j)) ==> crate::strs::skip_ws_back(b, s, c) == s
            &&& hi(h.name) == e && hi(h.range) == e && h.first_description is None
        },
    }
}

/// How the entry line `[s, e)` splits into an [`EntryHeader`]: with
/// `parse_type`, an opening bracket before any top-level colon gives the
/// bracket form; otherwise the colon form.
pub open spec fn entry_split(b: Seq<u8>, s: int, e: int, parse_type: bool, h: EntryHeader) -> bool {
    match h.type_info {
        Some(ti) => parse_type && bracket_split(b, s, e, h, ti),
        None => (parse_type ==> entry_open_bracket(b, s, e, None)) && colon_split(b, s, e, h),
    }
}

/// All ranges of a header lie on the cursor's current line content.
pub open spec fn header_on_line(h: EntryHeader, s: int, e: int) -> bool {
    &&& s <= lo(h.range) <= hi(h.range) <= e
    &&& lo(h.name) == s
    &&& hi(h.name) <= e
    &&& (h.colon matches Some(c) ==> s <= lo(c) && hi(c) <= e)
    &&& (h.first_description matches Some(d) ==> s <= lo(d) <= hi(d) <= e)
}

/// All ranges of a type annotation lie within `[a, z]`, its markers well
/// placed.
pub open spec fn type_info_in(ti: TypeInfo, a: int, z: int) -> bool {
    &&& range_in(ti.open_bracket, a, z)
    &&& (ti.type_range matches Some(t) ==> range_in(t, a, z))
    &&& (ti.close_bracket matches Some(c) ==> range_in(c, a, z))
    &&& (forall|k: int| 0 <= k < ti.commas@.len() ==> range_in(#[trigger] ti.commas@[k], a, z))
    &&& members_in(ti.markers@, a, z)
    &&& forall|k: int| 0 <= k < ti.markers@.len() ==> (#[trigger] ti.markers@[k]).ekind() != SyntaxKind::DESCRIPTION
}

/// All ranges of an entry header lie within `[a, z]`.
pub open spec fn header_in(h: EntryHeader, a: int, z: int) -> bool {
    &&& range_in(h.name, a, z)
    &&& (h.type_info matches Some(ti) ==> type_info_in(ti, a, z))
    &&& (h.colon matches Some(c) ==> range_in(c, a, z))
    &&& (h.first_description matches Some(d) ==> range_in(d, a, z))
}

/// Where the description of an entry starts: its first line, or the
/// placeholder after the colon; `z` when there is neither.
pub open spec fn desc_start(h: EntryHeader, z: int) -> int {
    match h.first_description {
        Some(d) => lo(d),
        None => match h.colon {
            Some(c) => hi(c),
            None => z,
        },
    }
}

/// The ranges of an arg-like header lie in `[a, z]`: everything but the
/// description before where the description starts, the description
/// after it.
pub open spec fn arg_header_ok(h: EntryHeader, a: int, z: int) -> bool {
    let w = desc_start(h, z);
    &&& a <= w <= z
    &&& range_in(h.name, a, w)
    &&& (h.type_info matches Some(ti) ==> type_info_in(ti, a, w))
    &&& (h.colon matches Some(c) ==> range_in(c, a, w))
    &&& (h.first_description matches Some(d) ==> range_in(d, w, z))
}

/// Parse a Google-style entry header at the cursor's line.
///
/// Left to right: with `parse_type`, an opening bracket before any
/// top-level colon makes the text before it the name and the bracket
/// content the type; then a colon after the bracket (or text without one)
/// gives the description. Otherwise a top-level colon splits name and
/// description, and a line with neither is a bare name.
#[verifier::rlimit(60)]
pub fn parse_entry_header(cursor: &LineCursor, parse_type: bool) -> (r: EntryHeader)
    requires
        cursor.wf(),
    ensures
        header_on_line(
            r,
            crate::strs::trim_lo(cursor.bytes(), cursor.span(cursor.pos()).0, cursor.span(cursor.pos()).1),
            crate::strs::trim_hi(cursor.bytes(), cursor.span(cursor.pos()).0, cursor.span(cursor.pos()).1),
        ),
        !parse_type ==> r.type_info is None,
        arg_header_ok(r, lo(r.range), hi(r.range)),
        r.first_description matches Some(d) ==> hi(d) == hi(r.range),
        r.type_info is None ==> leading_entry_ok(r.name, r.colon, r.first_description, r.range),
        entry_split(
            cursor.bytes(),
            crate::strs::trim_lo(cursor.bytes(), cursor.span(cursor.pos()).0, cursor.span(cursor.pos()).1),
            crate::strs::trim_hi(cursor.bytes(), cursor.span(cursor.pos()).0, cursor.span(cursor.pos()).1),
            parse_type,
            r,
        ),
{
    let b = cursor.source().as_bytes();
    let (s, e) = line_content(cursor, cursor.line());
    // --- Bracket entry: `name (type): desc` and variants ---
    if parse_type {
        if let Some(bp) = find_entry_open_bracket_in(b, s, e) {
            let name_end = skip_ws_backward(b, s, bp);
            let name_span = TextRange::from_usizes(s, name_end);
            let open_bracket = TextRange::from_usizes(bp, bp + 1);
            let (type_lo, type_hi, close_bracket, colon, first_description) = match find_matching_close_in(
                b,
                bp,
                e,
            ) {
                Some(cp) => {
                    proof {
                        assert(close_at(b@, bp as int, cp as int));
                        assert forall|j: int| bp + 1 <= j < cp implies !#[trigger] close_at(b@, bp as int, j) by {
                            let p = |j: int| b@[j] == crate::parse::scan::closer_of(b@[bp as int]) && crate::parse::scan::same_depth(b@, b@[bp as int], bp + 1, j) == 1;
                            assert(!p(j));
                        }
                    }
                    let cb = Some(TextRange::from_usizes(cp, cp + 1));
                    let a = skip_ws_forward(b, cp + 1, e);
                    let t = if a < e && b[a] == 58u8 {
                        let (ds, de) = trim_window(b, a + 1, e);
                        let desc = if ds < de {
                            Some(TextRange::from_usizes(ds, de))
                        } else {
                            None
                        };
                        (bp + 1, cp, cb, Some(TextRange::from_usizes(a, a + 1)), desc)
                    } else if a < e {
                        (bp + 1, cp, cb, None, Some(TextRange::from_usizes(a, e)))
                    } else {
                        (bp + 1, cp, cb, None, None)
                    };
                    proof {
                        assert(bracket_tail(b@, bp as int, e as int, t.2, t.3, t.4));
                    }
                    t
                },
                None => {
                    proof {
                        assert forall|j: int| bp + 1 <= j < e implies !#[trigger] close_at(b@, bp as int, j) by {
                            let p = |j: int| b@[j] == crate::parse::scan::closer_of(b@[bp as int]) && crate::parse::scan::same_depth(b@, b@[bp as int], bp + 1, j) == 1;
                            assert(!p(j));
                        }
                    }
                    let t = match find_colon_ignoring_parens_in(b, bp + 1, e) {
                        Some(c) => {
                            proof {
                                assert(np_colon_at(b@, bp as int, c as int));
                                assert forall|j: int| bp + 1 <= j < c implies !#[trigger] np_colon_at(b@, bp as int, j) by {
                                    let p = |j: int| b@[j] == 58u8 && crate::parse::scan::depth_np_at(b@, bp + 1, j) == 0;
                                    assert(!p(j));
                                }
                            }
                            let (ds, de) = trim_window(b, c + 1, e);
                            let desc = if ds < de {
                                Some(TextRange::from_usizes(ds, de))
                            } else {
                                None
                            };
                            (bp + 1, c, None, Some(TextRange::from_usizes(c, c + 1)), desc)
                        },
                        None => {
                            proof {
                                assert forall|j: int| bp + 1 <= j < e implies !#[trigger] np_colon_at(b@, bp as int, j) by {
                                    let p = |j: int| b@[j] == 58u8 && crate::parse::scan::depth_np_at(b@, bp + 1, j) == 0;
                                    assert(!p(j));
                                }
                            }
                            (bp + 1, e, None, None, None)
                        },
                    };
                    proof {
                        assert(bracket_tail(b@, bp as int, e as int, t.2, t.3, t.4));
                    }
                    t
                },
            };
            proof {
                assert(crate::parse::scan::is_open(b@[bp as int]));
                assert(bracket_tail(b@, bp as int, e as int, close_bracket, colon, first_description));
                assert(type_hi == type_end(close_bracket, colon, e as int));
                assert(type_lo == bp + 1 && type_lo <= type_hi <= e);
                assert(close_bracket matches Some(cb) ==> lo(cb) == type_hi && hi(cb) == type_hi + 1);
                assert(colon matches Some(c) ==> type_hi <= lo(c) && hi(c) == lo(c) + 1 && hi(c) <= e);
                assert(first_description matches Some(d) ==> type_hi <= lo(d) <= hi(d) <= e);
                assert(first_description matches Some(d) ==> (colon matches Some(c) ==> hi(c) <= lo(d)));
                assert(first_description matches Some(d) ==> (close_bracket matches Some(cb) ==> hi(cb) <= lo(d)));
                assert(colon matches Some(c) ==> (close_bracket matches Some(cb) ==> hi(cb) <= lo(c)));
            }
            let (ts, te) = trim_window(b, type_lo, type_hi);
            let scan = scan_markers_in(b, ts, te, true);
            proof {
                lemma_markers_in(b@, ts as int, te as int, crate::parse::scan::seg_count(b@, ts as int, te as int), true);
            }
            let type_span = if scan.clean_end > ts {
                Some(TextRange::from_usizes(ts, scan.clean_end))
            } else {
                None
            };
            let mut commas: Vec<TextRange> = Vec::new();
            let mut i: usize = 0;
            while i < scan.commas.len()
                invariant
                    i <= scan.commas@.len(),
                    forall|k: int| 0 <= k < scan.commas@.len() ==> #[trigger] scan.commas@[k] < te,
                    forall|k: int| 0 <= k < scan.commas@.len() ==> ts <= #[trigger] scan.commas@[k],
                    te <= b@.len(),
                    b@.len() < u32::MAX,
                    commas@.len() == i,
                    forall|k: int|
                        0 <= k < i ==> lo(#[trigger] commas@[k]) == scan.commas@[k] && hi(commas@[k]) == scan.commas@[k]
                            + 1,
                decreases scan.commas@.len() - i,
            {
                let c = scan.commas[i];
                commas.push(TextRange::from_usizes(c, c + 1));
                i = i + 1;
            }
            let markers = marker_syntax_elements(&scan.markers);
            let range_end = match first_description {
                Some(d) => d.end(),
                None => match colon {
                    Some(c) => c.end(),
                    None => match close_bracket {
                        Some(cb) => cb.end(),
                        None => crate::text::TextSize::from_usize(e),
                    },
                },
            };
            let ti = TypeInfo { open_bracket, type_range: type_span, close_bracket, commas, markers };
            proof {
                let z = range_end@ as int;
                assert(z >= type_hi);
                assert(z <= e);
                assert forall|k: int| 0 <= k < ti.markers@.len() implies range_in(
                    (#[trigger] ti.markers@[k]).erange(),
                    s as int,
                    z,
                ) && elem_placed(ti.markers@[k]) by {
                    assert(crate::parse::scan::marker_in(scan.markers@[k], ts as int, te as int));
                }
                assert forall|k: int| 0 <= k < ti.commas@.len() implies range_in(#[trigger] ti.commas@[k], s as int, z) by {
                    assert(lo(commas@[k]) == scan.commas@[k] && hi(commas@[k]) == scan.commas@[k] + 1);
                }
            }
            return EntryHeader {
                range: TextRange::new(name_span.start(), range_end),
                name: name_span,
                type_info: Some(ti),
                colon,
                first_description,
            };
        }
    }
    colon_entry_header(b, s, e)
}

/// The colon form of an entry header on the line content `[s, e)`: a
/// name, the first top-level colon and the description after it; or, with
/// no name before the colon or no colon at all, a bare name.
fn colon_entry_header(b: &[u8], s: usize, e: usize) -> (r: EntryHeader)
    requires
        s <= e <= b@.len(),
        e < u32::MAX,
    ensures
        header_on_line(r, s as int, e as int),
        r.type_info is None,
        arg_header_ok(r, lo(r.range), hi(r.range)),
        r.first_description matches Some(d) ==> hi(d) == hi(r.range),
        leading_entry_ok(r.name, r.colon, r.first_description, r.range),
        colon_split(b@, s as int, e as int, r),
{
    let found = find_entry_colon_in(b, s, e);
    if let Some(c) = found {
        let name_end = skip_ws_backward(b, s, c);
        // A colon at the very start (`:param x:`) gives no name: fall
        // through to the bare-name form.
        if name_end > s {
            proof {
                assert forall|j: int| s <= j < c implies !#[trigger] top_colon(b@, s as int, j) by {
                    let p = |j: int| top_colon(b@, s as int, j);
                    assert(!p(j));
                }
            }
            let ds = skip_ws_forward(b, c + 1, e);
            let colon_span = TextRange::from_usizes(c, c + 1);
            let first_description = if ds < e {
                Some(TextRange::from_usizes(ds, e))
            } else {
                None
            };
            let range_end = match first_description {
                Some(d) => d.end(),
                None => colon_span.end(),
            };
            let name_span = TextRange::from_usizes(s, name_end);
            return EntryHeader {
                range: TextRange::new(name_span.start(), range_end),
                name: name_span,
                type_info: None,
                colon: Some(colon_span),
                first_description,
            };
        }
    }
    proof {
        assert forall|c2: int|
            s <= c2 < e && #[trigger] top_colon(b@, s as int, c2) && (forall|j: int|
                s <= j < c2 ==> !#[trigger] top_colon(b@, s as int, j)) implies crate::strs::skip_ws_back(
            b@,
            s as int,
            c2,
        ) == s by {
            let p = |j: int| top_colon(b@, s as int, j);
            assert(p(c2));
            match found {
                Some(c) => {
                    if c < c2 {
                        assert(top_colon(b@, s as int, c as int));
                    } else if c2 < c {
                        assert(!p(c2));
                    }
                },
                None => {
                    assert(!p(c2));
                },
            }
        }
    }
    // --- Fallback: bare name ---
    let name_span = TextRange::from_usizes(s, e);
    EntryHeader { range: name_span, name: name_span, type_info: None, colon: None, first_description: None }
}

// =============================================================================
// Section header parsing
// =============================================================================

/// A byte that may appear in a colon-terminated header name: an ASCII
/// letter or digit, ASCII whitespace, or any byte of a non-ASCII
/// character.
pub open spec fn header_name_byte(c: u8) -> bool {
    (48 <= c && c <= 57) || (65 <= c && c <= 90) || (97 <= c && c <= 122) || c == 32 || c == 9 || c == 10 || c == 12
        || c == 13 || c >= 128
}

/// Recognize a Google section header at the cursor's line: a known section
/// name (any case), optionally followed by a colon; or, with the colon, a
/// registered custom name. The name must start with an ASCII letter.
/// A byte that may stand in a colon-terminated section name.
pub open spec fn name_byte(c: u8) -> bool {
    (48 <= c && c <= 57) || (65 <= c && c <= 90) || (97 <= c && c <= 122) || c == 32 || c == 9 || c == 10 || c == 12
        || c == 13 || c >= 128
}

/// Line `k` of `b` opens a Google section (the custom section names given
/// lowercased): its content, less a trailing colon and the whitespace
/// before it, starts with a letter and is a known section name; with a
/// colon, a custom name also counts, provided every byte of the name may
/// stand in a section name.
pub open spec fn google_header_at(b: Seq<u8>, k: int, custom: Seq<Seq<u8>>) -> bool {
    let s = crate::parse::plain::parser::content_lo(b, k);
    let e = crate::parse::plain::parser::content_hi(b, k);
    let has_colon = e > s && b[e - 1] == 58u8;
    let ne = if has_colon {
        crate::strs::skip_ws_back(b, s, e - 1)
    } else {
        e
    };
    let lower = lower_seq(b.subrange(s, ne));
    let known = !(google_name_kind(lower) is Unknown);
    &&& ne > s
    &&& ((65 <= b[s] && b[s] <= 90) || (97 <= b[s] && b[s] <= 122))
    &&& if has_colon {
        &&& forall|i: int| s <= i < ne ==> name_byte(#[trigger] b[i])
        &&& (known || exists|j: int| 0 <= j < custom.len() && #[trigger] custom[j] == lower)
    } else {
        known
    }
}

pub fn try_parse_section_header(cursor: &LineCursor, options: &ParseOptions) -> (r: Option<SectionHeaderInfo>)
    requires
        cursor.wf(),
    ensures
        r is Some <==> google_header_at(cursor.bytes(), cursor.pos() as int, options.custom_names()),
        r matches Some(h) ==> h.marker is Colon && h.kind == google_name_kind(
            lower_seq(cursor.bytes().subrange(lo(h.name), hi(h.name))),
        ) && lo(h.name) < hi(h.name),
        r matches Some(h) ==> header_info_ok(h) && header_at(h, *cursor),
{
    proof {
        crate::cursor::lemma_line_span(cursor.bytes(), cursor.pos());
        crate::strs::lemma_trim_bounds(cursor.bytes(), cursor.span(cursor.pos()).0, cursor.span(cursor.pos()).1);
    }
    let b = cursor.source().as_bytes();
    let (s, e) = line_content(cursor, cursor.line());
    let has_colon = e > s && b[e - 1] == 58u8;
    let ne = if has_colon {
        skip_ws_backward(b, s, e - 1)
    } else {
        e
    };
    if ne <= s {
        return None;
    }
    let c0 = b[s];
    if !((65 <= c0 && c0 <= 90) || (97 <= c0 && c0 <= 122)) {
        return None;
    }
    let lower = ascii_lower(b, s, ne);
    let kind = SectionName::from_google_name_bytes(lower.as_slice());
    let known = !matches!(kind, SectionName::Unknown);
    let is_header = if has_colon {
        let mut ok = true;
        let mut k = s;
        while k < ne
            invariant
                s <= k <= ne <= b@.len(),
                ok <==> forall|i: int| s <= i < k ==> name_byte(#[trigger] b@[i]),
            decreases ne - k,
        {
            let c = b[k];
            if !((48 <= c && c <= 57) || (65 <= c && c <= 90) || (97 <= c && c <= 122) || c == 32 || c == 9
                || c == 10 || c == 12 || c == 13 || c >= 128) {
                ok = false;
            }
            k = k + 1;
        }
        ok && (known || options.is_custom_section(lower.as_slice()))
    } else {
        known
    };
    if !is_header {
        return None;
    }
    let colon = if has_colon {
        Some(TextRange::from_usizes(e - 1, e))
    } else {
        None
    };
    Some(
        SectionHeaderInfo {
            range: TextRange::from_usizes(s, e),
            kind,
            name: TextRange::from_usizes(s, ne),
            marker: HeaderMarker::Colon(colon),
            indent_columns: cursor.current_indent_columns(),
        },
    )
}

// =============================================================================
// Node builders
// =============================================================================

/// Split a `NAME` range on commas into one `NAME` token per non-empty part
/// with separator `COMMA` tokens between them; a single `NAME` over the
/// whole range when no part has content.
pub fn push_comma_separated_names(children: &mut Vec<SyntaxElement>, name: TextRange, source: &str)
    ensures
        final(children)@.len() > old(children)@.len(),
        final(children)@.subrange(0, old(children)@.len() as int) == old(children)@,
        lo(name) <= hi(name) ==> elems_in(
            final(children)@.subrange(old(children)@.len() as int, final(children)@.len() as int),
            lo(name),
            hi(name),
        ),
        forall|k: int| old(children)@.len() <= k < final(children)@.len() ==> (#[trigger] final(children)@[k]) is Token,
{
    let b = source.as_bytes();
    let s = name.start().to_usize();
    let mut e = name.end().to_usize();
    if e > b.len() {
        e = b.len();
    }
    let mut tokens: Vec<SyntaxElement> = Vec::new();
    let mut pushed = false;
    let mut part = s;
    while part <= e
        invariant_except_break
            elems_in(tokens@, s as int, part as int),
            part > e ==> tokens@.len() == 0,
        invariant
            e <= b@.len(),
            e <= u32::MAX,
            e <= hi(name),
            s == lo(name),
            s <= part,
            pushed ==> tokens@.len() > 0,
            forall|k: int| 0 <= k < tokens@.len() ==> (#[trigger] tokens@[k]) is Token,
        ensures
            elems_in(tokens@, s as int, e as int),
        decreases e + 1 - part,
    {
        // The part [part, q) ends at the next comma or at the end.
        let mut q = part;
        while q < e && b[q] != 44u8
            invariant
                part <= q <= e,
                e <= b@.len(),
            decreases e - q,
        {
            q = q + 1;
        }
        let (ts, te) = trim_window(b, part, q);
        proof {
            lemma_elems_widen(tokens@, s as int, part as int, s as int, q as int);
        }
        if ts < te {
            let t = tok(SyntaxKind::NAME, TextRange::from_usizes(ts, te));
            proof {
                if tokens@.len() > 0 {
                    assert(range_in(tokens@.last().erange(), s as int, part as int));
                }
                lemma_elems_push(tokens@, t, s as int, q as int);
            }
            tokens.push(t);
            pushed = true;
        }
        if q < e {
            let c = tok(SyntaxKind::COMMA, TextRange::from_usizes(q, q + 1));
            proof {
                lemma_elems_widen(tokens@, s as int, q as int, s as int, q as int + 1);
                if tokens@.len() > 0 {
                    assert(range_in(tokens@.last().erange(), s as int, q as int));
                }
                lemma_elems_push(tokens@, c, s as int, q as int + 1);
            }
            tokens.push(c);
        }
        if q >= e {
            break;
        }
        part = q + 1;
    }
    let ghost before = children@;
    let ghost tv = tokens@;
    if pushed {
        proof {
            assert(tokens@.len() > 0);
        }
        children.append(&mut tokens);
        proof {
            assert(children@.subrange(before.len() as int, children@.len() as int) =~= tv);
            lemma_elems_widen(tv, s as int, e as int, lo(name), hi(name));
        }
    } else {
        let t = tok(SyntaxKind::NAME, name);
        children.push(t);
        proof {
            assert(children@.subrange(before.len() as int, children@.len() as int) =~= seq![t]);
        }
    }
    proof {
        assert(children@.subrange(0, before.len() as int) =~= before);
    }
}

/// Parsing behaviour of an arg-like entry.
#[derive(Clone, Copy, PartialEq, Eq, Structural)]
pub enum ArgRole {
    /// Args-like entry: comma-separated names, bracketed type.
    Arg,
    /// Attributes entry: comma-separated names, bracketed type.
    Attribute,
    /// Methods entry: whole name, no type parsing.
    Method,
}

/// No element of `s` is a `DESCRIPTION` node.
pub open spec fn no_desc_kind(s: Seq<SyntaxElement>) -> bool {
    forall|k: int| 0 <= k < s.len() ==> !node_of(#[trigger] s[k], SyntaxKind::DESCRIPTION)
}

/// `e` is a token of `kind` at `range`.
pub open spec fn tok_at(e: SyntaxElement, kind: SyntaxKind, range: TextRange) -> bool {
    e matches SyntaxElement::Token(t) && t.tkind() == kind && t.trange() == range
}

/// `s` holds a token of `kind` at `range`.
pub open spec fn has_tok(s: Seq<SyntaxElement>, kind: SyntaxKind, range: TextRange) -> bool {
    exists|i: int| 0 <= i < s.len() && tok_at(#[trigger] s[i], kind, range)
}

/// The tokens an arg-like entry carries from its header: the name of a
/// method, the brackets and the type of a bracketed type, and the colon.
pub open spec fn arg_tokens_ok(role: ArgRole, h: EntryHeader, s: Seq<SyntaxElement>) -> bool {
    &&& role == ArgRole::Method ==> has_tok(s, SyntaxKind::NAME, h.name)
    &&& h.colon matches Some(c) ==> has_tok(s, SyntaxKind::COLON, c)
    &&& h.type_info matches Some(ti) ==> {
        &&& has_tok(s, SyntaxKind::OPEN_BRACKET, ti.open_bracket)
        &&& ti.type_range matches Some(t) ==> has_tok(s, SyntaxKind::TYPE, t)
        &&& ti.close_bracket matches Some(cb) ==> has_tok(s, SyntaxKind::CLOSE_BRACKET, cb)
    }
}

/// A token kept by a reordering of its sequence is still there.
proof fn lemma_has_tok_kept(u: Seq<SyntaxElement>, s: Seq<SyntaxElement>, i: int, kind: SyntaxKind, range: TextRange)
    requires
        u.to_multiset() == s.to_multiset(),
        0 <= i < u.len(),
        tok_at(u[i], kind, range),
    ensures
        has_tok(s, kind, range),
{
    broadcast use vstd::seq_lib::group_to_multiset_ensures;

    assert(u.contains(u[i]));
    assert(u.to_multiset().count(u[i]) > 0);
    assert(s.contains(u[i]));
    let j = choose|j: int| 0 <= j < s.len() && s[j] == u[i];
    assert(tok_at(s[j], kind, range));
}

/// A token stays when an element is appended.
proof fn lemma_has_tok_push(s: Seq<SyntaxElement>, x: SyntaxElement, kind: SyntaxKind, range: TextRange)
    requires
        has_tok(s, kind, range),
    ensures
        has_tok(s.push(x), kind, range),
{
    let i = choose|i: int| 0 <= i < s.len() && tok_at(#[trigger] s[i], kind, range);
    assert(s.push(x)[i] == s[i]);
}

/// The header tokens stay when an element is appended.
proof fn lemma_arg_tokens_push(role: ArgRole, h: EntryHeader, s: Seq<SyntaxElement>, x: SyntaxElement)
    requires
        arg_tokens_ok(role, h, s),
    ensures
        arg_tokens_ok(role, h, s.push(x)),
{
    if role == ArgRole::Method {
        lemma_has_tok_push(s, x, SyntaxKind::NAME, h.name);
    }
    if let Some(c) = h.colon {
        lemma_has_tok_push(s, x, SyntaxKind::COLON, c);
    }
    if let Some(ti) = h.type_info {
        lemma_has_tok_push(s, x, SyntaxKind::OPEN_BRACKET, ti.open_bracket);
        if let Some(t) = ti.type_range {
            lemma_has_tok_push(s, x, SyntaxKind::TYPE, t);
        }
        if let Some(cb) = ti.close_bracket {
            lemma_has_tok_push(s, x, SyntaxKind::CLOSE_BRACKET, cb);
        }
    }
}

/// Build an `ENTRY` node for an arg-like entry (arg, attribute, method),
/// children in source order: names, brackets, type, commas, markers and
/// colon sorted by position, then the description, which starts after all
/// of them.
pub fn build_arg_node(role: ArgRole, header: EntryHeader, range: TextRange, source: &str) -> (r: SyntaxNode)
    ensures
        r.nkind() == SyntaxKind::ENTRY,
        r.nrange() == range,
        arg_header_ok(header, lo(range), hi(range)) ==> elem_placed(SyntaxElement::Node(r)) && desc_last(r),
        arg_tokens_ok(role, header, r.kids()),
        header.first_description matches Some(d) ==> r.kids().len() > 0 && (r.kids().last() matches SyntaxElement::Node(
            n,
        ) && n.nkind() == SyntaxKind::DESCRIPTION && n.nrange() == d),
{
    let ghost ok = arg_header_ok(header, lo(range), hi(range));
    let ghost a = lo(range);
    let ghost w = desc_start(header, hi(range));
    let ghost hd = header;
    let mut children: Vec<SyntaxElement> = Vec::new();
    let ghost mut i_name: int = 0;
    let ghost mut i_open: int = 0;
    let ghost mut i_type: int = 0;
    let ghost mut i_close: int = 0;
    let ghost mut i_colon: int = 0;
    if role == ArgRole::Method {
        let t = tok(SyntaxKind::NAME, header.name);
        proof {
            i_name = children@.len() as int;
        }
        children.push(t);
    } else {
        push_comma_separated_names(&mut children, header.name, source);
        proof {
            if ok {
                assert(children@.subrange(0, 0) =~= Seq::<SyntaxElement>::empty());
                assert(children@.subrange(0, children@.len() as int) =~= children@);
                lemma_elems_widen(children@, lo(header.name), hi(header.name), a, w);
            }
        }
    }
    proof {
        if ok {
            assert(members_in(children@, a, w));
        }
        assert(no_desc_kind(children@));
    }
    let has_type = header.type_info.is_some();
    let mut close_end: Option<crate::text::TextSize> = None;
    let mut type_end: Option<crate::text::TextSize> = None;
    match header.type_info {
        Some(ti) => {
            let ghost t0 = ti;
            let x = tok(SyntaxKind::OPEN_BRACKET, ti.open_bracket);
            proof {
                if ok {
                    lemma_members_push(children@, x, a, w);
                }
                i_open = children@.len() as int;
            }
            children.push(x);
            match ti.type_range {
                Some(t) => {
                    let x = tok(SyntaxKind::TYPE, t);
                    proof {
                        if ok {
                            lemma_members_push(children@, x, a, w);
                        }
                        i_type = children@.len() as int;
                    }
                    children.push(x);
                    type_end = Some(t.end());
                },
                None => {
                    // Empty brackets: a zero-length TYPE right after the
                    // opening bracket.
                    let p = ti.open_bracket.end();
                    let x = tok(SyntaxKind::TYPE, TextRange::new(p, p));
                    proof {
                        if ok {
                            lemma_members_push(children@, x, a, w);
                        }
                    }
                    children.push(x);
                },
            }
            match ti.close_bracket {
                Some(cb) => {
                    let x = tok(SyntaxKind::CLOSE_BRACKET, cb);
                    proof {
                        if ok {
                            lemma_members_push(children@, x, a, w);
                        }
                        i_close = children@.len() as int;
                    }
                    children.push(x);
                    close_end = Some(cb.end());
                },
                None => {
                    let p = match ti.type_range {
                        Some(t) => t.end(),
                        None => ti.open_bracket.end(),
                    };
                    let x = tok(SyntaxKind::CLOSE_BRACKET, TextRange::new(p, p));
                    proof {
                        if ok {
                            lemma_members_push(children@, x, a, w);
                        }
                    }
                    children.push(x);
                },
            }
            let ghost pre = children@;
            let mut i: usize = 0;
            while i < ti.commas.len()
                invariant
                    children@.len() >= pre.len(),
                    forall|k: int| 0 <= k < pre.len() ==> children@[k] == pre[k],
                    0 <= i_open < pre.len(),
                    tok_at(pre[i_open], SyntaxKind::OPEN_BRACKET, ti.open_bracket),
                    ti.type_range matches Some(t) ==> 0 <= i_type < pre.len() && tok_at(pre[i_type], SyntaxKind::TYPE, t),
                    ti.close_bracket matches Some(cb) ==> 0 <= i_close < pre.len() && tok_at(
                        pre[i_close],
                        SyntaxKind::CLOSE_BRACKET,
                        cb,
                    ),
                    role == ArgRole::Method ==> 0 <= i_name < pre.len() && tok_at(pre[i_name], SyntaxKind::NAME, hd.name),
                    i <= ti.commas@.len(),
                    t0 == ti,
                    ok ==> type_info_in(ti, a, w),
                    ok ==> members_in(children@, a, w),
                    no_desc_kind(children@),
                decreases ti.commas@.len() - i,
            {
                let x = tok(SyntaxKind::COMMA, ti.commas[i]);
                proof {
                    if ok {
                        lemma_members_push(children@, x, a, w);
                    }
                }
                children.push(x);
                i = i + 1;
            }
            let mut m = ti.markers;
            let ghost before_m = children@;
            let ghost mv = m@;
            proof {
                if ok {
                    lemma_members_concat(children@, m@, a, w);
                }
            }
            children.append(&mut m);
            proof {
                assert(children@ =~= before_m + mv);
                if ok {
                    assert forall|k: int| 0 <= k < children@.len() implies !node_of(
                        #[trigger] children@[k],
                        SyntaxKind::DESCRIPTION,
                    ) by {
                        if k >= before_m.len() {
                            assert(children@[k] == mv[k - before_m.len()]);
                        } else {
                            assert(children@[k] == before_m[k]);
                        }
                    }
                }
            }
        },
        None => {},
    }
    match header.colon {
        Some(c) => {
            let x = tok(SyntaxKind::COLON, c);
            proof {
                if ok {
                    lemma_members_push(children@, x, a, w);
                }
                i_colon = children@.len() as int;
            }
            children.push(x);
        },
        None => {
            if has_type && header.first_description.is_some() {
                // Bracket-style entry with text after it but no colon.
                let p = match close_end {
                    Some(p) => p,
                    None => match type_end {
                        Some(p) => p,
                        None => header.name.end(),
                    },
                };
                let x = tok(SyntaxKind::COLON, TextRange::new(p, p));
                proof {
                    if ok {
                        lemma_members_push(children@, x, a, w);
                    }
                }
                children.push(x);
            }
        },
    }
    let ghost unsorted = children@;
    proof {
        assert(ok ==> no_desc_kind(unsorted));
    }
    let mut children = sort_by_position(children);
    proof {
        if role == ArgRole::Method {
            lemma_has_tok_kept(unsorted, children@, i_name, SyntaxKind::NAME, hd.name);
        }
        if let Some(c) = hd.colon {
            lemma_has_tok_kept(unsorted, children@, i_colon, SyntaxKind::COLON, c);
        }
        if let Some(ti) = hd.type_info {
            lemma_has_tok_kept(unsorted, children@, i_open, SyntaxKind::OPEN_BRACKET, ti.open_bracket);
            if let Some(t) = ti.type_range {
                lemma_has_tok_kept(unsorted, children@, i_type, SyntaxKind::TYPE, t);
            }
            if let Some(cb) = ti.close_bracket {
                lemma_has_tok_kept(unsorted, children@, i_close, SyntaxKind::CLOSE_BRACKET, cb);
            }
        }
        assert(arg_tokens_ok(role, hd, children@));
    }
    proof {
        if ok {
            lemma_sorted_placed(unsorted, children@, a, w);
            lemma_elems_widen(children@, a, w, a, hi(range));
            assert forall|k: int| 0 <= k < children@.len() implies !node_of(
                #[trigger] children@[k],
                SyntaxKind::DESCRIPTION,
            ) by {
                broadcast use vstd::seq_lib::group_to_multiset_ensures;

                assert(children@.to_multiset().count(children@[k]) > 0);
                assert(unsorted.contains(children@[k]));
                let j = choose|j: int| 0 <= j < unsorted.len() && unsorted[j] == children@[k];
                assert(!node_of(unsorted[j], SyntaxKind::DESCRIPTION));
            }
        }
    }
    let ghost sorted = children@;
    match header.first_description {
        Some(d) => {
            let x = SyntaxElement::Node(text_block_single(SyntaxKind::DESCRIPTION, d));
            proof {
                if ok {
                    if sorted.len() > 0 {
                        assert(range_in(sorted.last().erange(), a, w));
                    }
                    lemma_elems_push(sorted, x, a, hi(range));
                }
            }
            children.push(x);
        },
        None => match header.colon {
            Some(c) => {
                let x = SyntaxElement::Node(missing_text_block(SyntaxKind::DESCRIPTION, c.end()));
                proof {
                    if ok {
                        if sorted.len() > 0 {
                            assert(range_in(sorted.last().erange(), a, w));
                        }
                        lemma_elems_push(sorted, x, a, hi(range));
                    }
                }
                children.push(x);
            },
            None => {},
        },
    }
    proof {
        if children@.len() > sorted.len() {
            assert(children@ == sorted.push(children@.last()));
            lemma_arg_tokens_push(role, hd, sorted, children@.last());
        }
    }
    let node = SyntaxNode::new(SyntaxKind::ENTRY, range, children);
    proof {
        if ok {
            assert forall|k: int| 0 <= k < node.kids().len() - 1 implies !node_of(
                #[trigger] node.kids()[k],
                SyntaxKind::DESCRIPTION,
            ) by {
                assert(node.kids()[k] == sorted[k]);
            }
        }
    }
    node
}

/// Build the `ENTRY` node of a "See Also" item: comma-separated names, the
/// colon and the description.
pub fn build_see_also_node(header: EntryHeader, range: TextRange, source: &str) -> (r: SyntaxNode)
    ensures
        r.nkind() == SyntaxKind::ENTRY,
        r.nrange() == range,
        leading_entry_ok(header.name, header.colon, header.first_description, range) ==> elem_placed(
            SyntaxElement::Node(r),
        ) && desc_last(r),
{
    let ghost ok = leading_entry_ok(header.name, header.colon, header.first_description, range);
    let ghost a = lo(range);
    let ghost z = hi(range);
    let mut children: Vec<SyntaxElement> = Vec::new();
    push_comma_separated_names(&mut children, header.name, source);
    proof {
        if ok {
            assert(children@.subrange(0, 0) =~= Seq::<SyntaxElement>::empty());
            assert(children@.subrange(0, children@.len() as int) =~= children@);
            lemma_elems_widen(children@, lo(header.name), hi(header.name), a, hi(header.name));
        }
    }
    let ghost names = children@;
    match header.colon {
        Some(c) => {
            let x = tok(SyntaxKind::COLON, c);
            proof {
                if ok {
                    lemma_elems_widen(children@, a, hi(header.name), a, z);
                    assert(range_in(children@.last().erange(), a, hi(header.name)));
                    lemma_elems_push(children@, x, a, z);
                }
            }
            children.push(x);
        },
        None => {
            proof {
                if ok {
                    lemma_elems_widen(children@, a, hi(header.name), a, z);
                }
            }
        },
    }
    let ghost w: int = match header.colon {
        Some(c) => hi(c),
        None => hi(header.name),
    };
    proof {
        if ok {
            assert forall|k: int| 0 <= k < children@.len() implies lo((#[trigger] children@[k]).erange()) <= w by {
                if k < names.len() {
                    assert(range_in(names[k].erange(), a, hi(header.name)));
                    assert(children@[k] == names[k]);
                }
            }
        }
    }
    let ghost mid = children@;
    match header.first_description {
        Some(d) => {
            let x = SyntaxElement::Node(text_block_single(SyntaxKind::DESCRIPTION, d));
            proof {
                if ok {
                    assert(lo(mid.last().erange()) <= w);
                    lemma_elems_push(children@, x, a, z);
                }
            }
            children.push(x);
        },
        None => match header.colon {
            Some(c) => {
                let x = SyntaxElement::Node(missing_text_block(SyntaxKind::DESCRIPTION, c.end()));
                proof {
                    if ok {
                        assert(lo(mid.last().erange()) <= w);
                        lemma_elems_push(children@, x, a, z);
                    }
                }
                children.push(x);
            },
            None => {},
        },
    }
    let node = SyntaxNode::new(SyntaxKind::ENTRY, range, children);
    proof {
        if ok {
            assert forall|k: int| 0 <= k < node.kids().len() - 1 implies !node_of(
                #[trigger] node.kids()[k],
                SyntaxKind::DESCRIPTION,
            ) by {
                assert(node.kids()[k] == mid[k]);
                if k < names.len() {
                    assert(mid[k] == names[k]);
                }
            }
        }
    }
    node
}

/// Parse the entry header at the cursor and its range: from the line's
/// content start to the end of the description (or of the header).
fn parse_entry(cursor: &LineCursor, parse_type: bool) -> (r: (EntryHeader, TextRange))
    requires
        cursor.wf(),
    ensures
        !parse_type ==> r.0.type_info is None,
        arg_header_ok(r.0, lo(r.1), hi(r.1)),
        r.0.type_info is None ==> leading_entry_ok(r.0.name, r.0.colon, r.0.first_description, r.1),
        range_in(r.1, cur_cs(*cursor), cur_ce(*cursor)),
{
    let header = parse_entry_header(cursor, parse_type);
    let (s, _e) = line_content(cursor, cursor.line());
    let end = match header.first_description {
        Some(d) => d.end(),
        None => header.range.end(),
    };
    let range = TextRange::new(crate::text::TextSize::from_usize(s), end);
    proof {
        assert(lo(range) == lo(header.range) && hi(range) == hi(header.range));
    }
    (header, range)
}

// =============================================================================
// Per-line section body processors
// =============================================================================

/// One line of an Args / Attributes / Methods body.
pub fn process_arg_line(
    cursor: &LineCursor,
    role: ArgRole,
    nodes: &mut Vec<SyntaxElement>,
    entry_indent: &mut Option<usize>,
)
    requires
        cursor.wf(),
    ensures
        forall|a: int| #[trigger] line_step_ok(old(nodes)@, final(nodes)@, a, cur_cs(*cursor), cur_ce(*cursor)),
{
    if entry_continuation_guard(cursor, nodes, entry_indent) {
        return;
    }
    let (header, range) = parse_entry(cursor, role != ArgRole::Method);
    let node = build_arg_node(role, header, range, cursor.source());
    proof {
        assert forall|a: int| #[trigger] line_step_ok(nodes@, nodes@.push(SyntaxElement::Node(node)), a, cur_cs(*cursor), cur_ce(*cursor)) by {
            lemma_line_push(nodes@, SyntaxElement::Node(node), a, cur_cs(*cursor), cur_ce(*cursor));
        }
    }
    nodes.push(SyntaxElement::Node(node));
}

/// One line of a Raises / Warns body: a `TYPE`-led entry (`Exc: desc`).
pub fn process_typed_entry_line(cursor: &LineCursor, nodes: &mut Vec<SyntaxElement>, entry_indent: &mut Option<usize>)
    requires
        cursor.wf(),
    ensures
        forall|a: int| #[trigger] line_step_ok(old(nodes)@, final(nodes)@, a, cur_cs(*cursor), cur_ce(*cursor)),
{
    if entry_continuation_guard(cursor, nodes, entry_indent) {
        return;
    }
    let (header, range) = parse_entry(cursor, false);
    let node = build_leading_token_entry(SyntaxKind::TYPE, header.name, header.colon, header.first_description, range);
    proof {
        assert forall|a: int| #[trigger] line_step_ok(nodes@, nodes@.push(SyntaxElement::Node(node)), a, cur_cs(*cursor), cur_ce(*cursor)) by {
            lemma_line_push(nodes@, SyntaxElement::Node(node), a, cur_cs(*cursor), cur_ce(*cursor));
        }
    }
    nodes.push(SyntaxElement::Node(node));
}

/// One line of a See Also body.
pub fn process_see_also_line(cursor: &LineCursor, nodes: &mut Vec<SyntaxElement>, entry_indent: &mut Option<usize>)
    requires
        cursor.wf(),
    ensures
        forall|a: int| #[trigger] line_step_ok(old(nodes)@, final(nodes)@, a, cur_cs(*cursor), cur_ce(*cursor)),
{
    if entry_continuation_guard(cursor, nodes, entry_indent) {
        return;
    }
    let (header, range) = parse_entry(cursor, false);
    let node = build_see_also_node(header, range, cursor.source());
    proof {
        assert forall|a: int| #[trigger] line_step_ok(nodes@, nodes@.push(SyntaxElement::Node(node)), a, cur_cs(*cursor), cur_ce(*cursor)) by {
            lemma_line_push(nodes@, SyntaxElement::Node(node), a, cur_cs(*cursor), cur_ce(*cursor));
        }
    }
    nodes.push(SyntaxElement::Node(node));
}

/// Returns / Yields body state: the whole body collapses into one `ENTRY`
/// (`type: description` on the first line, every later line extending the
/// description).
pub struct ReturnsState {
    pub range: Option<TextRange>,
    pub return_type: Option<TextRange>,
    pub colon: Option<TextRange>,
    pub description: Option<TextRange>,
}

/// The pieces of a collapsed Returns entry lie in order inside its range:
/// the type from the start, then the colon, then the description.
pub open spec fn returns_ok(st: ReturnsState) -> bool {
    match st.range {
        None => st.return_type is None && st.colon is None && st.description is None,
        Some(r) => {
            let after_type = match st.return_type {
                Some(t) => hi(t),
                None => lo(r),
            };
            let after_colon = match st.colon {
                Some(c) => hi(c),
                None => after_type,
            };
            &&& lo(r) <= hi(r)
            &&& (st.return_type matches Some(t) ==> range_in(t, lo(r), hi(r)))
            &&& (st.colon matches Some(c) ==> range_in(c, after_type, hi(r)))
            &&& (st.description matches Some(d) ==> range_in(d, after_colon, hi(r)))
        },
    }
}

impl ReturnsState {
    /// The empty state.
    pub fn new() -> (r: Self)
        ensures
            r.range is None,
            returns_ok(r),
    {
        ReturnsState { range: None, return_type: None, colon: None, description: None }
    }

    /// Take in one body line.
    pub fn process_line(&mut self, cursor: &LineCursor)
        requires
            cursor.wf(),
        ensures
            final(self).range is Some,
            returns_ok(*old(self)) && (old(self).range matches Some(r) ==> hi(r) <= cur_cs(*cursor)) ==> returns_ok(
                *final(self),
            ) && hi(final(self).range->0) == cur_ce(*cursor) && (old(self).range matches Some(r) ==> lo(
                final(self).range->0,
            ) == lo(r)) && (old(self).range is None ==> lo(final(self).range->0) == cur_cs(*cursor)),
    {
        let b = cursor.source().as_bytes();
        let (s, e) = line_content(cursor, cursor.line());
        let trimmed = TextRange::from_usizes(s, e);
        match self.range {
            None => {
                self.range = Some(trimmed);
                match find_entry_colon_in(b, s, e) {
                    Some(c) => {
                        let te = skip_ws_backward(b, s, c);
                        let ds = skip_ws_forward(b, c + 1, e);
                        self.return_type = Some(TextRange::from_usizes(s, te));
                        self.colon = Some(TextRange::from_usizes(c, c + 1));
                        self.description = if ds < e {
                            Some(TextRange::from_usizes(ds, e))
                        } else {
                            None
                        };
                    },
                    None => {
                        self.description = Some(trimmed);
                    },
                }
            },
            Some(r) => {
                let mut r = r;
                r.extend(trimmed);
                self.range = Some(r);
                match self.description {
                    Some(d) => {
                        let mut d = d;
                        d.extend(trimmed);
                        self.description = Some(d);
                    },
                    None => {
                        self.description = Some(trimmed);
                    },
                }
            },
        }
    }

    /// The collapsed `ENTRY`, if any line was taken in.
    pub fn into_node(self, source: &str) -> (r: Option<SyntaxNode>)
        ensures
            r is Some <==> self.range is Some,
            r matches Some(n) ==> n.nkind() == SyntaxKind::ENTRY && n.nrange() == self.range->0,
            returns_ok(self) ==> (r matches Some(n) ==> elem_placed(SyntaxElement::Node(n)) && desc_last(n)),
    {
        let ghost ok = returns_ok(self);
        let range = match self.range {
            Some(r) => r,
            None => return None,
        };
        let ghost a = lo(range);
        let ghost z = hi(range);
        let mut children: Vec<SyntaxElement> = Vec::new();
        match self.return_type {
            Some(t) => {
                let x = tok(SyntaxKind::TYPE, t);
                proof {
                    if ok {
                        lemma_elems_push(children@, x, a, z);
                    }
                }
                children.push(x);
            },
            None => {},
        }
        let ghost after_type: int = match self.return_type {
            Some(t) => hi(t),
            None => a,
        };
        proof {
            if ok {
                assert forall|k: int| 0 <= k < children@.len() implies lo((#[trigger] children@[k]).erange())
                    <= after_type by {}
            }
        }
        match self.colon {
            Some(c) => {
                let x = tok(SyntaxKind::COLON, c);
                proof {
                    if ok {
                        lemma_elems_push(children@, x, a, z);
                    }
                }
                children.push(x);
            },
            None => {},
        }
        let ghost after_colon: int = match self.colon {
            Some(c) => hi(c),
            None => after_type,
        };
        proof {
            if ok {
                assert forall|k: int| 0 <= k < children@.len() implies lo((#[trigger] children@[k]).erange())
                    <= after_colon by {}
            }
        }
        let ghost mid = children@;
        match self.description {
            Some(d) => {
                let x = SyntaxElement::Node(build_text_block(SyntaxKind::DESCRIPTION, d, source));
                proof {
                    if ok {
                        if mid.len() > 0 {
                            assert(lo(mid.last().erange()) <= after_colon);
                        }
                        lemma_elems_push(children@, x, a, z);
                    }
                }
                children.push(x);
            },
            None => {},
        }
        let node = SyntaxNode::new(SyntaxKind::ENTRY, range, children);
        proof {
            assert forall|k: int| 0 <= k < node.kids().len() - 1 implies !node_of(
                #[trigger] node.kids()[k],
                SyntaxKind::DESCRIPTION,
            ) by {
                assert(node.kids()[k] == mid[k]);
            }
        }
        Some(node)
    }
}

// =============================================================================
// Main parser
// =============================================================================

/// Parse a Google-style docstring.
pub fn parse_google(input: &str) -> (r: Parsed)
    requires
        input.spec_bytes().len() < u32::MAX,
        input.spec_bytes().len() <= usize::MAX / 8,
    ensures
        r.text() == input@,
        r.style_of() == Style::Google,
        r.root_node().nkind() == SyntaxKind::DOCUMENT,
        lo(r.root_node().nrange()) == 0,
        hi(r.root_node().nrange()) == input.spec_bytes().len(),
        r.root_node().well_placed(),
        crate::parse::dispatch::has_content_line(input.spec_bytes()) <==> crate::parse::trivia::node_marks(
            r.root_node().kids(),
        ).len() > 0,
        forall|k: int|
            0 <= k < crate::syntax::child_nodes(r.root_node().kids(), SyntaxKind::SECTION).len()
                ==> crate::parse::unified::has_header_name(
                #[trigger] crate::syntax::child_nodes(r.root_node().kids(), SyntaxKind::SECTION)[k],
            ),
        !crate::parse::dispatch::has_content_line(input.spec_bytes()) ==> forall|q: int|
            0 <= q < r.root_node().kids().len() ==> crate::syntax::kind_is_trivia((#[trigger] r.root_node().kids()[q]).ekind()),
        crate::parse::dispatch::covered_upto(
            input.spec_bytes(),
            crate::cursor::count_lines(input.spec_bytes()) as int,
            crate::parse::trivia::node_marks(r.root_node().kids()),
        ),
        crate::parse::dispatch::marks_valid(input.spec_bytes(), crate::parse::trivia::node_marks(r.root_node().kids())),
        ({
            let b = input.spec_bytes();
            let f = crate::parse::plain::parser::next_content(b, 0);
            let m = crate::parse::trivia::node_marks(r.root_node().kids());
            f < crate::cursor::count_lines(b) && crate::parse::dispatch::header_line(true, Seq::<Seq<u8>>::empty(), b, f) ==> {
                &&& m.len() > 0
                &&& m[0].0 == SyntaxKind::SECTION
                &&& lo(m[0].1) == crate::parse::plain::parser::content_lo(b, f)
            }
        }),
        ({
            let b = input.spec_bytes();
            let f = crate::parse::plain::parser::next_content(b, 0);
            let m = crate::parse::trivia::node_marks(r.root_node().kids());
            f < crate::cursor::count_lines(b) && !crate::parse::dispatch::header_line(true, Seq::<Seq<u8>>::empty(), b, f) ==> {
                &&& m.len() > 0
                &&& m[0].0 == SyntaxKind::SUMMARY
                &&& lo(m[0].1) == crate::parse::plain::parser::content_lo(b, f)
                &&& hi(m[0].1) == crate::parse::plain::parser::content_hi(
                    b,
                    crate::parse::dispatch::summary_last(true, Seq::<Seq<u8>>::empty(), b, f),
                )
            }
        }),
{
    let options = ParseOptions::new();
    proof {
        assert(options.custom_names() =~= Seq::<Seq<u8>>::empty());
    }
    parse_google_with(input, &options)
}

/// Parse a Google-style docstring with explicit [`ParseOptions`] (e.g.
/// registered custom sections).
pub fn parse_google_with(input: &str, options: &ParseOptions) -> (r: Parsed)
    requires
        input.spec_bytes().len() < u32::MAX,
        input.spec_bytes().len() <= usize::MAX / 8,
    ensures
        r.text() == input@,
        r.style_of() == Style::Google,
        r.root_node().nkind() == SyntaxKind::DOCUMENT,
        lo(r.root_node().nrange()) == 0,
        hi(r.root_node().nrange()) == input.spec_bytes().len(),
        r.root_node().well_placed(),
        crate::parse::dispatch::has_content_line(input.spec_bytes()) <==> crate::parse::trivia::node_marks(
            r.root_node().kids(),
        ).len() > 0,
        forall|k: int|
            0 <= k < crate::syntax::child_nodes(r.root_node().kids(), SyntaxKind::SECTION).len()
                ==> crate::parse::unified::has_header_name(
                #[trigger] crate::syntax::child_nodes(r.root_node().kids(), SyntaxKind::SECTION)[k],
            ),
        !crate::parse::dispatch::has_content_line(input.spec_bytes()) ==> forall|q: int|
            0 <= q < r.root_node().kids().len() ==> crate::syntax::kind_is_trivia((#[trigger] r.root_node().kids()[q]).ekind()),
        crate::parse::dispatch::covered_upto(
            input.spec_bytes(),
            crate::cursor::count_lines(input.spec_bytes()) as int,
            crate::parse::trivia::node_marks(r.root_node().kids()),
        ),
        crate::parse::dispatch::marks_valid(input.spec_bytes(), crate::parse::trivia::node_marks(r.root_node().kids())),
        ({
            let b = input.spec_bytes();
            let f = crate::parse::plain::parser::next_content(b, 0);
            let m = crate::parse::trivia::node_marks(r.root_node().kids());
            f < crate::cursor::count_lines(b) && crate::parse::dispatch::header_line(true, options.custom_names(), b, f) ==> {
                &&& m.len() > 0
                &&& m[0].0 == SyntaxKind::SECTION
                &&& lo(m[0].1) == crate::parse::plain::parser::content_lo(b, f)
            }
        }),
        ({
            let b = input.spec_bytes();
            let f = crate::parse::plain::parser::next_content(b, 0);
            let m = crate::parse::trivia::node_marks(r.root_node().kids());
            f < crate::cursor::count_lines(b) && !crate::parse::dispatch::header_line(true, options.custom_names(), b, f) ==> {
                &&& m.len() > 0
                &&& m[0].0 == SyntaxKind::SUMMARY
                &&& lo(m[0].1) == crate::parse::plain::parser::content_lo(b, f)
                &&& hi(m[0].1) == crate::parse::plain::parser::content_hi(
                    b,
                    crate::parse::dispatch::summary_last(true, options.custom_names(), b, f),
                )
            }
        }),
{
    parse_document(input, &Dialect::Google(options))
}

} // verus!
