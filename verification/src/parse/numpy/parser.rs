//! NumPy-style docstring parser: underlined section headers, `name : type`
//! entries with indented descriptions.

use vstd::prelude::*;
use vstd::string::StringSliceAdditionalSpecFns;

use crate::cursor::LineCursor;
use crate::parse::dispatch::parse_document;
use crate::parse::dispatch::Dialect;
use crate::parse::dispatch::header_at;
use crate::parse::dispatch::header_info_ok;
use crate::parse::dispatch::HeaderMarker;
use crate::parse::dispatch::SectionHeaderInfo;
use crate::parse::kind::numpy_name_kind;
use crate::parse::kind::SectionName;
use crate::parse::scan::bracket_entry_in;
use crate::parse::scan::find_entry_colon_in;
use crate::parse::scan::lemma_markers_in;
use crate::parse::scan::scan_markers_in;
use crate::parse::scan::seg_count;
use crate::parse::utils::build_leading_token_entry;
use crate::parse::utils::entry_continuation_guard;
use crate::parse::utils::line_content;
use crate::parse::utils::marker_syntax_elements;
use crate::parse::utils::cur_ce;
use crate::parse::utils::cur_cs;
use crate::parse::utils::desc_last;
use crate::parse::utils::lemma_line_push;
use crate::parse::utils::lemma_members_concat;
use crate::parse::utils::lemma_members_push;
use crate::parse::utils::lemma_sorted_placed;
use crate::parse::utils::line_step_ok;
use crate::parse::utils::members_in;
use crate::parse::utils::missing_text_block;
use crate::parse::utils::sort_by_position;
use crate::parse::utils::text_block_single;
use crate::parse::utils::tok;
use crate::parse::Style;
use crate::strs::ascii_lower;
use crate::strs::lower_seq;
use crate::strs::skip_ws_backward;
use crate::strs::trim_window;
use crate::parse::google::parser::no_desc_kind;
use crate::syntax::elem_placed;
use crate::syntax::elems_in;
use crate::syntax::lemma_elems_push;
use crate::syntax::lemma_elems_widen;
use crate::syntax::node_of;
use crate::syntax::range_in;
use crate::syntax::Parsed;
use crate::syntax::SyntaxElement;
use crate::syntax::SyntaxKind;
use crate::syntax::SyntaxNode;
use crate::text::hi;
use crate::text::lo;
use crate::text::TextRange;

verus! {

// =============================================================================
// Section detection
// =============================================================================

/// A non-empty run of dashes.
pub open spec fn is_dashes(b: Seq<u8>) -> bool {
    b.len() > 0 && forall|i: int| 0 <= i < b.len() ==> #[trigger] b[i] == 45u8
}

/// Whether the window `[lo, hi)` is a section underline.
pub fn is_underline_in(b: &[u8], lo: usize, hi: usize) -> (r: bool)
    requires
        lo <= hi <= b@.len(),
    ensures
        r == is_dashes(b@.subrange(lo as int, hi as int)),
{
    if lo >= hi {
        return false;
    }
    let mut i = lo;
    while i < hi
        invariant
            lo <= i <= hi <= b@.len(),
            forall|k: int| lo <= k < i ==> b@[k] == 45u8,
        decreases hi - i,
    {
        if b[i] != 45u8 {
            proof {
                assert(b@.subrange(lo as int, hi as int)[i - lo] != 45u8);
            }
            return false;
        }
        i = i + 1;
    }
    true
}

/// Check if a trimmed line is a NumPy-style section underline (only
/// dashes, at least one).
pub fn is_underline(trimmed: &str) -> (r: bool)
    ensures
        r == is_dashes(trimmed.spec_bytes()),
{
    let b = trimmed.as_bytes();
    proof {
        assert(b@.subrange(0, b@.len() as int) =~= b@);
    }
    is_underline_in(b, 0, b.len())
}

/// Line `k` of `b` opens a NumPy section: it holds content, and the next
/// line's content is a run of dashes.
pub open spec fn numpy_header_at(b: Seq<u8>, k: int) -> bool {
    let lo = crate::parse::plain::parser::content_lo(b, k);
    let hi = crate::parse::plain::parser::content_hi(b, k);
    &&& 0 <= k
    &&& k + 1 < crate::cursor::count_lines(b)
    &&& lo < hi
    &&& is_dashes(
        b.subrange(
            crate::parse::plain::parser::content_lo(b, k + 1),
            crate::parse::plain::parser::content_hi(b, k + 1),
        ),
    )
}

/// Try to detect a NumPy-style section header at the cursor's line: a
/// non-empty line immediately followed by a line of dashes. Does not move
/// the cursor.
pub fn try_detect_header(cursor: &LineCursor) -> (r: Option<SectionHeaderInfo>)
    requires
        cursor.wf(),
    ensures
        r is Some <==> numpy_header_at(cursor.bytes(), cursor.pos() as int),
        r matches Some(h) ==> h.marker is Underline && cursor.pos() + 1 < cursor.nlines() && h.kind == numpy_name_kind(
            lower_seq(cursor.bytes().subrange(lo(h.name), hi(h.name))),
        ) && lo(h.name) < hi(h.name),
        r matches Some(h) ==> header_info_ok(h) && header_at(h, *cursor),
{
    proof {
        cursor.lemma_wf();
        crate::cursor::lemma_line_span(cursor.bytes(), cursor.pos());
        crate::cursor::lemma_line_span(cursor.bytes(), cursor.pos() + 1);
        crate::cursor::lemma_span_mono(cursor.bytes(), cursor.pos(), cursor.pos() + 1);
        crate::strs::lemma_trim_bounds(cursor.bytes(), cursor.span(cursor.pos() + 1).0, cursor.span(cursor.pos() + 1).1);
        crate::strs::lemma_trim_bounds(cursor.bytes(), cursor.span(cursor.pos()).0, cursor.span(cursor.pos()).1);
    }
    let b = cursor.source().as_bytes();
    let (s, e) = line_content(cursor, cursor.line());
    if s >= e {
        return None;
    }
    if cursor.line() >= cursor.total_lines() || cursor.total_lines() - cursor.line() < 2 {
        return None;
    }
    let (us, ue) = line_content(cursor, cursor.line() + 1);
    if !is_underline_in(b, us, ue) {
        return None;
    }
    let lower = ascii_lower(b, s, e);
    let kind = SectionName::from_numpy_name_bytes(lower.as_slice());
    Some(
        SectionHeaderInfo {
            range: TextRange::from_usizes(s, ue),
            kind,
            name: TextRange::from_usizes(s, e),
            marker: HeaderMarker::Underline(TextRange::from_usizes(us, ue)),
            indent_columns: cursor.current_indent_columns(),
        },
    )
}

// =============================================================================
// Entry header parsing (`name : type, optional`)
// =============================================================================

/// The pieces of a NumPy entry line, as absolute ranges.
pub struct ParamHeaderParts {
    /// `NAME` and separator `COMMA` tokens, interleaved in source order.
    pub names: Vec<(SyntaxKind, TextRange)>,
    /// Brackets of a Google-style entry (`name (type): desc`), if any.
    pub open_bracket: Option<TextRange>,
    pub close_bracket: Option<TextRange>,
    /// The term colon, if any.
    pub colon: Option<TextRange>,
    /// The clean type (zero-length when the colon has nothing after it).
    pub param_type: Option<TextRange>,
    /// Separator commas after the clean type.
    pub type_commas: Vec<TextRange>,
    /// `OPTIONAL` tokens and `DEFAULT` nodes, one per marker occurrence.
    pub markers: Vec<SyntaxElement>,
    /// The first description line (Google-style entries only).
    pub first_description: Option<TextRange>,
}

/// Name and comma ranges in order within `[a, z]`.
pub open spec fn names_in(names: Seq<(SyntaxKind, TextRange)>, a: int, z: int) -> bool {
    &&& forall|i: int| 0 <= i < names.len() ==> range_in((#[trigger] names[i]).1, a, z)
    &&& forall|i: int, j: int| 0 <= i < j < names.len() ==> hi((#[trigger] names[i]).1) <= lo((#[trigger] names[j]).1)
}

/// Where the description of an entry line starts, or `z` without one.
pub open spec fn parts_w(p: ParamHeaderParts, z: int) -> int {
    match p.first_description {
        Some(d) => lo(d),
        None => z,
    }
}

/// The pieces of an entry line lie within `[a, z]`: everything but the
/// description before where the description starts, the description
/// after it; the markers are well placed and none is a description.
pub open spec fn parts_ok(p: ParamHeaderParts, a: int, z: int) -> bool {
    let w = parts_w(p, z);
    &&& a <= w <= z
    &&& names_in(p.names@, a, w)
    &&& (p.open_bracket matches Some(ob) ==> range_in(ob, a, w))
    &&& (p.close_bracket matches Some(cb) ==> range_in(cb, a, w))
    &&& (p.colon matches Some(c) ==> range_in(c, a, w))
    &&& (p.param_type matches Some(t) ==> range_in(t, a, w))
    &&& (forall|k: int| 0 <= k < p.type_commas@.len() ==> range_in(#[trigger] p.type_commas@[k], a, w))
    &&& members_in(p.markers@, a, w)
    &&& no_desc_kind(p.markers@)
    &&& (p.first_description matches Some(d) ==> range_in(d, w, z))
}

/// Parse a comma-separated name list `[s, e)` into interleaved `NAME` and
/// separator `COMMA` token specs, in source order.
pub fn parse_name_list(b: &[u8], s: usize, e: usize) -> (r: Vec<(SyntaxKind, TextRange)>)
    requires
        s <= e <= b@.len(),
        b@.len() < u32::MAX,
    ensures
        forall|i: int|
            0 <= i < r@.len() ==> s <= lo((#[trigger] r@[i]).1) <= hi(r@[i].1) <= e && (r@[i].0 == SyntaxKind::NAME
                || r@[i].0 == SyntaxKind::COMMA),
        forall|i: int, j: int| 0 <= i < j < r@.len() ==> hi((#[trigger] r@[i]).1) <= lo((#[trigger] r@[j]).1),
{
    let mut names: Vec<(SyntaxKind, TextRange)> = Vec::new();
    let mut part = s;
    loop
        invariant_except_break
            forall|i: int| 0 <= i < names@.len() ==> hi((#[trigger] names@[i]).1) <= part,
        invariant
            s <= part <= e <= b@.len(),
            b@.len() < u32::MAX,
            forall|i: int|
                0 <= i < names@.len() ==> s <= lo((#[trigger] names@[i]).1) <= hi(names@[i].1) <= e && (
                names@[i].0 == SyntaxKind::NAME || names@[i].0 == SyntaxKind::COMMA),
            forall|i: int, j: int| 0 <= i < j < names@.len() ==> hi((#[trigger] names@[i]).1) <= lo((#[trigger] names@[j]).1),
        decreases e - part,
    {
        let mut q = part;
        while q < e && b[q] != 44u8
            invariant
                part <= q <= e <= b@.len(),
            decreases e - q,
        {
            q = q + 1;
        }
        let (ts, te) = trim_window(b, part, q);
        if ts < te {
            names.push((SyntaxKind::NAME, TextRange::from_usizes(ts, te)));
        }
        if q >= e {
            break;
        }
        names.push((SyntaxKind::COMMA, TextRange::from_usizes(q, q + 1)));
        part = q + 1;
    }
    names
}

/// Parse the entry window `[s, e)`: a Google-style `name (type): desc`
/// entry first; otherwise `names : type, markers` split at the term colon;
/// otherwise a bare name list.
pub fn parse_name_and_type_in(b: &[u8], s: usize, e: usize) -> (r: ParamHeaderParts)
    requires
        s <= e <= b@.len(),
        b@.len() < u32::MAX,
    ensures
        r.colon matches Some(c) ==> s <= lo(c) && hi(c) <= e,
        parts_ok(r, s as int, e as int),
{
    match bracket_entry_in(b, s, e) {
        Some(sp) => {
            proof {
                crate::strs::lemma_trim_bounds(b@, sp.open + 1, sp.close as int);
                lemma_markers_in(
                    b@,
                    sp.type_start as int,
                    sp.type_end as int,
                    seg_count(b@, sp.type_start as int, sp.type_end as int),
                    true,
                );
                crate::strs::lemma_skip_back_bounds(b@, s as int, sp.open as int);
                crate::parse::scan::lemma_clean_end_bounds(b@, sp.type_start as int, sp.type_end as int, true);
                crate::strs::lemma_skip_fwd_bounds(b@, sp.close + 1, e as int);
            }
            let names = parse_name_list(b, s, sp.name_end);
            let param_type = if sp.scan.clean_end > sp.type_start {
                Some(TextRange::from_usizes(sp.type_start, sp.scan.clean_end))
            } else {
                None
            };
            let type_commas = comma_ranges(&sp.scan.commas, e);
            let markers = marker_syntax_elements(&sp.scan.markers);
            let colon = match sp.colon {
                Some(c) => Some(TextRange::from_usizes(c, c + 1)),
                None => None,
            };
            let first_description = match sp.desc {
                Some((ds, de)) => {
                    proof {
                        let a = sp.colon->0 as int;
                        crate::strs::lemma_trim_bounds(b@, a + 1, e as int);
                    }
                    Some(TextRange::from_usizes(ds, de))
                },
                None => None,
            };
            ParamHeaderParts {
                names,
                open_bracket: Some(TextRange::from_usizes(sp.open, sp.open + 1)),
                close_bracket: Some(TextRange::from_usizes(sp.close, sp.close + 1)),
                colon,
                param_type,
                type_commas,
                markers,
                first_description,
            }
        },
        None => {
            match find_entry_colon_in(b, s, e) {
                None => {
                    let names = parse_name_list(b, s, e);
                    ParamHeaderParts {
                        names,
                        open_bracket: None,
                        close_bracket: None,
                        colon: None,
                        param_type: None,
                        type_commas: Vec::new(),
                        markers: Vec::new(),
                        first_description: None,
                    }
                },
                Some(c) => {
                    let name_end = skip_ws_backward(b, s, c);
                    let names = parse_name_list(b, s, name_end);
                    let colon = Some(TextRange::from_usizes(c, c + 1));
                    let (ts, te) = trim_window(b, c + 1, e);
                    if ts >= te {
                        // A colon with nothing after it: a zero-length TYPE
                        // right after the colon.
                        return ParamHeaderParts {
                            names,
                            open_bracket: None,
                            close_bracket: None,
                            colon,
                            param_type: Some(TextRange::from_usizes(c + 1, c + 1)),
                            type_commas: Vec::new(),
                            markers: Vec::new(),
                            first_description: None,
                        };
                    }
                    let scan = scan_markers_in(b, ts, te, true);
                    proof {
                        lemma_markers_in(b@, ts as int, te as int, seg_count(b@, ts as int, te as int), true);
                    }
                    let param_type = if scan.clean_end > ts {
                        Some(TextRange::from_usizes(ts, scan.clean_end))
                    } else {
                        None
                    };
                    let type_commas = comma_ranges(&scan.commas, e);
                    let markers = marker_syntax_elements(&scan.markers);
                    ParamHeaderParts {
                        names,
                        open_bracket: None,
                        close_bracket: None,
                        colon,
                        param_type,
                        type_commas,
                        markers,
                        first_description: None,
                    }
                },
            }
        },
    }
}

/// One-byte ranges at the given comma offsets.
fn comma_ranges(commas: &Vec<usize>, bound: usize) -> (r: Vec<TextRange>)
    requires
        forall|k: int| 0 <= k < commas@.len() ==> #[trigger] commas@[k] < bound,
        bound < u32::MAX,
    ensures
        r@.len() == commas@.len(),
        forall|k: int| 0 <= k < r@.len() ==> lo(#[trigger] r@[k]) == commas@[k] && hi(r@[k]) == commas@[k] + 1,
{
    let mut out: Vec<TextRange> = Vec::new();
    let mut i: usize = 0;
    while i < commas.len()
        invariant
            i <= commas@.len(),
            out@.len() == i,
            forall|k: int| 0 <= k < commas@.len() ==> #[trigger] commas@[k] < bound,
            bound < u32::MAX,
            forall|k: int| 0 <= k < i ==> lo(#[trigger] out@[k]) == commas@[k] && hi(out@[k]) == commas@[k] + 1,
        decreases commas@.len() - i,
    {
        let c = commas[i];
        out.push(TextRange::from_usizes(c, c + 1));
        i = i + 1;
    }
    out
}

/// The source window `[s, e)` that holds `tlen` bytes of entry text written
/// on line `line_idx` from column `col_base`, clamped to the source.
pub open spec fn entry_window(cursor: &LineCursor, line_idx: int, col_base: int, tlen: int) -> (int, int) {
    let len = cursor.bytes().len() as int;
    let ls = cursor.span(line_idx).0;
    let s = if col_base <= len - ls { ls + col_base } else { len };
    let e = if tlen <= len - s { s + tlen } else { len };
    (if s > e { e } else { s }, e)
}

/// Parse the entry text `text`, which is written on line `line_idx` of the
/// cursor's source starting at column `col_base`. Every piece lies in the
/// text's window of the source, in the order `parts_ok` describes.
pub fn parse_name_and_type(text: &str, line_idx: usize, col_base: usize, cursor: &LineCursor) -> (r: ParamHeaderParts)
    requires
        cursor.wf(),
    ensures
        ({
            let w = entry_window(cursor, line_idx as int, col_base as int, text.spec_bytes().len() as int);
            &&& r.colon matches Some(c) ==> w.0 <= lo(c) && hi(c) <= w.1
            &&& parts_ok(r, w.0, w.1)
        }),
{
    let b = cursor.source().as_bytes();
    let (ls, _le) = cursor.span_exec(line_idx);
    let len = b.len();
    let mut s = if col_base <= len - ls {
        ls + col_base
    } else {
        len
    };
    let e = if text.len() <= len - s {
        s + text.len()
    } else {
        len
    };
    if s > e {
        s = e;
    }
    parse_name_and_type_in(b, s, e)
}

// =============================================================================
// Node builders
// =============================================================================

/// Build a parameter `ENTRY`: names, brackets, colon, type (a zero-length
/// placeholder when a colon or brackets have no type), commas, markers
/// sorted by position, then the description, which starts after all of
/// them.
pub fn build_parameter_node(parts: ParamHeaderParts, range: TextRange) -> (r: SyntaxNode)
    ensures
        r.nkind() == SyntaxKind::ENTRY,
        r.nrange() == range,
        parts_ok(parts, lo(range), hi(range)) ==> elem_placed(SyntaxElement::Node(r)) && desc_last(r),
{
    let ghost ok = parts_ok(parts, lo(range), hi(range));
    let ghost a = lo(range);
    let ghost w: int = parts_w(parts, hi(range));
    let mut children: Vec<SyntaxElement> = Vec::new();
    let mut i: usize = 0;
    while i < parts.names.len()
        invariant
            i <= parts.names@.len(),
            ok ==> parts_ok(parts, a, hi(range)),
            ok ==> members_in(children@, a, w),
            w == parts_w(parts, hi(range)),
            no_desc_kind(children@),
        decreases parts.names@.len() - i,
    {
        let (k, r) = parts.names[i];
        let x = tok(k, r);
        proof {
            if ok {
                assert(range_in(parts.names@[i as int].1, a, w));
                lemma_members_push(children@, x, a, w);
            }
        }
        children.push(x);
        i = i + 1;
    }
    match parts.open_bracket {
        Some(ob) => {
            let x = tok(SyntaxKind::OPEN_BRACKET, ob);
            proof {
                if ok {
                    lemma_members_push(children@, x, a, w);
                }
            }
            children.push(x);
        },
        None => {},
    }
    match parts.colon {
        Some(c) => {
            let x = tok(SyntaxKind::COLON, c);
            proof {
                if ok {
                    lemma_members_push(children@, x, a, w);
                }
            }
            children.push(x);
        },
        None => {},
    }
    match parts.param_type {
        Some(t) => {
            let x = tok(SyntaxKind::TYPE, t);
            proof {
                if ok {
                    lemma_members_push(children@, x, a, w);
                }
            }
            children.push(x);
        },
        None => {
            // Anchored where the type would appear: after the open bracket,
            // else after the colon.
            match parts.open_bracket {
                Some(ob) => {
                    let x = tok(SyntaxKind::TYPE, TextRange::new(ob.end(), ob.end()));
                    proof {
                        if ok {
                            lemma_members_push(children@, x, a, w);
                        }
                    }
                    children.push(x);
                },
                None => match parts.colon {
                    Some(c) => {
                        let x = tok(SyntaxKind::TYPE, TextRange::new(c.end(), c.end()));
                        proof {
                            if ok {
                                lemma_members_push(children@, x, a, w);
                            }
                        }
                        children.push(x);
                    },
                    None => {},
                },
            }
        },
    }
    let mut j: usize = 0;
    while j < parts.type_commas.len()
        invariant
            j <= parts.type_commas@.len(),
            ok ==> parts_ok(parts, a, hi(range)),
            ok ==> members_in(children@, a, w),
            w == parts_w(parts, hi(range)),
            no_desc_kind(children@),
        decreases parts.type_commas@.len() - j,
    {
        let x = tok(SyntaxKind::COMMA, parts.type_commas[j]);
        proof {
            if ok {
                lemma_members_push(children@, x, a, w);
            }
        }
        children.push(x);
        j = j + 1;
    }
    let mut m = parts.markers;
    let ghost before_m = children@;
    let ghost mv = m@;
    proof {
        if ok {
            lemma_members_concat(children@, m@, a, w);
        }
    }
    children.append(&mut m);
    proof {
        assert(children@ =~= before_m + mv);
        if ok {
            assert forall|k: int| 0 <= k < children@.len() implies !node_of(
                #[trigger] children@[k],
                SyntaxKind::DESCRIPTION,
            ) by {
                if k >= before_m.len() {
                    assert(children@[k] == mv[k - before_m.len()]);
                } else {
                    assert(children@[k] == before_m[k]);
                }
            }
        }
    }
    match parts.close_bracket {
        Some(cb) => {
            let x = tok(SyntaxKind::CLOSE_BRACKET, cb);
            proof {
                if ok {
                    lemma_members_push(children@, x, a, w);
                }
            }
            children.push(x);
        },
        None => {},
    }
    let ghost unsorted = children@;
    proof {
        assert(ok ==> no_desc_kind(unsorted));
    }
    let mut children = sort_by_position(children);
    proof {
        if ok {
            lemma_sorted_placed(unsorted, children@, a, w);
            lemma_elems_widen(children@, a, w, a, hi(range));
            assert forall|k: int| 0 <= k < children@.len() implies !node_of(
                #[trigger] children@[k],
                SyntaxKind::DESCRIPTION,
            ) by {
                broadcast use vstd::seq_lib::group_to_multiset_ensures;

                assert(children@.to_multiset().count(children@[k]) > 0);
                assert(unsorted.contains(children@[k]));
                let q = choose|q: int| 0 <= q < unsorted.len() && unsorted[q] == children@[k];
                assert(!node_of(unsorted[q], SyntaxKind::DESCRIPTION));
            }
        }
    }
    let ghost sorted = children@;
    match parts.first_description {
        Some(d) => {
            let x = SyntaxElement::Node(text_block_single(SyntaxKind::DESCRIPTION, d));
            proof {
                if ok {
                    if sorted.len() > 0 {
                        assert(range_in(sorted.last().erange(), a, w));
                    }
                    lemma_elems_push(sorted, x, a, hi(range));
                }
            }
            children.push(x);
        },
        None => {},
    }
    let node = SyntaxNode::new(SyntaxKind::ENTRY, range, children);
    proof {
        if ok {
            assert forall|k: int| 0 <= k < node.kids().len() - 1 implies !node_of(
                #[trigger] node.kids()[k],
                SyntaxKind::DESCRIPTION,
            ) by {
                assert(node.kids()[k] == sorted[k]);
            }
        }
    }
    node
}

/// The pieces of a Returns entry lie in order inside its range: the name,
/// then the colon, then the type.
pub open spec fn return_entry_ok(
    name: Option<TextRange>,
    colon: Option<TextRange>,
    return_type: Option<TextRange>,
    range: TextRange,
) -> bool {
    let after_name = match name {
        Some(n) => hi(n),
        None => lo(range),
    };
    let after_colon = match colon {
        Some(c) => hi(c),
        None => after_name,
    };
    &&& lo(range) <= hi(range)
    &&& (name matches Some(n) ==> range_in(n, lo(range), hi(range)))
    &&& (colon matches Some(c) ==> range_in(c, after_name, hi(range)))
    &&& (return_type matches Some(t) ==> range_in(t, after_colon, hi(range)))
}

/// Build a Returns / Yields `ENTRY`: `[NAME?, COLON?, TYPE?]`; a colon
/// with no type gets a zero-length `TYPE` after it.
pub fn build_return_entry_node(
    name: Option<TextRange>,
    colon: Option<TextRange>,
    return_type: Option<TextRange>,
    range: TextRange,
) -> (r: SyntaxNode)
    ensures
        r.nkind() == SyntaxKind::ENTRY,
        r.nrange() == range,
        return_entry_ok(name, colon, return_type, range) ==> elem_placed(SyntaxElement::Node(r)) && desc_last(r),
{
    let ghost ok = return_entry_ok(name, colon, return_type, range);
    let ghost a = lo(range);
    let ghost z = hi(range);
    let mut children: Vec<SyntaxElement> = Vec::new();
    match name {
        Some(n) => {
            let x = tok(SyntaxKind::NAME, n);
            proof {
                if ok {
                    lemma_elems_push(children@, x, a, z);
                }
            }
            children.push(x);
        },
        None => {},
    }
    match colon {
        Some(c) => {
            let x = tok(SyntaxKind::COLON, c);
            proof {
                if ok {
                    lemma_elems_push(children@, x, a, z);
                }
            }
            children.push(x);
        },
        None => {},
    }
    match return_type {
        Some(t) => {
            let x = tok(SyntaxKind::TYPE, t);
            proof {
                if ok {
                    lemma_elems_push(children@, x, a, z);
                }
            }
            children.push(x);
        },
        None => match colon {
            Some(c) => {
                let x = tok(SyntaxKind::TYPE, TextRange::new(c.end(), c.end()));
                proof {
                    if ok {
                        lemma_elems_push(children@, x, a, z);
                    }
                }
                children.push(x);
            },
            None => {},
        },
    }
    let node = SyntaxNode::new(SyntaxKind::ENTRY, range, children);
    proof {
        assert forall|k: int| 0 <= k < node.kids().len() - 1 implies !node_of(
            #[trigger] node.kids()[k],
            SyntaxKind::DESCRIPTION,
        ) by {
            assert(node.kids()[k] is Token);
        }
    }
    node
}

// =============================================================================
// Per-line section body processors
// =============================================================================

/// Split the cursor's line content at its term colon: the lead before it,
/// the colon, and the trimmed rest (if non-empty); `None` without a term
/// colon.
fn split_on_term_colon(cursor: &LineCursor) -> (r: Option<(TextRange, TextRange, Option<TextRange>)>)
    requires
        cursor.wf(),
    ensures
        r matches Some(x) ==> lo(x.0) == cur_cs(*cursor) && range_in(x.0, cur_cs(*cursor), lo(x.1)) && hi(x.1)
            == lo(x.1) + 1 && hi(x.1) <= cur_ce(*cursor) && (x.2 matches Some(t) ==> range_in(
            t,
            hi(x.1),
            cur_ce(*cursor),
        )),
{
    let b = cursor.source().as_bytes();
    let (s, e) = line_content(cursor, cursor.line());
    let c = match find_entry_colon_in(b, s, e) {
        Some(c) => c,
        None => return None,
    };
    let lead_end = skip_ws_backward(b, s, c);
    let (rs, re) = trim_window(b, c + 1, e);
    let rest = if rs < re {
        Some(TextRange::from_usizes(rs, re))
    } else {
        None
    };
    Some((TextRange::from_usizes(s, lead_end), TextRange::from_usizes(c, c + 1), rest))
}

/// One line of a Parameters / Attributes body.
pub fn process_parameter_line(cursor: &LineCursor, nodes: &mut Vec<SyntaxElement>, entry_indent: &mut Option<usize>)
    requires
        cursor.wf(),
    ensures
        forall|a: int| #[trigger] line_step_ok(old(nodes)@, final(nodes)@, a, cur_cs(*cursor), cur_ce(*cursor)),
{
    if entry_continuation_guard(cursor, nodes, entry_indent) {
        return;
    }
    let b = cursor.source().as_bytes();
    let (s, e) = line_content(cursor, cursor.line());
    let parts = parse_name_and_type_in(b, s, e);
    let node = build_parameter_node(parts, TextRange::from_usizes(s, e));
    proof {
        assert forall|a: int| #[trigger] line_step_ok(nodes@, nodes@.push(SyntaxElement::Node(node)), a, cur_cs(*cursor), cur_ce(*cursor)) by {
            lemma_line_push(nodes@, SyntaxElement::Node(node), a, cur_cs(*cursor), cur_ce(*cursor));
        }
    }
    nodes.push(SyntaxElement::Node(node));
}

/// One line of a Returns / Yields body: `name : type`, or a bare type.
pub fn process_return_like_line(cursor: &LineCursor, nodes: &mut Vec<SyntaxElement>, entry_indent: &mut Option<usize>)
    requires
        cursor.wf(),
    ensures
        forall|a: int| #[trigger] line_step_ok(old(nodes)@, final(nodes)@, a, cur_cs(*cursor), cur_ce(*cursor)),
{
    if entry_continuation_guard(cursor, nodes, entry_indent) {
        return;
    }
    let range = cursor.current_trimmed_range();
    proof {
        crate::cursor::lemma_line_span(cursor.bytes(), cursor.pos());
        crate::strs::lemma_trim_bounds(cursor.bytes(), cursor.span(cursor.pos()).0, cursor.span(cursor.pos()).1);
    }
    let node = match split_on_term_colon(cursor) {
        Some((lead, colon, rest)) => build_return_entry_node(Some(lead), Some(colon), rest, range),
        None => build_return_entry_node(None, None, Some(range), range),
    };
    proof {
        assert forall|a: int| #[trigger] line_step_ok(nodes@, nodes@.push(SyntaxElement::Node(node)), a, cur_cs(*cursor), cur_ce(*cursor)) by {
            lemma_line_push(nodes@, SyntaxElement::Node(node), a, cur_cs(*cursor), cur_ce(*cursor));
        }
    }
    nodes.push(SyntaxElement::Node(node));
}

/// One line of a Raises / Warns / Methods body: an entry led by a single
/// token (`TYPE` for exception and warning types, `NAME` for methods).
pub fn process_leading_token_line(
    cursor: &LineCursor,
    nodes: &mut Vec<SyntaxElement>,
    entry_indent: &mut Option<usize>,
    first_kind: SyntaxKind,
)
    requires
        cursor.wf(),
    ensures
        forall|a: int| #[trigger] line_step_ok(old(nodes)@, final(nodes)@, a, cur_cs(*cursor), cur_ce(*cursor)),
{
    if entry_continuation_guard(cursor, nodes, entry_indent) {
        return;
    }
    let range = cursor.current_trimmed_range();
    proof {
        crate::cursor::lemma_line_span(cursor.bytes(), cursor.pos());
        crate::strs::lemma_trim_bounds(cursor.bytes(), cursor.span(cursor.pos()).0, cursor.span(cursor.pos()).1);
    }
    let node = match split_on_term_colon(cursor) {
        Some((lead, colon, rest)) => build_leading_token_entry(first_kind, lead, Some(colon), rest, range),
        None => build_leading_token_entry(first_kind, range, None, None, range),
    };
    proof {
        assert forall|a: int| #[trigger] line_step_ok(nodes@, nodes@.push(SyntaxElement::Node(node)), a, cur_cs(*cursor), cur_ce(*cursor)) by {
            lemma_line_push(nodes@, SyntaxElement::Node(node), a, cur_cs(*cursor), cur_ce(*cursor));
        }
    }
    nodes.push(SyntaxElement::Node(node));
}

/// One line of a See Also body: comma-separated names, then an optional
/// colon and description.
pub fn process_see_also_line(cursor: &LineCursor, nodes: &mut Vec<SyntaxElement>, entry_indent: &mut Option<usize>)
    requires
        cursor.wf(),
    ensures
        forall|a: int| #[trigger] line_step_ok(old(nodes)@, final(nodes)@, a, cur_cs(*cursor), cur_ce(*cursor)),
{
    if entry_continuation_guard(cursor, nodes, entry_indent) {
        return;
    }
    let b = cursor.source().as_bytes();
    let (s, e) = line_content(cursor, cursor.line());
    let (names_end, colon, description) = match find_entry_colon_in(b, s, e) {
        Some(c) => {
            let (ds, de) = trim_window(b, c + 1, e);
            (
                skip_ws_backward(b, s, c),
                Some(TextRange::from_usizes(c, c + 1)),
                if ds < de {
                    Some(TextRange::from_usizes(ds, de))
                } else {
                    None
                },
            )
        },
        None => (e, None, None),
    };
    let names = parse_name_list(b, s, names_end);
    let ghost w: int = match colon {
        Some(c) => hi(c),
        None => names_end as int,
    };
    let mut children: Vec<SyntaxElement> = Vec::new();
    let mut i: usize = 0;
    while i < names.len()
        invariant
            i <= names@.len(),
            children@.len() == i,
            s <= names_end <= w <= e,
            forall|k: int| 0 <= k < names@.len() ==> s <= lo((#[trigger] names@[k]).1) <= hi(names@[k].1) <= names_end,
            forall|k: int, l: int| 0 <= k < l < names@.len() ==> hi((#[trigger] names@[k]).1) <= lo((#[trigger] names@[l]).1),
            forall|k: int| 0 <= k < i ==> (#[trigger] children@[k]) is Token && children@[k].erange() == names@[k].1,
            elems_in(children@, s as int, names_end as int),
        decreases names@.len() - i,
    {
        let (k, r) = names[i];
        let x = tok(k, r);
        proof {
            if i > 0 {
                assert(children@.last().erange() == names@[i - 1].1);
            }
            lemma_elems_push(children@, x, s as int, names_end as int);
        }
        children.push(x);
        i = i + 1;
    }
    proof {
        lemma_elems_widen(children@, s as int, names_end as int, s as int, e as int);
        assert forall|k: int| 0 <= k < children@.len() implies lo((#[trigger] children@[k]).erange()) <= w by {
            assert(range_in(children@[k].erange(), s as int, names_end as int));
        }
    }
    let ghost names_only = children@;
    match colon {
        Some(c) => {
            let x = tok(SyntaxKind::COLON, c);
            proof {
                lemma_elems_push(children@, x, s as int, e as int);
            }
            children.push(x);
        },
        None => {},
    }
    let ghost mid = children@;
    proof {
        assert forall|k: int| 0 <= k < mid.len() implies lo((#[trigger] mid[k]).erange()) <= w by {
            if k < names_only.len() {
                assert(mid[k] == names_only[k]);
            }
        }
    }
    match description {
        Some(d) => {
            let x = SyntaxElement::Node(text_block_single(SyntaxKind::DESCRIPTION, d));
            proof {
                lemma_elems_push(children@, x, s as int, e as int);
            }
            children.push(x);
        },
        None => match colon {
            Some(c) => {
                let x = SyntaxElement::Node(missing_text_block(SyntaxKind::DESCRIPTION, c.end()));
                proof {
                    lemma_elems_push(children@, x, s as int, e as int);
                }
                children.push(x);
            },
            None => {},
        },
    }
    let node = SyntaxNode::new(SyntaxKind::ENTRY, TextRange::from_usizes(s, e), children);
    proof {
        assert forall|k: int| 0 <= k < node.kids().len() - 1 implies !node_of(
            #[trigger] node.kids()[k],
            SyntaxKind::DESCRIPTION,
        ) by {
            assert(node.kids()[k] == mid[k]);
            if k < names_only.len() {
                assert(mid[k] == names_only[k]);
            }
        }
        assert forall|a: int| #[trigger] line_step_ok(nodes@, nodes@.push(SyntaxElement::Node(node)), a, cur_cs(*cursor), cur_ce(*cursor)) by {
            lemma_line_push(nodes@, SyntaxElement::Node(node), a, cur_cs(*cursor), cur_ce(*cursor));
        }
    }
    nodes.push(SyntaxElement::Node(node));
}

// =============================================================================
// Main parser
// =============================================================================

/// Parse a NumPy-style docstring.
pub fn parse_numpy(input: &str) -> (r: Parsed)
    requires
        input.spec_bytes().len() < u32::MAX,
        input.spec_bytes().len() <= usize::MAX / 8,
    ensures
        r.text() == input@,
        r.style_of() == Style::NumPy,
        r.root_node().nkind() == SyntaxKind::DOCUMENT,
        lo(r.root_node().nrange()) == 0,
        hi(r.root_node().nrange()) == input.spec_bytes().len(),
        r.root_node().well_placed(),
        crate::parse::dispatch::has_content_line(input.spec_bytes()) <==> crate::parse::trivia::node_marks(
            r.root_node().kids(),
        ).len() > 0,
        forall|k: int|
            0 <= k < crate::syntax::child_nodes(r.root_node().kids(), SyntaxKind::SECTION).len()
                ==> crate::parse::unified::has_header_name(
                #[trigger] crate::syntax::child_nodes(r.root_node().kids(), SyntaxKind::SECTION)[k],
            ),
        !crate::parse::dispatch::has_content_line(input.spec_bytes()) ==> forall|q: int|
            0 <= q < r.root_node().kids().len() ==> crate::syntax::kind_is_trivia((#[trigger] r.root_node().kids()[q]).ekind()),
        crate::parse::dispatch::covered_upto(
            input.spec_bytes(),
            crate::cursor::count_lines(input.spec_bytes()) as int,
            crate::parse::trivia::node_marks(r.root_node().kids()),
        ),
        crate::parse::dispatch::marks_valid(input.spec_bytes(), crate::parse::trivia::node_marks(r.root_node().kids())),
        ({
            let b = input.spec_bytes();
            let f = crate::parse::plain::parser::next_content(b, 0);
            let m = crate::parse::trivia::node_marks(r.root_node().kids());
            f < crate::cursor::count_lines(b) && crate::parse::dispatch::header_line(false, Seq::<Seq<u8>>::empty(), b, f) ==> {
                &&& m.len() > 0
                &&& m[0].0 == SyntaxKind::SECTION
                &&& lo(m[0].1) == crate::parse::plain::parser::content_lo(b, f)
            }
        }),
        ({
            let b = input.spec_bytes();
            let f = crate::parse::plain::parser::next_content(b, 0);
            let m = crate::parse::trivia::node_marks(r.root_node().kids());
            f < crate::cursor::count_lines(b) && !crate::parse::dispatch::header_line(false, Seq::<Seq<u8>>::empty(), b, f) ==> {
                &&& m.len() > 0
                &&& m[0].0 == SyntaxKind::SUMMARY
                &&& lo(m[0].1) == crate::parse::plain::parser::content_lo(b, f)
                &&& hi(m[0].1) == crate::parse::plain::parser::content_hi(
                    b,
                    crate::parse::dispatch::summary_last(false, Seq::<Seq<u8>>::empty(), b, f),
                )
            }
        }),
{
    parse_document(input, &Dialect::NumPy)
}

} // verus!
