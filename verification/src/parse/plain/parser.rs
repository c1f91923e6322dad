//! Plain docstring parser: no style markers, a summary and an extended
//! summary at most.

use vstd::prelude::*;
use vstd::string::StringSliceAdditionalSpecFns;

use crate::cursor::count_lines;
use crate::cursor::line_blank;
use crate::cursor::line_span;
use crate::cursor::LineCursor;
use crate::parse::trivia::lemma_marks_push;
use crate::parse::trivia::node_marks;
use crate::strs::trim_hi;
use crate::strs::trim_lo;
use crate::parse::dispatch::finish_document;
use crate::parse::utils::build_text_block;
use crate::parse::utils::ce_of;
use crate::parse::utils::cs_of;
use crate::parse::utils::lemma_content;
use crate::parse::utils::line_content;
use crate::parse::utils::lines_end;
use crate::syntax::elems_in;
use crate::syntax::lemma_elems_push;
use crate::syntax::lemma_elems_widen;
use crate::syntax::range_in;
use crate::parse::Style;
use crate::syntax::Parsed;
use crate::syntax::SyntaxElement;
use crate::syntax::SyntaxKind;
use crate::text::hi;
use crate::text::lo;
use crate::text::TextRange;

verus! {

/// The first non-blank line at or after line `i`; the line count when
/// there is none.
pub open spec fn next_content(b: Seq<u8>, i: int) -> int
    decreases count_lines(b) - i,
{
    if i < 0 || i >= count_lines(b) {
        count_lines(b)
    } else if !line_blank(b, i) {
        i
    } else {
        next_content(b, i + 1)
    }
}

/// The last line of the run of non-blank lines that goes on from line `i`.
pub open spec fn run_last(b: Seq<u8>, i: int) -> int
    decreases count_lines(b) - i,
{
    if 0 <= i && i + 1 < count_lines(b) && !line_blank(b, i + 1) {
        run_last(b, i + 1)
    } else {
        i
    }
}

/// The last non-blank line before line `j`; `-1` when there is none.
pub open spec fn last_content_before(b: Seq<u8>, j: int) -> int
    decreases j,
{
    if j <= 0 {
        -1
    } else if !line_blank(b, j - 1) {
        j - 1
    } else {
        last_content_before(b, j - 1)
    }
}

/// Where the content of line `i` starts.
pub open spec fn content_lo(b: Seq<u8>, i: int) -> int {
    trim_lo(b, line_span(b, i).0, line_span(b, i).1)
}

/// Where the content of line `i` ends.
pub open spec fn content_hi(b: Seq<u8>, i: int) -> int {
    trim_hi(b, line_span(b, i).0, line_span(b, i).1)
}

/// The nodes of a plain docstring `b`, by kind and range: the first run of
/// non-blank lines is the `SUMMARY`; from the next non-blank line to the
/// last one, the `EXTENDED_SUMMARY`; each spans from its first line's
/// content to its last line's.
pub open spec fn plain_marks_ok(b: Seq<u8>, m: Seq<(SyntaxKind, TextRange)>) -> bool {
    let n = count_lines(b);
    let f = next_content(b, 0);
    if f >= n {
        m.len() == 0
    } else {
        let se = run_last(b, f);
        let g = next_content(b, se + 1);
        &&& m.len() == (if g < n {
            2int
        } else {
            1int
        })
        &&& m[0].0 == SyntaxKind::SUMMARY && lo(m[0].1) == content_lo(b, f) && hi(m[0].1) == content_hi(b, se)
        &&& g < n ==> m[1].0 == SyntaxKind::EXTENDED_SUMMARY && lo(m[1].1) == content_lo(b, g) && hi(m[1].1)
            == content_hi(b, last_content_before(b, n))
    }
}

/// Every line from `i` up to the next content line is blank.
proof fn lemma_before_next_content(b: Seq<u8>, i: int, k: int)
    requires
        0 <= i <= k < next_content(b, i),
    ensures
        line_blank(b, k),
    decreases k - i,
{
    if i < k {
        lemma_before_next_content(b, i + 1, k);
    }
}

/// The next content line from `i` is at or after `i`.
proof fn lemma_next_content_ge(b: Seq<u8>, i: int)
    requires
        0 <= i,
    ensures
        i <= next_content(b, i) || next_content(b, i) == count_lines(b),
        0 <= next_content(b, i),
    decreases count_lines(b) - i,
{
    if i < count_lines(b) && line_blank(b, i) {
        lemma_next_content_ge(b, i + 1);
    }
}

/// The run of non-blank lines from `i` ends at or after `i`.
proof fn lemma_run_last_ge(b: Seq<u8>, i: int)
    requires
        0 <= i,
    ensures
        i <= run_last(b, i),
    decreases count_lines(b) - i,
{
    if i + 1 < count_lines(b) && !line_blank(b, i + 1) {
        lemma_run_last_ge(b, i + 1);
    }
}

/// A content line before `j` is at or before the last one.
proof fn lemma_last_content_ge(b: Seq<u8>, k: int, j: int)
    requires
        0 <= k < j,
        !line_blank(b, k),
    ensures
        k <= last_content_before(b, j),
    decreases j,
{
    if k < j - 1 && line_blank(b, j - 1) {
        lemma_last_content_ge(b, k, j - 1);
    }
}

/// The next content line, when there is one, is not blank.
proof fn lemma_next_content_nonblank(b: Seq<u8>, i: int)
    requires
        0 <= i,
        next_content(b, i) < count_lines(b),
    ensures
        !line_blank(b, next_content(b, i)),
    decreases count_lines(b) - i,
{
    if i < count_lines(b) && line_blank(b, i) {
        lemma_next_content_nonblank(b, i + 1);
    }
}

/// The plain grammar's nodes span slices at character boundaries.
proof fn lemma_plain_valid(s: &str, m: Seq<(SyntaxKind, TextRange)>)
    requires
        plain_marks_ok(s.spec_bytes(), m),
    ensures
        crate::parse::dispatch::marks_valid(s.spec_bytes(), m),
{
    let b = s.spec_bytes();
    let n = count_lines(b) as int;
    let f = next_content(b, 0);
    lemma_next_content_ge(b, 0);
    if f < n {
        let se = run_last(b, f);
        lemma_run_last_ge(b, f);
        crate::parse::dispatch::lemma_content_boundary(s, f);
        crate::parse::dispatch::lemma_content_boundary(s, se);
        crate::parse::dispatch::lemma_line_between(b, f, se, se);
        crate::parse::dispatch::lemma_line_between(b, f, f, se);
        let g = next_content(b, se + 1);
        lemma_next_content_ge(b, se + 1);
        if g < n {
            let l = last_content_before(b, n);
            lemma_next_content_nonblank(b, se + 1);
            lemma_last_content_ge(b, g, n);
            crate::parse::dispatch::lemma_content_boundary(s, g);
            crate::parse::dispatch::lemma_content_boundary(s, l);
            crate::parse::dispatch::lemma_line_between(b, g, g, l);
        }
    }
}

/// The plain grammar's nodes cover the content of every non-blank line.
proof fn lemma_plain_covered(b: Seq<u8>, m: Seq<(SyntaxKind, TextRange)>)
    requires
        plain_marks_ok(b, m),
    ensures
        crate::parse::dispatch::covered_upto(b, count_lines(b) as int, m),
{
    let n = count_lines(b) as int;
    let f = next_content(b, 0);
    lemma_next_content_ge(b, 0);
    assert forall|k: int| 0 <= k < n && !line_blank(b, k) implies #[trigger] crate::parse::dispatch::covered(
        b,
        k,
        m,
    ) by {
        if k < f {
            lemma_before_next_content(b, 0, k);
        }
        let se = run_last(b, f);
        lemma_run_last_ge(b, f);
        if k <= se {
            crate::parse::dispatch::lemma_line_between(b, f, k, se);
            assert(crate::parse::dispatch::line_in(b, k, lo(m[0].1), hi(m[0].1)));
        } else {
            let g = next_content(b, se + 1);
            lemma_next_content_ge(b, se + 1);
            if k < g {
                lemma_before_next_content(b, se + 1, k);
            }
            lemma_last_content_ge(b, k, n);
            crate::parse::dispatch::lemma_line_between(b, g, k, last_content_before(b, n));
            assert(crate::parse::dispatch::line_in(b, k, lo(m[1].1), hi(m[1].1)));
        }
    }
}

/// The next content line from `i` exists exactly when some line from `i`
/// on holds content.
proof fn lemma_next_content_has(b: Seq<u8>, i: int)
    requires
        0 <= i <= count_lines(b),
    ensures
        next_content(b, i) < count_lines(b) <==> exists|k: int| i <= k < count_lines(b) && !line_blank(b, k),
    decreases count_lines(b) - i,
{
    if i < count_lines(b) {
        lemma_next_content_has(b, i + 1);
        if exists|k: int| i <= k < count_lines(b) && !line_blank(b, k) {
            let k = choose|k: int| i <= k < count_lines(b) && !line_blank(b, k);
            if k > i && line_blank(b, i) {
                assert(i + 1 <= k);
            }
        }
    }
}

/// With lines `[i, p)` blank and line `p` non-blank (or `p` the line
/// count), the next content from `i` is at `p`.
pub proof fn lemma_next_content(b: Seq<u8>, i: int, p: int)
    requires
        0 <= i <= p <= count_lines(b),
        forall|k: int| i <= k < p ==> line_blank(b, k),
        p < count_lines(b) ==> !line_blank(b, p),
    ensures
        next_content(b, i) == p,
    decreases p - i,
{
    if i < p {
        lemma_next_content(b, i + 1, p);
    }
}

/// The range over the content of lines `first..=last`.
fn content_range(cursor: &LineCursor, first: usize, last: usize) -> (r: TextRange)
    requires
        cursor.wf(),
        first <= last < cursor.nlines(),
    ensures
        lo(r) == cs_of(*cursor, first as int),
        hi(r) == ce_of(*cursor, last as int),
        lo(r) <= hi(r),
{
    let (s, _) = line_content(cursor, first);
    let (_, e) = line_content(cursor, last);
    proof {
        cursor.lemma_wf();
        lemma_content(*cursor, first as int);
        lemma_content(*cursor, last as int);
        if first < last {
            crate::cursor::lemma_span_mono(cursor.bytes(), first as int, last as int);
        }
    }
    TextRange::from_usizes(s, e)
}

/// Parse a plain docstring (no NumPy or Google section markers): the first
/// run of non-blank lines is the summary, every later non-blank line
/// belongs to the extended summary. Unrecognised styles (e.g. Sphinx) are
/// parsed this way too.
pub fn parse_plain(input: &str) -> (r: Parsed)
    requires
        input.spec_bytes().len() < u32::MAX,
        input.spec_bytes().len() <= usize::MAX / 8,
    ensures
        r.text() == input@,
        r.style_of() == Style::Plain,
        r.root_node().nkind() == SyntaxKind::DOCUMENT,
        lo(r.root_node().nrange()) == 0,
        hi(r.root_node().nrange()) == input.spec_bytes().len(),
        r.root_node().well_placed(),
        plain_marks_ok(input.spec_bytes(), node_marks(r.root_node().kids())),
        crate::parse::dispatch::has_content_line(input.spec_bytes()) <==> node_marks(r.root_node().kids()).len() > 0,
        forall|k: int|
            0 <= k < crate::syntax::child_nodes(r.root_node().kids(), SyntaxKind::SECTION).len()
                ==> crate::parse::unified::has_header_name(
                #[trigger] crate::syntax::child_nodes(r.root_node().kids(), SyntaxKind::SECTION)[k],
            ),
        !crate::parse::dispatch::has_content_line(input.spec_bytes()) ==> forall|q: int|
            0 <= q < r.root_node().kids().len() ==> crate::syntax::kind_is_trivia((#[trigger] r.root_node().kids()[q]).ekind()),
        crate::parse::dispatch::covered_upto(
            input.spec_bytes(),
            crate::cursor::count_lines(input.spec_bytes()) as int,
            crate::parse::trivia::node_marks(r.root_node().kids()),
        ),
        crate::parse::dispatch::marks_valid(input.spec_bytes(), crate::parse::trivia::node_marks(r.root_node().kids())),
{
    let mut cursor = LineCursor::new(input);
    let mut root_children: Vec<SyntaxElement> = Vec::new();
    cursor.skip_blanks();
    let ghost bb = input.spec_bytes();
    let ghost f0 = cursor.pos();
    proof {
        cursor.lemma_wf();
        lemma_next_content(bb, 0, f0);
    }
    let n = cursor.total_lines();
    let mut summary_done = false;
    let mut summary_first: Option<usize> = None;
    let mut summary_last: usize = 0;
    let mut ext_first: Option<usize> = None;
    let mut ext_last: usize = 0;
    let ghost mut front: int = 0;
    proof {
        cursor.lemma_wf();
    }
    while !cursor.is_eof()
        invariant
            cursor.wf(),
            cursor.src() == input,
            n == cursor.nlines(),
            cursor.pos() <= n,
            elems_in(root_children@, 0, front),
            0 <= front <= lines_end(cursor),
            !summary_done ==> ext_first is None && root_children@.len() == 0 && front == 0,
            summary_first matches Some(f) ==> f <= summary_last < cursor.pos() && ce_of(cursor, summary_last as int)
                <= cursor.span(cursor.pos()).0 && ce_of(cursor, summary_last as int) <= lines_end(cursor),
            summary_done && ext_first is None ==> front <= cursor.span(cursor.pos()).0,
            ext_first matches Some(f) ==> f <= ext_last < cursor.pos() && front <= cs_of(cursor, f as int) && ce_of(
                cursor,
                ext_last as int,
            ) <= lines_end(cursor),
            bb == cursor.bytes(),
            n == count_lines(bb),
            f0 == next_content(bb, 0),
            f0 <= cursor.pos(),
            f0 < n ==> !line_blank(bb, f0),
            summary_first is None ==> cursor.pos() == f0 && !summary_done,
            summary_first matches Some(f) ==> f == f0,
            !summary_done && summary_first is Some ==> summary_last == cursor.pos() - 1 && run_last(bb, f0) == run_last(
                bb,
                summary_last as int,
            ),
            summary_done ==> summary_first is Some && summary_last == run_last(bb, f0) && summary_last < cursor.pos(),
            summary_done && ext_first is None ==> forall|k: int|
                summary_last < k < cursor.pos() ==> line_blank(bb, k),
            ext_first matches Some(g) ==> summary_done && g == next_content(bb, summary_last + 1) && ext_last
                == last_content_before(bb, cursor.pos() as int) && g < n,
            crate::parse::trivia::sections_named_in(root_children@),
            summary_done ==> node_marks(root_children@).len() == 1 && node_marks(root_children@)[0].0
                == SyntaxKind::SUMMARY && lo(node_marks(root_children@)[0].1) == content_lo(bb, f0) && hi(
                node_marks(root_children@)[0].1,
            ) == content_hi(bb, summary_last as int),
        decreases n - cursor.pos(),
    {
        proof {
            cursor.lemma_wf();
            lemma_content(cursor, cursor.pos());
        }
        if cursor.line_is_blank(cursor.line()) {
            if !summary_done {
                match summary_first {
                    Some(f) => {
                        let x = SyntaxElement::Node(
                            build_text_block(SyntaxKind::SUMMARY, content_range(&cursor, f, summary_last), input),
                        );
                        proof {
                            lemma_content(cursor, f as int);
                            lemma_elems_push(root_children@, x, 0, ce_of(cursor, summary_last as int));
                            front = ce_of(cursor, summary_last as int);
                            lemma_marks_push(root_children@, x);
                            assert(node_marks(root_children@) =~= Seq::<(SyntaxKind, TextRange)>::empty());
                        }
                        proof {
                            crate::parse::trivia::lemma_named_push(root_children@, x);
                        }
                        root_children.push(x);
                        summary_done = true;
                    },
                    None => {},
                }
            }
            let ghost p0 = cursor.pos();
            cursor.advance();
            proof {
                crate::cursor::lemma_span_start_mono(cursor.bytes(), p0, cursor.pos());
            }
            continue;
        }
        if !summary_done {
            if summary_first.is_none() {
                summary_first = Some(cursor.line());
            }
            summary_last = cursor.line();
        } else {
            if ext_first.is_none() {
                proof {
                    lemma_next_content(bb, summary_last + 1, cursor.pos());
                }
                ext_first = Some(cursor.line());
            }
            ext_last = cursor.line();
        }
        let ghost p0 = cursor.pos();
        cursor.advance();
        proof {
            crate::cursor::lemma_span_start_mono(cursor.bytes(), p0, cursor.pos());
        }
    }
    if !summary_done {
        match summary_first {
            Some(f) => {
                let x = SyntaxElement::Node(
                    build_text_block(SyntaxKind::SUMMARY, content_range(&cursor, f, summary_last), input),
                );
                proof {
                    lemma_content(cursor, f as int);
                    lemma_elems_push(root_children@, x, 0, ce_of(cursor, summary_last as int));
                    front = ce_of(cursor, summary_last as int);
                    lemma_marks_push(root_children@, x);
                    assert(node_marks(root_children@) =~= Seq::<(SyntaxKind, TextRange)>::empty());
                }
                proof {
                    crate::parse::trivia::lemma_named_push(root_children@, x);
                }
                root_children.push(x);
            },
            None => {},
        }
    }
    let ghost marks_before_ext = node_marks(root_children@);
    match ext_first {
        Some(f) => {
            let x = SyntaxElement::Node(
                build_text_block(SyntaxKind::EXTENDED_SUMMARY, content_range(&cursor, f, ext_last), input),
            );
            proof {
                lemma_content(cursor, f as int);
                let e = ce_of(cursor, ext_last as int);
                lemma_elems_widen(root_children@, 0, front, 0, e);
                if root_children@.len() > 0 {
                    assert(range_in(root_children@.last().erange(), 0, front));
                }
                lemma_elems_push(root_children@, x, 0, e);
                front = e;
                lemma_marks_push(root_children@, x);
            }
            proof {
                crate::parse::trivia::lemma_named_push(root_children@, x);
            }
            root_children.push(x);
        },
        None => {},
    }
    let range = cursor.full_range();
    proof {
        lemma_next_content_has(bb, 0);
        lemma_elems_widen(root_children@, 0, front, 0, hi(range));
        if summary_first is Some && ext_first is None {
            lemma_next_content(bb, summary_last + 1, n as int);
        }
    }
    let ghost rc = root_children@;
    let r = finish_document(range, root_children, input, Style::Plain);
    proof {
        crate::parse::trivia::lemma_named_kept(rc, r.root_node().kids());
        lemma_plain_covered(bb, node_marks(r.root_node().kids()));
        lemma_plain_valid(input, node_marks(r.root_node().kids()));
    }
    r
}

} // verus!
