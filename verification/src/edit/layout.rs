//! The layout rules behind the semantic edits: the line extent a removal
//! takes, the trivia an entry's description is widened over, where an
//! entry's continuation lines are indented, and how a block of text is
//! re-indented under it. Each rule is a spec function over the source bytes
//! and the tree, with an executable form proved equal to it.

use vstd::prelude::*;
use vstd::string::StringExecFns;
use vstd::string::StringSliceAdditionalSpecFns;
use vstd::utf8::encode_utf8;
use vstd::utf8::is_ascii_chars_encode_utf8;
use vstd::utf8::is_char_boundary;
use vstd::utf8::valid_utf8;

use crate::strs::all_blank;
use crate::strs::find_line_start;
use crate::strs::is_all_blank;
use crate::strs::lemma_ascii_boundary;
use crate::strs::lemma_boundary_at;
use crate::strs::lemma_encode_concat;
use crate::strs::lemma_line_start;
use crate::strs::lemma_skip_blanks;
use crate::strs::lemma_str_valid;
use crate::strs::line_start;
use crate::strs::skip_blanks;
use crate::strs::skip_blanks_from;
use crate::strs::substr;
use crate::syntax::indent_span;
use crate::syntax::kind_is_trivia;
use crate::syntax::missing_tok;
use crate::syntax::nd_of;
use crate::syntax::node_of;
use crate::syntax::present_tok;
use crate::syntax::present_tokens;
use crate::syntax::Parsed;
use crate::syntax::SyntaxElement;
use crate::syntax::SyntaxKind;
use crate::syntax::SyntaxNode;
use crate::text::hi;
use crate::text::lo;
use crate::text::TextRange;

verus! {

// =============================================================================
// Line extents
// =============================================================================

/// Where a removal starting at `s` begins: the start of its line when only
/// indentation precedes it there, else `s` itself.
pub open spec fn extent_start(b: Seq<u8>, s: int) -> int {
    if all_blank(b, line_start(b, s), s) {
        line_start(b, s)
    } else {
        s
    }
}

/// Where a removal ending at `e` ends: past the trailing spaces and tabs and
/// the line's newline (`\n` or `\r\n`), or at the end of the source when
/// only blanks follow; else `e` itself.
pub open spec fn extent_end(b: Seq<u8>, e: int) -> int {
    let scan = skip_blanks(b, e);
    if scan + 1 < b.len() && b[scan] == 13 && b[scan + 1] == 10 {
        scan + 2
    } else if scan < b.len() && b[scan] == 10 {
        scan + 1
    } else if scan == b.len() {
        scan
    } else {
        e
    }
}

/// Exec form of [`extent_start`] and [`extent_end`].
pub fn line_extent(b: &[u8], s: usize, e: usize) -> (r: (usize, usize))
    requires
        s <= e <= b@.len(),
    ensures
        r.0 == extent_start(b@, s as int),
        r.1 == extent_end(b@, e as int),
        r.0 <= s,
        e <= r.1 <= b@.len(),
{
    let ls = find_line_start(b, s);
    proof {
        lemma_line_start(b@, s as int);
    }
    let start = if is_all_blank(b, ls, s) {
        ls
    } else {
        s
    };
    let scan = skip_blanks_from(b, e);
    proof {
        lemma_skip_blanks(b@, e as int);
    }
    let n = b.len();
    let end = if scan < n && scan + 1 < n && b[scan] == 13u8 && b[scan + 1] == 10u8 {
        scan + 2
    } else if scan < n && b[scan] == 10u8 {
        scan + 1
    } else if scan == n {
        scan
    } else {
        e
    };
    (start, end)
}

/// Past the spaces and tabs that follow `e` (clamped to the source).
pub open spec fn over_blanks(b: Seq<u8>, e: int) -> int {
    skip_blanks(
        b,
        if e > b.len() {
            b.len() as int
        } else {
            e
        },
    )
}

/// Exec form of [`over_blanks`].
pub fn over_blanks_from(b: &[u8], e: usize) -> (r: usize)
    ensures
        r == over_blanks(b@, e as int),
        r <= b@.len(),
{
    let c = if e > b.len() {
        b.len()
    } else {
        e
    };
    proof {
        lemma_skip_blanks(b@, c as int);
    }
    skip_blanks_from(b, c)
}

// =============================================================================
// Children of an entry
// =============================================================================

/// The index of the first node of `kind` among `s` from `i` on, or
/// `s.len()` when there is none.
pub open spec fn first_node_from(s: Seq<SyntaxElement>, kind: SyntaxKind, i: int) -> int
    decreases s.len() - i,
{
    if i < 0 || i >= s.len() {
        s.len() as int
    } else if node_of(s[i], kind) {
        i
    } else {
        first_node_from(s, kind, i + 1)
    }
}

/// The index of the first token of `kind` among `s` from `i` on — a missing
/// one when `missing`, else a present one — or `s.len()` when there is none.
pub open spec fn first_tok_from(s: Seq<SyntaxElement>, kind: SyntaxKind, missing: bool, i: int) -> int
    decreases s.len() - i,
{
    if i < 0 || i >= s.len() {
        s.len() as int
    } else if (missing && missing_tok(s[i], kind)) || (!missing && present_tok(s[i], kind)) {
        i
    } else {
        first_tok_from(s, kind, missing, i + 1)
    }
}

/// Exec form of [`first_node_from`] from the start.
pub fn first_node_index(kids: &[SyntaxElement], kind: SyntaxKind) -> (r: usize)
    ensures
        r == first_node_from(kids@, kind, 0),
        r <= kids@.len(),
        r < kids@.len() ==> node_of(kids@[r as int], kind),
{
    let mut i: usize = 0;
    while i < kids.len()
        invariant
            i <= kids@.len(),
            first_node_from(kids@, kind, i as int) == first_node_from(kids@, kind, 0),
        decreases kids@.len() - i,
    {
        match &kids[i] {
            SyntaxElement::Node(n) => {
                if n.kind() == kind {
                    return i;
                }
            },
            _ => {},
        }
        i = i + 1;
    }
    i
}

/// Exec form of [`first_tok_from`] from the start.
pub fn first_token_index(kids: &[SyntaxElement], kind: SyntaxKind, missing: bool) -> (r: usize)
    ensures
        r == first_tok_from(kids@, kind, missing, 0),
        r <= kids@.len(),
        r < kids@.len() ==> kids@[r as int] is Token,
{
    let mut i: usize = 0;
    while i < kids.len()
        invariant
            i <= kids@.len(),
            first_tok_from(kids@, kind, missing, i as int) == first_tok_from(kids@, kind, missing, 0),
        decreases kids@.len() - i,
    {
        match &kids[i] {
            SyntaxElement::Token(t) => {
                if t.kind() == kind && t.range().is_empty() == missing {
                    return i;
                }
            },
            _ => {},
        }
        i = i + 1;
    }
    i
}

/// A line break kind: `NEWLINE` or `BLANK_LINE`.
pub open spec fn is_break(k: SyntaxKind) -> bool {
    k == SyntaxKind::NEWLINE || k == SyntaxKind::BLANK_LINE
}

/// Walking back from the child at `j`, the start of the run of trivia
/// tokens in front, taking at most one line break (`took`: one was taken).
pub open spec fn widen_back(s: Seq<SyntaxElement>, j: int, start: int, took: bool) -> int
    decreases j + 1,
{
    if j < 0 || j >= s.len() {
        start
    } else {
        match s[j] {
            SyntaxElement::Token(t) => {
                if !kind_is_trivia(t.tkind()) || (is_break(t.tkind()) && took) {
                    start
                } else {
                    widen_back(s, j - 1, lo(t.trange()), took || is_break(t.tkind()))
                }
            },
            _ => start,
        }
    }
}

/// The start of `r` (the span of the child at `idx`) widened backwards over
/// the trivia separating it from its previous sibling, consuming at most
/// one line break.
pub open spec fn widened_lo(s: Seq<SyntaxElement>, idx: int, r: TextRange) -> int {
    widen_back(s, idx - 1, lo(r), false)
}

/// Exec form of [`widened_lo`]: the widened range.
pub fn widen_from(kids: &[SyntaxElement], idx: usize, r: TextRange) -> (w: TextRange)
    requires
        idx <= kids@.len(),
    ensures
        lo(w) == widened_lo(kids@, idx as int, r),
        hi(w) == hi(r),
{
    let mut start = r.start();
    let mut took = false;
    let mut j = idx;
    while j > 0
        invariant
            j <= idx <= kids@.len(),
            widen_back(kids@, j - 1, start@ as int, took) == widened_lo(kids@, idx as int, r),
        ensures
            widen_back(kids@, j - 1, start@ as int, took) == widened_lo(kids@, idx as int, r),
            widen_back(kids@, j - 1, start@ as int, took) == start@,
        decreases j,
    {
        match &kids[j - 1] {
            SyntaxElement::Token(t) => {
                let k = t.kind();
                let brk = k == SyntaxKind::NEWLINE || k == SyntaxKind::BLANK_LINE;
                if !k.is_trivia() || (brk && took) {
                    break;
                }
                took = took || brk;
                start = t.range().start();
            },
            _ => {
                break;
            },
        }
        j = j - 1;
    }
    TextRange::new(start, r.end())
}

// =============================================================================
// Indentation
// =============================================================================

/// The bytes of the indentation of the line holding `offset`.
pub open spec fn indent_bytes(b: Seq<u8>, offset: int) -> Seq<u8> {
    b.subrange(indent_span(b, offset).0, indent_span(b, offset).1)
}

/// Four spaces.
pub open spec fn four_spaces() -> Seq<u8> {
    seq![32u8, 32u8, 32u8, 32u8]
}

/// The indent of an entry's description continuation lines: that of the
/// description's second line where the child at `di` is a description with
/// one, else the entry's own indent plus four spaces.
pub open spec fn cont_indent(b: Seq<u8>, entry: SyntaxNode, di: int) -> Seq<u8> {
    let kids = entry.kids();
    let lines = if 0 <= di < kids.len() && kids[di] is Node {
        present_tokens(nd_of(kids[di]).kids(), SyntaxKind::TEXT_LINE)
    } else {
        Seq::empty()
    };
    if lines.len() >= 2 {
        indent_bytes(b, lo(lines[1].trange()))
    } else {
        indent_bytes(b, lo(entry.nrange())) + four_spaces()
    }
}

/// Exec form of [`cont_indent`].
pub fn continuation_indent(parsed: &Parsed, entry: &SyntaxNode, di: usize) -> (r: String)
    ensures
        encode_utf8(r@) == cont_indent(parsed.src_bytes(), *entry, di as int),
{
    let kids = entry.children();
    if di < kids.len() {
        match &kids[di] {
            SyntaxElement::Node(d) => {
                let lines = d.tokens(SyntaxKind::TEXT_LINE);
                if lines.len() >= 2 {
                    let ind = parsed.line_indent(lines[1].range().start());
                    return ind.to_owned();
                }
            },
            _ => {},
        }
    }
    let ind = parsed.line_indent(entry.range().start());
    let mut out = ind.to_owned();
    let sp = four_spaces_lit();
    let ghost before = out@;
    out.append(sp);
    proof {
        lemma_encode_concat(before, sp@);
    }
    out
}

// =============================================================================
// Re-indenting a block
// =============================================================================

/// The first `n` bytes of `t` with `ind` written after every newline that
/// is followed by more text on its line (an empty line stays empty).
pub open spec fn reindent_upto(t: Seq<u8>, ind: Seq<u8>, n: int) -> Seq<u8>
    decreases n,
{
    if n <= 0 || n > t.len() {
        Seq::empty()
    } else {
        reindent_upto(t, ind, n - 1).push(t[n - 1]) + (if t[n - 1] == 10 && n < t.len() && t[n] != 10 {
            ind
        } else {
            Seq::empty()
        })
    }
}

/// `t`'s continuation lines pushed under `ind`.
pub open spec fn reindented(t: Seq<u8>, ind: Seq<u8>) -> Seq<u8> {
    reindent_upto(t, ind, t.len() as int)
}

/// Whether `t` holds a newline.
pub open spec fn has_newline(t: Seq<u8>) -> bool {
    exists|k: int| 0 <= k < t.len() && t[k] == 10
}

/// A run without newlines is copied as it is.
proof fn lemma_reindent_plain(t: Seq<u8>, ind: Seq<u8>, k: int, e: int)
    requires
        0 <= k <= e <= t.len(),
        forall|j: int| k <= j < e ==> #[trigger] t[j] != 10,
    ensures
        reindent_upto(t, ind, e) == reindent_upto(t, ind, k) + t.subrange(k, e),
    decreases e - k,
{
    if e > k {
        lemma_reindent_plain(t, ind, k, e - 1);
        assert(reindent_upto(t, ind, e) =~= reindent_upto(t, ind, e - 1).push(t[e - 1]));
        assert(reindent_upto(t, ind, e) =~= reindent_upto(t, ind, k) + t.subrange(k, e));
    } else {
        assert(reindent_upto(t, ind, e) =~= reindent_upto(t, ind, k) + t.subrange(k, e));
    }
}

/// Exec form of [`has_newline`].
pub fn contains_newline(b: &[u8]) -> (r: bool)
    ensures
        r == has_newline(b@),
{
    let mut i: usize = 0;
    while i < b.len()
        invariant
            i <= b@.len(),
            forall|k: int| 0 <= k < i ==> b@[k] != 10,
        decreases b@.len() - i,
    {
        if b[i] == 10u8 {
            return true;
        }
        i = i + 1;
    }
    false
}

/// `text`'s continuation lines pushed under `indent`, its interior
/// indentation kept relative to it; the first line is placed by the caller,
/// and a blank line is left blank.
pub fn reindent(text: &str, indent: &str) -> (r: String)
    ensures
        encode_utf8(r@) == reindented(text.spec_bytes(), indent.spec_bytes()),
{
    let b = text.as_bytes();
    let n = b.len();
    let ghost t = b@;
    let ghost ind = indent.spec_bytes();
    proof {
        lemma_str_valid(text);
        lemma_boundary_at(t, 0);
    }
    let mut out = String::new();
    let mut k: usize = 0;
    loop
        invariant_except_break
            k <= n,
            n == t.len(),
            t == b@,
            t == text.spec_bytes(),
            ind == indent.spec_bytes(),
            valid_utf8(t),
            is_char_boundary(t, k as int),
            encode_utf8(out@) == reindent_upto(t, ind, k as int),
        ensures
            encode_utf8(out@) == reindent_upto(t, ind, t.len() as int),
        decreases n - k,
    {
        let mut e = k;
        while e < n && b[e] != 10u8
            invariant
                k <= e <= n,
                n == b@.len(),
                forall|j: int| k <= j < e ==> #[trigger] b@[j] != 10,
            decreases n - e,
        {
            e = e + 1;
        }
        proof {
            if e < n {
                lemma_ascii_boundary(t, e as int);
            } else {
                lemma_boundary_at(t, n as int);
            }
        }
        let piece = substr(text, k, e);
        let ghost before = out@;
        out.append(piece);
        proof {
            lemma_encode_concat(before, piece@);
            lemma_reindent_plain(t, ind, k as int, e as int);
        }
        if e >= n {
            break;
        }
        let ghost mid = out@;
        let nl = newline_lit();
        out.append(nl);
        proof {
            lemma_encode_concat(mid, nl@);
            lemma_ascii_boundary(t, e as int);
        }
        let indented = e + 1 < n && b[e + 1] != 10u8;
        if indented {
            let ghost mid2 = out@;
            out.append(indent);
            proof {
                lemma_encode_concat(mid2, indent@);
            }
        }
        proof {
            let step = reindent_upto(t, ind, e as int).push(t[e as int]) + (if indented {
                ind
            } else {
                Seq::empty()
            });
            assert(reindent_upto(t, ind, e + 1) == step);
            assert(encode_utf8(out@) =~= step);
        }
        k = e + 1;
    }
    out
}

// =============================================================================
// Literals with their bytes
// =============================================================================

/// `"\n"`.
pub fn newline_lit() -> (r: &'static str)
    ensures
        r.spec_bytes() == seq![10u8],
{
    let s = "\n";
    proof {
        reveal_strlit("\n");
        is_ascii_chars_encode_utf8(s@);
        assert(s.spec_bytes() =~= seq![10u8]);
    }
    s
}

/// `"    "`.
pub fn four_spaces_lit() -> (r: &'static str)
    ensures
        r.spec_bytes() == four_spaces(),
{
    let s = "    ";
    proof {
        reveal_strlit("    ");
        is_ascii_chars_encode_utf8(s@);
        assert(s.spec_bytes() =~= four_spaces());
    }
    s
}

/// `" "`.
pub fn space_lit() -> (r: &'static str)
    ensures
        r.spec_bytes() == seq![32u8],
{
    let s = " ";
    proof {
        reveal_strlit(" ");
        is_ascii_chars_encode_utf8(s@);
        assert(s.spec_bytes() =~= seq![32u8]);
    }
    s
}

/// `":"`.
pub fn colon_lit() -> (r: &'static str)
    ensures
        r.spec_bytes() == seq![58u8],
{
    let s = ":";
    proof {
        reveal_strlit(":");
        is_ascii_chars_encode_utf8(s@);
        assert(s.spec_bytes() =~= seq![58u8]);
    }
    s
}

/// `": "`.
pub fn colon_space_lit() -> (r: &'static str)
    ensures
        r.spec_bytes() == seq![58u8, 32u8],
{
    let s = ": ";
    proof {
        reveal_strlit(": ");
        is_ascii_chars_encode_utf8(s@);
        assert(s.spec_bytes() =~= seq![58u8, 32u8]);
    }
    s
}

/// `" : "`.
pub fn spaced_colon_lit() -> (r: &'static str)
    ensures
        r.spec_bytes() == seq![32u8, 58u8, 32u8],
{
    let s = " : ";
    proof {
        reveal_strlit(" : ");
        is_ascii_chars_encode_utf8(s@);
        assert(s.spec_bytes() =~= seq![32u8, 58u8, 32u8]);
    }
    s
}

/// `" ("`.
pub fn open_paren_lit() -> (r: &'static str)
    ensures
        r.spec_bytes() == seq![32u8, 40u8],
{
    let s = " (";
    proof {
        reveal_strlit(" (");
        is_ascii_chars_encode_utf8(s@);
        assert(s.spec_bytes() =~= seq![32u8, 40u8]);
    }
    s
}

/// `")"`.
pub fn close_paren_lit() -> (r: &'static str)
    ensures
        r.spec_bytes() == seq![41u8],
{
    let s = ")";
    proof {
        reveal_strlit(")");
        is_ascii_chars_encode_utf8(s@);
        assert(s.spec_bytes() =~= seq![41u8]);
    }
    s
}

} // verus!
