//! Source cursor for line-oriented docstring parsing.
//!
//! [`LineCursor`] bundles the source text, the line-offset table, and the
//! current line position, and builds byte ranges from line/column pairs.

use vstd::prelude::*;
use vstd::string::StringSliceAdditionalSpecFns;

use crate::strs::lemma_boundary_at;
use crate::strs::lemma_next_boundary;
use crate::strs::lemma_str_valid;
use crate::strs::lemma_trim_boundary;
use crate::strs::skip_ws_forward;
use crate::strs::skip_ws_fwd;
use crate::strs::substr;
use crate::strs::trim_hi;
use crate::strs::trim_lo;
use crate::strs::trim_window;
use crate::strs::valid_span;
use crate::text::hi;
use crate::text::lemma_line_starts;
use crate::text::line_starts_of;
use crate::text::lo;
use crate::text::TextRange;

verus! {

// =============================================================================
// Specifications
// =============================================================================

/// Number of text lines of `b`: a trailing newline does not start a line,
/// and the empty source has none.
pub open spec fn count_lines(b: Seq<u8>) -> int {
    if b.len() == 0 {
        0
    } else if b.last() == 10u8 {
        line_starts_of(b).len() - 1
    } else {
        line_starts_of(b).len() as int
    }
}

/// The byte span `[lo, hi)` of line `i` of `b` (without its newline);
/// `(len, len)` for a line that does not exist or starts at the end.
pub open spec fn line_span(b: Seq<u8>, i: int) -> (int, int) {
    let s = line_starts_of(b);
    if i < 0 || i >= s.len() || s[i] >= b.len() {
        (b.len() as int, b.len() as int)
    } else if i + 1 < s.len() {
        (s[i], s[i + 1] - 1)
    } else {
        (s[i], b.len() as int)
    }
}

/// Whether line `i` of `b` holds only whitespace.
pub open spec fn line_blank(b: Seq<u8>, i: int) -> bool {
    trim_lo(b, line_span(b, i).0, line_span(b, i).1) == trim_hi(b, line_span(b, i).0, line_span(b, i).1)
}

/// A byte other than a newline lies inside the span of some line.
pub proof fn lemma_byte_in_line(b: Seq<u8>, q: int)
    requires
        0 <= q < b.len(),
        b[q] != 10u8,
    ensures
        exists|l: int| 0 <= l < count_lines(b) && (#[trigger] line_span(b, l)).0 <= q < line_span(b, l).1,
    decreases b.len(),
{
    let p = b.drop_last();
    let s = line_starts_of(b);
    let sp = line_starts_of(p);
    crate::text::lemma_line_starts(b);
    crate::text::lemma_line_starts(p);
    assert(b.last() != 10u8 ==> s == sp);
    assert(b.last() == 10u8 ==> s == sp.push(b.len() as int));
    if q < b.len() - 1 {
        assert(p[q] == b[q]);
        lemma_byte_in_line(p, q);
        let l = choose|l: int| 0 <= l < count_lines(p) && (#[trigger] line_span(p, l)).0 <= q < line_span(p, l).1;
        assert(s[l] == sp[l]);
        if l + 1 < sp.len() {
            assert(s[l + 1] == sp[l + 1]);
        }
        if b.last() == 10u8 {
            assert(l < count_lines(b));
        } else {
            assert(l < count_lines(b));
        }
        assert(line_span(b, l).0 <= q < line_span(b, l).1);
    } else {
        // The last byte, not a newline: it lies on the last line.
        let l = s.len() - 1;
        assert(s == sp);
        assert(s[l] <= p.len());
        assert(count_lines(b) == s.len());
        assert(line_span(b, l) == (s[l], b.len() as int));
    }
}

/// The whitespace that trimming skips forward holds no `$`.
proof fn lemma_fwd_no_sigil(b: Seq<u8>, i: int, hi: int)
    requires
        0 <= i <= hi <= b.len(),
    ensures
        forall|q: int| i <= q < crate::strs::skip_ws_fwd(b, i, hi) ==> b[q] != 36u8,
    decreases hi - i,
{
    let w = crate::strs::ws_width_at(b, i, hi);
    if i < hi && w > 0 {
        lemma_fwd_no_sigil(b, i + w, hi);
    }
}

/// The whitespace that trimming skips backward holds no `$`.
proof fn lemma_back_no_sigil(b: Seq<u8>, lo: int, j: int)
    requires
        0 <= lo <= j <= b.len(),
    ensures
        forall|q: int| crate::strs::skip_ws_back(b, lo, j) <= q < j ==> b[q] != 36u8,
    decreases j - lo,
{
    let w = crate::strs::ws_width_before(b, lo, j);
    if lo < j && w > 0 {
        lemma_back_no_sigil(b, lo, j - w);
    }
}

/// Text with no content line holds no `$`.
pub proof fn lemma_blank_no_sigil(b: Seq<u8>)
    requires
        forall|l: int| 0 <= l < count_lines(b) ==> line_blank(b, l),
    ensures
        forall|q: int| 0 <= q < b.len() ==> b[q] != 36u8,
{
    assert forall|q: int| 0 <= q < b.len() implies b[q] != 36u8 by {
        if b[q] != 10u8 {
            lemma_byte_in_line(b, q);
            let l = choose|l: int| 0 <= l < count_lines(b) && (#[trigger] line_span(b, l)).0 <= q < line_span(b, l).1;
            lemma_line_span(b, l);
            let (lo, hi) = line_span(b, l);
            crate::strs::lemma_skip_fwd_bounds(b, lo, hi);
            let tl = crate::strs::skip_ws_fwd(b, lo, hi);
            lemma_fwd_no_sigil(b, lo, hi);
            lemma_back_no_sigil(b, tl, hi);
            assert(line_blank(b, l));
        }
    }
}

/// Visual column reached after the leading spaces/tabs of `b[i..]`,
/// starting from column `col`: tabs advance to the next multiple of 4.
pub open spec fn indent_cols_from(b: Seq<u8>, i: int, col: int) -> int
    decreases b.len() - i,
{
    if i < 0 || i >= b.len() || (b[i] != 9u8 && b[i] != 32u8) {
        col
    } else if b[i] == 9u8 {
        indent_cols_from(b, i + 1, (col / 4 + 1) * 4)
    } else {
        indent_cols_from(b, i + 1, col + 1)
    }
}

/// Visual indentation width of a line's bytes.
pub open spec fn indent_cols(b: Seq<u8>) -> int {
    indent_cols_from(b, 0, 0)
}

/// Facts about [`line_span`]: it lies in bounds and, for an existing line,
/// starts after a newline (or at 0) and ends at a newline (or the end).
pub proof fn lemma_line_span(b: Seq<u8>, i: int)
    ensures
        0 <= line_span(b, i).0 <= line_span(b, i).1 <= b.len(),
        line_span(b, i).0 > 0 && line_span(b, i).0 < b.len() ==> b[line_span(b, i).0 - 1] == 10u8,
        line_span(b, i).1 < b.len() ==> b[line_span(b, i).1] == 10u8,
        0 <= i < line_starts_of(b).len() && line_starts_of(b)[i] < b.len() ==> line_span(b, i).0
            == line_starts_of(b)[i],
{
    lemma_line_starts(b);
    let s = line_starts_of(b);
    if 0 <= i < s.len() && s[i] < b.len() && i + 1 < s.len() {
        assert(s[i] < s[i + 1]);
        assert(b[s[i + 1] - 1] == 10u8);
    }
    if 0 <= i < s.len() && s[i] < b.len() && i > 0 {
        assert(b[s[i] - 1] == 10u8);
    }
}

/// Line spans come in source order: a line ends no later than any later
/// line starts.
pub proof fn lemma_span_mono(b: Seq<u8>, i: int, j: int)
    requires
        0 <= i < j,
    ensures
        line_span(b, i).1 <= line_span(b, j).0,
{
    lemma_line_starts(b);
    lemma_line_span(b, i);
    lemma_line_span(b, j);
    let s = line_starts_of(b);
    if i < s.len() && s[i] < b.len() && i + 1 < s.len() && j < s.len() {
        assert(s[i + 1] <= s[j]);
    }
}

/// Line starts come in source order.
pub proof fn lemma_span_start_mono(b: Seq<u8>, i: int, j: int)
    requires
        0 <= i <= j,
    ensures
        line_span(b, i).0 <= line_span(b, j).0,
{
    lemma_line_span(b, i);
    if i < j {
        lemma_span_mono(b, i, j);
    }
}

/// The span of a line lies between character boundaries.
pub proof fn lemma_line_span_boundary(s: &str, i: int)
    ensures
        valid_span(s.spec_bytes(), line_span(s.spec_bytes(), i).0, line_span(s.spec_bytes(), i).1),
{
    let b = s.spec_bytes();
    lemma_str_valid(s);
    lemma_line_span(b, i);
    let (lo, hi) = line_span(b, i);
    if lo > 0 && lo < b.len() {
        lemma_boundary_at(b, lo - 1);
        lemma_next_boundary(b, lo - 1);
    } else {
        lemma_boundary_at(b, lo);
    }
    lemma_boundary_at(b, hi);
}

// =============================================================================
// LineCursor
// =============================================================================

/// A read/write cursor over a source string, providing line-oriented
/// navigation and span construction helpers.
///
/// Callers move the cursor with [`set_line`](LineCursor::set_line),
/// [`advance`](LineCursor::advance) and
/// [`skip_blanks`](LineCursor::skip_blanks).
pub struct LineCursor<'a> {
    source: &'a str,
    offsets: Vec<usize>,
    total: usize,
    line: usize,
}

impl<'a> LineCursor<'a> {
    /// The source text the cursor walks.
    pub closed spec fn src(&self) -> &'a str {
        self.source
    }

    /// The source bytes.
    pub open spec fn bytes(&self) -> Seq<u8> {
        self.src().spec_bytes()
    }

    /// The current line index (0-based).
    pub closed spec fn pos(&self) -> int {
        self.line as int
    }

    /// The line-start table.
    pub closed spec fn starts(&self) -> Seq<int> {
        self.offsets@.map_values(|x: usize| x as int)
    }

    /// The number of text lines.
    pub closed spec fn nlines(&self) -> int {
        self.total as int
    }

    /// Well-formedness: the tables describe the source, whose length fits in
    /// a [`TextSize`].
    pub open spec fn wf(&self) -> bool {
        &&& self.starts() == line_starts_of(self.bytes())
        &&& self.nlines() == count_lines(self.bytes())
        &&& self.bytes().len() < u32::MAX
        &&& self.bytes().len() <= usize::MAX / 8
    }

    /// Span of line `i`.
    pub open spec fn span(&self, i: int) -> (int, int) {
        line_span(self.bytes(), i)
    }

    /// Start offset of line `i` (its table entry).
    pub open spec fn start_of(&self, i: int) -> int {
        self.starts()[i]
    }

    /// `self` and `other` walk the same text.
    pub open spec fn same_text(&self, other: &Self) -> bool {
        &&& self.src() == other.src()
        &&& self.starts() == other.starts()
        &&& self.nlines() == other.nlines()
    }

    /// Facts every well-formed cursor satisfies.
    pub proof fn lemma_wf(&self)
        requires
            self.wf(),
        ensures
            self.starts().len() >= 1,
            self.starts()[0] == 0,
            forall|i: int, j: int|
                0 <= i < j < self.starts().len() ==> self.starts()[i] < self.starts()[j],
            forall|i: int| 0 <= i < self.starts().len() ==> 0 <= #[trigger] self.starts()[i] <= self.bytes().len(),
            0 <= self.nlines() <= self.starts().len(),
            self.nlines() <= usize::MAX,
            0 <= self.pos() <= usize::MAX,
            forall|i: int| #![trigger self.span(i)] 0 <= self.span(i).0 <= self.span(i).1 <= self.bytes().len(),
            forall|i: int|
                #![trigger self.span(i)]
                0 <= i < self.starts().len() ==> self.span(i).0 == self.starts()[i],
            forall|i: int| 0 <= i < self.nlines() ==> #[trigger] self.starts()[i] < self.bytes().len(),
    {
        lemma_line_starts(self.bytes());
        assert forall|i: int| #![trigger self.span(i)] 0 <= self.span(i).0 <= self.span(i).1 <= self.bytes().len() by {
            lemma_line_span(self.bytes(), i);
        }
        assert forall|i: int| #![trigger self.span(i)] 0 <= i < self.starts().len() implies self.span(i).0 == self.starts()[i] by {
            lemma_line_span(self.bytes(), i);
        }
        assert forall|i: int| 0 <= i < self.nlines() implies #[trigger] self.starts()[i] < self.bytes().len() by {
            let b = self.bytes();
            let s = line_starts_of(b);
            let n = s.len();
            if i < n - 1 {
                assert(s[i] < s[n - 1]);
            } else {
                assert(b.last() != 10u8);
                if s[i] >= b.len() {
                    assert(s[i] == b.len());
                    if i > 0 {
                        assert(b[s[i] - 1] == 10u8);
                    }
                }
            }
        }
    }

    /// Create a new cursor over `source`, starting at line 0.
    pub fn new(source: &'a str) -> (r: Self)
        requires
            source.spec_bytes().len() < u32::MAX,
            source.spec_bytes().len() <= usize::MAX / 8,
        ensures
            r.wf(),
            r.src() == source,
            r.pos() == 0,
    {
        let offsets = build_line_offsets(source);
        let total = count_lines_exec(source, &offsets);
        LineCursor { source, offsets, total, line: 0 }
    }

    // ── Source access ────────────────────────────────────────────────

    /// The full source text.
    pub fn source(&self) -> (r: &'a str)
        ensures
            r == self.src(),
    {
        self.source
    }

    /// A `TextRange` spanning the source's text lines: from offset 0 to the
    /// end of the last line (a trailing newline is not included).
    pub fn full_range(&self) -> (r: TextRange)
        requires
            self.wf(),
        ensures
            lo(r) == 0,
            hi(r) == (if self.nlines() == 0 {
                0
            } else {
                self.span(self.nlines() - 1).1
            }),
            hi(r) <= self.bytes().len(),
    {
        proof {
            self.lemma_wf();
        }
        let last_line = if self.total > 0 {
            self.total - 1
        } else {
            0
        };
        let last_col = self.line_text(last_line).len();
        proof {
            lemma_line_span_boundary(self.source, last_line as int);
            if self.total == 0 {
                assert(self.bytes().len() == 0);
            }
        }
        self.make_range(0, 0, last_line, last_col)
    }

    // ── Position ────────────────────────────────────────────────────

    /// The current line index (0-based).
    pub fn line(&self) -> (r: usize)
        ensures
            r == self.pos(),
    {
        self.line
    }

    /// Move the cursor to line `line`.
    pub fn set_line(&mut self, line: usize)
        ensures
            final(self).pos() == line,
            final(self).same_text(old(self)),
    {
        self.line = line;
    }

    /// Whether the cursor has reached or passed the end of the source.
    pub fn is_eof(&self) -> (r: bool)
        ensures
            r == (self.pos() >= self.nlines()),
    {
        self.line >= self.total
    }

    /// Total number of lines in the source.
    pub fn total_lines(&self) -> (r: usize)
        ensures
            r == self.nlines(),
    {
        self.total
    }

    /// Advance the cursor by one line.
    pub fn advance(&mut self)
        requires
            old(self).pos() < usize::MAX,
        ensures
            final(self).pos() == old(self).pos() + 1,
            final(self).same_text(old(self)),
    {
        self.line = self.line + 1;
    }

    /// Skip blank (whitespace-only) lines starting at the current position.
    pub fn skip_blanks(&mut self)
        requires
            old(self).wf(),
        ensures
            final(self).same_text(old(self)),
            old(self).pos() <= final(self).pos(),
            final(self).pos() <= old(self).pos() || final(self).pos() <= final(self).nlines(),
            final(self).pos() < final(self).nlines() ==> !line_blank(final(self).bytes(), final(self).pos() as int),
            forall|k: int|
                old(self).pos() <= k < final(self).pos() ==> line_blank(final(self).bytes(), k),
    {
        while self.line < self.total && self.line_is_blank(self.line)
            invariant
                self.wf(),
                self.same_text(old(self)),
                old(self).pos() <= self.pos(),
                self.pos() <= old(self).pos() || self.pos() <= self.nlines(),
                forall|k: int| old(self).pos() <= k < self.pos() ==> line_blank(self.bytes(), k),
            decreases self.nlines() - self.pos(),
        {
            self.line = self.line + 1;
        }
    }

    // ── Current-line helpers ────────────────────────────────────────

    /// Text of the current line (without trailing newline).
    pub fn current_line_text(&self) -> (r: &'a str)
        requires
            self.wf(),
        ensures
            r.spec_bytes() == self.bytes().subrange(self.span(self.pos()).0, self.span(self.pos()).1),
    {
        self.line_text(self.line)
    }

    /// Trimmed text of the current line.
    pub fn current_trimmed(&self) -> (r: &'a str)
        requires
            self.wf(),
        ensures
            r.spec_bytes() == self.bytes().subrange(
                trim_lo(self.bytes(), self.span(self.pos()).0, self.span(self.pos()).1),
                trim_hi(self.bytes(), self.span(self.pos()).0, self.span(self.pos()).1),
            ),
    {
        let (lo, hi) = self.span_exec(self.line);
        let (s, e) = trim_window(self.source.as_bytes(), lo, hi);
        proof {
            lemma_line_span_boundary(self.source, self.pos());
            lemma_str_valid(self.source);
            lemma_trim_boundary(self.bytes(), lo as int, hi as int);
        }
        substr(self.source, s, e)
    }

    /// The trimmed window `[s, e)` of the current line, as offsets.
    pub fn current_trimmed_bounds(&self) -> (r: (usize, usize))
        requires
            self.wf(),
        ensures
            r.0 == trim_lo(self.bytes(), self.span(self.pos()).0, self.span(self.pos()).1),
            r.1 == trim_hi(self.bytes(), self.span(self.pos()).0, self.span(self.pos()).1),
            self.span(self.pos()).0 <= r.0 <= r.1 <= self.span(self.pos()).1,
    {
        let (lo, hi) = self.span_exec(self.line);
        trim_window(self.source.as_bytes(), lo, hi)
    }

    /// Leading-whitespace byte count of the current line.
    pub fn current_indent(&self) -> (r: usize)
        requires
            self.wf(),
        ensures
            r == trim_lo(self.bytes(), self.span(self.pos()).0, self.span(self.pos()).1)
                - self.span(self.pos()).0,
    {
        let (lo, hi) = self.span_exec(self.line);
        let s = skip_ws_forward(self.source.as_bytes(), lo, hi);
        s - lo
    }

    /// Visual column width of leading whitespace on the current line (tabs
    /// expand to 4-column stops).
    pub fn current_indent_columns(&self) -> (r: usize)
        requires
            self.wf(),
        ensures
            r == indent_cols(self.bytes().subrange(self.span(self.pos()).0, self.span(self.pos()).1)),
    {
        let (lo, hi) = self.span_exec(self.line);
        indent_columns_window(self.source.as_bytes(), lo, hi)
    }

    /// A [`TextRange`] spanning the trimmed content of the current line.
    pub fn current_trimmed_range(&self) -> (r: TextRange)
        requires
            self.wf(),
        ensures
            lo(r) == trim_lo(self.bytes(), self.span(self.pos()).0, self.span(self.pos()).1),
            hi(r) == trim_hi(self.bytes(), self.span(self.pos()).0, self.span(self.pos()).1),
    {
        let (s, e) = self.current_trimmed_bounds();
        proof {
            lemma_line_span(self.bytes(), self.pos());
        }
        TextRange::from_usizes(s, e)
    }

    // ── Arbitrary-line helpers ──────────────────────────────────────

    /// The span `[lo, hi)` of line `idx` as offsets.
    pub fn span_exec(&self, idx: usize) -> (r: (usize, usize))
        requires
            self.wf(),
        ensures
            r.0 == self.span(idx as int).0,
            r.1 == self.span(idx as int).1,
            r.0 <= r.1 <= self.bytes().len(),
    {
        proof {
            lemma_line_span(self.bytes(), idx as int);
            lemma_line_starts(self.bytes());
        }
        let len = self.source.len();
        if idx >= self.offsets.len() {
            return (len, len);
        }
        let start = self.offsets[idx];
        if start >= len {
            return (len, len);
        }
        let end = if idx + 1 < self.offsets.len() {
            self.offsets[idx + 1] - 1
        } else {
            len
        };
        (start, end)
    }

    /// Text of line `idx` (without trailing newline); `""` if `idx` is out
    /// of bounds.
    pub fn line_text(&self, idx: usize) -> (r: &'a str)
        requires
            self.wf(),
        ensures
            r.spec_bytes() == self.bytes().subrange(self.span(idx as int).0, self.span(idx as int).1),
    {
        let (lo, hi) = self.span_exec(idx);
        proof {
            lemma_line_span_boundary(self.source, idx as int);
        }
        substr(self.source, lo, hi)
    }

    /// Whether line `idx` holds only whitespace.
    pub fn line_is_blank(&self, idx: usize) -> (r: bool)
        requires
            self.wf(),
        ensures
            r == line_blank(self.bytes(), idx as int),
    {
        let (lo, hi) = self.span_exec(idx);
        let (s, e) = trim_window(self.source.as_bytes(), lo, hi);
        s == e
    }

    /// The end of the trimmed content of line `idx`.
    pub fn line_content_end(&self, idx: usize) -> (r: usize)
        requires
            self.wf(),
        ensures
            r == trim_hi(self.bytes(), self.span(idx as int).0, self.span(idx as int).1),
            self.span(idx as int).0 <= r <= self.span(idx as int).1,
    {
        let (lo, hi) = self.span_exec(idx);
        let (_s, e) = trim_window(self.source.as_bytes(), lo, hi);
        e
    }

    /// The start of the trimmed content of line `idx`.
    pub fn line_content_start(&self, idx: usize) -> (r: usize)
        requires
            self.wf(),
        ensures
            r == trim_lo(self.bytes(), self.span(idx as int).0, self.span(idx as int).1),
            self.span(idx as int).0 <= r <= self.span(idx as int).1,
    {
        let (lo, hi) = self.span_exec(idx);
        let (s, _e) = trim_window(self.source.as_bytes(), lo, hi);
        s
    }

    // ── Span construction ──────────────────────────────────────────

    /// Build a [`TextRange`] from (line, col) pairs.
    pub fn make_range(&self, start_line: usize, start_col: usize, end_line: usize, end_col: usize) -> (r:
        TextRange)
        requires
            self.wf(),
            start_line < self.starts().len(),
            end_line < self.starts().len(),
            self.start_of(start_line as int) + start_col <= u32::MAX,
            self.start_of(end_line as int) + end_col <= u32::MAX,
        ensures
            lo(r) == self.start_of(start_line as int) + start_col,
            hi(r) == self.start_of(end_line as int) + end_col,
    {
        TextRange::from_usizes(self.offsets[start_line] + start_col, self.offsets[end_line] + end_col)
    }

    /// Build a [`TextRange`] spanning `len` bytes on a single line.
    pub fn make_line_range(&self, line: usize, col: usize, len: usize) -> (r: TextRange)
        requires
            self.wf(),
            line < self.starts().len(),
            self.start_of(line as int) + col + len <= u32::MAX,
        ensures
            lo(r) == self.start_of(line as int) + col,
            hi(r) == self.start_of(line as int) + col + len,
    {
        let start = self.offsets[line] + col;
        TextRange::from_offset_len(start, len)
    }

    /// Build a [`TextRange`] from `start_offset` to the end of the last
    /// non-blank line before the cursor (trailing blank lines skipped).
    pub fn span_back_from_cursor(&self, start_offset: usize) -> (r: TextRange)
        requires
            self.wf(),
            start_offset <= self.bytes().len(),
            self.pos() <= self.starts().len(),
            self.offset_line_spec(start_offset as int) <= self.before_pos(),
        ensures
            lo(r) == start_offset,
            hi(r) == trim_hi(
                self.bytes(),
                self.span(self.back_line(self.offset_line_spec(start_offset as int), self.before_pos())).0,
                self.span(self.back_line(self.offset_line_spec(start_offset as int), self.before_pos())).1,
            ),
    {
        proof {
            self.lemma_wf();
        }
        let (start_line, start_col) = self.offset_to_line_col(start_offset);
        let mut end_line = if self.line >= 1 {
            self.line - 1
        } else {
            0
        };
        while end_line > start_line
            invariant
                self.wf(),
                start_line <= end_line <= self.before_pos(),
                self.back_line(start_line as int, self.before_pos()) == self.back_line(
                    start_line as int,
                    end_line as int,
                ),
            ensures
                start_line <= end_line,
                self.back_line(start_line as int, self.before_pos()) == end_line,
            decreases end_line,
        {
            if !self.line_is_blank(end_line) {
                break;
            }
            end_line = end_line - 1;
        }
        let e = self.line_content_end(end_line);
        let lo_end = self.span_exec(end_line).0;
        proof {
            self.lemma_wf();
            lemma_line_span(self.bytes(), end_line as int);
            assert(self.span(end_line as int).0 == self.starts()[end_line as int]);
        }
        self.make_range(start_line, start_col, end_line, e - lo_end)
    }

    /// The line before the cursor's line, or line 0 at the start.
    pub open spec fn before_pos(&self) -> int {
        if self.pos() >= 1 {
            self.pos() - 1
        } else {
            0
        }
    }

    /// The last line in `(from_line, to_line]` whose content is not blank,
    /// walking back from `to_line`; `from_line` if all are blank.
    pub open spec fn back_line(&self, from_line: int, to_line: int) -> int
        decreases to_line - from_line,
    {
        if to_line > from_line && line_blank(self.bytes(), to_line) {
            self.back_line(from_line, to_line - 1)
        } else {
            to_line
        }
    }

    /// The line holding byte offset `offset`: the last line starting at or
    /// before it.
    pub open spec fn offset_line_spec(&self, offset: int) -> int {
        choose|l: int|
            0 <= l < self.starts().len() && #[trigger] self.starts()[l] <= offset && (l + 1 < self.starts().len()
                ==> offset < self.starts()[l + 1])
    }

    // ── Offset utilities ───────────────────────────────────────────

    /// Convert a byte offset to `(line, col)`: the line is the last one
    /// starting at or before `offset`.
    pub fn offset_to_line_col(&self, offset: usize) -> (r: (usize, usize))
        requires
            self.wf(),
        ensures
            r.0 < self.starts().len(),
            self.starts()[r.0 as int] <= offset,
            r.0 + 1 < self.starts().len() ==> offset < self.starts()[r.0 + 1],
            r.1 == offset - self.starts()[r.0 as int],
            r.0 == self.offset_line_spec(offset as int),
    {
        proof {
            self.lemma_wf();
        }
        let n = self.offsets.len();
        let mut lo: usize = 1;
        let mut hi: usize = n;
        assert(forall|k: int| 0 <= k < n ==> #[trigger] self.starts()[k] == self.offsets@[k] as int);
        while lo < hi
            invariant
                1 <= lo <= hi <= n,
                n == self.offsets@.len(),
                self.wf(),
                self.starts().len() == n,
                self.starts()[0] == 0,
                forall|i: int, j: int| 0 <= i < j < n ==> self.starts()[i] < self.starts()[j],
                forall|k: int| 0 <= k < n ==> #[trigger] self.starts()[k] == self.offsets@[k] as int,
                forall|k: int| 0 <= k < lo ==> self.offsets@[k] <= offset,
                forall|k: int| hi <= k < n ==> self.offsets@[k] > offset,
            decreases hi - lo,
        {
            let mid = lo + (hi - lo) / 2;
            if self.offsets[mid] <= offset {
                proof {
                    assert forall|k: int| 0 <= k <= mid implies self.offsets@[k] <= offset by {
                        if k < mid {
                            assert(self.starts()[k] < self.starts()[mid as int]);
                        }
                    }
                }
                lo = mid + 1;
            } else {
                proof {
                    assert forall|k: int| mid <= k < n implies self.offsets@[k] > offset by {
                        if k > mid {
                            assert(self.starts()[mid as int] < self.starts()[k]);
                        }
                    }
                }
                hi = mid;
            }
        }
        let line = lo - 1;
        proof {
            let l = line as int;
            assert(0 <= l < self.starts().len() && self.starts()[l] <= offset && (l + 1
                < self.starts().len() ==> offset < self.starts()[l + 1]));
            let c = self.offset_line_spec(offset as int);
            if c != l {
                if c < l {
                    assert(self.starts()[c + 1] <= self.starts()[l]);
                } else {
                    assert(self.starts()[l + 1] <= self.starts()[c]);
                }
            }
        }
        (line, offset - self.offsets[line])
    }
}

// =============================================================================
// Standalone helpers
// =============================================================================

/// Number of leading whitespace bytes in `line` (`line.len()` minus the
/// length of `line.trim_start()`).
pub fn indent_len(line: &str) -> (r: usize)
    ensures
        r == skip_ws_fwd(line.spec_bytes(), 0, line.spec_bytes().len() as int),
{
    let b = line.as_bytes();
    skip_ws_forward(b, 0, b.len())
}

/// Visual column width of leading whitespace in `line`: each tab advances
/// to the next multiple of 4, each space counts one column.
pub fn indent_columns(line: &str) -> (r: usize)
    requires
        line.spec_bytes().len() <= usize::MAX / 8,
    ensures
        r == indent_cols(line.spec_bytes()),
{
    let b = line.as_bytes();
    proof {
        assert(b@.subrange(0, b@.len() as int) =~= b@);
    }
    indent_columns_window(b, 0, b.len())
}

proof fn lemma_indent_cols_bound(b: Seq<u8>, i: int, col: int)
    requires
        0 <= i <= b.len(),
        0 <= col <= 4 * i,
    ensures
        0 <= indent_cols_from(b, i, col) <= 4 * b.len(),
    decreases b.len() - i,
{
    if i < b.len() && (b[i] == 9u8 || b[i] == 32u8) {
        if b[i] == 9u8 {
            assert((col / 4 + 1) * 4 <= 4 * (i + 1));
            lemma_indent_cols_bound(b, i + 1, (col / 4 + 1) * 4);
        } else {
            lemma_indent_cols_bound(b, i + 1, col + 1);
        }
    }
}

/// Visual indentation width of the window `[lo, hi)` of `b`.
pub fn indent_columns_window(b: &[u8], lo: usize, hi: usize) -> (r: usize)
    requires
        lo <= hi <= b@.len(),
        hi - lo <= usize::MAX / 8,
    ensures
        r == indent_cols(b@.subrange(lo as int, hi as int)),
{
    let ghost w = b@.subrange(lo as int, hi as int);
    let mut col: usize = 0;
    let mut i = lo;
    while i < hi
        invariant
            lo <= i <= hi <= b@.len(),
            w == b@.subrange(lo as int, hi as int),
            hi - lo <= usize::MAX / 8,
            0 <= col <= 4 * (i - lo),
            indent_cols_from(w, (i - lo) as int, col as int) == indent_cols(w),
        ensures
            lo <= i <= hi,
            0 <= col <= 4 * (i - lo),
            indent_cols_from(w, (i - lo) as int, col as int) == col,
            indent_cols_from(w, (i - lo) as int, col as int) == indent_cols(w),
        decreases hi - i,
    {
        let c = b[i];
        assert(w[i - lo] == c);
        if c == 9u8 {
            col = (col / 4 + 1) * 4;
        } else if c == 32u8 {
            col = col + 1;
        } else {
            break;
        }
        i = i + 1;
    }
    proof {
        lemma_indent_cols_bound(w, (i - lo) as int, col as int);
    }
    col
}

/// Build a table mapping each line index to its starting byte offset.
fn build_line_offsets(input: &str) -> (r: Vec<usize>)
    ensures
        r@.map_values(|x: usize| x as int) == line_starts_of(input.spec_bytes()),
{
    let bytes = input.as_bytes();
    let mut offsets: Vec<usize> = Vec::new();
    offsets.push(0);
    let mut i: usize = 0;
    proof {
        assert(bytes@.subrange(0, 0) =~= Seq::<u8>::empty());
        assert(offsets@.map_values(|x: usize| x as int) =~= seq![0int]);
    }
    while i < bytes.len()
        invariant
            i <= bytes@.len(),
            offsets@.map_values(|x: usize| x as int) == line_starts_of(bytes@.subrange(0, i as int)),
        decreases bytes@.len() - i,
    {
        let ghost prev = bytes@.subrange(0, i as int);
        let ghost next = bytes@.subrange(0, i + 1);
        proof {
            assert(next.drop_last() =~= prev);
            assert(next.last() == bytes@[i as int]);
        }
        if bytes[i] == 10u8 {
            offsets.push(i + 1);
            proof {
                assert(offsets@.map_values(|x: usize| x as int) =~= line_starts_of(prev).push(
                    (i + 1) as int,
                ));
            }
        }
        i = i + 1;
    }
    proof {
        assert(bytes@.subrange(0, bytes@.len() as int) =~= bytes@);
    }
    offsets
}

/// Number of text lines in source.
fn count_lines_exec(source: &str, offsets: &Vec<usize>) -> (r: usize)
    requires
        offsets@.map_values(|x: usize| x as int) == line_starts_of(source.spec_bytes()),
    ensures
        r == count_lines(source.spec_bytes()),
{
    proof {
        lemma_line_starts(source.spec_bytes());
        assert(offsets@.len() == line_starts_of(source.spec_bytes()).len());
    }
    let b = source.as_bytes();
    if b.len() == 0 {
        0
    } else if b[b.len() - 1] == 10u8 {
        offsets.len() - 1
    } else {
        offsets.len()
    }
}

} // verus!
