//! Source location types (offset-only): [`TextSize`] (a byte offset),
//! [`TextRange`] (a half-open byte range), [`LineColumn`] and the
//! [`LineIndex`] that converts offsets to line/column positions.

use vstd::prelude::*;
use vstd::string::StringExecFns;
use vstd::string::StringSliceAdditionalSpecFns;

use crate::strs::decimal;
use crate::strs::push_decimal;
use crate::strs::slice_or_empty;
use crate::strs::valid_span;

verus! {

// =============================================================================
// TextSize
// =============================================================================

/// A byte offset in the source text.
///
/// Newtype over `u32` for type safety (prevents mixing with line numbers, etc.).
#[derive(Debug, Clone, Copy, PartialEq, Eq, Structural, PartialOrd, Ord, Hash, Default)]
pub struct TextSize(u32);

impl View for TextSize {
    type V = u32;

    closed spec fn view(&self) -> u32 {
        self.0
    }
}

impl TextSize {
    /// Creates a new text size from a raw byte offset.
    pub fn new(raw: u32) -> (r: Self)
        ensures
            r@ == raw,
    {
        TextSize(raw)
    }

    /// Returns the raw byte offset.
    pub fn raw(self) -> (r: u32)
        ensures
            r == self@,
    {
        self.0
    }

    /// The offset as a `usize`.
    pub fn to_usize(self) -> (r: usize)
        ensures
            r == self@,
    {
        self.0 as usize
    }

    /// Creates a text size from a `usize` offset that fits in `u32`.
    pub fn from_usize(raw: usize) -> (r: Self)
        requires
            raw <= u32::MAX,
        ensures
            r@ == raw,
    {
        TextSize(raw as u32)
    }

    /// Two sizes with the same offset are the same value.
    pub proof fn lemma_view_eq(a: Self, b: Self)
        requires
            a@ == b@,
        ensures
            a == b,
    {
    }
}

// =============================================================================
// TextRange
// =============================================================================

/// A range in the source text `[start, end)`, represented as byte offsets.
#[derive(Debug, Clone, Copy, PartialEq, Eq, Structural, Hash, Default)]
pub struct TextRange {
    start: TextSize,
    end: TextSize,
}

impl View for TextRange {
    type V = (u32, u32);

    closed spec fn view(&self) -> (u32, u32) {
        (self.start@, self.end@)
    }
}

/// The `(start, end)` offsets of a range.
pub open spec fn lo(r: TextRange) -> int {
    r@.0 as int
}

/// The end offset of a range.
pub open spec fn hi(r: TextRange) -> int {
    r@.1 as int
}

/// Whether `r` denotes a slice of `b` at character boundaries.
pub open spec fn range_valid(r: TextRange, b: Seq<u8>) -> bool {
    valid_span(b, lo(r), hi(r))
}

/// The bytes `r` denotes in `b`, or nothing when it is not a valid slice.
pub open spec fn range_bytes(r: TextRange, b: Seq<u8>) -> Seq<u8> {
    if range_valid(r, b) {
        b.subrange(lo(r), hi(r))
    } else {
        Seq::empty()
    }
}

impl TextRange {
    /// Creates a new range from start (inclusive) and end (exclusive) offsets.
    pub fn new(start: TextSize, end: TextSize) -> (r: Self)
        ensures
            r@ == (start@, end@),
    {
        TextRange { start, end }
    }

    /// Creates a range from two `usize` offsets that fit in `u32`.
    pub fn from_usizes(start: usize, end: usize) -> (r: Self)
        requires
            start <= u32::MAX,
            end <= u32::MAX,
        ensures
            lo(r) == start,
            hi(r) == end,
    {
        TextRange { start: TextSize::from_usize(start), end: TextSize::from_usize(end) }
    }

    /// Start offset (inclusive).
    pub fn start(self) -> (r: TextSize)
        ensures
            r@ == self@.0,
    {
        self.start
    }

    /// End offset (exclusive).
    pub fn end(self) -> (r: TextSize)
        ensures
            r@ == self@.1,
    {
        self.end
    }

    /// Length of the range in bytes; zero for an inverted range (end before
    /// start).
    pub fn len(self) -> (r: TextSize)
        ensures
            r@ == (if self@.1 >= self@.0 {
                (self@.1 - self@.0) as u32
            } else {
                0u32
            }),
    {
        if self.end.0 >= self.start.0 {
            TextSize::new(self.end.0 - self.start.0)
        } else {
            TextSize::new(0)
        }
    }

    /// Whether the range is empty (start equals end).
    pub fn is_empty(self) -> (r: bool)
        ensures
            r == (self@.0 == self@.1),
    {
        self.start.0 == self.end.0
    }

    /// Whether `offset` is contained in this range.
    pub fn contains(self, offset: TextSize) -> (r: bool)
        ensures
            r == (self@.0 <= offset@ && offset@ < self@.1),
    {
        self.start.0 <= offset.0 && offset.0 < self.end.0
    }

    /// Creates a range from an absolute byte offset and a length.
    pub fn from_offset_len(offset: usize, len: usize) -> (r: Self)
        requires
            offset + len <= u32::MAX,
        ensures
            lo(r) == offset,
            hi(r) == offset + len,
    {
        TextRange { start: TextSize(offset as u32), end: TextSize((offset + len) as u32) }
    }

    /// Extracts the corresponding slice from the source text.
    ///
    /// Returns an empty string if the range is out of bounds, inverted, or an
    /// endpoint falls inside a multi-byte character.
    pub fn source_text<'a>(&self, source: &'a str) -> (r: &'a str)
        ensures
            r.spec_bytes() == range_bytes(*self, source.spec_bytes()),
    {
        slice_or_empty(source, self.start.0 as usize, self.end.0 as usize)
    }

    /// Grow this range's end to cover `other`: the end only ever moves
    /// forward, and the start is not touched.
    pub fn extend(&mut self, other: TextRange)
        ensures
            final(self)@.0 == old(self)@.0,
            final(self)@.1 == (if other@.1 > old(self)@.1 {
                other@.1
            } else {
                old(self)@.1
            }),
    {
        if other.end.0 > self.end.0 {
            self.end = other.end;
        }
    }

    /// `start..end`, the way the range is displayed.
    pub fn display(&self) -> (r: String)
        ensures
            r@ == range_chars(*self),
    {
        let mut out = String::new();
        push_decimal(&mut out, self.start.0 as usize);
        let dots = "..";
        proof {
            reveal_strlit("..");
            vstd::utf8::is_ascii_chars_encode_utf8(dots@);
            assert(dots.spec_bytes() =~= seq![46u8, 46u8]);
        }
        let ghost before = out@;
        out.append(dots);
        proof {
            crate::strs::lemma_encode_concat(before, dots@);
        }
        push_decimal(&mut out, self.end.0 as usize);
        proof {
            vstd::utf8::encode_utf8_decode_utf8(out@);
        }
        out
    }
}

/// The decimal text of a range, `start..end`, as bytes.
pub open spec fn range_text(r: TextRange) -> Seq<u8> {
    decimal(lo(r) as nat) + seq![46u8, 46u8] + decimal(hi(r) as nat)
}

/// The decimal text of a range, `start..end`.
pub open spec fn range_chars(r: TextRange) -> Seq<char> {
    vstd::utf8::decode_utf8(range_text(r))
}

// =============================================================================
// LineColumn
// =============================================================================

/// A line/column position in the source text.
///
/// `lineno` is 1-based; `col` is the 0-based byte offset from the start of
/// the line.
#[derive(Debug, Clone, Copy, PartialEq, Eq, Structural, Hash)]
pub struct LineColumn {
    /// 1-based line number.
    pub lineno: u32,
    /// 0-based byte column offset from the start of the line.
    pub col: u32,
}

// =============================================================================
// LineIndex
// =============================================================================

/// The start offsets of the lines of `b`: `0`, then one past every `\n`.
pub open spec fn line_starts_of(b: Seq<u8>) -> Seq<int>
    decreases b.len(),
{
    if b.len() == 0 {
        seq![0int]
    } else if b.last() == 10u8 {
        line_starts_of(b.drop_last()).push(b.len() as int)
    } else {
        line_starts_of(b.drop_last())
    }
}

/// A lookup table for converting byte offsets to [`LineColumn`] positions.
#[derive(Debug, Clone, PartialEq, Eq)]
pub struct LineIndex {
    /// Byte offset of the first character of each line.
    line_starts: Vec<u32>,
}

impl View for LineIndex {
    type V = Seq<int>;

    closed spec fn view(&self) -> Seq<int> {
        self.line_starts@.map_values(|x: u32| x as int)
    }
}

/// Facts about [`line_starts`]: it starts at 0, increases strictly, and
/// every entry is at most the length.
pub proof fn lemma_line_starts(b: Seq<u8>)
    ensures
        line_starts_of(b).len() >= 1,
        line_starts_of(b).len() <= b.len() + 1,
        line_starts_of(b)[0] == 0,
        forall|i: int, j: int|
            0 <= i < j < line_starts_of(b).len() ==> line_starts_of(b)[i] < line_starts_of(b)[j],
        forall|i: int| 0 <= i < line_starts_of(b).len() ==> 0 <= #[trigger] line_starts_of(b)[i] <= b.len(),
        forall|i: int|
            0 < i < line_starts_of(b).len() ==> b[#[trigger] line_starts_of(b)[i] - 1] == 10u8,
    decreases b.len(),
{
    if b.len() > 0 {
        lemma_line_starts(b.drop_last());
        let p = b.drop_last();
        assert forall|i: int| 0 < i < line_starts_of(b).len() implies b[#[trigger] line_starts_of(b)[i] - 1]
            == 10u8 by {
            if i < line_starts_of(p).len() {
                assert(line_starts_of(b)[i] == line_starts_of(p)[i]);
                assert(b[line_starts_of(p)[i] - 1] == p[line_starts_of(p)[i] - 1]);
            }
        }
    }
}

impl LineIndex {
    /// Well-formedness: starts at 0 and increases strictly.
    pub open spec fn wf(&self) -> bool {
        &&& self@.len() >= 1
        &&& self@.len() <= u32::MAX
        &&& self@[0] == 0
        &&& forall|i: int, j: int| 0 <= i < j < self@.len() ==> self@[i] < self@[j]
    }

    /// Build a `LineIndex` from the source text.
    pub fn new(source: &str) -> (r: Self)
        requires
            source.spec_bytes().len() < u32::MAX,
        ensures
            r@ == line_starts_of(source.spec_bytes()),
            r.wf(),
    {
        let bytes = source.as_bytes();
        let mut line_starts: Vec<u32> = Vec::new();
        line_starts.push(0);
        let mut i: usize = 0;
        proof {
            assert(bytes@.subrange(0, 0) =~= Seq::<u8>::empty());
        }
        while i < bytes.len()
            invariant
                i <= bytes@.len() < u32::MAX,
                line_starts@.map_values(|x: u32| x as int) == line_starts_of(bytes@.subrange(0, i as int)),
            decreases bytes@.len() - i,
        {
            let ghost prev = bytes@.subrange(0, i as int);
            let ghost next = bytes@.subrange(0, i + 1);
            proof {
                assert(next.drop_last() =~= prev);
                assert(next.last() == bytes@[i as int]);
            }
            if bytes[i] == 10u8 {
                line_starts.push((i + 1) as u32);
                proof {
                    assert(line_starts@.map_values(|x: u32| x as int) =~= line_starts_of(prev).push(
                        (i + 1) as int,
                    ));
                }
            }
            i = i + 1;
        }
        proof {
            assert(bytes@.subrange(0, bytes@.len() as int) =~= bytes@);
            lemma_line_starts(bytes@);
        }
        LineIndex { line_starts }
    }

    /// Convert a byte offset to a [`LineColumn`] position: the line is the
    /// last one starting at or before `offset`.
    pub fn line_col(&self, offset: TextSize) -> (r: LineColumn)
        requires
            self.wf(),
        ensures
            1 <= r.lineno <= self@.len(),
            self@[r.lineno - 1] <= offset@,
            r.lineno < self@.len() ==> offset@ < self@[r.lineno as int],
            r.col == offset@ - self@[r.lineno - 1],
    {
        let off = offset.raw();
        let n = self.line_starts.len();
        // Binary search for the number of starts <= off.
        let mut lo: usize = 1;
        let mut hi: usize = n;
        assert(self.line_starts@[0] as int == self@[0]);
        assert(forall|k: int| 0 <= k < n ==> #[trigger] self@[k] == self.line_starts@[k] as int);
        while lo < hi
            invariant
                1 <= lo <= hi <= n,
                n == self.line_starts@.len(),
                self.wf(),
                forall|k: int| 0 <= k < n ==> #[trigger] self@[k] == self.line_starts@[k] as int,
                forall|k: int| 0 <= k < lo ==> self.line_starts@[k] <= off,
                forall|k: int| hi <= k < n ==> self.line_starts@[k] > off,
            decreases hi - lo,
        {
            let mid = lo + (hi - lo) / 2;
            if self.line_starts[mid] <= off {
                proof {
                    assert forall|k: int| 0 <= k <= mid implies self.line_starts@[k] <= off by {
                        if k < mid {
                            assert(self@[k] < self@[mid as int]);
                        }
                    }
                }
                lo = mid + 1;
            } else {
                proof {
                    assert forall|k: int| mid <= k < n implies self.line_starts@[k] > off by {
                        if k > mid {
                            assert(self@[mid as int] < self@[k]);
                        }
                    }
                }
                hi = mid;
            }
        }
        let line = lo - 1;
        let col = off - self.line_starts[line];
        LineColumn { lineno: lo as u32, col }
    }
}

} // verus!
