//! Byte-level text helpers shared by the parsers: Unicode whitespace
//! recognition on UTF-8 bytes, trimming of byte windows, and slicing of
//! `&str` at proven character boundaries.

use vstd::prelude::*;
use vstd::string::StringExecFns;
use vstd::string::StringSliceAdditionalSpecFns;
use vstd::utf8::*;

verus! {

// =============================================================================
// Whitespace on UTF-8 bytes
// =============================================================================

/// ASCII whitespace as Rust's `char::is_whitespace` sees it: `\t`, `\n`,
/// vertical tab, form feed, `\r` and space.
pub open spec fn is_ascii_ws(c: u8) -> bool {
    c == 9 || c == 10 || c == 11 || c == 12 || c == 13 || c == 32
}

/// The three-byte UTF-8 encodings of Unicode whitespace characters
/// (U+1680, U+2000..U+200A, U+2028, U+2029, U+202F, U+205F, U+3000).
pub open spec fn is_ws3(x: u8, y: u8, z: u8) -> bool {
    ||| (x == 0xE1 && y == 0x9A && z == 0x80)
    ||| (x == 0xE2 && y == 0x80 && ((0x80 <= z && z <= 0x8A) || z == 0xA8 || z == 0xA9 || z == 0xAF))
    ||| (x == 0xE2 && y == 0x81 && z == 0x9F)
    ||| (x == 0xE3 && y == 0x80 && z == 0x80)
}

/// The two-byte UTF-8 encodings of Unicode whitespace (U+0085, U+00A0).
pub open spec fn is_ws2(x: u8, y: u8) -> bool {
    x == 0xC2 && (y == 0x85 || y == 0xA0)
}

/// Width in bytes of the whitespace character whose encoding starts at `i`
/// and lies inside the window ending at `hi`; zero when there is none.
pub open spec fn ws_width_at(b: Seq<u8>, i: int, hi: int) -> int {
    if 0 <= i && i < hi && hi <= b.len() && is_ascii_ws(b[i]) {
        1
    } else if 0 <= i && i + 2 <= hi && hi <= b.len() && is_ws2(b[i], b[i + 1]) {
        2
    } else if 0 <= i && i + 3 <= hi && hi <= b.len() && is_ws3(b[i], b[i + 1], b[i + 2]) {
        3
    } else {
        0
    }
}

/// Width in bytes of the whitespace character whose encoding ends at `j`
/// and lies inside the window starting at `lo`; zero when there is none.
pub open spec fn ws_width_before(b: Seq<u8>, lo: int, j: int) -> int {
    if 0 <= lo && lo < j && j <= b.len() && is_ascii_ws(b[j - 1]) {
        1
    } else if 0 <= lo && lo <= j - 2 && j <= b.len() && is_ws2(b[j - 2], b[j - 1]) {
        2
    } else if 0 <= lo && lo <= j - 3 && j <= b.len() && is_ws3(b[j - 3], b[j - 2], b[j - 1]) {
        3
    } else {
        0
    }
}

/// The first position at or after `i` (within `[i, hi)`) that does not
/// start a whitespace character: where `trim_start` of the window begins.
pub open spec fn skip_ws_fwd(b: Seq<u8>, i: int, hi: int) -> int
    decreases hi - i,
{
    if i < hi && ws_width_at(b, i, hi) > 0 {
        skip_ws_fwd(b, i + ws_width_at(b, i, hi), hi)
    } else {
        i
    }
}

/// The last position at or before `j` (within `[lo, j]`) that does not end
/// a whitespace character: where `trim_end` of the window ends.
pub open spec fn skip_ws_back(b: Seq<u8>, lo: int, j: int) -> int
    decreases j - lo,
{
    if lo < j && ws_width_before(b, lo, j) > 0 {
        skip_ws_back(b, lo, j - ws_width_before(b, lo, j))
    } else {
        j
    }
}

/// Start of the trimmed content of the window `[lo, hi)`.
pub open spec fn trim_lo(b: Seq<u8>, lo: int, hi: int) -> int {
    skip_ws_fwd(b, lo, hi)
}

/// End of the trimmed content of the window `[lo, hi)`.
pub open spec fn trim_hi(b: Seq<u8>, lo: int, hi: int) -> int {
    skip_ws_back(b, skip_ws_fwd(b, lo, hi), hi)
}

pub proof fn lemma_skip_fwd_bounds(b: Seq<u8>, i: int, hi: int)
    requires
        i <= hi,
    ensures
        i <= skip_ws_fwd(b, i, hi) <= hi,
    decreases hi - i,
{
    if i < hi && ws_width_at(b, i, hi) > 0 {
        lemma_skip_fwd_bounds(b, i + ws_width_at(b, i, hi), hi);
    }
}

pub proof fn lemma_skip_back_bounds(b: Seq<u8>, lo: int, j: int)
    requires
        lo <= j,
    ensures
        lo <= skip_ws_back(b, lo, j) <= j,
    decreases j - lo,
{
    if lo < j && ws_width_before(b, lo, j) > 0 {
        lemma_skip_back_bounds(b, lo, j - ws_width_before(b, lo, j));
    }
}

pub proof fn lemma_trim_bounds(b: Seq<u8>, lo: int, hi: int)
    requires
        lo <= hi,
    ensures
        lo <= trim_lo(b, lo, hi) <= trim_hi(b, lo, hi) <= hi,
{
    lemma_skip_fwd_bounds(b, lo, hi);
    lemma_skip_back_bounds(b, skip_ws_fwd(b, lo, hi), hi);
}

/// Exec form of [`ws_width_at`].
pub fn ws_width(b: &[u8], i: usize, hi: usize) -> (w: usize)
    requires
        hi <= b@.len(),
    ensures
        w as int == ws_width_at(b@, i as int, hi as int),
{
    if i < hi {
        let c = b[i];
        if c == 9 || c == 10 || c == 11 || c == 12 || c == 13 || c == 32 {
            return 1;
        }
        if hi - i >= 2 && c == 0xC2 && (b[i + 1] == 0x85 || b[i + 1] == 0xA0) {
            return 2;
        }
        if hi - i >= 3 {
            let y = b[i + 1];
            let z = b[i + 2];
            if (c == 0xE1 && y == 0x9A && z == 0x80) || (c == 0xE2 && y == 0x80 && ((0x80 <= z
                && z <= 0x8A) || z == 0xA8 || z == 0xA9 || z == 0xAF)) || (c == 0xE2 && y == 0x81
                && z == 0x9F) || (c == 0xE3 && y == 0x80 && z == 0x80) {
                return 3;
            }
        }
    }
    0
}

/// Exec form of [`ws_width_before`].
pub fn ws_width_back(b: &[u8], lo: usize, j: usize) -> (w: usize)
    requires
        j <= b@.len(),
    ensures
        w as int == ws_width_before(b@, lo as int, j as int),
{
    if lo < j {
        let c = b[j - 1];
        if c == 9 || c == 10 || c == 11 || c == 12 || c == 13 || c == 32 {
            return 1;
        }
        if j - lo >= 2 && b[j - 2] == 0xC2 && (c == 0x85 || c == 0xA0) {
            return 2;
        }
        if j - lo >= 3 {
            let x = b[j - 3];
            let y = b[j - 2];
            if (x == 0xE1 && y == 0x9A && c == 0x80) || (x == 0xE2 && y == 0x80 && ((0x80 <= c
                && c <= 0x8A) || c == 0xA8 || c == 0xA9 || c == 0xAF)) || (x == 0xE2 && y == 0x81
                && c == 0x9F) || (x == 0xE3 && y == 0x80 && c == 0x80) {
                return 3;
            }
        }
    }
    0
}

/// Skip whitespace characters forward from `i` inside the window ending at `hi`.
pub fn skip_ws_forward(b: &[u8], i: usize, hi: usize) -> (r: usize)
    requires
        i <= hi <= b@.len(),
    ensures
        r as int == skip_ws_fwd(b@, i as int, hi as int),
        i <= r <= hi,
{
    let mut p = i;
    while p < hi
        invariant
            i <= p <= hi <= b@.len(),
            skip_ws_fwd(b@, p as int, hi as int) == skip_ws_fwd(b@, i as int, hi as int),
        ensures
            i <= p <= hi,
            skip_ws_fwd(b@, p as int, hi as int) == p,
            skip_ws_fwd(b@, p as int, hi as int) == skip_ws_fwd(b@, i as int, hi as int),
        decreases hi - p,
    {
        let w = ws_width(b, p, hi);
        if w == 0 {
            break;
        }
        p = p + w;
    }
    proof {
        lemma_skip_fwd_bounds(b@, p as int, hi as int);
    }
    p
}

/// Skip whitespace characters backward from `j` inside the window starting at `lo`.
pub fn skip_ws_backward(b: &[u8], lo: usize, j: usize) -> (r: usize)
    requires
        lo <= j <= b@.len(),
    ensures
        r as int == skip_ws_back(b@, lo as int, j as int),
        lo <= r <= j,
{
    let mut p = j;
    while lo < p
        invariant
            lo <= p <= j <= b@.len(),
            skip_ws_back(b@, lo as int, p as int) == skip_ws_back(b@, lo as int, j as int),
        ensures
            lo <= p <= j,
            skip_ws_back(b@, lo as int, p as int) == p,
            skip_ws_back(b@, lo as int, p as int) == skip_ws_back(b@, lo as int, j as int),
        decreases p - lo,
    {
        let w = ws_width_back(b, lo, p);
        if w == 0 {
            break;
        }
        p = p - w;
    }
    proof {
        lemma_skip_back_bounds(b@, lo as int, p as int);
    }
    p
}

/// The trimmed content `[s, e)` of the window `[lo, hi)` (Rust's `str::trim`).
pub fn trim_window(b: &[u8], lo: usize, hi: usize) -> (r: (usize, usize))
    requires
        lo <= hi <= b@.len(),
    ensures
        r.0 as int == trim_lo(b@, lo as int, hi as int),
        r.1 as int == trim_hi(b@, lo as int, hi as int),
        lo <= r.0 <= r.1 <= hi,
{
    let s = skip_ws_forward(b, lo, hi);
    let e = skip_ws_backward(b, s, hi);
    (s, e)
}

// =============================================================================
// Character boundaries
// =============================================================================

/// Width of the UTF-8 encoding that a leading byte announces.
pub open spec fn lead_width(c: u8) -> int {
    if is_leading_byte_width_1(c) {
        1
    } else if is_leading_byte_width_2(c) {
        2
    } else if is_leading_byte_width_3(c) {
        3
    } else {
        4
    }
}

/// The bytes of a `&str` form valid UTF-8.
pub proof fn lemma_str_valid(s: &str)
    ensures
        valid_utf8(s.spec_bytes()),
{
    encode_utf8_valid_utf8(s@);
}

/// A position holding a non-continuation byte, or the end, is a boundary.
pub proof fn lemma_boundary_at(b: Seq<u8>, i: int)
    requires
        valid_utf8(b),
        0 <= i <= b.len(),
        i < b.len() ==> !is_continuation_byte(b[i]),
    ensures
        is_char_boundary(b, i),
{
    is_char_boundary_start_end_of_seq(b);
    if i < b.len() {
        is_char_boundary_iff_not_is_continuation_byte(b, i);
    }
}

/// The position right after a whole character that starts at a boundary is
/// a boundary too.
pub proof fn lemma_next_boundary(b: Seq<u8>, i: int)
    requires
        valid_utf8(b),
        is_char_boundary(b, i),
        0 <= i < b.len(),
    ensures
        i + lead_width(b[i]) <= b.len(),
        is_char_boundary(b, i + lead_width(b[i])),
    decreases b.len(),
{
    reveal_with_fuel(is_char_boundary, 2);
    let k = length_of_first_scalar(b);
    let rest = pop_first_scalar(b);
    assert(rest.len() == b.len() - k);
    if i == 0 {
        is_char_boundary_start_end_of_seq(rest);
        assert(is_char_boundary(rest, 0));
    } else {
        assert(is_char_boundary(rest, i - k));
        assert(rest[i - k] == b[i]);
        if i - k < rest.len() {
            lemma_next_boundary(rest, i - k);
        } else {
            assert(false);
        }
    }
}

/// The whitespace characters recognized by [`ws_width_at`] are whole
/// characters: their width is the one their leading byte announces.
pub proof fn lemma_ws_width_is_lead(b: Seq<u8>, i: int, hi: int)
    requires
        ws_width_at(b, i, hi) > 0,
    ensures
        ws_width_at(b, i, hi) == lead_width(b[i]),
{
}

/// Skipping whitespace forward from a boundary lands on a boundary.
pub proof fn lemma_skip_fwd_boundary(b: Seq<u8>, i: int, hi: int)
    requires
        valid_utf8(b),
        is_char_boundary(b, i),
        0 <= i <= hi <= b.len(),
    ensures
        is_char_boundary(b, skip_ws_fwd(b, i, hi)),
    decreases hi - i,
{
    if i < hi && ws_width_at(b, i, hi) > 0 {
        lemma_next_boundary(b, i);
        lemma_skip_fwd_boundary(b, i + ws_width_at(b, i, hi), hi);
    }
}

/// Skipping whitespace backward from a boundary lands on a boundary.
pub proof fn lemma_skip_back_boundary(b: Seq<u8>, lo: int, j: int)
    requires
        valid_utf8(b),
        is_char_boundary(b, j),
        0 <= lo <= j <= b.len(),
    ensures
        is_char_boundary(b, skip_ws_back(b, lo, j)),
    decreases j - lo,
{
    if lo < j && ws_width_before(b, lo, j) > 0 {
        let w = ws_width_before(b, lo, j);
        lemma_boundary_at(b, j - w);
        lemma_skip_back_boundary(b, lo, j - w);
    }
}

/// The trimmed bounds of a window between boundaries are boundaries.
pub proof fn lemma_trim_boundary(b: Seq<u8>, lo: int, hi: int)
    requires
        valid_utf8(b),
        is_char_boundary(b, lo),
        is_char_boundary(b, hi),
        0 <= lo <= hi <= b.len(),
    ensures
        is_char_boundary(b, trim_lo(b, lo, hi)),
        is_char_boundary(b, trim_hi(b, lo, hi)),
{
    lemma_skip_fwd_boundary(b, lo, hi);
    lemma_skip_fwd_bounds(b, lo, hi);
    lemma_skip_back_boundary(b, skip_ws_fwd(b, lo, hi), hi);
}

/// Both sides of an ASCII byte are character boundaries.
pub proof fn lemma_ascii_boundary(b: Seq<u8>, i: int)
    requires
        valid_utf8(b),
        0 <= i < b.len(),
        b[i] < 128,
    ensures
        is_char_boundary(b, i),
        is_char_boundary(b, i + 1),
{
    lemma_boundary_at(b, i);
    lemma_next_boundary(b, i);
}

/// UTF-8 encoding distributes over concatenation.
pub proof fn lemma_encode_concat(a: Seq<char>, c: Seq<char>)
    ensures
        encode_utf8(a + c) == encode_utf8(a) + encode_utf8(c),
    decreases a.len(),
{
    if a.len() == 0 {
        assert(a + c =~= c);
    } else {
        assert((a + c).drop_first() =~= a.drop_first() + c);
        assert((a + c)[0] == a[0]);
        lemma_encode_concat(a.drop_first(), c);
    }
}

/// Whether `[start, end)` denotes a slice of `b` at character boundaries.
pub open spec fn valid_span(b: Seq<u8>, start: int, end: int) -> bool {
    0 <= start <= end <= b.len() && is_char_boundary(b, start) && is_char_boundary(b, end)
}

/// `str::get` over a byte range: `Some` exactly when the range is in
/// bounds, not inverted, and both ends fall on character boundaries.
#[verifier::external_body]
fn str_get(s: &str, start: usize, end: usize) -> (r: Option<&str>)
    ensures
        r is Some <==> valid_span(s.spec_bytes(), start as int, end as int),
        r matches Some(t) ==> t.spec_bytes() == s.spec_bytes().subrange(start as int, end as int),
{
    s.get(start..end)
}

/// `s[start..end]`, or `""` when that would not be a valid slice.
pub fn slice_or_empty(s: &str, start: usize, end: usize) -> (r: &str)
    ensures
        valid_span(s.spec_bytes(), start as int, end as int) ==> r.spec_bytes() == s.spec_bytes().subrange(
            start as int,
            end as int,
        ),
        !valid_span(s.spec_bytes(), start as int, end as int) ==> r.spec_bytes() == Seq::<u8>::empty(),
{
    match str_get(s, start, end) {
        Some(t) => t,
        None => {
            let e = "";
            proof {
                reveal_strlit("");
            }
            e
        },
    }
}

/// `s[start..end]` at proven boundaries.
pub fn substr(s: &str, start: usize, end: usize) -> (r: &str)
    requires
        valid_span(s.spec_bytes(), start as int, end as int),
    ensures
        r.spec_bytes() == s.spec_bytes().subrange(start as int, end as int),
{
    slice_or_empty(s, start, end)
}

/// Equality of two strings' bytes.
pub fn bytes_eq(a: &[u8], b: &[u8]) -> (r: bool)
    ensures
        r == (a@ == b@),
{
    if a.len() != b.len() {
        return false;
    }
    let mut i: usize = 0;
    while i < a.len()
        invariant
            a@.len() == b@.len(),
            i <= a@.len(),
            forall|k: int| 0 <= k < i ==> a@[k] == b@[k],
        decreases a@.len() - i,
    {
        if a[i] != b[i] {
            return false;
        }
        i = i + 1;
    }
    assert(a@ =~= b@);
    true
}

/// ASCII lowercase of a byte (Rust's `u8::to_ascii_lowercase`).
pub open spec fn lower(c: u8) -> u8 {
    if 65 <= c && c <= 90 {
        (c + 32) as u8
    } else {
        c
    }
}

/// `bytes.to_ascii_lowercase()`.
pub open spec fn lower_seq(s: Seq<u8>) -> Seq<u8> {
    s.map_values(|c: u8| lower(c))
}

/// Exec form of [`lower_seq`] over the window `[lo, hi)`.
pub fn ascii_lower(b: &[u8], lo: usize, hi: usize) -> (r: Vec<u8>)
    requires
        lo <= hi <= b@.len(),
    ensures
        r@ == lower_seq(b@.subrange(lo as int, hi as int)),
{
    let mut out: Vec<u8> = Vec::new();
    let mut i = lo;
    while i < hi
        invariant
            lo <= i <= hi <= b@.len(),
            out@ == lower_seq(b@.subrange(lo as int, i as int)),
        decreases hi - i,
    {
        let c = b[i];
        let l = if 65 <= c && c <= 90 {
            c + 32
        } else {
            c
        };
        out.push(l);
        assert(b@.subrange(lo as int, i + 1) =~= b@.subrange(lo as int, i as int).push(c));
        i = i + 1;
    }
    out
}

// =============================================================================
// Line layout
// =============================================================================

/// A space or a tab: the bytes that make up indentation.
pub open spec fn is_blank(c: u8) -> bool {
    c == 32 || c == 9
}

/// The start of the line holding byte `i`: one past the last `\n` before
/// it, or 0.
pub open spec fn line_start(b: Seq<u8>, i: int) -> int
    decreases i,
{
    if i <= 0 || i > b.len() {
        0
    } else if b[i - 1] == 10 {
        i
    } else {
        line_start(b, i - 1)
    }
}

/// The first position at or after `i` that does not hold a space or tab.
pub open spec fn skip_blanks(b: Seq<u8>, i: int) -> int
    decreases b.len() - i,
{
    if 0 <= i < b.len() && is_blank(b[i]) {
        skip_blanks(b, i + 1)
    } else {
        i
    }
}

/// Every byte of `[i, j)` is a space or tab.
pub open spec fn all_blank(b: Seq<u8>, i: int, j: int) -> bool {
    forall|k: int| i <= k < j ==> is_blank(#[trigger] b[k])
}

/// A line start lies at or before its offset and right after a newline.
pub proof fn lemma_line_start(b: Seq<u8>, i: int)
    requires
        0 <= i <= b.len(),
    ensures
        0 <= line_start(b, i) <= i,
        line_start(b, i) > 0 ==> b[line_start(b, i) - 1] == 10,
        forall|k: int| line_start(b, i) <= k < i ==> b[k] != 10,
    decreases i,
{
    if i > 0 && b[i - 1] != 10 {
        lemma_line_start(b, i - 1);
    }
}

/// Skipping blanks stays in bounds and passes only blanks.
pub proof fn lemma_skip_blanks(b: Seq<u8>, i: int)
    requires
        0 <= i <= b.len(),
    ensures
        i <= skip_blanks(b, i) <= b.len(),
        all_blank(b, i, skip_blanks(b, i)),
        skip_blanks(b, i) < b.len() ==> !is_blank(b[skip_blanks(b, i)]),
    decreases b.len() - i,
{
    if i < b.len() && is_blank(b[i]) {
        lemma_skip_blanks(b, i + 1);
    }
}

/// Both ends of a run of ASCII bytes that starts at a boundary are
/// boundaries.
pub proof fn lemma_ascii_run_boundary(b: Seq<u8>, i: int, j: int)
    requires
        valid_utf8(b),
        0 <= i <= j <= b.len(),
        is_char_boundary(b, i),
        forall|k: int| i <= k < j ==> #[trigger] b[k] < 128,
    ensures
        is_char_boundary(b, j),
{
    if j > i {
        lemma_ascii_boundary(b, j - 1);
    }
}

/// A line start is a character boundary.
pub proof fn lemma_line_start_boundary(b: Seq<u8>, i: int)
    requires
        valid_utf8(b),
        0 <= i <= b.len(),
    ensures
        is_char_boundary(b, line_start(b, i)),
{
    lemma_line_start(b, i);
    let ls = line_start(b, i);
    if ls > 0 {
        lemma_ascii_boundary(b, ls - 1);
    } else {
        lemma_boundary_at(b, 0);
        is_char_boundary_start_end_of_seq(b);
    }
}

/// Exec form of [`line_start`].
pub fn find_line_start(b: &[u8], i: usize) -> (r: usize)
    requires
        i <= b@.len(),
    ensures
        r == line_start(b@, i as int),
{
    let mut j = i;
    while j > 0 && b[j - 1] != 10u8
        invariant
            j <= i <= b@.len(),
            line_start(b@, j as int) == line_start(b@, i as int),
        decreases j,
    {
        j = j - 1;
    }
    j
}

/// Exec form of [`skip_blanks`].
pub fn skip_blanks_from(b: &[u8], i: usize) -> (r: usize)
    requires
        i <= b@.len(),
    ensures
        r == skip_blanks(b@, i as int),
{
    let mut j = i;
    while j < b.len() && (b[j] == 32u8 || b[j] == 9u8)
        invariant
            i <= j <= b@.len(),
            skip_blanks(b@, j as int) == skip_blanks(b@, i as int),
        decreases b@.len() - j,
    {
        j = j + 1;
    }
    j
}

/// Exec form of [`all_blank`].
pub fn is_all_blank(b: &[u8], i: usize, j: usize) -> (r: bool)
    requires
        i <= j <= b@.len(),
    ensures
        r == all_blank(b@, i as int, j as int),
{
    let mut k = i;
    while k < j
        invariant
            i <= k <= j <= b@.len(),
            all_blank(b@, i as int, k as int),
        decreases j - k,
    {
        if !(b[k] == 32u8 || b[k] == 9u8) {
            return false;
        }
        k = k + 1;
    }
    true
}

// =============================================================================
// Decimal numbers
// =============================================================================

/// The decimal digits of `n`.
pub open spec fn decimal(n: nat) -> Seq<u8>
    decreases n,
{
    if n < 10 {
        seq![(48 + n) as u8]
    } else {
        decimal(n / 10).push((48 + n % 10) as u8)
    }
}

/// The one-digit string for `d`.
pub fn digit_str(d: usize) -> (r: &'static str)
    requires
        d < 10,
    ensures
        r.spec_bytes() == seq![(48 + d) as u8],
{
    let s = if d == 0 {
        "0"
    } else if d == 1 {
        "1"
    } else if d == 2 {
        "2"
    } else if d == 3 {
        "3"
    } else if d == 4 {
        "4"
    } else if d == 5 {
        "5"
    } else if d == 6 {
        "6"
    } else if d == 7 {
        "7"
    } else if d == 8 {
        "8"
    } else {
        "9"
    };
    proof {
        reveal_strlit("0");
        reveal_strlit("1");
        reveal_strlit("2");
        reveal_strlit("3");
        reveal_strlit("4");
        reveal_strlit("5");
        reveal_strlit("6");
        reveal_strlit("7");
        reveal_strlit("8");
        reveal_strlit("9");
        is_ascii_chars_encode_utf8(s@);
        assert(s.spec_bytes() =~= seq![(48 + d) as u8]);
    }
    s
}

/// Append the decimal digits of `n` to `out`.
pub fn push_decimal(out: &mut String, n: usize)
    ensures
        encode_utf8(final(out)@) == encode_utf8(old(out)@) + decimal(n as nat),
    decreases n,
{
    if n >= 10 {
        push_decimal(out, n / 10);
    }
    let d = digit_str(n % 10);
    let ghost before = out@;
    out.append(d);
    proof {
        lemma_encode_concat(before, d@);
    }
}

} // verus!
