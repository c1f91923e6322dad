//! Parsing: source text in, [`Parsed`](crate::syntax::Parsed) out.

use vstd::prelude::*;
use vstd::string::StringSliceAdditionalSpecFns;

use crate::cursor::count_lines;
use crate::cursor::line_span;
use crate::cursor::LineCursor;
use crate::parse::google::kind::google_kind_of;
use crate::parse::google::kind::GoogleSectionKind;
use crate::parse::numpy::parser::is_dashes;
use crate::parse::numpy::parser::is_underline_in;
use crate::parse::utils::line_content;
use crate::strs::ascii_lower;
use crate::strs::trim_hi;
use crate::strs::trim_lo;
use crate::syntax::Parsed;
use crate::syntax::SyntaxKind;
use crate::text::hi;
use crate::text::lo;
use crate::strs::bytes_eq;
use crate::strs::lower_seq;

pub mod dispatch;
pub mod google;
pub mod kind;
pub mod numpy;
pub mod plain;
pub mod scan;
pub mod text_block;
pub mod to_model;
pub mod token_ref;
pub mod trivia;
pub mod unified;
pub mod utils;
pub mod visitor;

pub use google::parse_google;
pub use numpy::parse_numpy;
pub use plain::parse_plain;
pub use text_block::TextBlock;
pub use token_ref::TokenRef;
pub use unified::Citation;
pub use unified::DefaultMarker;
pub use unified::Directive;
pub use unified::Document;
pub use unified::Entry;
pub use unified::Section;

verus! {

// =============================================================================
// Style
// =============================================================================

/// Docstring style identifier.
#[derive(Debug, Clone, Copy, PartialEq, Eq, Structural, Hash)]
#[non_exhaustive]
pub enum Style {
    /// NumPy style (section headers with underlines).
    NumPy,
    /// Google style (section headers with colons).
    Google,
    /// Plain docstring: no recognised style markers.
    Plain,
}

impl Style {
    /// The style's lowercase name (`"numpy"`, `"google"`, `"plain"`), as
    /// it is displayed.
    pub fn as_str(self) -> (r: &'static str)
        ensures
            r == (match self {
                Style::NumPy => "numpy",
                Style::Google => "google",
                Style::Plain => "plain",
            }),
    {
        match self {
            Style::NumPy => "numpy",
            Style::Google => "google",
            Style::Plain => "plain",
        }
    }
}


// =============================================================================
// ParseOptions
// =============================================================================

/// Options for the Google-style parser: extra section names that are read
/// as headers when written with a trailing colon.
pub struct ParseOptions {
    custom: Vec<Vec<u8>>,
}

impl ParseOptions {
    /// The registered custom section names, lowercased.
    pub closed spec fn custom_names(&self) -> Seq<Seq<u8>> {
        self.custom@.map_values(|v: Vec<u8>| v@)
    }

    /// Options with no custom sections.
    pub fn new() -> (r: Self)
        ensures
            r.custom_names().len() == 0,
    {
        ParseOptions { custom: Vec::new() }
    }

    /// Register extra section names (matched case-insensitively).
    pub fn with_custom_sections(self, names: &[&str]) -> (r: Self)
        ensures
            r.custom_names().len() == self.custom_names().len() + names@.len(),
            forall|i: int| 0 <= i < self.custom_names().len() ==> r.custom_names()[i] == self.custom_names()[i],
            forall|i: int|
                0 <= i < names@.len() ==> r.custom_names()[self.custom_names().len() + i] == lower_seq(
                    #[trigger] names@[i].spec_bytes(),
                ),
    {
        let mut custom = self.custom;
        let ghost base = custom@;
        let mut i: usize = 0;
        while i < names.len()
            invariant
                i <= names@.len(),
                custom@.len() == base.len() + i,
                forall|k: int| 0 <= k < base.len() ==> custom@[k] == base[k],
                forall|k: int| 0 <= k < i ==> (#[trigger] custom@[base.len() + k])@ == lower_seq(names@[k].spec_bytes()),
            decreases names@.len() - i,
        {
            let b = names[i].as_bytes();
            let low = ascii_lower(b, 0, b.len());
            proof {
                assert(b@.subrange(0, b@.len() as int) =~= b@);
            }
            custom.push(low);
            i = i + 1;
        }
        ParseOptions { custom }
    }

    /// Whether a **lowercased** name is a registered custom section.
    pub fn is_custom_section(&self, lower: &[u8]) -> (r: bool)
        ensures
            r == exists|i: int| 0 <= i < self.custom_names().len() && #[trigger] self.custom_names()[i] == lower@,
    {
        let mut i: usize = 0;
        while i < self.custom.len()
            invariant
                i <= self.custom@.len(),
                forall|k: int| 0 <= k < i ==> #[trigger] self.custom_names()[k] != lower@,
            decreases self.custom@.len() - i,
        {
            if bytes_eq(self.custom[i].as_slice(), lower) {
                proof {
                    assert(self.custom_names()[i as int] == lower@);
                }
                return true;
            }
            i = i + 1;
        }
        false
    }
}


// =============================================================================
// Style detection
// =============================================================================

/// The trimmed content of line `i`.
pub open spec fn trimmed_line(b: Seq<u8>, i: int) -> (int, int) {
    (trim_lo(b, line_span(b, i).0, line_span(b, i).1), trim_hi(b, line_span(b, i).0, line_span(b, i).1))
}

/// Line `i + 1` is a NumPy underline: a non-empty run of dashes, the same
/// rule the NumPy parser applies to a section header's underline.
pub open spec fn numpy_marker_at(b: Seq<u8>, i: int) -> bool {
    let (s, e) = trimmed_line(b, i + 1);
    i + 1 < count_lines(b) && e > s && is_dashes(b.subrange(s, e))
}

/// Line `i` is a known Google section name followed by a colon.
pub open spec fn google_marker_at(b: Seq<u8>, i: int) -> bool {
    let (s, e) = trimmed_line(b, i);
    e > s && b[e - 1] == 58u8 && google_kind_of(crate::strs::lower_seq(b.subrange(s, e - 1)))
        != GoogleSectionKind::Unknown
}

/// The style the first marked line from line `i` on shows: NumPy for a
/// non-blank line followed by an underline, Google for a known section
/// name with a colon, Plain when no line is marked.
pub open spec fn detect_from(b: Seq<u8>, i: int) -> Style
    decreases count_lines(b) - i,
{
    if i < 0 || i >= count_lines(b) {
        Style::Plain
    } else if trimmed_line(b, i).0 < trimmed_line(b, i).1 && numpy_marker_at(b, i) {
        Style::NumPy
    } else if trimmed_line(b, i).0 < trimmed_line(b, i).1 && google_marker_at(b, i) {
        Style::Google
    } else {
        detect_from(b, i + 1)
    }
}

/// The trimmed text of line `i`.
pub open spec fn line_text(b: Seq<u8>, i: int) -> Seq<u8> {
    b.subrange(trimmed_line(b, i).0, trimmed_line(b, i).1)
}

/// Two texts with as many lines, each line with the same trimmed text as
/// its counterpart.
pub open spec fn same_trimmed_lines(b1: Seq<u8>, b2: Seq<u8>) -> bool {
    &&& count_lines(b1) == count_lines(b2)
    &&& forall|k: int| 0 <= k < count_lines(b1) ==> #[trigger] line_text(b1, k) == line_text(b2, k)
}

/// The trimmed bounds of a line lie within the text.
proof fn lemma_trimmed_bounds(b: Seq<u8>, i: int)
    ensures
        0 <= trimmed_line(b, i).0 <= trimmed_line(b, i).1 <= b.len(),
        line_text(b, i).len() == trimmed_line(b, i).1 - trimmed_line(b, i).0,
{
    crate::cursor::lemma_line_span(b, i);
    crate::strs::lemma_trim_bounds(b, line_span(b, i).0, line_span(b, i).1);
}

/// Whether line `i` is a Google marker, read off its trimmed text alone.
proof fn lemma_google_marker_text(b: Seq<u8>, i: int)
    ensures
        ({
            let t = line_text(b, i);
            google_marker_at(b, i) == (t.len() > 0 && t[t.len() - 1] == 58u8 && google_kind_of(
                lower_seq(t.subrange(0, t.len() - 1)),
            ) != GoogleSectionKind::Unknown)
        }),
{
    lemma_trimmed_bounds(b, i);
    let (s, e) = trimmed_line(b, i);
    let t = line_text(b, i);
    if e > s {
        assert(t[t.len() - 1] == b[e - 1]);
        assert(b.subrange(s, e - 1) =~= t.subrange(0, t.len() - 1));
    }
}

/// Whether line `i` is followed by a NumPy underline, read off the next
/// line's trimmed text alone.
proof fn lemma_numpy_marker_text(b: Seq<u8>, i: int)
    ensures
        numpy_marker_at(b, i) == (i + 1 < count_lines(b) && line_text(b, i + 1).len() > 0 && is_dashes(
            line_text(b, i + 1),
        )),
{
    lemma_trimmed_bounds(b, i + 1);
}

/// Whether a line marks the Google style depends only on its trimmed text,
/// not on its indentation or on the rest of the docstring.
pub proof fn law_google_marker_by_text(b1: Seq<u8>, i1: int, b2: Seq<u8>, i2: int)
    requires
        line_text(b1, i1) == line_text(b2, i2),
    ensures
        google_marker_at(b1, i1) == google_marker_at(b2, i2),
{
    lemma_google_marker_text(b1, i1);
    lemma_google_marker_text(b2, i2);
}

/// Style detection reads only the trimmed text of each line: two inputs
/// whose lines have the same trimmed text, line for line, get the same
/// style from every line on (so indenting every line, as Python's
/// `__doc__` keeps a docstring, leaves the detected style unchanged).
pub proof fn law_detect_by_trimmed_lines(b1: Seq<u8>, b2: Seq<u8>, i: int)
    requires
        same_trimmed_lines(b1, b2),
    ensures
        detect_from(b1, i) == detect_from(b2, i),
    decreases count_lines(b1) - i,
{
    if 0 <= i < count_lines(b1) {
        assert(line_text(b1, i) == line_text(b2, i));
        lemma_trimmed_bounds(b1, i);
        lemma_trimmed_bounds(b2, i);
        law_google_marker_by_text(b1, i, b2, i);
        lemma_numpy_marker_text(b1, i);
        lemma_numpy_marker_text(b2, i);
        if i + 1 < count_lines(b1) {
            assert(line_text(b1, i + 1) == line_text(b2, i + 1));
        }
        law_detect_by_trimmed_lines(b1, b2, i + 1);
    }
}

/// Detect the docstring style from its content: NumPy when a non-blank
/// line is followed by a line of dashes, Google when a line
/// is a known section name ending with `:`, Plain otherwise — whichever
/// marked line comes first.
pub fn detect_style(input: &str) -> (r: Style)
    requires
        input.spec_bytes().len() < u32::MAX,
        input.spec_bytes().len() <= usize::MAX / 8,
    ensures
        r == detect_from(input.spec_bytes(), 0),
{
    let cursor = LineCursor::new(input);
    let b = input.as_bytes();
    let n = cursor.total_lines();
    let mut i: usize = 0;
    while i < n
        invariant
            cursor.wf(),
            cursor.src() == input,
            b@ == input.spec_bytes(),
            n == cursor.nlines(),
            n == count_lines(b@),
            i <= n,
            detect_from(b@, 0) == detect_from(b@, i as int),
        decreases n - i,
    {
        let (s, e) = line_content(&cursor, i);
        if s < e {
            if n - i > 1 {
                let (us, ue) = line_content(&cursor, i + 1);
                if ue > us && is_underline_in(b, us, ue) {
                    return Style::NumPy;
                }
            }
            if b[e - 1] == 58u8 {
                let lower = ascii_lower(b, s, e - 1);
                if GoogleSectionKind::from_name_bytes(lower.as_slice()) != GoogleSectionKind::Unknown {
                    return Style::Google;
                }
            }
        }
        i = i + 1;
    }
    Style::Plain
}

/// Parse a docstring, auto-detecting its style; the root is always a
/// `DOCUMENT` node spanning the whole input.
pub fn parse(input: &str) -> (r: Parsed)
    requires
        input.spec_bytes().len() < u32::MAX,
        input.spec_bytes().len() <= usize::MAX / 8,
    ensures
        r.text() == input@,
        r.style_of() == detect_from(input.spec_bytes(), 0),
        r.root_node().nkind() == SyntaxKind::DOCUMENT,
        lo(r.root_node().nrange()) == 0,
        hi(r.root_node().nrange()) == input.spec_bytes().len(),
        r.root_node().well_placed(),
        crate::parse::dispatch::has_content_line(input.spec_bytes()) <==> crate::parse::trivia::node_marks(
            r.root_node().kids(),
        ).len() > 0,
        forall|k: int|
            0 <= k < crate::syntax::child_nodes(r.root_node().kids(), SyntaxKind::SECTION).len()
                ==> crate::parse::unified::has_header_name(
                #[trigger] crate::syntax::child_nodes(r.root_node().kids(), SyntaxKind::SECTION)[k],
            ),
        !crate::parse::dispatch::has_content_line(input.spec_bytes()) ==> forall|q: int|
            0 <= q < r.root_node().kids().len() ==> crate::syntax::kind_is_trivia((#[trigger] r.root_node().kids()[q]).ekind()),
        crate::parse::dispatch::covered_upto(
            input.spec_bytes(),
            crate::cursor::count_lines(input.spec_bytes()) as int,
            crate::parse::trivia::node_marks(r.root_node().kids()),
        ),
        crate::parse::dispatch::marks_valid(input.spec_bytes(), crate::parse::trivia::node_marks(r.root_node().kids())),
        ({
            let b = input.spec_bytes();
            let f = crate::parse::plain::parser::next_content(b, 0);
            let m = crate::parse::trivia::node_marks(r.root_node().kids());
            r.style_of() == Style::NumPy && f < crate::cursor::count_lines(b) && crate::parse::dispatch::header_line(false, Seq::<Seq<u8>>::empty(), b, f) ==> {
                &&& m.len() > 0
                &&& m[0].0 == SyntaxKind::SECTION
                &&& lo(m[0].1) == crate::parse::plain::parser::content_lo(b, f)
            }
        }),
        ({
            let b = input.spec_bytes();
            let f = crate::parse::plain::parser::next_content(b, 0);
            let m = crate::parse::trivia::node_marks(r.root_node().kids());
            r.style_of() == Style::Google && f < crate::cursor::count_lines(b) && crate::parse::dispatch::header_line(true, Seq::<Seq<u8>>::empty(), b, f) ==> {
                &&& m.len() > 0
                &&& m[0].0 == SyntaxKind::SECTION
                &&& lo(m[0].1) == crate::parse::plain::parser::content_lo(b, f)
            }
        }),
        ({
            let b = input.spec_bytes();
            let f = crate::parse::plain::parser::next_content(b, 0);
            let m = crate::parse::trivia::node_marks(r.root_node().kids());
            r.style_of() == Style::NumPy && f < crate::cursor::count_lines(b) && !crate::parse::dispatch::header_line(false, Seq::<Seq<u8>>::empty(), b, f) ==> {
                &&& m.len() > 0
                &&& m[0].0 == SyntaxKind::SUMMARY
                &&& lo(m[0].1) == crate::parse::plain::parser::content_lo(b, f)
                &&& hi(m[0].1) == crate::parse::plain::parser::content_hi(
                    b,
                    crate::parse::dispatch::summary_last(false, Seq::<Seq<u8>>::empty(), b, f),
                )
            }
        }),
        ({
            let b = input.spec_bytes();
            let f = crate::parse::plain::parser::next_content(b, 0);
            let m = crate::parse::trivia::node_marks(r.root_node().kids());
            r.style_of() == Style::Google && f < crate::cursor::count_lines(b) && !crate::parse::dispatch::header_line(true, Seq::<Seq<u8>>::empty(), b, f) ==> {
                &&& m.len() > 0
                &&& m[0].0 == SyntaxKind::SUMMARY
                &&& lo(m[0].1) == crate::parse::plain::parser::content_lo(b, f)
                &&& hi(m[0].1) == crate::parse::plain::parser::content_hi(
                    b,
                    crate::parse::dispatch::summary_last(true, Seq::<Seq<u8>>::empty(), b, f),
                )
            }
        }),
        r.style_of() == Style::Plain ==> crate::parse::plain::parser::plain_marks_ok(
            input.spec_bytes(),
            crate::parse::trivia::node_marks(r.root_node().kids()),
        ),
{
    match detect_style(input) {
        Style::NumPy => crate::parse::numpy::parser::parse_numpy(input),
        Style::Google => crate::parse::google::parser::parse_google(input),
        Style::Plain => crate::parse::plain::parser::parse_plain(input),
    }
}


impl Parsed {
    /// Convert to the normalized model ([`Docstring`](crate::model::Docstring)):
    /// byte positions dropped, text normalized, the same model for the
    /// same content whatever the style.
    pub fn to_model(&self) -> (r: crate::model::Docstring)
        ensures
            r.directives@.len() == crate::syntax::child_nodes(self.root_node().kids(), SyntaxKind::DIRECTIVE).len(),
            r.sections@.len() == crate::syntax::child_nodes(self.root_node().kids(), SyntaxKind::SECTION).len(),
            match crate::parse::text_block::first_nonempty(
                crate::syntax::child_nodes(self.root_node().kids(), SyntaxKind::SUMMARY),
            ) {
                Some(n) => r.summary matches Some(s) && vstd::utf8::encode_utf8(s@) == crate::text::range_bytes(
                    n.nrange(),
                    self.src_bytes(),
                ),
                None => r.summary is None,
            },
            match crate::parse::text_block::first_nonempty(
                crate::syntax::child_nodes(self.root_node().kids(), SyntaxKind::EXTENDED_SUMMARY),
            ) {
                Some(n) => r.extended_summary matches Some(s) && crate::parse::to_model::prose_ok(self, n, s),
                None => r.extended_summary is None,
            },
            forall|i: int|
                0 <= i < r.sections@.len() ==> crate::parse::to_model::section_ok(
                    self,
                    crate::syntax::child_nodes(self.root_node().kids(), SyntaxKind::SECTION)[i],
                    #[trigger] r.sections@[i],
                ),
    {
        crate::parse::to_model::to_model_any(self)
    }
}

} // verus!
