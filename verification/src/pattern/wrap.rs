//! Wrapping a pattern fragment in a synthetic section, so that the style's
//! own parser reads it as the body of a section of a chosen kind.

use vstd::prelude::*;
use vstd::string::StringExecFns;
use vstd::string::StringSliceAdditionalSpecFns;
use vstd::utf8::encode_utf8;
use vstd::utf8::is_ascii_chars_encode_utf8;
use vstd::utf8::is_char_boundary;
use vstd::utf8::valid_utf8;

use crate::edit::layout::contains_newline;
use crate::edit::layout::four_spaces;
use crate::edit::layout::four_spaces_lit;
use crate::edit::layout::has_newline;
use crate::edit::layout::newline_lit;
use crate::model::FreeSectionKind;
use crate::model::SectionKind;
use crate::parse::Style;
use crate::strs::lemma_ascii_boundary;
use crate::strs::lemma_boundary_at;
use crate::strs::lemma_encode_concat;
use crate::strs::lemma_skip_fwd_bounds;
use crate::strs::lemma_str_valid;
use crate::strs::lemma_trim_boundary;
use crate::strs::skip_ws_forward;
use crate::strs::skip_ws_fwd;
use crate::strs::substr;
use crate::strs::trim_hi;
use crate::strs::trim_lo;
use crate::strs::trim_window;

verus! {

// =============================================================================
// Header names
// =============================================================================

/// The header name of a known free-text section kind.
pub open spec fn free_header_chars(kind: FreeSectionKind) -> Option<Seq<char>> {
    match kind {
        FreeSectionKind::Notes => Some("Notes"@),
        FreeSectionKind::Examples => Some("Examples"@),
        FreeSectionKind::Warnings => Some("Warnings"@),
        FreeSectionKind::Todo => Some("Todo"@),
        FreeSectionKind::Attention => Some("Attention"@),
        FreeSectionKind::Caution => Some("Caution"@),
        FreeSectionKind::Danger => Some("Danger"@),
        FreeSectionKind::Error => Some("Error"@),
        FreeSectionKind::Hint => Some("Hint"@),
        FreeSectionKind::Important => Some("Important"@),
        FreeSectionKind::Tip => Some("Tip"@),
        FreeSectionKind::Unknown(_) => None,
    }
}

/// The header name for a free-text section kind: its own name, or for an
/// unknown kind the trimmed name when it is non-empty and one line.
pub fn free_header_name(kind: &FreeSectionKind) -> (r: Option<String>)
    ensures
        match *kind {
            FreeSectionKind::Unknown(name) => {
                let b = encode_utf8(name@);
                let t = b.subrange(trim_lo(b, 0, b.len() as int), trim_hi(b, 0, b.len() as int));
                match r {
                    Some(h) => encode_utf8(h@) == t && t.len() > 0 && !has_newline(t),
                    None => t.len() == 0 || has_newline(t),
                }
            },
            _ => r matches Some(h) && free_header_chars(*kind) == Some(h@),
        },
{
    let name: &str = match kind {
        FreeSectionKind::Notes => "Notes",
        FreeSectionKind::Examples => "Examples",
        FreeSectionKind::Warnings => "Warnings",
        FreeSectionKind::Todo => "Todo",
        FreeSectionKind::Attention => "Attention",
        FreeSectionKind::Caution => "Caution",
        FreeSectionKind::Danger => "Danger",
        FreeSectionKind::Error => "Error",
        FreeSectionKind::Hint => "Hint",
        FreeSectionKind::Important => "Important",
        FreeSectionKind::Tip => "Tip",
        FreeSectionKind::Unknown(name) => {
            let s = name.as_str();
            let b = s.as_bytes();
            let (lo, hi) = trim_window(b, 0, b.len());
            proof {
                lemma_str_valid(s);
                lemma_boundary_at(b@, 0);
                lemma_boundary_at(b@, b@.len() as int);
                lemma_trim_boundary(b@, 0, b@.len() as int);
            }
            let trimmed = substr(s, lo, hi);
            if trimmed.len() > 0 && !contains_newline(trimmed.as_bytes()) {
                return Some(trimmed.to_owned());
            }
            return None;
        },
    };
    Some(name.to_owned())
}

/// The synthetic header name for a section of `kind` in `style`, when the
/// kind can be spelled as a header in that style.
pub open spec fn header_chars(style: Style, kind: SectionKind) -> Option<Seq<char>> {
    match (style, kind) {
        (Style::Google, SectionKind::Parameters) => Some("Args"@),
        (Style::Google, SectionKind::KeywordParameters) => Some("Keyword Args"@),
        (Style::NumPy, SectionKind::Parameters) => Some("Parameters"@),
        (Style::NumPy, SectionKind::KeywordParameters) => Some("Keyword Parameters"@),
        (Style::Plain, _) => None,
        (_, SectionKind::OtherParameters) => Some("Other Parameters"@),
        (_, SectionKind::Receives) => Some("Receives"@),
        (_, SectionKind::Returns) => Some("Returns"@),
        (_, SectionKind::Yields) => Some("Yields"@),
        (_, SectionKind::Raises) => Some("Raises"@),
        (_, SectionKind::Warns) => Some("Warns"@),
        (_, SectionKind::Attributes) => Some("Attributes"@),
        (_, SectionKind::Methods) => Some("Methods"@),
        (_, SectionKind::SeeAlso) => Some("See Also"@),
        (_, SectionKind::References) => Some("References"@),
        (_, SectionKind::FreeText(free)) => free_header_chars(free),
    }
}

/// The synthetic section header name for wrapping a section-body fragment
/// of `kind` in `style` ([`header_chars`], or the free-text header name),
/// or `None` when the kind cannot be spelled as a header in that style.
pub fn header_name(style: Style, kind: &SectionKind) -> (r: Option<String>)
    ensures
        match (style, *kind) {
            (Style::Plain, _) => r is None,
            (_, SectionKind::FreeText(FreeSectionKind::Unknown(name))) => {
                let b = encode_utf8(name@);
                let t = b.subrange(trim_lo(b, 0, b.len() as int), trim_hi(b, 0, b.len() as int));
                match r {
                    Some(h) => encode_utf8(h@) == t && t.len() > 0 && !has_newline(t),
                    None => t.len() == 0 || has_newline(t),
                }
            },
            _ => match header_chars(style, *kind) {
                Some(h) => r matches Some(s) && s@ == h,
                None => r is None,
            },
        },
{
    if let Style::Plain = style {
        return None;
    }
    let google = match style {
        Style::Google => true,
        _ => false,
    };
    let name: &str = match kind {
        SectionKind::Parameters => if google {
            "Args"
        } else {
            "Parameters"
        },
        SectionKind::KeywordParameters => if google {
            "Keyword Args"
        } else {
            "Keyword Parameters"
        },
        SectionKind::OtherParameters => "Other Parameters",
        SectionKind::Receives => "Receives",
        SectionKind::Returns => "Returns",
        SectionKind::Yields => "Yields",
        SectionKind::Raises => "Raises",
        SectionKind::Warns => "Warns",
        SectionKind::Attributes => "Attributes",
        SectionKind::Methods => "Methods",
        SectionKind::SeeAlso => "See Also",
        SectionKind::References => "References",
        SectionKind::FreeText(free) => return free_header_name(free),
    };
    Some(name.to_owned())
}

// =============================================================================
// Wrapping a body
// =============================================================================

/// The first newline at or after `i`, or the end.
pub open spec fn next_nl(f: Seq<u8>, i: int) -> int
    decreases f.len() - i,
{
    if 0 <= i < f.len() && f[i] != 10 {
        next_nl(f, i + 1)
    } else {
        i
    }
}

pub proof fn lemma_next_nl(f: Seq<u8>, i: int)
    requires
        0 <= i <= f.len(),
    ensures
        i <= next_nl(f, i) <= f.len(),
        next_nl(f, i) < f.len() ==> f[next_nl(f, i)] == 10,
        forall|k: int| i <= k < next_nl(f, i) ==> f[k] != 10,
    decreases f.len() - i,
{
    if i < f.len() && f[i] != 10 {
        lemma_next_nl(f, i + 1);
    }
}

/// The lines of `f` from byte `i` on, each written out with a newline: in
/// Google style indented by four spaces, or dropped when only whitespace;
/// in NumPy style as they are.
pub open spec fn body_lines_from(f: Seq<u8>, i: int, google: bool) -> Seq<u8>
    decreases f.len() - i,
{
    if i < 0 || i > f.len() {
        Seq::empty()
    } else {
        let e = next_nl(f, i);
        let line = f.subrange(i, e);
        let piece = if google {
            if skip_ws_fwd(f, i, e) == e {
                Seq::<u8>::empty()
            } else {
                four_spaces() + line
            }
        } else {
            line
        };
        if e >= f.len() {
            piece.push(10u8)
        } else {
            proof {
                lemma_next_nl(f, i);
            }
            piece.push(10u8) + body_lines_from(f, e + 1, google)
        }
    }
}

/// `n` dashes.
pub open spec fn dashes(n: nat) -> Seq<u8> {
    Seq::new(n, |i: int| 45u8)
}

/// The fragment without one trailing newline.
pub open spec fn strip_nl(f: Seq<u8>) -> Seq<u8> {
    if f.len() > 0 && f.last() == 10 {
        f.drop_last()
    } else {
        f
    }
}

/// A section-body fragment wrapped under a synthetic header: in Google
/// style `Header:` with the body indented; otherwise (NumPy) the header,
/// an underline of as many dashes, and the body at the header's indent.
pub open spec fn wrapped(style: Style, header: Seq<u8>, frag: Seq<u8>) -> Seq<u8> {
    if style == Style::Google {
        header + seq![58u8, 10u8] + body_lines_from(strip_nl(frag), 0, true)
    } else {
        header + seq![10u8] + dashes(header.len()) + seq![10u8] + body_lines_from(strip_nl(frag), 0, false)
    }
}

/// `":\n"`.
fn colon_nl_lit() -> (r: &'static str)
    ensures
        r.spec_bytes() == seq![58u8, 10u8],
{
    let s = ":\n";
    proof {
        reveal_strlit(":\n");
        is_ascii_chars_encode_utf8(s@);
        assert(s.spec_bytes() =~= seq![58u8, 10u8]);
    }
    s
}

/// `"-"`.
fn dash_lit() -> (r: &'static str)
    ensures
        r.spec_bytes() == seq![45u8],
{
    let s = "-";
    proof {
        reveal_strlit("-");
        is_ascii_chars_encode_utf8(s@);
        assert(s.spec_bytes() =~= seq![45u8]);
    }
    s
}

/// Append `s` to `out`, keeping track of the bytes.
fn push_str(out: &mut String, s: &str)
    ensures
        encode_utf8(final(out)@) == encode_utf8(old(out)@) + s.spec_bytes(),
{
    let ghost before = out@;
    out.append(s);
    proof {
        lemma_encode_concat(before, s@);
    }
}

/// Wrap a (substituted) section-body fragment under a synthetic section
/// header ([`wrapped`] gives the text exactly).
pub fn wrap_section_body(style: Style, header: &str, fragment: &str) -> (r: String)
    ensures
        encode_utf8(r@) == wrapped(style, header.spec_bytes(), fragment.spec_bytes()),
{
    let fb = fragment.as_bytes();
    let n0 = fb.len();
    proof {
        lemma_str_valid(fragment);
        lemma_boundary_at(fb@, 0);
        lemma_boundary_at(fb@, n0 as int);
    }
    let n = if n0 > 0 && fb[n0 - 1] == 10u8 {
        proof {
            lemma_ascii_boundary(fb@, n0 - 1);
        }
        n0 - 1
    } else {
        n0
    };
    let frag = substr(fragment, 0, n);
    let ghost f = frag.spec_bytes();
    proof {
        assert(f =~= strip_nl(fb@));
        lemma_str_valid(frag);
    }
    let google = match style {
        Style::Google => true,
        _ => false,
    };
    let mut out = header.to_owned();
    if google {
        push_str(&mut out, colon_nl_lit());
    } else {
        push_str(&mut out, newline_lit());
        let hn = header.as_bytes().len();
        let mut d: usize = 0;
        while d < hn
            invariant
                d <= hn,
                encode_utf8(out@) == header.spec_bytes() + seq![10u8] + dashes(d as nat),
            decreases hn - d,
        {
            push_str(&mut out, dash_lit());
            proof {
                assert(dashes(d as nat).push(45u8) =~= dashes((d + 1) as nat));
            }
            d = d + 1;
        }
        push_str(&mut out, newline_lit());
    }
    let ghost head = encode_utf8(out@);
    proof {
        if google {
            assert(head == header.spec_bytes() + seq![58u8, 10u8]);
        } else {
            assert(head == header.spec_bytes() + seq![10u8] + dashes(header.spec_bytes().len()) + seq![10u8]);
        }
    }
    let b = frag.as_bytes();
    let mut k: usize = 0;
    proof {
        lemma_boundary_at(f, 0);
        assert(encode_utf8(out@) + body_lines_from(f, 0, google) == head + body_lines_from(f, 0, google));
    }
    loop
        invariant_except_break
            b@ == f,
            f == frag.spec_bytes(),
            valid_utf8(f),
            n == f.len(),
            k <= n,
            is_char_boundary(f, k as int),
            encode_utf8(out@) + body_lines_from(f, k as int, google) == head + body_lines_from(f, 0, google),
        ensures
            encode_utf8(out@) == head + body_lines_from(f, 0, google),
        decreases n - k,
    {
        let mut e = k;
        while e < n && b[e] != 10u8
            invariant
                k <= e <= n,
                n == b@.len(),
                forall|j: int| k <= j < e ==> #[trigger] b@[j] != 10,
            decreases n - e,
        {
            e = e + 1;
        }
        proof {
            lemma_next_nl(f, k as int);
            assert(next_nl(f, k as int) == e) by {
                lemma_next_nl_is(f, k as int, e as int);
            }
            if e < n {
                lemma_ascii_boundary(f, e as int);
            } else {
                lemma_boundary_at(f, n as int);
            }
        }
        let ghost before = encode_utf8(out@);
        let line = substr(frag, k, e);
        let mut keep = true;
        if google {
            let s = skip_ws_forward(b, k, e);
            keep = s < e;
            if keep {
                push_str(&mut out, four_spaces_lit());
                push_str(&mut out, line);
            }
            proof {
                lemma_skip_fwd_bounds(f, k as int, e as int);
            }
        } else {
            push_str(&mut out, line);
        }
        push_str(&mut out, newline_lit());
        proof {
            let piece = if google {
                if skip_ws_fwd(f, k as int, e as int) == e {
                    Seq::<u8>::empty()
                } else {
                    four_spaces() + f.subrange(k as int, e as int)
                }
            } else {
                f.subrange(k as int, e as int)
            };
            assert(encode_utf8(out@) =~= before + piece.push(10u8));
            if e < n {
                assert(body_lines_from(f, k as int, google) == piece.push(10u8) + body_lines_from(
                    f,
                    e + 1,
                    google,
                ));
                assert(encode_utf8(out@) + body_lines_from(f, e + 1, google) =~= before + body_lines_from(
                    f,
                    k as int,
                    google,
                ));
                lemma_ascii_boundary(f, e as int);
            } else {
                assert(body_lines_from(f, k as int, google) == piece.push(10u8));
            }
        }
        if e >= n {
            break;
        }
        k = e + 1;
    }
    out
}

/// The scan that stops at `e` found the next newline.
proof fn lemma_next_nl_is(f: Seq<u8>, i: int, e: int)
    requires
        0 <= i <= e <= f.len(),
        forall|j: int| i <= j < e ==> f[j] != 10,
        e < f.len() ==> f[e] == 10,
    ensures
        next_nl(f, i) == e,
    decreases e - i,
{
    if i < e {
        lemma_next_nl_is(f, i + 1, e);
    }
}

} // verus!
