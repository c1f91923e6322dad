//! Pattern-based rewriting: [`Parsed::replace`] finds every [`Match`] of a
//! [`Pattern`] and splices a rendered template over each one, returning a
//! new source string; [`Parsed::replace_in`] does the same inside an anchor
//! node. The splice goes through [`crate::edit`], so everything outside the
//! rewritten regions is preserved byte-for-byte.
//!
//! A template is literal text with `$NAME` / `$$$NAME` holes, recognised
//! by the pattern scanner ([`crate::pattern::lex`]). Literal text is
//! emitted as written; a hole is replaced by the original target bytes of
//! the capture the match bound to that name. A hole naming a metavariable
//! the match did not bind is a [`RewriteError::UnknownMetavar`].
//!
//! The replacement starts where the match starts, after the line's
//! existing indentation; each later line of the template's own literal
//! text is prefixed with that base indentation (blank lines stay blank, and
//! a `\r` does not count as line content). The bytes of a capture are
//! emitted verbatim, newlines included.

use vstd::prelude::*;
use vstd::string::StringExecFns;
use vstd::string::StringSliceAdditionalSpecFns;
use vstd::utf8::encode_utf8;
use vstd::utf8::is_ascii_chars_encode_utf8;
use vstd::utf8::is_char_boundary;
use vstd::utf8::valid_utf8;

use crate::edit::apply_post;
use crate::edit::EditError;
use crate::edit::EditSpec;
use crate::matcher::Match;
use crate::pattern::lex::lex_pieces;
use crate::pattern::lex::lexed;
use crate::pattern::lex::lemma_piece_at;
use crate::pattern::lex::piece_name;
use crate::pattern::lex::Piece;
use crate::pattern::Pattern;
use crate::strs::find_line_start;
use crate::strs::is_blank;
use crate::strs::lemma_ascii_boundary;
use crate::strs::lemma_encode_concat;
use crate::strs::lemma_line_start;
use crate::strs::lemma_line_start_boundary;
use crate::strs::lemma_skip_blanks;
use crate::strs::lemma_str_valid;
use crate::strs::line_start;
use crate::strs::skip_blanks;
use crate::strs::substr;
use crate::syntax::Parsed;
use crate::syntax::SyntaxNode;
use crate::text::lo;
use crate::text::range_bytes;

pub mod preservation;

verus! {

// =============================================================================
// RewriteError
// =============================================================================

/// Why [`Parsed::replace`] / [`Parsed::replace_in`] could not produce a
/// result.
#[derive(Debug, Clone, PartialEq, Eq)]
#[non_exhaustive]
pub enum RewriteError {
    /// A template hole named a metavariable the match did not bind.
    UnknownMetavar {
        /// The offending name, without the sigil.
        name: String,
    },
    /// The underlying splice failed.
    Edit(EditError),
}

impl RewriteError {
    /// The error's message, as it is displayed.
    pub fn message(&self) -> (r: String)
        ensures
            self matches RewriteError::UnknownMetavar { name } ==> r@ == "template references $"@ + name@
                + ", which the matched reading does not bind"@,
    {
        match self {
            RewriteError::UnknownMetavar { name } => {
                let mut out = "template references $".to_owned();
                out.append(name.as_str());
                out.append(", which the matched reading does not bind");
                out
            },
            RewriteError::Edit(error) => {
                let mut out = "rewrite splice failed: ".to_owned();
                let inner = error.message();
                out.append(inner.as_str());
                out
            },
        }
    }
}

impl From<EditError> for RewriteError {
    fn from(error: EditError) -> (r: Self) {
        RewriteError::Edit(error)
    }
}

impl vstd::std_specs::convert::FromSpecImpl<EditError> for RewriteError {
    open spec fn obeys_from_spec() -> bool {
        true
    }

    open spec fn from_spec(error: EditError) -> Self {
        RewriteError::Edit(error)
    }
}

// =============================================================================
// Template rendering
// =============================================================================

/// The span of the base indent of the line byte `start` sits on: from the
/// line's start over its spaces and tabs, but not past `start` (clamped to
/// the source).
pub open spec fn base_indent_span(b: Seq<u8>, start: int) -> (int, int) {
    let s = if start > b.len() {
        b.len() as int
    } else {
        start
    };
    let ls = line_start(b, s);
    (
        ls,
        if skip_blanks(b, ls) < s {
            skip_blanks(b, ls)
        } else {
            s
        },
    )
}

/// The base indent of the line that byte offset `start` sits on.
pub fn base_indent(source: &str, start: usize) -> (r: &str)
    ensures
        r.spec_bytes() == source.spec_bytes().subrange(
            base_indent_span(source.spec_bytes(), start as int).0,
            base_indent_span(source.spec_bytes(), start as int).1,
        ),
{
    let b = source.as_bytes();
    let s = if start > b.len() {
        b.len()
    } else {
        start
    };
    let ls = find_line_start(b, s);
    proof {
        lemma_str_valid(source);
        lemma_line_start(b@, s as int);
        lemma_line_start_boundary(b@, s as int);
        lemma_skip_blanks(b@, ls as int);
    }
    let mut e = ls;
    while e < s && (b[e] == 32u8 || b[e] == 9u8)
        invariant
            ls <= e <= s <= b@.len(),
            forall|k: int| ls <= k < e ==> is_blank(#[trigger] b@[k]),
        decreases s - e,
    {
        e = e + 1;
    }
    proof {
        assert(e == base_indent_span(b@, start as int).1) by {
            lemma_skip_blanks_stop(b@, ls as int, e as int, s as int);
        }
        crate::strs::lemma_ascii_run_boundary(b@, ls as int, e as int);
    }
    substr(source, ls, e)
}

/// Where a scan over blanks that stops at `e` (or at the bound `s`) stands
/// against [`skip_blanks`].
proof fn lemma_skip_blanks_stop(b: Seq<u8>, ls: int, e: int, s: int)
    requires
        0 <= ls <= e <= s <= b.len(),
        forall|k: int| ls <= k < e ==> is_blank(#[trigger] b[k]),
        e < s ==> !is_blank(b[e]),
    ensures
        e == if skip_blanks(b, ls) < s {
            skip_blanks(b, ls)
        } else {
            s
        },
    decreases e - ls,
{
    lemma_skip_blanks(b, ls);
    if ls < e {
        lemma_skip_blanks_stop(b, ls + 1, e, s);
    }
}

/// The template bytes `[i, j)` of a literal run rendered with base indent
/// `base`, starting with the base indent owed when `pending`: a newline
/// leaves it owed, a `\r` is copied as it is, and any other byte pays what
/// is owed first. Gives the bytes and whether the indent is still owed.
pub open spec fn render_lit(b: Seq<u8>, i: int, j: int, base: Seq<u8>, pending: bool) -> (Seq<u8>, bool)
    decreases j - i,
{
    if i >= j {
        (Seq::empty(), pending)
    } else {
        let c = b[i];
        let head = if c == 10 {
            seq![10u8]
        } else if c == 13 {
            seq![13u8]
        } else if pending {
            base.push(c)
        } else {
            seq![c]
        };
        let next = if c == 10 {
            true
        } else if c == 13 {
            pending
        } else {
            false
        };
        (head + render_lit(b, i + 1, j, base, next).0, render_lit(b, i + 1, j, base, next).1)
    }
}

/// The text bound to `name` among the captures, as bytes of the target.
pub open spec fn capture_bytes(m: Match, name: Seq<u8>) -> Option<Seq<u8>> {
    let caps = m.mcaptures();
    if exists|i: int| 0 <= i < caps.len() && encode_utf8((#[trigger] caps[i]).0@) == name {
        let i = choose|i: int|
            0 <= i < caps.len() && encode_utf8((#[trigger] caps[i]).0@) == name && forall|j: int|
                0 <= j < i ==> encode_utf8((#[trigger] caps[j]).0@) != name;
        Some(range_bytes(caps[i].1.crange(), caps[i].1.csource().spec_bytes()))
    } else {
        None
    }
}

/// The template `b` (lexed as `ps`) rendered for match `m` from piece `k`
/// on, owing the base indent when `pending`: `None` when a hole names a
/// metavariable the match did not bind.
pub open spec fn render_from(b: Seq<u8>, ps: Seq<Piece>, k: int, m: Match, base: Seq<u8>, pending: bool) -> Option<
    Seq<u8>,
>
    decreases ps.len() - k,
{
    if k < 0 || k >= ps.len() {
        Some(Seq::empty())
    } else if ps[k].var {
        match capture_bytes(m, piece_name(b, ps[k])) {
            Some(t) => match render_from(b, ps, k + 1, m, base, false) {
                Some(rest) => Some(
                    (if pending {
                        base
                    } else {
                        Seq::empty()
                    }) + t + rest,
                ),
                None => None,
            },
            None => None,
        }
    } else {
        let (lit, p2) = render_lit(b, ps[k].start as int, ps[k].end as int, base, pending);
        match render_from(b, ps, k + 1, m, base, p2) {
            Some(rest) => Some(lit + rest),
            None => None,
        }
    }
}

/// The name of the first hole, from piece `k` on, that names a
/// metavariable the match did not bind.
pub open spec fn first_unknown(b: Seq<u8>, ps: Seq<Piece>, k: int, m: Match) -> Option<Seq<u8>>
    decreases ps.len() - k,
{
    if k < 0 || k >= ps.len() {
        None
    } else if ps[k].var && capture_bytes(m, piece_name(b, ps[k])) is None {
        Some(piece_name(b, ps[k]))
    } else {
        first_unknown(b, ps, k + 1, m)
    }
}

/// Rendering fails exactly at the first unknown hole.
proof fn lemma_render_none(b: Seq<u8>, ps: Seq<Piece>, k: int, m: Match, base: Seq<u8>, pending: bool)
    requires
        0 <= k,
    ensures
        render_from(b, ps, k, m, base, pending) is None <==> first_unknown(b, ps, k, m) is Some,
    decreases ps.len() - k,
{
    if k < ps.len() {
        if ps[k].var {
            lemma_render_none(b, ps, k + 1, m, base, false);
        } else {
            let p2 = render_lit(b, ps[k].start as int, ps[k].end as int, base, pending).1;
            lemma_render_none(b, ps, k + 1, m, base, p2);
        }
    }
}

/// A run without `\n` or `\r` renders as the owed indent (if the run is
/// not empty) followed by the run.
proof fn lemma_render_run(b: Seq<u8>, i: int, j: int, base: Seq<u8>, pending: bool)
    requires
        0 <= i <= j <= b.len(),
        forall|k: int| i <= k < j ==> #[trigger] b[k] != 10 && b[k] != 13,
    ensures
        render_lit(b, i, j, base, pending).0 == (if pending && i < j {
            base
        } else {
            Seq::empty()
        }) + b.subrange(i, j),
        render_lit(b, i, j, base, pending).1 == (pending && i == j),
    decreases j - i,
{
    if i < j {
        lemma_render_run(b, i + 1, j, base, false);
        assert(render_lit(b, i, j, base, pending).0 =~= (if pending {
            base
        } else {
            Seq::empty()
        }) + b.subrange(i, j));
    }
}

/// Rendering the bytes `[i, j)` then `[j, e)` renders `[i, e)`.
proof fn lemma_render_split(b: Seq<u8>, i: int, j: int, e: int, base: Seq<u8>, pending: bool)
    requires
        0 <= i <= j <= e <= b.len(),
    ensures
        render_lit(b, i, e, base, pending).0 == render_lit(b, i, j, base, pending).0 + render_lit(
            b,
            j,
            e,
            base,
            render_lit(b, i, j, base, pending).1,
        ).0,
        render_lit(b, i, e, base, pending).1 == render_lit(
            b,
            j,
            e,
            base,
            render_lit(b, i, j, base, pending).1,
        ).1,
    decreases j - i,
{
    if i < j {
        let c = b[i];
        let next = if c == 10 {
            true
        } else if c == 13 {
            pending
        } else {
            false
        };
        lemma_render_split(b, i + 1, j, e, base, next);
        assert(render_lit(b, i, e, base, pending).0 =~= render_lit(b, i, j, base, pending).0 + render_lit(
            b,
            j,
            e,
            base,
            render_lit(b, i, j, base, pending).1,
        ).0);
    }
}

/// `"\r"`.
fn cr_lit() -> (r: &'static str)
    ensures
        r.spec_bytes() == seq![13u8],
{
    let s = "\r";
    proof {
        reveal_strlit("\r");
        is_ascii_chars_encode_utf8(s@);
        assert(s.spec_bytes() =~= seq![13u8]);
    }
    s
}

/// Append `s` to `out`, keeping track of the bytes.
fn push_bytes(out: &mut String, s: &str)
    ensures
        encode_utf8(final(out)@) == encode_utf8(old(out)@) + s.spec_bytes(),
{
    let ghost before = out@;
    out.append(s);
    proof {
        lemma_encode_concat(before, s@);
    }
}

/// Render the line break at byte `e` of the template bytes `b` onto `out`:
/// a newline (after which the base indentation is pending) or a carriage
/// return.
fn push_break(b: &[u8], e: usize, bb: Ghost<Seq<u8>>, pending: &mut bool, out: &mut String)
    requires
        e < b@.len(),
        b@[e as int] == 10 || b@[e as int] == 13,
    ensures
        encode_utf8(final(out)@) == encode_utf8(old(out)@) + render_lit(b@, e as int, e + 1, bb@, *old(pending)).0,
        *final(pending) == render_lit(b@, e as int, e + 1, bb@, *old(pending)).1,
{
    let ghost pend_e = *pending;
    let ghost tb = b@;
    if b[e] == 10u8 {
        push_bytes(out, crate::edit::layout::newline_lit());
        *pending = true;
    } else {
        push_bytes(out, cr_lit());
    }
    proof {
        let nxt = if tb[e as int] == 10 {
            true
        } else {
            pend_e
        };
        assert(render_lit(tb, e + 1, e + 1, bb@, nxt) == (Seq::<u8>::empty(), nxt));
        if tb[e as int] == 10 {
            assert(render_lit(tb, e as int, e + 1, bb@, pend_e).0 =~= seq![10u8]);
        } else {
            assert(render_lit(tb, e as int, e + 1, bb@, pend_e).0 =~= seq![13u8]);
        }
        assert(render_lit(tb, e as int, e + 1, bb@, pend_e).1 == nxt);
    }
}

/// Render the literal run `[i, j)` of `template` onto `out`.
#[verifier::rlimit(40)]
fn render_literal(template: &str, i: usize, j: usize, base: &str, pending: &mut bool, out: &mut String)
    requires
        i <= j <= template.spec_bytes().len(),
        is_char_boundary(template.spec_bytes(), i as int),
        is_char_boundary(template.spec_bytes(), j as int),
    ensures
        encode_utf8(final(out)@) == encode_utf8(old(out)@) + render_lit(
            template.spec_bytes(),
            i as int,
            j as int,
            base.spec_bytes(),
            *old(pending),
        ).0,
        *final(pending) == render_lit(template.spec_bytes(), i as int, j as int, base.spec_bytes(), *old(pending)).1,
{
    let b = template.as_bytes();
    let ghost tb = b@;
    let ghost bb = base.spec_bytes();
    proof {
        lemma_str_valid(template);
    }
    let ghost start_out = encode_utf8(out@);
    let ghost p0 = *pending;
    let mut k = i;
    while k < j
        invariant
            i <= k <= j <= tb.len(),
            tb == b@,
            tb == template.spec_bytes(),
            bb == base.spec_bytes(),
            valid_utf8(tb),
            is_char_boundary(tb, k as int),
            is_char_boundary(tb, j as int),
            encode_utf8(out@) == start_out + render_lit(tb, i as int, k as int, bb, p0).0,
            *pending == render_lit(tb, i as int, k as int, bb, p0).1,
        decreases j - k,
    {
        let mut e = k;
        while e < j && b[e] != 10u8 && b[e] != 13u8
            invariant
                k <= e <= j <= b@.len(),
                forall|x: int| k <= x < e ==> #[trigger] b@[x] != 10 && b@[x] != 13,
            decreases j - e,
        {
            e = e + 1;
        }
        proof {
            if e < j {
                lemma_ascii_boundary(tb, e as int);
            }
            lemma_render_run(tb, k as int, e as int, bb, *pending);
            lemma_render_split(tb, i as int, k as int, e as int, bb, p0);
        }
        let ghost pend_k = *pending;
        if e > k {
            if *pending {
                push_bytes(out, base);
                *pending = false;
            }
            push_bytes(out, substr(template, k, e));
        }
        proof {
            assert(encode_utf8(out@) =~= start_out + render_lit(tb, i as int, e as int, bb, p0).0);
            assert(*pending == render_lit(tb, i as int, e as int, bb, p0).1);
        }
        if e < j {
            push_break(b, e, Ghost(bb), pending, out);
            proof {
                lemma_render_split(tb, i as int, e as int, e + 1, bb, p0);
                assert(encode_utf8(out@) =~= start_out + render_lit(tb, i as int, e + 1, bb, p0).0);
                lemma_ascii_boundary(tb, e as int);
            }
            k = e + 1;
        } else {
            k = e;
        }
    }
}

/// UTF-8 encoding is injective.
proof fn lemma_encode_injective(a: Seq<char>, b: Seq<char>)
    ensures
        encode_utf8(a) == encode_utf8(b) ==> a == b,
{
    vstd::utf8::encode_utf8_decode_utf8(a);
    vstd::utf8::encode_utf8_decode_utf8(b);
}

/// The capture `m.capture` finds by a name is the one [`capture_bytes`]
/// reads.
proof fn lemma_capture_found<'t>(m: Match<'t>, name: Seq<char>, i: int)
    requires
        0 <= i < m.mcaptures().len(),
        m.mcaptures()[i].0@ == name,
        forall|j: int| 0 <= j < i ==> (#[trigger] m.mcaptures()[j]).0@ != name,
    ensures
        capture_bytes(m, encode_utf8(name)) == Some(
            range_bytes(m.mcaptures()[i].1.crange(), m.mcaptures()[i].1.csource().spec_bytes()),
        ),
{
    let caps = m.mcaptures();
    let nb = encode_utf8(name);
    assert(encode_utf8(caps[i].0@) == nb);
    assert forall|j: int| 0 <= j < i implies encode_utf8((#[trigger] caps[j]).0@) != nb by {
        lemma_encode_injective(caps[j].0@, name);
    }
    let c = choose|c: int|
        0 <= c < caps.len() && encode_utf8((#[trigger] caps[c]).0@) == nb && forall|j: int|
            0 <= j < c ==> encode_utf8((#[trigger] caps[j]).0@) != nb;
    if c < i {
        lemma_encode_injective(caps[c].0@, name);
    } else if c > i {
        assert(encode_utf8(caps[i].0@) != nb);
    }
}

/// A name no capture carries has no capture bytes.
proof fn lemma_capture_missing<'t>(m: Match<'t>, name: Seq<char>)
    requires
        forall|i: int| 0 <= i < m.mcaptures().len() ==> (#[trigger] m.mcaptures()[i]).0@ != name,
    ensures
        capture_bytes(m, encode_utf8(name)) is None,
{
    let caps = m.mcaptures();
    assert forall|i: int| 0 <= i < caps.len() implies encode_utf8((#[trigger] caps[i]).0@) != encode_utf8(name) by {
        lemma_encode_injective(caps[i].0@, name);
    }
}

/// The rendering from piece `k` on, appended to `acc`.
pub open spec fn render_acc<'t>(
    b: Seq<u8>,
    ps: Seq<Piece>,
    k: int,
    m: Match<'t>,
    base: Seq<u8>,
    pending: bool,
    acc: Seq<u8>,
) -> Option<Seq<u8>> {
    match render_from(b, ps, k, m, base, pending) {
        Some(rest) => Some(acc + rest),
        None => None,
    }
}

/// One metavariable piece of the rendering.
#[verifier::rlimit(40)]
proof fn lemma_step_var<'t>(
    b: Seq<u8>,
    ps: Seq<Piece>,
    k: int,
    m: Match<'t>,
    base: Seq<u8>,
    pending: bool,
    acc: Seq<u8>,
    t: Seq<u8>,
)
    requires
        0 <= k < ps.len(),
        ps[k].var,
        capture_bytes(m, piece_name(b, ps[k])) == Some(t),
    ensures
        render_acc(b, ps, k, m, base, pending, acc) == render_acc(
            b,
            ps,
            k + 1,
            m,
            base,
            false,
            acc + (if pending {
                base
            } else {
                Seq::empty()
            }) + t,
        ),
{
    match render_from(b, ps, k + 1, m, base, false) {
        Some(rest) => {
            assert(acc + ((if pending {
                base
            } else {
                Seq::empty()
            }) + t + rest) =~= acc + (if pending {
                base
            } else {
                Seq::empty()
            }) + t + rest);
        },
        None => {},
    }
}

/// One literal piece of the rendering.
proof fn lemma_step_lit<'t>(b: Seq<u8>, ps: Seq<Piece>, k: int, m: Match<'t>, base: Seq<u8>, pending: bool, acc: Seq<u8>)
    requires
        0 <= k < ps.len(),
        !ps[k].var,
    ensures
        render_acc(b, ps, k, m, base, pending, acc) == render_acc(
            b,
            ps,
            k + 1,
            m,
            base,
            render_lit(b, ps[k].start as int, ps[k].end as int, base, pending).1,
            acc + render_lit(b, ps[k].start as int, ps[k].end as int, base, pending).0,
        ),
{
    let (lit, p2) = render_lit(b, ps[k].start as int, ps[k].end as int, base, pending);
    match render_from(b, ps, k + 1, m, base, p2) {
        Some(rest) => {
            assert(acc + (lit + rest) =~= acc + lit + rest);
        },
        None => {},
    }
}

/// Render `template` (lexed as `ps`) for one match with base indent
/// `base`: captured original bytes for holes, the template's own
/// continuation lines re-indented.
fn render(template: &str, ps: &Vec<Piece>, m: &Match<'_>, base: &str) -> (r: Result<String, RewriteError>)
    requires
        lexed(template.spec_bytes(), ps@),
    ensures
        match r {
            Ok(s) => render_from(template.spec_bytes(), ps@, 0, *m, base.spec_bytes(), false) == Some(
                encode_utf8(s@),
            ),
            Err(RewriteError::UnknownMetavar { name }) => first_unknown(template.spec_bytes(), ps@, 0, *m) == Some(
                encode_utf8(name@),
            ),
            Err(_) => false,
        },
{
    let ghost tb = template.spec_bytes();
    let ghost bb = base.spec_bytes();
    proof {
        lemma_str_valid(template);
        assert(encode_utf8(Seq::<char>::empty()) + Seq::<u8>::empty() =~= Seq::<u8>::empty());
    }
    let mut out = String::new();
    let mut pending = false;
    let mut k: usize = 0;
    proof {
        match render_from(tb, ps@, 0, *m, bb, false) {
            Some(rest) => {
                assert(encode_utf8(out@) + rest =~= rest);
            },
            None => {},
        }
    }
    while k < ps.len()
        invariant
            tb == template.spec_bytes(),
            bb == base.spec_bytes(),
            valid_utf8(tb),
            lexed(tb, ps@),
            k <= ps@.len(),
            render_from(tb, ps@, 0, *m, bb, false) == render_acc(tb, ps@, k as int, *m, bb, pending, encode_utf8(out@)),
            first_unknown(tb, ps@, 0, *m) == first_unknown(tb, ps@, k as int, *m),
        decreases ps@.len() - k,
    {
        let p = ps[k];
        proof {
            lemma_piece_at(tb, ps@, k as int);
        }
        if p.var {
            let sig: usize = if p.multi {
                3
            } else {
                1
            };
            proof {
                lemma_ascii_boundary(tb, p.start as int);
                if p.multi {
                    lemma_ascii_boundary(tb, p.start + 1);
                    lemma_ascii_boundary(tb, p.start + 2);
                }
                crate::pattern::lex::lemma_var_end(tb, p.start as int);
            }
            let name = substr(template, p.start + sig, p.end);
            match m.capture(name) {
                Some(c) => {
                    let ghost before = encode_utf8(out@);
                    let ghost pend = pending;
                    if pending {
                        push_bytes(&mut out, base);
                        pending = false;
                    }
                    let t = c.text();
                    push_bytes(&mut out, t);
                    proof {
                        let i = choose|i: int|
                            0 <= i < m.mcaptures().len() && m.mcaptures()[i].0@ == name@ && *c == m.mcaptures()[i].1
                                && forall|j: int| 0 <= j < i ==> (#[trigger] m.mcaptures()[j]).0@ != name@;
                        lemma_capture_found(*m, name@, i);
                        lemma_step_var(tb, ps@, k as int, *m, bb, pend, before, t.spec_bytes());
                        assert(encode_utf8(out@) =~= before + (if pend {
                            bb
                        } else {
                            Seq::empty()
                        }) + t.spec_bytes());
                    }
                },
                None => {
                    proof {
                        lemma_capture_missing(*m, name@);
                    }
                    return Err(RewriteError::UnknownMetavar { name: name.to_owned() });
                },
            }
        } else {
            let ghost before = encode_utf8(out@);
            let ghost pend = pending;
            render_literal(template, p.start, p.end, base, &mut pending, &mut out);
            proof {
                lemma_step_lit(tb, ps@, k as int, *m, bb, pend, before);
            }
        }
        k = k + 1;
    }
    proof {
        assert(encode_utf8(out@) + Seq::<u8>::empty() =~= encode_utf8(out@));
    }
    Ok(out)
}

// =============================================================================
// Entry points
// =============================================================================

/// The edits `es` render the template `tb` (lexed as `ps`) over the
/// matches `ms` of a target with source bytes `src`, one per match, in
/// order: each match's span, replaced by the template rendered for it at
/// the base indent of the line it starts on.
pub open spec fn rendered_edits<'t>(src: Seq<u8>, tb: Seq<u8>, ps: Seq<Piece>, ms: Seq<Match<'t>>, es: Seq<EditSpec>) -> bool {
    &&& es.len() == ms.len()
    &&& forall|k: int|
        0 <= k < ms.len() ==> {
            &&& (#[trigger] es[k]).0 == ms[k].mrange()
            &&& render_from(
                tb,
                ps,
                0,
                ms[k],
                src.subrange(
                    base_indent_span(src, lo(ms[k].mrange())).0,
                    base_indent_span(src, lo(ms[k].mrange())).1,
                ),
                false,
            ) == Some(encode_utf8(es[k].1))
        }
}

impl Parsed {
    /// Replace every match of `pattern` in this document with `template`
    /// rendered against that match's captures, returning the new source.
    /// Style-strict: a pattern of another style, or one that matches
    /// nothing, returns the source unchanged.
    pub fn replace(&self, pattern: &Pattern, template: &str) -> (r: Result<String, RewriteError>)
        ensures
            pattern.pstyle() != self.style_of() ==> (r matches Ok(s) && s@ == self.text()),
            rewrite_outcome(self.src_bytes(), self.text(), pattern, template.spec_bytes(), r),
    {
        let matches = pattern.matches(self);
        self.rewrite(pattern, &matches, template)
    }

    /// Like [`replace`](Parsed::replace), but scoped to `anchor`'s subtree:
    /// the anchor's grammar selects the readings. An `anchor` that is not a
    /// node of this document's tree matches nothing.
    pub fn replace_in(&self, pattern: &Pattern, anchor: &SyntaxNode, template: &str) -> (r: Result<String, RewriteError>)
        ensures
            pattern.pstyle() != self.style_of() ==> (r matches Ok(s) && s@ == self.text()),
            !crate::matcher::holds(self.root_node(), *anchor) ==> (r matches Ok(s) && s@ == self.text()),
            rewrite_outcome(self.src_bytes(), self.text(), pattern, template.spec_bytes(), r),
    {
        let matches = pattern.matches_in(self, anchor);
        self.rewrite(pattern, &matches, template)
    }

    /// Render `template` against each match and splice the batch.
    fn rewrite<'t>(&self, pattern: &Pattern, matches: &Vec<Match<'t>>, template: &str) -> (r: Result<String, RewriteError>)
        requires
            matches_ok_for(matches@, self.text(), pattern),
        ensures
            matches@.len() == 0 ==> (r matches Ok(s) && s@ == self.text()),
            rewrite_with(self.src_bytes(), template.spec_bytes(), matches@, r),
    {
        let source = self.source();
        let ps = lex_pieces(template);
        let mut edits = self.edit();
        let mut k: usize = 0;
        while k < matches.len()
            invariant
                lexed(template.spec_bytes(), ps@),
                source@ == self.text(),
                source.spec_bytes() == self.src_bytes(),
                *edits.anchor() == *self,
                k <= matches@.len(),
                rendered_edits(self.src_bytes(), template.spec_bytes(), ps@, matches@.take(k as int), edits.pending()),
                forall|j: int| 0 <= j < k ==> first_unknown(template.spec_bytes(), ps@, 0, #[trigger] matches@[j]) is None,
            decreases matches@.len() - k,
        {
            let m = &matches[k];
            let base = base_indent(source, m.range().start().to_usize());
            match render(template, &ps, m, base) {
                Ok(rendered) => {
                    let ghost before = edits.pending();
                    edits.replace(m.range(), rendered.as_str());
                    proof {
                        lemma_render_none(template.spec_bytes(), ps@, 0, *m, base.spec_bytes(), false);
                        let ms = matches@.take(k + 1);
                        let es = edits.pending();
                        assert forall|x: int| 0 <= x < ms.len() implies {
                            &&& (#[trigger] es[x]).0 == ms[x].mrange()
                            &&& render_from(
                                template.spec_bytes(),
                                ps@,
                                0,
                                ms[x],
                                self.src_bytes().subrange(
                                    base_indent_span(self.src_bytes(), lo(ms[x].mrange())).0,
                                    base_indent_span(self.src_bytes(), lo(ms[x].mrange())).1,
                                ),
                                false,
                            ) == Some(encode_utf8(es[x].1))
                        } by {
                            if x < k {
                                assert(es[x] == before[x]);
                                assert(ms[x] == matches@.take(k as int)[x]);
                            }
                        }
                    }
                },
                Err(e) => {
                    proof {
                        lemma_render_none(template.spec_bytes(), ps@, 0, *m, base.spec_bytes(), false);
                    }
                    return Err(e);
                },
            }
            k = k + 1;
        }
        proof {
            assert(matches@.take(k as int) =~= matches@);
        }
        match edits.apply() {
            Ok(out) => {
                proof {
                    if matches@.len() == 0 {
                        let es = edits.pending();
                        assert(es.len() == 0);
                        let ord = choose|ord: Seq<int>| #[trigger] crate::edit::is_pos_order(ord, es) && crate::edit::disjoint_in(ord, es) && out@ == crate::edit::spliced(self.src_bytes(), es, ord);
                        assert(ord =~= Seq::<int>::empty());
                        assert(es =~= Seq::<EditSpec>::empty());
                        crate::edit::law_empty_edits_reproduce_source(self);
                    }
                }
                Ok(out)
            },
            Err(e) => Err(RewriteError::Edit(e)),
        }
    }
}

/// The matches are non-overlapping matches of `pattern` over a target
/// with source `text`.
pub open spec fn matches_ok_for<'t>(ms: Seq<Match<'t>>, text: Seq<char>, pattern: &Pattern) -> bool {
    crate::matcher::matches_ok(ms, text, pattern.preadings())
}

/// What rewriting the matches `ms` with the template `tb` gives on source
/// bytes `src`: `Ok` with the splice of the rendered templates (as
/// [`apply_post`] states it); the first unknown hole of a match, when one
/// names a metavariable the match did not bind; or the splice's error.
pub open spec fn rewrite_with<'t>(src: Seq<u8>, tb: Seq<u8>, ms: Seq<Match<'t>>, r: Result<String, RewriteError>) -> bool {
    exists|ps: Seq<Piece>|
        #![trigger lexed(tb, ps)]
        lexed(tb, ps) && match r {
            Ok(out) => exists|es: Seq<EditSpec>| rendered_edits(src, tb, ps, ms, es) && apply_post(src, es, Ok(out@)),
            Err(RewriteError::UnknownMetavar { name }) => exists|k: int|
                0 <= k < ms.len() && first_unknown(tb, ps, 0, #[trigger] ms[k]) == Some(encode_utf8(name@)),
            Err(RewriteError::Edit(e)) => exists|es: Seq<EditSpec>| rendered_edits(src, tb, ps, ms, es) && apply_post(src, es, Err(e)),
        }
}

/// What [`Parsed::replace`] gives: the rewrite of some set of
/// non-overlapping matches of the pattern.
pub open spec fn rewrite_outcome(src: Seq<u8>, text: Seq<char>, pattern: &Pattern, tb: Seq<u8>, r: Result<String, RewriteError>) -> bool {
    exists|ms: Seq<Match>| crate::matcher::matches_ok(ms, text, pattern.preadings()) && rewrite_with(src, tb, ms, r)
}

} // verus!
