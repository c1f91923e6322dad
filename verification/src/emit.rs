//! Emit a [`Docstring`](crate::model::Docstring) model as Google, NumPy or
//! Sphinx (reStructuredText) text.

use vstd::prelude::*;
use vstd::string::StringExecFns;
use vstd::string::StringSliceAdditionalSpecFns;
use vstd::utf8::decode_utf8;
use vstd::utf8::encode_utf8;

use crate::model::Directive;

pub mod google;
pub mod numpy;
pub mod sphinx;
pub mod laws;

verus! {

/// Options controlling docstring emission.
#[derive(Debug, Clone, PartialEq, Eq, Structural)]
#[non_exhaustive]
pub struct EmitOptions {
    /// Number of spaces prepended to every non-empty line of output, so the
    /// result can be embedded at the right indentation in a Python file.
    pub base_indent: usize,
}

impl Default for EmitOptions {
    fn default() -> (r: Self)
        ensures
            r.base_indent == 0,
    {
        EmitOptions { base_indent: 0 }
    }
}

impl EmitOptions {
    /// These options with `base_indent` replaced.
    pub fn with_base_indent(self, base_indent: usize) -> (r: Self)
        ensures
            r.base_indent == base_indent,
    {
        EmitOptions { base_indent }
    }
}

// =============================================================================
// The text model of emitted output
// =============================================================================

/// `n` spaces.
pub open spec fn spaces(n: nat) -> Seq<char> {
    Seq::new(n, |_i: int| ' ')
}

/// The text of an optional field, empty when absent.
pub open spec fn opt_text(o: Option<String>) -> Seq<char> {
    match o {
        Some(s) => s@,
        None => Seq::empty(),
    }
}

/// The texts of a list of strings.
pub open spec fn texts(v: Seq<String>) -> Seq<Seq<char>> {
    v.map_values(|s: String| s@)
}

/// `ls` joined with `sep` between neighbours.
pub open spec fn join_sep(ls: Seq<Seq<char>>, sep: Seq<char>) -> Seq<char>
    decreases ls.len(),
{
    if ls.len() == 0 {
        Seq::empty()
    } else if ls.len() == 1 {
        ls[0]
    } else {
        join_sep(ls.drop_last(), sep) + sep + ls.last()
    }
}

/// A list of names as emitted: joined with `, `.
pub open spec fn joined(names: Seq<String>) -> Seq<char> {
    join_sep(texts(names), ", "@)
}

/// The first `\n` byte at or after `i`, or the end.
pub open spec fn nl_from(b: Seq<u8>, i: int) -> int
    decreases b.len() - i,
{
    if i < 0 || i >= b.len() {
        b.len() as int
    } else if b[i] == 10 {
        i
    } else {
        nl_from(b, i + 1)
    }
}

pub proof fn lemma_nl_from(b: Seq<u8>, i: int)
    requires
        0 <= i <= b.len(),
    ensures
        i <= nl_from(b, i) <= b.len(),
        nl_from(b, i) < b.len() ==> b[nl_from(b, i)] == 10,
        forall|j: int| i <= j < nl_from(b, i) ==> b[j] != 10,
    decreases b.len() - i,
{
    if i < b.len() && b[i] != 10 {
        lemma_nl_from(b, i + 1);
    }
}

/// Where the line starting at `start` ends: before its `\n`, and before a
/// `\r` that directly precedes that `\n`.
pub open spec fn line_stop(b: Seq<u8>, start: int) -> int {
    let e = nl_from(b, start);
    if start < e && e < b.len() && b[e - 1] == 13 {
        e - 1
    } else {
        e
    }
}

/// The lines of the bytes from `start` on, as `str::lines` yields them:
/// cut at each `\n`, a `\r\n` ending dropped whole, no line after a final
/// newline.
pub open spec fn byte_lines(b: Seq<u8>, start: int) -> Seq<Seq<u8>>
    decreases b.len() - start,
{
    if start < 0 || start >= b.len() {
        Seq::empty()
    } else {
        let e = nl_from(b, start);
        let first = seq![b.subrange(start, line_stop(b, start))];
        if e < b.len() {
            proof {
                lemma_nl_from(b, start);
            }
            first + byte_lines(b, e + 1)
        } else {
            first
        }
    }
}

/// The lines of a text (Rust's `str::lines`).
pub open spec fn lines_of(t: Seq<char>) -> Seq<Seq<char>> {
    byte_lines(encode_utf8(t), 0).map_values(|l: Seq<u8>| decode_utf8(l))
}

/// An empty text has no lines.
pub proof fn lemma_lines_of_empty()
    ensures
        lines_of(Seq::empty()).len() == 0,
{
    assert(encode_utf8(Seq::<char>::empty()) =~= Seq::<u8>::empty()) by {
        vstd::utf8::encode_utf8_decode_utf8(Seq::<char>::empty());
        assert(encode_utf8(Seq::<char>::empty()).len() == 0);
    }
}

/// A continuation line: `ind` spaces before it unless it is empty.
pub open spec fn cont_line(l: Seq<char>, ind: nat) -> Seq<char> {
    if l.len() == 0 {
        l
    } else {
        spaces(ind) + l
    }
}

/// Lines joined by newlines, every line after the first as a continuation
/// line.
pub open spec fn join_cont(ls: Seq<Seq<char>>, ind: nat) -> Seq<char>
    decreases ls.len(),
{
    if ls.len() == 0 {
        Seq::empty()
    } else if ls.len() == 1 {
        ls[0]
    } else {
        join_cont(ls.drop_last(), ind) + "\n"@ + cont_line(ls.last(), ind)
    }
}

/// A multi-line text continued at `ind`: unchanged with no indent, else
/// its lines re-joined with every continuation line indented.
pub open spec fn multiline(t: Seq<char>, ind: nat) -> Seq<char> {
    if ind == 0 {
        t
    } else {
        join_cont(lines_of(t), ind)
    }
}

/// Lines each indented (when non-empty) and ended by a newline.
pub open spec fn body_lines(ls: Seq<Seq<char>>, ind: nat) -> Seq<char>
    decreases ls.len(),
{
    if ls.len() == 0 {
        Seq::empty()
    } else {
        body_lines(ls.drop_last(), ind) + cont_line(ls.last(), ind) + "\n"@
    }
}

/// A text with each of its lines indented by `ind` and newline-ended.
pub open spec fn indented(t: Seq<char>, ind: nat) -> Seq<char> {
    body_lines(lines_of(t), ind)
}

/// Parts joined with a newline between neighbours: each part after the
/// first is preceded by a blank line's newline.
pub open spec fn separated(parts: Seq<Seq<char>>) -> Seq<char> {
    join_sep(parts, "\n"@)
}

/// The emitted text of a directive: `.. name:: argument`, then the
/// description with each line indented by `ind`.
pub open spec fn directive_text(d: Directive, ind: nat) -> Seq<char> {
    ".. "@ + d.name@ + "::"@ + (match d.argument {
        Some(a) => " "@ + a@,
        None => Seq::empty(),
    }) + "\n"@ + (match d.description {
        Some(t) => indented(t@, ind),
        None => Seq::empty(),
    })
}

/// A type in parentheses after a space, when there is one.
pub open spec fn paren_type(o: Option<String>) -> Seq<char> {
    match o {
        Some(ty) => " ("@ + ty@ + ")"@,
        None => Seq::empty(),
    }
}

/// A text followed by a newline, as a one-element list when present.
pub open spec fn opt_line(o: Option<String>) -> Seq<Seq<char>> {
    match o {
        Some(s) => seq![s@ + "\n"@],
        None => Seq::empty(),
    }
}

/// Joining one more element: the separator first unless it is the first.
pub proof fn lemma_join_push(ps: Seq<Seq<char>>, x: Seq<char>, sep: Seq<char>)
    ensures
        join_sep(ps.push(x), sep) == join_sep(ps, sep) + (if ps.len() > 0 {
            sep
        } else {
            Seq::empty()
        }) + x,
{
    assert(ps.push(x).drop_last() =~= ps);
    if ps.len() == 0 {
        assert(join_sep(ps, sep) =~= Seq::<char>::empty());
        assert(join_sep(ps, sep) + Seq::<char>::empty() + x =~= x);
    }
}

/// Separating one more part: a newline first unless it is the first part.
pub proof fn lemma_separated_push(ps: Seq<Seq<char>>, x: Seq<char>)
    ensures
        separated(ps.push(x)) == separated(ps) + (if ps.len() > 0 {
            "\n"@
        } else {
            Seq::empty()
        }) + x,
{
    lemma_join_push(ps, x, "\n"@);
}

/// The view of a prefix of `ls` one longer is that prefix's view with the
/// next element pushed.
pub proof fn lemma_take_push<A>(ls: Seq<A>, i: int)
    requires
        0 <= i < ls.len(),
    ensures
        ls.take(i + 1).drop_last() == ls.take(i),
        ls.take(i + 1).last() == ls[i],
        ls.take(i + 1).len() == i + 1,
{
    assert(ls.take(i + 1).drop_last() =~= ls.take(i));
}

// =============================================================================
// Appending
// =============================================================================

/// Append `s` to `out`.
pub fn app(out: &mut String, s: &str)
    ensures
        final(out)@ == old(out)@ + s@,
{
    out.append(s);
}

/// Append `n` spaces to `out`.
pub fn app_spaces(out: &mut String, n: usize)
    ensures
        final(out)@ == old(out)@ + spaces(n as nat),
{
    let mut i: usize = 0;
    while i < n
        invariant
            i <= n,
            out@ == old(out)@ + spaces(i as nat),
        decreases n - i,
    {
        let sp = " ";
        proof {
            reveal_strlit(" ");
        }
        app(out, sp);
        proof {
            assert(out@ =~= old(out)@ + spaces((i + 1) as nat));
        }
        i = i + 1;
    }
}

/// Append `a`, then `b`.
pub fn app2(out: &mut String, a: &str, b: &str)
    ensures
        final(out)@ == old(out)@ + a@ + b@,
{
    app(out, a);
    app(out, b);
}

/// The lines of `text` as `str::lines` yields them: split at `\n`, a
/// `\r` right before it dropped, no line after a final newline.
pub fn split_lines(text: &str) -> (r: Vec<&str>)
    ensures
        r@.map_values(|s: &str| s@) == lines_of(text@),
{
    let b = text.as_bytes();
    let n = b.len();
    let mut out: Vec<&str> = Vec::new();
    proof {
        crate::strs::lemma_str_valid(text);
        crate::strs::lemma_boundary_at(b@, n as int);
        crate::strs::lemma_boundary_at(b@, 0);
    }
    let mut start: usize = 0;
    while start < n
        invariant
            start <= n,
            n == b@.len(),
            b@ == text.spec_bytes(),
            vstd::utf8::valid_utf8(b@),
            vstd::utf8::is_char_boundary(b@, start as int),
            vstd::utf8::is_char_boundary(b@, n as int),
            out@.map_values(|s: &str| s.spec_bytes()) + byte_lines(b@, start as int) == byte_lines(b@, 0),
        decreases n - start,
    {
        let mut e = start;
        while e < n && b[e] != 10u8
            invariant
                start <= e <= n,
                n == b@.len(),
                nl_from(b@, e as int) == nl_from(b@, start as int),
            decreases n - e,
        {
            e = e + 1;
        }
        proof {
            lemma_nl_from(b@, start as int);
        }
        let mut line_end = e;
        if e < n && line_end > start && b[line_end - 1] == 13u8 {
            line_end = line_end - 1;
        }
        proof {
            if e < n {
                crate::strs::lemma_ascii_boundary(b@, e as int);
            }
            if line_end < e {
                crate::strs::lemma_ascii_boundary(b@, line_end as int);
            }
        }
        let ghost before = out@;
        let piece = crate::strs::substr(text, start, line_end);
        out.push(piece);
        proof {
            assert(line_end == line_stop(b@, start as int));
            assert(out@.map_values(|s: &str| s.spec_bytes()) =~= before.map_values(|s: &str| s.spec_bytes()).push(
                b@.subrange(start as int, line_end as int),
            ));
        }
        let next = if e < n {
            e + 1
        } else {
            n
        };
        proof {
            if e < n {
                crate::strs::lemma_ascii_boundary(b@, e as int);
            }
            assert(out@.map_values(|s: &str| s.spec_bytes()) + byte_lines(b@, next as int) =~= before.map_values(
                |s: &str| s.spec_bytes(),
            ) + byte_lines(b@, start as int));
        }
        start = next;
    }
    proof {
        assert(out@.map_values(|s: &str| s.spec_bytes()) =~= byte_lines(b@, 0));
        let mv = out@.map_values(|s: &str| s@);
        let want = lines_of(text@);
        assert forall|k: int| 0 <= k < out@.len() implies #[trigger] mv[k] == want[k] by {
            assert(out@[k].spec_bytes() == byte_lines(b@, 0)[k]);
            vstd::utf8::encode_utf8_decode_utf8(out@[k]@);
        }
        assert(mv =~= want);
    }
    out
}

/// Append `text`; with an indent, every continuation line is prefixed
/// with `indent_level` spaces (empty lines stay empty).
pub fn emit_multiline_with_indentation(out: &mut String, text: &str, indent_level: usize)
    ensures
        final(out)@ == old(out)@ + multiline(text@, indent_level as nat),
{
    if indent_level == 0 {
        app(out, text);
        return;
    }
    let lines = split_lines(text);
    let ghost ls = lines_of(text@);
    let mut i: usize = 0;
    while i < lines.len()
        invariant
            i <= lines@.len(),
            lines@.map_values(|s: &str| s@) == ls,
            out@ == old(out)@ + join_cont(ls.take(i as int), indent_level as nat),
        decreases lines@.len() - i,
    {
        let ghost before = out@;
        proof {
            assert(ls[i as int] == lines@[i as int]@);
            lemma_take_push(ls, i as int);
        }
        let ghost l = ls[i as int];
        if i > 0 {
            let nl = "\n";
            app(out, nl);
            if !lines[i].is_empty() {
                app_spaces(out, indent_level);
                app(out, lines[i]);
                assert(out@ == before + "\n"@ + spaces(indent_level as nat) + l);
            } else {
                assert(l.len() == 0);
                assert(out@ == before + "\n"@);
            }
            proof {
                assert(out@ =~= before + ("\n"@ + cont_line(l, indent_level as nat)));
                assert(join_cont(ls.take(i + 1), indent_level as nat) == join_cont(ls.take(i as int), indent_level as nat)
                    + "\n"@ + cont_line(l, indent_level as nat));
                assert(out@ =~= old(out)@ + join_cont(ls.take(i + 1), indent_level as nat));
            }
        } else {
            app(out, lines[i]);
            proof {
                assert(ls.take(1) =~= seq![ls[0]]);
                assert(out@ =~= old(out)@ + join_cont(ls.take(i + 1), indent_level as nat));
            }
        }
        i = i + 1;
    }
    proof {
        assert(ls.take(lines@.len() as int) =~= ls);
    }
}

/// Append `body` line by line, each non-empty line prefixed with
/// `indent` spaces, each line ended with a newline.
pub fn emit_indented_body(out: &mut String, body: &str, indent: usize)
    ensures
        final(out)@ == old(out)@ + indented(body@, indent as nat),
{
    let lines = split_lines(body);
    let ghost ls = lines_of(body@);
    let mut i: usize = 0;
    while i < lines.len()
        invariant
            i <= lines@.len(),
            lines@.map_values(|s: &str| s@) == ls,
            out@ == old(out)@ + body_lines(ls.take(i as int), indent as nat),
        decreases lines@.len() - i,
    {
        proof {
            assert(ls[i as int] == lines@[i as int]@);
            lemma_take_push(ls, i as int);
        }
        let ghost before = out@;
        let ghost l = ls[i as int];
        if !lines[i].is_empty() {
            app_spaces(out, indent);
            app(out, lines[i]);
            assert(out@ == before + spaces(indent as nat) + l);
        } else {
            assert(l.len() == 0);
        }
        let nl = "\n";
        app(out, nl);
        proof {
            assert(out@ =~= before + cont_line(l, indent as nat) + "\n"@);
            assert(body_lines(ls.take(i + 1), indent as nat) == body_lines(ls.take(i as int), indent as nat) + cont_line(
                l,
                indent as nat,
            ) + "\n"@);
            assert(out@ =~= old(out)@ + body_lines(ls.take(i + 1), indent as nat));
        }
        i = i + 1;
    }
    proof {
        assert(ls.take(lines@.len() as int) =~= ls);
    }
}

/// Prepend `base_indent` spaces to every non-empty line.
pub fn indent_lines(text: &str, base_indent: usize) -> (r: String)
    ensures
        r@ == indented(text@, base_indent as nat),
{
    let mut result = String::new();
    emit_indented_body(&mut result, text, base_indent);
    proof {
        assert(result@ =~= indented(text@, base_indent as nat));
    }
    result
}

/// A blank line before a later block, unless nothing came before it.
pub fn push_separator(out: &mut String, started: bool)
    ensures
        final(out)@ == old(out)@ + (if started {
            "\n"@
        } else {
            Seq::empty()
        }),
        !started ==> final(out)@ == old(out)@,
{
    if started {
        let nl = "\n";
        app(out, nl);
    } else {
        proof {
            assert(out@ =~= old(out)@ + Seq::<char>::empty());
        }
    }
}

/// Join `names` with `, `.
pub fn app_joined(out: &mut String, names: &Vec<String>)
    ensures
        final(out)@ == old(out)@ + joined(names@),
{
    let ghost ls = texts(names@);
    let mut i: usize = 0;
    while i < names.len()
        invariant
            i <= names@.len(),
            ls == texts(names@),
            out@ == old(out)@ + join_sep(ls.take(i as int), ", "@),
        decreases names@.len() - i,
    {
        proof {
            lemma_take_push(ls, i as int);
        }
        if i > 0 {
            app(out, ", ");
        }
        app(out, names[i].as_str());
        proof {
            if i == 0 {
                assert(ls.take(1) =~= seq![ls[0]]);
            }
            assert(out@ =~= old(out)@ + join_sep(ls.take(i + 1), ", "@));
        }
        i = i + 1;
    }
    proof {
        assert(ls.take(names@.len() as int) =~= ls);
    }
}

/// `.. name:: argument`, then the description indented by three spaces.
pub fn emit_directive(out: &mut String, directive: &Directive)
    ensures
        final(out)@ == old(out)@ + directive_text(*directive, 3),
        final(out)@.len() > old(out)@.len(),
{
    app_directive(out, directive, 3);
}

/// `.. name:: argument`, then the description indented by `ind`.
pub fn app_directive(out: &mut String, directive: &Directive, ind: usize)
    ensures
        final(out)@ == old(out)@ + directive_text(*directive, ind as nat),
        final(out)@.len() > old(out)@.len(),
{
    app(out, ".. ");
    app(out, directive.name.as_str());
    app(out, "::");
    match &directive.argument {
        Some(a) => app2(out, " ", a.as_str()),
        None => {},
    }
    app(out, "\n");
    match &directive.description {
        Some(d) => emit_indented_body(out, d.as_str(), ind),
        None => {},
    }
    proof {
        reveal_strlit(".. ");
        assert(out@ =~= old(out)@ + directive_text(*directive, ind as nat));
    }
}

} // verus!
