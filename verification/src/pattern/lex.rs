//! The `$X` / `$$$X` metavariable scanner shared by patterns and rewrite
//! templates, the collision-proof placeholder stem, and the substitution of
//! placeholders for metavariables.
//!
//! A `$` starts a metavariable only at a word boundary (not right after an
//! ASCII letter, digit, `_` or `$`), and only when an uppercase identifier
//! `[A-Z][A-Z0-9_]*` follows the sigil (`$$$` for a sequence variable, `$`
//! otherwise). Everything else is literal text.

use vstd::prelude::*;
use vstd::string::StringExecFns;
use vstd::string::StringSliceAdditionalSpecFns;
use vstd::utf8::encode_utf8;
use vstd::utf8::is_ascii_chars_encode_utf8;
use vstd::utf8::is_char_boundary;
use vstd::utf8::valid_utf8;

use crate::strs::lemma_ascii_boundary;
use crate::strs::lemma_boundary_at;
use crate::strs::lemma_encode_concat;
use crate::strs::decimal;
use crate::strs::lemma_str_valid;
use crate::strs::push_decimal;
use crate::strs::substr;

verus! {

// =============================================================================
// Byte classes
// =============================================================================

/// An ASCII uppercase letter.
pub open spec fn is_upper(c: u8) -> bool {
    65 <= c <= 90
}

/// An ASCII digit.
pub open spec fn is_digit(c: u8) -> bool {
    48 <= c <= 57
}

/// A byte that may start a metavariable identifier.
pub open spec fn ident_start(c: u8) -> bool {
    is_upper(c)
}

/// A byte that may continue a metavariable identifier.
pub open spec fn ident_continue(c: u8) -> bool {
    is_upper(c) || is_digit(c) || c == 95
}

/// A byte that blocks a following `$` from starting a metavariable.
pub open spec fn word_byte(c: u8) -> bool {
    is_upper(c) || (97 <= c <= 122) || is_digit(c) || c == 95 || c == 36
}

/// Exec form of [`ident_continue`].
pub fn is_ident_continue(c: u8) -> (r: bool)
    ensures
        r == ident_continue(c),
{
    (65 <= c && c <= 90) || (48 <= c && c <= 57) || c == 95
}

/// Exec form of [`word_byte`].
pub fn is_word_byte(c: u8) -> (r: bool)
    ensures
        r == word_byte(c),
{
    (65 <= c && c <= 90) || (97 <= c && c <= 122) || (48 <= c && c <= 57) || c == 95 || c == 36
}

// =============================================================================
// Metavariable occurrences
// =============================================================================

/// The bytes at `i` are the `$$$` sigil.
pub open spec fn triple_at(b: Seq<u8>, i: int) -> bool {
    0 <= i && i + 3 <= b.len() && b[i] == 36 && b[i + 1] == 36 && b[i + 2] == 36
}

/// The length of the sigil at `i`: 3 for `$$$`, else 1.
pub open spec fn sigil_len(b: Seq<u8>, i: int) -> int {
    if triple_at(b, i) {
        3
    } else {
        1
    }
}

/// A metavariable starts at byte `i`.
pub open spec fn var_at(b: Seq<u8>, i: int) -> bool {
    &&& 0 <= i < b.len()
    &&& b[i] == 36
    &&& (i == 0 || !word_byte(b[i - 1]))
    &&& i + sigil_len(b, i) < b.len()
    &&& ident_start(b[i + sigil_len(b, i)])
}

/// The end of the run of identifier bytes from `j`.
pub open spec fn ident_end(b: Seq<u8>, j: int) -> int
    decreases b.len() - j,
{
    if 0 <= j < b.len() && ident_continue(b[j]) {
        ident_end(b, j + 1)
    } else {
        j
    }
}

/// The end of the metavariable that starts at `i`.
pub open spec fn var_end(b: Seq<u8>, i: int) -> int {
    ident_end(b, i + sigil_len(b, i) + 1)
}

/// The identifier run from `j` ends within the text, past `j`, on an
/// identifier byte.
proof fn lemma_ident_end(b: Seq<u8>, j: int)
    requires
        0 <= j <= b.len(),
    ensures
        j <= ident_end(b, j) <= b.len(),
        forall|k: int| j <= k < ident_end(b, j) ==> ident_continue(#[trigger] b[k]),
    decreases b.len() - j,
{
    if j < b.len() && ident_continue(b[j]) {
        lemma_ident_end(b, j + 1);
    }
}

/// A metavariable's identifier is not empty and ends within the text.
pub proof fn lemma_var_end(b: Seq<u8>, i: int)
    requires
        var_at(b, i),
    ensures
        i + sigil_len(b, i) + 1 <= var_end(b, i) <= b.len(),
{
    lemma_ident_end(b, i + sigil_len(b, i) + 1);
}

/// One piece of lexed text: the byte span `[start, end)`, and whether it is
/// a metavariable (with its sigil) or a run of literal text.
#[derive(Clone, Copy)]
pub struct Piece {
    pub start: usize,
    pub end: usize,
    pub var: bool,
    pub multi: bool,
}

/// `ps` is the lexing of `b`: consecutive pieces covering it, each
/// metavariable at a place one starts and as long as its identifier, each
/// literal run free of metavariable starts, and no two literal runs side by
/// side ([`pieces_ok`]).
pub open spec fn lexed(b: Seq<u8>, ps: Seq<Piece>) -> bool {
    &&& (ps.len() == 0 <==> b.len() == 0)
    &&& ps.len() > 0 ==> ps[0].start == 0 && ps.last().end == b.len()
    &&& pieces_ok(b, ps)
}

/// Each piece of `ps` is well formed ([`piece_ok`]), each ends where the
/// next starts, and of two neighbours at least one is a metavariable.
#[verifier::opaque]
pub open spec fn pieces_ok(b: Seq<u8>, ps: Seq<Piece>) -> bool {
    &&& forall|k: int| 0 <= k < ps.len() - 1 ==> (#[trigger] ps[k]).end == ps[k + 1].start
    &&& forall|k: int| 0 <= k < ps.len() ==> piece_ok(b, #[trigger] ps[k])
    &&& forall|k: int| 0 <= k < ps.len() - 1 ==> (#[trigger] ps[k]).var || ps[k + 1].var
}

/// Each piece of a well-formed list is well formed.
pub proof fn lemma_piece_at(b: Seq<u8>, ps: Seq<Piece>, k: int)
    requires
        pieces_ok(b, ps),
        0 <= k < ps.len(),
    ensures
        piece_ok(b, ps[k]),
        k < ps.len() - 1 ==> ps[k].end == ps[k + 1].start && (ps[k].var || ps[k + 1].var),
{
    reveal(pieces_ok);
}

/// Appending a well-formed piece that starts where the list ends, a
/// metavariable or after one, keeps the list well formed.
proof fn lemma_push_piece(b: Seq<u8>, ps: Seq<Piece>, p: Piece)
    requires
        pieces_ok(b, ps),
        piece_ok(b, p),
        ps.len() > 0 ==> ps.last().end == p.start && (ps.last().var || p.var),
    ensures
        pieces_ok(b, ps.push(p)),
{
    reveal(pieces_ok);
    let qs = ps.push(p);
    assert forall|k: int| 0 <= k < qs.len() - 1 implies (#[trigger] qs[k]).end == qs[k + 1].start by {
        if k < ps.len() - 1 {
            assert(qs[k] == ps[k] && qs[k + 1] == ps[k + 1]);
        }
    }
    assert forall|k: int| 0 <= k < qs.len() - 1 implies (#[trigger] qs[k]).var || qs[k + 1].var by {
        if k < ps.len() - 1 {
            assert(qs[k] == ps[k] && qs[k + 1] == ps[k + 1]);
        }
    }
    assert forall|k: int| 0 <= k < qs.len() implies piece_ok(b, #[trigger] qs[k]) by {
        if k < ps.len() {
            assert(qs[k] == ps[k]);
        }
    }
}

/// One piece is a metavariable spelled at its start, or a literal run with
/// no metavariable start in it.
pub open spec fn piece_ok(b: Seq<u8>, p: Piece) -> bool {
    &&& p.start < p.end <= b.len()
    &&& is_char_boundary(b, p.start as int) && is_char_boundary(b, p.end as int)
    &&& p.var ==> var_at(b, p.start as int) && p.end == var_end(b, p.start as int) && p.multi == triple_at(
        b,
        p.start as int,
    )
    &&& !p.var ==> !p.multi && forall|q: int| p.start <= q < p.end ==> !var_at(b, q)
}

/// The identifier of a metavariable piece (without its sigil).
pub open spec fn piece_name(b: Seq<u8>, p: Piece) -> Seq<u8> {
    b.subrange(p.start + sigil_len(b, p.start as int), p.end as int)
}

/// Lex `b` into literal runs and metavariables.
pub fn lex_pieces(text: &str) -> (r: Vec<Piece>)
    ensures
        lexed(text.spec_bytes(), r@),
{
    let b = text.as_bytes();
    let n = b.len();
    proof {
        lemma_str_valid(text);
        lemma_boundary_at(b@, 0);
        lemma_boundary_at(b@, n as int);
    }
    let mut ps: Vec<Piece> = Vec::new();
    proof {
        reveal(pieces_ok);
    }
    let mut run_start: usize = 0;
    let mut i: usize = 0;
    while i < n
        invariant
            n == b@.len(),
            b@ == text.spec_bytes(),
            valid_utf8(b@),
            is_char_boundary(b@, n as int),
            run_start <= i <= n,
            is_char_boundary(b@, run_start as int),
            ps@.len() == 0 ==> run_start == 0,
            ps@.len() > 0 ==> ps@[0].start == 0 && ps@.last().end == run_start && ps@.last().var,
            pieces_ok(b@, ps@),
            forall|q: int| run_start <= q < i ==> !var_at(b@, q),
        decreases n - i,
    {
        if b[i] == 36u8 && (i == 0 || !is_word_byte(b[i - 1])) {
            let multi = n - i >= 3 && b[i + 1] == 36u8 && b[i + 2] == 36u8;
            let sig: usize = if multi {
                3
            } else {
                1
            };
            let js = i + sig;
            if js < n && 65u8 <= b[js] && b[js] <= 90u8 {
                let mut end = js + 1;
                while end < n && is_ident_continue(b[end])
                    invariant
                        js < end <= n,
                        n == b@.len(),
                        ident_end(b@, end as int) == ident_end(b@, js + 1),
                    decreases n - end,
                {
                    end = end + 1;
                }
                proof {
                    assert(var_at(b@, i as int));
                    lemma_ident_end(b@, js + 1);
                    lemma_ascii_boundary(b@, i as int);
                    lemma_ascii_boundary(b@, end - 1);
                }
                if run_start < i {
                    let lit = Piece { start: run_start, end: i, var: false, multi: false };
                    proof {
                        lemma_push_piece(b@, ps@, lit);
                    }
                    ps.push(lit);
                }
                let v = Piece { start: i, end, var: true, multi };
                proof {
                    lemma_push_piece(b@, ps@, v);
                }
                ps.push(v);
                run_start = end;
                i = end;
                continue;
            }
        }
        proof {
            assert(!var_at(b@, i as int));
        }
        i = i + 1;
    }
    if run_start < n {
        let lit = Piece { start: run_start, end: n, var: false, multi: false };
        proof {
            lemma_push_piece(b@, ps@, lit);
        }
        ps.push(lit);
    }
    ps
}

/// One lexed piece of pattern or template text: a run of literal
/// characters, or a metavariable reference (`name` without its sigil).
#[derive(Debug, Clone, Copy, PartialEq, Eq)]
pub enum MetaVarToken<'a> {
    /// A run of literal (non-metavariable) text.
    Literal(&'a str),
    /// A `$NAME` (`multi == false`) or `$$$NAME` (`multi == true`)
    /// reference.
    Var { name: &'a str, multi: bool },
}

/// Token `t` is piece `p` of `b`.
pub open spec fn token_is(b: Seq<u8>, p: Piece, t: MetaVarToken) -> bool {
    match t {
        MetaVarToken::Literal(s) => !p.var && s.spec_bytes() == b.subrange(p.start as int, p.end as int),
        MetaVarToken::Var { name, multi } => p.var && multi == p.multi && name.spec_bytes() == piece_name(b, p),
    }
}

/// Lex `text` into literal runs and metavariable references, adjacent
/// literal characters coalesced into one run.
pub fn lex_metavars(text: &str) -> (r: Vec<MetaVarToken<'_>>)
    ensures
        exists|ps: Seq<Piece>|
            lexed(text.spec_bytes(), ps) && ps.len() == r@.len() && forall|k: int|
                0 <= k < ps.len() ==> token_is(text.spec_bytes(), ps[k], #[trigger] r@[k]),
{
    let ps = lex_pieces(text);
    let ghost b = text.spec_bytes();
    let mut out: Vec<MetaVarToken<'_>> = Vec::new();
    let mut k: usize = 0;
    while k < ps.len()
        invariant
            b == text.spec_bytes(),
            lexed(b, ps@),
            k <= ps@.len(),
            out@.len() == k,
            forall|j: int| 0 <= j < k ==> token_is(b, ps@[j], #[trigger] out@[j]),
        decreases ps@.len() - k,
    {
        let p = ps[k];
        proof {
            lemma_piece_at(b, ps@, k as int);
        }
        if p.var {
            let sig: usize = if p.multi {
                3
            } else {
                1
            };
            proof {
                lemma_str_valid(text);
                lemma_ascii_boundary(b, p.start as int);
                if p.multi {
                    lemma_ascii_boundary(b, p.start + 1);
                    lemma_ascii_boundary(b, p.start + 2);
                }
                lemma_ident_end(b, p.start + sigil_len(b, p.start as int) + 1);
            }
            let name = substr(text, p.start + sig, p.end);
            out.push(MetaVarToken::Var { name, multi: p.multi });
        } else {
            let lit = substr(text, p.start, p.end);
            out.push(MetaVarToken::Literal(lit));
        }
        k = k + 1;
    }
    out
}

// =============================================================================
// Placeholder stem
// =============================================================================

/// `needle` occurs in `hay` at `i`.
pub open spec fn occurs_at(hay: Seq<u8>, needle: Seq<u8>, i: int) -> bool {
    0 <= i && i + needle.len() <= hay.len() && hay.subrange(i, i + needle.len()) == needle
}

/// `needle` occurs in `hay`.
pub open spec fn occurs(hay: Seq<u8>, needle: Seq<u8>) -> bool {
    exists|i: int| occurs_at(hay, needle, i)
}

/// The first place `needle` occurs in `hay` at or after `i`, if any.
pub open spec fn find_from(hay: Seq<u8>, needle: Seq<u8>, i: int) -> Option<int>
    decreases hay.len() + 1 - i,
{
    if i < 0 || i + needle.len() > hay.len() {
        None
    } else if occurs_at(hay, needle, i) {
        Some(i)
    } else {
        find_from(hay, needle, i + 1)
    }
}

/// `find_from` finds the first occurrence at or after `i`.
proof fn lemma_find_from(hay: Seq<u8>, needle: Seq<u8>, i: int)
    requires
        0 <= i,
    ensures
        find_from(hay, needle, i) matches Some(k) ==> i <= k && occurs_at(hay, needle, k) && forall|j: int|
            i <= j < k ==> !occurs_at(hay, needle, j),
        find_from(hay, needle, i) is None ==> forall|j: int| i <= j ==> !occurs_at(hay, needle, j),
    decreases hay.len() + 1 - i,
{
    if i + needle.len() <= hay.len() && !occurs_at(hay, needle, i) {
        lemma_find_from(hay, needle, i + 1);
    }
}

/// The first byte offset of `needle` in `hay` (`str::find` on bytes).
pub fn find_bytes(hay: &[u8], needle: &[u8]) -> (r: Option<usize>)
    ensures
        match r {
            Some(k) => find_from(hay@, needle@, 0) == Some(k as int),
            None => find_from(hay@, needle@, 0) is None,
        },
        r matches Some(k) ==> occurs_at(hay@, needle@, k as int),
        r is None <==> !occurs(hay@, needle@),
{
    proof {
        lemma_find_from(hay@, needle@, 0);
    }
    let n = hay.len();
    let m = needle.len();
    if m > n {
        proof {
            assert forall|i: int| !occurs_at(hay@, needle@, i) by {
            }
        }
        return None;
    }
    let mut i: usize = 0;
    while i <= n - m
        invariant
            n == hay@.len(),
            m == needle@.len(),
            m <= n,
            i <= n - m + 1,
            find_from(hay@, needle@, i as int) == find_from(hay@, needle@, 0),
        decreases n - m + 1 - i,
    {
        let mut j: usize = 0;
        while j < m && hay[i + j] == needle[j]
            invariant
                i + m <= n,
                j <= m,
                n == hay@.len(),
                m == needle@.len(),
                forall|t: int| 0 <= t < j ==> hay@[i + t] == needle@[t],
            decreases m - j,
        {
            j = j + 1;
        }
        if j == m {
            proof {
                assert(hay@.subrange(i as int, i + m) =~= needle@);
            }
            return Some(i);
        }
        proof {
            assert(hay@.subrange(i as int, i + m)[j as int] != needle@[j as int]);
        }
        i = i + 1;
    }
    proof {
        lemma_find_from(hay@, needle@, i as int);
    }
    None
}

/// The placeholder stem after `q` lengthenings: `PYDOCMV` then `q` `Q`s.
pub open spec fn stem_bytes(q: nat) -> Seq<u8>
    decreases q,
{
    if q == 0 {
        seq![80u8, 89u8, 68u8, 79u8, 67u8, 77u8, 86u8]
    } else {
        stem_bytes((q - 1) as nat).push(81u8)
    }
}

proof fn lemma_stem_len(q: nat)
    ensures
        stem_bytes(q).len() == 7 + q,
    decreases q,
{
    if q > 0 {
        lemma_stem_len((q - 1) as nat);
    }
}

/// A placeholder stem that does not occur in `text`: `PYDOCMV`, lengthened
/// with `Q`s until it no longer occurs, so pattern text that spells out a
/// placeholder literally still round-trips.
pub fn placeholder_stem(text: &str) -> (r: String)
    ensures
        exists|q: nat|
            encode_utf8(r@) == stem_bytes(q) && !occurs(text.spec_bytes(), stem_bytes(q)) && forall|p: nat|
                p < q ==> occurs(text.spec_bytes(), #[trigger] stem_bytes(p)),
{
    let b = text.as_bytes();
    let s0 = "PYDOCMV";
    let q_lit = "Q";
    proof {
        reveal_strlit("PYDOCMV");
        reveal_strlit("Q");
        is_ascii_chars_encode_utf8(s0@);
        is_ascii_chars_encode_utf8(q_lit@);
        assert(s0.spec_bytes() =~= stem_bytes(0));
        assert(q_lit.spec_bytes() =~= seq![81u8]);
    }
    let mut stem = s0.to_owned();
    let mut bytes: Vec<u8> = Vec::new();
    bytes.push(80u8);
    bytes.push(89u8);
    bytes.push(68u8);
    bytes.push(79u8);
    bytes.push(67u8);
    bytes.push(77u8);
    bytes.push(86u8);
    let ghost mut q: nat = 0;
    proof {
        assert(bytes@ =~= stem_bytes(0));
    }
    while find_bytes(b, bytes.as_slice()).is_some()
        invariant
            b@ == text.spec_bytes(),
            bytes@ == stem_bytes(q),
            encode_utf8(stem@) == stem_bytes(q),
            q_lit.spec_bytes() == seq![81u8],
            forall|p: nat| p < q ==> occurs(text.spec_bytes(), #[trigger] stem_bytes(p)),
        decreases b@.len() + 1 - bytes@.len(),
    {
        proof {
            lemma_stem_len(q);
            let k = choose|k: int| occurs_at(b@, bytes@, k);
            assert(bytes@.len() <= b@.len());
        }
        let ghost before = stem@;
        stem.append(q_lit);
        bytes.push(81u8);
        proof {
            lemma_encode_concat(before, q_lit@);
            assert(occurs(text.spec_bytes(), stem_bytes(q)));
            q = q + 1;
            assert forall|p: nat| p < q implies occurs(text.spec_bytes(), #[trigger] stem_bytes(p)) by {
            }
        }
    }
    stem
}

// =============================================================================
// Substitution
// =============================================================================

/// One metavariable occurrence, with its placeholder.
pub struct Occurrence {
    pub name: String,
    pub multi: bool,
    pub placeholder: String,
}

/// The placeholder for the `k`-th metavariable: the stem, `k`, then `X`.
pub open spec fn placeholder_bytes(stem: Seq<u8>, k: nat) -> Seq<u8> {
    stem + decimal(k) + seq![88u8]
}

/// The number of metavariable pieces among the first `m` of `ps`.
pub open spec fn vars_before(ps: Seq<Piece>, m: int) -> nat
    decreases m,
{
    if m <= 0 || m > ps.len() {
        0
    } else {
        vars_before(ps, m - 1) + if ps[m - 1].var {
            1nat
        } else {
            0nat
        }
    }
}

/// The text of the first `m` pieces with each metavariable replaced by its
/// placeholder.
pub open spec fn substituted(b: Seq<u8>, ps: Seq<Piece>, stem: Seq<u8>, m: int) -> Seq<u8>
    decreases m,
{
    if m <= 0 || m > ps.len() {
        Seq::empty()
    } else {
        substituted(b, ps, stem, m - 1) + if ps[m - 1].var {
            placeholder_bytes(stem, vars_before(ps, m - 1))
        } else {
            b.subrange(ps[m - 1].start as int, ps[m - 1].end as int)
        }
    }
}

/// Text without a `$` lexes to a single literal run, so substituting its
/// metavariables leaves it as it is.
pub proof fn lemma_no_sigil_substituted(b: Seq<u8>, ps: Seq<Piece>, stem: Seq<u8>)
    requires
        lexed(b, ps),
        forall|q: int| 0 <= q < b.len() ==> b[q] != 36u8,
    ensures
        substituted(b, ps, stem, ps.len() as int) == b,
{
    reveal(pieces_ok);
    if ps.len() > 0 {
        assert forall|k: int| 0 <= k < ps.len() implies !(#[trigger] ps[k]).var by {
            assert(piece_ok(b, ps[k]));
            if ps[k].var {
                assert(var_at(b, ps[k].start as int));
            }
        }
        if ps.len() > 1 {
            assert(ps[0].var || ps[1].var);
        }
        assert(ps.len() == 1);
        assert(substituted(b, ps, stem, 0) == Seq::<u8>::empty());
        assert(b.subrange(0, b.len() as int) =~= b);
        assert(substituted(b, ps, stem, 1) =~= b);
    }
}

/// Occurrence `o` stands for piece `p` of `b`, the `k`-th metavariable.
pub open spec fn occurrence_is(b: Seq<u8>, stem: Seq<u8>, p: Piece, k: nat, o: Occurrence) -> bool {
    &&& encode_utf8(o.name@) == piece_name(b, p)
    &&& o.multi == p.multi
    &&& encode_utf8(o.placeholder@) == placeholder_bytes(stem, k)
}

/// Replace every metavariable of `text` with a unique placeholder name and
/// inventory the occurrences, in source order.
pub fn substitute_metavars(text: &str) -> (r: (String, Vec<Occurrence>))
    ensures
        exists|ps: Seq<Piece>, stem: Seq<u8>|
            #![trigger lexed(text.spec_bytes(), ps), substituted(text.spec_bytes(), ps, stem, ps.len() as int)]
            {
                &&& lexed(text.spec_bytes(), ps)
                &&& !occurs(text.spec_bytes(), stem)
                &&& encode_utf8(r.0@) == substituted(text.spec_bytes(), ps, stem, ps.len() as int)
                &&& r.1@.len() == vars_before(ps, ps.len() as int)
                &&& forall|m: int|
                    0 <= m < ps.len() && ps[m].var ==> occurrence_is(
                        text.spec_bytes(),
                        stem,
                        ps[m],
                        vars_before(ps, m),
                        #[trigger] r.1@[vars_before(ps, m) as int],
                    )
            },
{
    let stem = placeholder_stem(text);
    let ghost sb = encode_utf8(stem@);
    let ps = lex_pieces(text);
    let ghost b = text.spec_bytes();
    proof {
        lemma_str_valid(text);
    }
    let x_lit = "X";
    proof {
        reveal_strlit("X");
        is_ascii_chars_encode_utf8(x_lit@);
        assert(x_lit.spec_bytes() =~= seq![88u8]);
    }
    let mut out = String::new();
    let mut occs: Vec<Occurrence> = Vec::new();
    let mut m: usize = 0;
    while m < ps.len()
        invariant
            b == text.spec_bytes(),
            valid_utf8(b),
            lexed(b, ps@),
            sb == encode_utf8(stem@),
            x_lit.spec_bytes() == seq![88u8],
            m <= ps@.len(),
            encode_utf8(out@) == substituted(b, ps@, sb, m as int),
            occs@.len() == vars_before(ps@, m as int),
            forall|j: int|
                0 <= j < m && ps@[j].var ==> occurrence_is(
                    b,
                    sb,
                    ps@[j],
                    vars_before(ps@, j),
                    #[trigger] occs@[vars_before(ps@, j) as int],
                ),
        decreases ps@.len() - m,
    {
        let p = ps[m];
        proof {
            lemma_piece_at(b, ps@, m as int);
        }
        let ghost before = out@;
        if p.var {
            let sig: usize = if p.multi {
                3
            } else {
                1
            };
            proof {
                lemma_ascii_boundary(b, p.start as int);
                if p.multi {
                    lemma_ascii_boundary(b, p.start + 1);
                    lemma_ascii_boundary(b, p.start + 2);
                }
                lemma_ident_end(b, p.start + sigil_len(b, p.start as int) + 1);
            }
            let name = substr(text, p.start + sig, p.end);
            let mut ph = stem.clone();
            push_decimal(&mut ph, occs.len());
            let ghost mid = ph@;
            ph.append(x_lit);
            proof {
                lemma_encode_concat(mid, x_lit@);
                assert(encode_utf8(ph@) =~= placeholder_bytes(sb, occs@.len() as nat));
            }
            out.append(ph.as_str());
            proof {
                lemma_encode_concat(before, ph@);
            }
            let ghost old_occs = occs@;
            occs.push(Occurrence { name: name.to_owned(), multi: p.multi, placeholder: ph });
            proof {
                assert forall|j: int|
                    0 <= j < m + 1 && ps@[j].var implies occurrence_is(
                    b,
                    sb,
                    ps@[j],
                    vars_before(ps@, j),
                    #[trigger] occs@[vars_before(ps@, j) as int],
                ) by {
                    if j < m {
                        lemma_vars_before_mono(ps@, j + 1, m as int);
                        assert(occs@[vars_before(ps@, j) as int] == old_occs[vars_before(ps@, j) as int]);
                    }
                }
            }
        } else {
            let lit = substr(text, p.start, p.end);
            out.append(lit);
            proof {
                lemma_encode_concat(before, lit@);
            }
        }
        m = m + 1;
    }
    proof {
        assert(lexed(text.spec_bytes(), ps@));
    }
    (out, occs)
}

/// A metavariable piece is counted before the total.
pub proof fn lemma_vars_before_bound(ps: Seq<Piece>, m: int)
    requires
        0 <= m < ps.len(),
        ps[m].var,
    ensures
        vars_before(ps, m) < vars_before(ps, ps.len() as int),
{
    lemma_vars_before_mono(ps, m + 1, ps.len() as int);
}

/// Counting metavariables is monotone.
proof fn lemma_vars_before_mono(ps: Seq<Piece>, i: int, j: int)
    requires
        0 <= i <= j <= ps.len(),
    ensures
        vars_before(ps, i) <= vars_before(ps, j),
    decreases j - i,
{
    if i < j {
        lemma_vars_before_mono(ps, i, j - 1);
    }
}

} // verus!
