//! The preservation law of rewriting: a template that renders, at every
//! match, exactly the text the match covers leaves the source unchanged.

use vstd::prelude::*;
use vstd::utf8::encode_utf8;

use crate::edit::apply_post;
use crate::edit::EditSpec;
use crate::matcher::Match;
use crate::pattern::lex::lexed;
use crate::pattern::lex::Piece;
use crate::rewrite::base_indent_span;
use crate::rewrite::render_from;
use crate::rewrite::rendered_edits;
use crate::rewrite::rewrite_with;
use crate::rewrite::RewriteError;
use crate::syntax::Parsed;
use crate::text::lo;

verus! {

/// At every match, the template renders exactly the match's own source
/// bytes.
pub open spec fn renders_own_text<'t>(src: Seq<u8>, tb: Seq<u8>, ms: Seq<Match<'t>>) -> bool {
    forall|ps: Seq<Piece>, k: int|
        lexed(tb, ps) && 0 <= k < ms.len() ==> #[trigger] render_from(
            tb,
            ps,
            0,
            ms[k],
            src.subrange(base_indent_span(src, lo(ms[k].mrange())).0, base_indent_span(src, lo(ms[k].mrange())).1),
            false,
        ) == Some(src.subrange(lo(ms[k].mrange()), crate::text::hi(ms[k].mrange())))
}

/// Preservation: a rewrite whose template renders, at every match, exactly
/// the text the match covers returns the source unchanged.
pub proof fn law_rewrite_reproducing_matches_is_identity<'t>(
    p: &Parsed,
    tb: Seq<u8>,
    ms: Seq<Match<'t>>,
    r: Result<String, RewriteError>,
)
    requires
        rewrite_with(p.src_bytes(), tb, ms, r),
        renders_own_text(p.src_bytes(), tb, ms),
        r is Ok,
    ensures
        r matches Ok(out) && out@ == p.text(),
{
    let b = p.src_bytes();
    let out = r->Ok_0;
    let ps = choose|ps: Seq<Piece>| #![trigger lexed(tb, ps)] lexed(tb, ps) && exists|es: Seq<EditSpec>|
        rendered_edits(b, tb, ps, ms, es) && apply_post(b, es, Ok(out@));
    let es = choose|es: Seq<EditSpec>| rendered_edits(b, tb, ps, ms, es) && apply_post(b, es, Ok(out@));
    let ord = choose|ord: Seq<int>| #[trigger] crate::edit::is_pos_order(ord, es) && crate::edit::disjoint_in(ord, es)
        && out@ == crate::edit::spliced(b, es, ord);
    assert forall|i: int| 0 <= i < es.len() implies (#[trigger] es[i]).1 == vstd::utf8::decode_utf8(
        b.subrange(lo(es[i].0), crate::text::hi(es[i].0)),
    ) by {
        let m = ms[i];
        let base = b.subrange(base_indent_span(b, lo(m.mrange())).0, base_indent_span(b, lo(m.mrange())).1);
        assert(render_from(tb, ps, 0, m, base, false) == Some(encode_utf8(es[i].1)));
        assert(render_from(tb, ps, 0, m, base, false) == Some(b.subrange(lo(m.mrange()), crate::text::hi(m.mrange()))));
        vstd::utf8::encode_utf8_decode_utf8(es[i].1);
    }
    crate::edit::law_own_text_edits_are_identity(p, es, ord);
}

} // verus!
