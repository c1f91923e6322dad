//! Convert a Plain-style parse result into the style-independent model.

use vstd::prelude::*;

use crate::model::Docstring;
use crate::parse::to_model::to_model_any;
use crate::parse::Style;
use crate::syntax::Parsed;

verus! {

/// Build a [`Docstring`] from a [`Parsed`] result; `None` unless it was
/// parsed as Plain style.
pub fn to_model(parsed: &Parsed) -> (r: Option<Docstring>)
    ensures
        r is Some <==> parsed.style_of() == Style::Plain,
{
    if parsed.style() != Style::Plain {
        return None;
    }
    Some(to_model_any(parsed))
}

} // verus!
