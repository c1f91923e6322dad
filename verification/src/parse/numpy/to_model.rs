//! Convert a NumPy-style parse result into the style-independent model.

use vstd::prelude::*;

use crate::model::Docstring;
use crate::parse::to_model::to_model_any;
use crate::parse::Style;
use crate::syntax::Parsed;

verus! {

/// Build a [`Docstring`] from a [`Parsed`] result; `None` unless it was
/// parsed as NumPy style.
pub fn to_model(parsed: &Parsed) -> (r: Option<Docstring>)
    ensures
        r is Some <==> parsed.style_of() == Style::NumPy,
{
    if parsed.style() != Style::NumPy {
        return None;
    }
    Some(to_model_any(parsed))
}

} // verus!
