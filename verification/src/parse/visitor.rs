//! Style-aware traversal of the syntax tree with typed callbacks.
//!
//! A [`DocstringVisitor`] gets one callback per typed node (docstring root,
//! deprecation, section, and each entry kind of each style); [`walk`]
//! dispatches a node to the callback its kind, the parsed style and the
//! enclosing section's entry role call for, then walks its children when
//! the callback returns `Ok(true)` (the default).

use vstd::prelude::*;

use crate::parse::google::nodes::GoogleArg;
use crate::parse::google::nodes::GoogleAttribute;
use crate::parse::google::nodes::GoogleDeprecation;
use crate::parse::google::nodes::GoogleDocstring;
use crate::parse::google::nodes::GoogleException;
use crate::parse::google::nodes::GoogleMethod;
use crate::parse::google::nodes::GoogleReference;
use crate::parse::google::nodes::GoogleReturn;
use crate::parse::google::nodes::GoogleSection;
use crate::parse::google::nodes::GoogleSeeAlsoItem;
use crate::parse::google::nodes::GoogleWarning;
use crate::parse::google::nodes::GoogleYield;
use crate::parse::kind::EntryRole;
use crate::parse::kind::SectionName;
use crate::parse::numpy::nodes::NumPyAttribute;
use crate::parse::numpy::nodes::NumPyDeprecation;
use crate::parse::numpy::nodes::NumPyDocstring;
use crate::parse::numpy::nodes::NumPyException;
use crate::parse::numpy::nodes::NumPyMethod;
use crate::parse::numpy::nodes::NumPyParameter;
use crate::parse::numpy::nodes::NumPyReference;
use crate::parse::numpy::nodes::NumPyReturns;
use crate::parse::numpy::nodes::NumPySection;
use crate::parse::numpy::nodes::NumPySeeAlsoItem;
use crate::parse::numpy::nodes::NumPyWarning;
use crate::parse::numpy::nodes::NumPyYields;
use crate::parse::utils::directive_is_deprecated;
use crate::parse::Style;
use crate::strs::ascii_lower;
use crate::syntax::Parsed;
use crate::syntax::SyntaxElement;
use crate::syntax::SyntaxKind;
use crate::syntax::SyntaxNode;

verus! {

/// Typed callbacks for a traversal of a parsed docstring. Every callback
/// defaults to `Ok(true)`: visit the node's children. Return `Ok(false)` to
/// skip them, or an error to stop the walk.
pub trait DocstringVisitor: Sized {
    /// The error a callback may stop the walk with.
    type Error;

    /// Called for each `PlainDocstring`; return `Ok(true)` to visit its children.
    fn visit_plain_docstring(&mut self, source: &str, doc: &crate::parse::plain::nodes::PlainDocstring<'_>) -> Result<bool, Self::Error> {
        Ok(true)
    }

    /// Called for each `GoogleDocstring`; return `Ok(true)` to visit its children.
    fn visit_google_docstring(&mut self, source: &str, doc: &GoogleDocstring<'_>) -> Result<bool, Self::Error> {
        Ok(true)
    }

    /// Called for each `GoogleDeprecation`; return `Ok(true)` to visit its children.
    fn visit_google_deprecation(&mut self, source: &str, dep: &GoogleDeprecation<'_>) -> Result<bool, Self::Error> {
        Ok(true)
    }

    /// Called for each `GoogleSection`; return `Ok(true)` to visit its children.
    fn visit_google_section(&mut self, source: &str, sec: &GoogleSection<'_>) -> Result<bool, Self::Error> {
        Ok(true)
    }

    /// Called for each `GoogleArg`; return `Ok(true)` to visit its children.
    fn visit_google_arg(&mut self, source: &str, arg: &GoogleArg<'_>) -> Result<bool, Self::Error> {
        Ok(true)
    }

    /// Called for each `GoogleReturn`; return `Ok(true)` to visit its children.
    fn visit_google_return(&mut self, source: &str, rtn: &GoogleReturn<'_>) -> Result<bool, Self::Error> {
        Ok(true)
    }

    /// Called for each `GoogleYield`; return `Ok(true)` to visit its children.
    fn visit_google_yield(&mut self, source: &str, yld: &GoogleYield<'_>) -> Result<bool, Self::Error> {
        Ok(true)
    }

    /// Called for each `GoogleException`; return `Ok(true)` to visit its children.
    fn visit_google_exception(&mut self, source: &str, exc: &GoogleException<'_>) -> Result<bool, Self::Error> {
        Ok(true)
    }

    /// Called for each `GoogleWarning`; return `Ok(true)` to visit its children.
    fn visit_google_warning(&mut self, source: &str, wrn: &GoogleWarning<'_>) -> Result<bool, Self::Error> {
        Ok(true)
    }

    /// Called for each `GoogleSeeAlsoItem`; return `Ok(true)` to visit its children.
    fn visit_google_see_also_item(&mut self, source: &str, sai: &GoogleSeeAlsoItem<'_>) -> Result<bool, Self::Error> {
        Ok(true)
    }

    /// Called for each `GoogleReference`; return `Ok(true)` to visit its children.
    fn visit_google_reference(&mut self, source: &str, rfr: &GoogleReference<'_>) -> Result<bool, Self::Error> {
        Ok(true)
    }

    /// Called for each `GoogleAttribute`; return `Ok(true)` to visit its children.
    fn visit_google_attribute(&mut self, source: &str, att: &GoogleAttribute<'_>) -> Result<bool, Self::Error> {
        Ok(true)
    }

    /// Called for each `GoogleMethod`; return `Ok(true)` to visit its children.
    fn visit_google_method(&mut self, source: &str, mtd: &GoogleMethod<'_>) -> Result<bool, Self::Error> {
        Ok(true)
    }

    /// Called for each `NumPyDocstring`; return `Ok(true)` to visit its children.
    fn visit_numpy_docstring(&mut self, source: &str, doc: &NumPyDocstring<'_>) -> Result<bool, Self::Error> {
        Ok(true)
    }

    /// Called for each `NumPyDeprecation`; return `Ok(true)` to visit its children.
    fn visit_numpy_deprecation(&mut self, source: &str, dep: &NumPyDeprecation<'_>) -> Result<bool, Self::Error> {
        Ok(true)
    }

    /// Called for each `NumPySection`; return `Ok(true)` to visit its children.
    fn visit_numpy_section(&mut self, source: &str, sec: &NumPySection<'_>) -> Result<bool, Self::Error> {
        Ok(true)
    }

    /// Called for each `NumPyParameter`; return `Ok(true)` to visit its children.
    fn visit_numpy_parameter(&mut self, source: &str, prm: &NumPyParameter<'_>) -> Result<bool, Self::Error> {
        Ok(true)
    }

    /// Called for each `NumPyReturns`; return `Ok(true)` to visit its children.
    fn visit_numpy_returns(&mut self, source: &str, rtn: &NumPyReturns<'_>) -> Result<bool, Self::Error> {
        Ok(true)
    }

    /// Called for each `NumPyYields`; return `Ok(true)` to visit its children.
    fn visit_numpy_yields(&mut self, source: &str, yld: &NumPyYields<'_>) -> Result<bool, Self::Error> {
        Ok(true)
    }

    /// Called for each `NumPyException`; return `Ok(true)` to visit its children.
    fn visit_numpy_exception(&mut self, source: &str, exc: &NumPyException<'_>) -> Result<bool, Self::Error> {
        Ok(true)
    }

    /// Called for each `NumPyWarning`; return `Ok(true)` to visit its children.
    fn visit_numpy_warning(&mut self, source: &str, wrn: &NumPyWarning<'_>) -> Result<bool, Self::Error> {
        Ok(true)
    }

    /// Called for each `NumPySeeAlsoItem`; return `Ok(true)` to visit its children.
    fn visit_numpy_see_also_item(&mut self, source: &str, sai: &NumPySeeAlsoItem<'_>) -> Result<bool, Self::Error> {
        Ok(true)
    }

    /// Called for each `NumPyReference`; return `Ok(true)` to visit its children.
    fn visit_numpy_reference(&mut self, source: &str, rfr: &NumPyReference<'_>) -> Result<bool, Self::Error> {
        Ok(true)
    }

    /// Called for each `NumPyAttribute`; return `Ok(true)` to visit its children.
    fn visit_numpy_attribute(&mut self, source: &str, att: &NumPyAttribute<'_>) -> Result<bool, Self::Error> {
        Ok(true)
    }

    /// Called for each `NumPyMethod`; return `Ok(true)` to visit its children.
    fn visit_numpy_method(&mut self, source: &str, mtd: &NumPyMethod<'_>) -> Result<bool, Self::Error> {
        Ok(true)
    }
}

/// The entry role of a section node's entries, from its header name and
/// the parsed style.
fn section_role(parsed: &Parsed, section: &SyntaxNode) -> (r: EntryRole) {
    let name: &str = match section.find_node(SyntaxKind::SECTION_HEADER) {
        Some(h) => match h.find_any_token(SyntaxKind::NAME) {
            Some(t) => t.text(parsed.source()),
            None => "",
        },
        None => "",
    };
    let b = name.as_bytes();
    let lower = ascii_lower(b, 0, b.len());
    match parsed.style() {
        Style::Google => SectionName::from_google_name_bytes(lower.as_slice()).entry_role(),
        Style::NumPy => SectionName::from_numpy_name_bytes(lower.as_slice()).entry_role(),
        Style::Plain => EntryRole::FreeText,
    }
}

/// Dispatch `node` to its callback, then walk its children when the
/// callback asks for it.
pub fn walk<V: DocstringVisitor>(parsed: &Parsed, node: &SyntaxNode, visitor: &mut V) -> Result<(), V::Error> {
    walk_in(parsed, node, EntryRole::FreeText, visitor)
}

/// [`walk`] with the entry role of the enclosing section.
fn walk_in<V: DocstringVisitor>(parsed: &Parsed, node: &SyntaxNode, role: EntryRole, visitor: &mut V) -> Result<
    (),
    V::Error,
>
    decreases node,
{
    let src = parsed.source();
    let style = parsed.style();
    let kind = node.kind();
    let mut child_role = role;
    let descend: Result<bool, V::Error> = if kind == SyntaxKind::DOCUMENT {
        match style {
            Style::Plain => match crate::parse::plain::nodes::PlainDocstring::cast(parsed, node) {
                Some(v) => visitor.visit_plain_docstring(src, &v),
                None => Ok(false),
            },
            Style::Google => match GoogleDocstring::cast(parsed, node) {
                Some(v) => visitor.visit_google_docstring(src, &v),
                None => Ok(false),
            },
            Style::NumPy => match NumPyDocstring::cast(parsed, node) {
                Some(v) => visitor.visit_numpy_docstring(src, &v),
                None => Ok(false),
            },
        }
    } else if kind == SyntaxKind::SECTION {
        child_role = section_role(parsed, node);
        match style {
            Style::Google => match GoogleSection::cast(parsed, node) {
                Some(v) => visitor.visit_google_section(src, &v),
                None => Ok(false),
            },
            Style::NumPy => match NumPySection::cast(parsed, node) {
                Some(v) => visitor.visit_numpy_section(src, &v),
                None => Ok(false),
            },
            Style::Plain => Ok(true),
        }
    } else if kind == SyntaxKind::DIRECTIVE && directive_is_deprecated(parsed, node) {
        match style {
            Style::Google => match GoogleDeprecation::cast(parsed, node) {
                Some(v) => visitor.visit_google_deprecation(src, &v),
                None => Ok(false),
            },
            Style::NumPy => match NumPyDeprecation::cast(parsed, node) {
                Some(v) => visitor.visit_numpy_deprecation(src, &v),
                None => Ok(false),
            },
            Style::Plain => Ok(true),
        }
    } else if kind == SyntaxKind::ENTRY {
        match style {
            Style::Google => match role {
                EntryRole::Parameter => match GoogleArg::cast(parsed, node) {
                Some(v) => visitor.visit_google_arg(src, &v),
                None => Ok(false),
            },
                EntryRole::Return => match GoogleReturn::cast(parsed, node) {
                Some(v) => visitor.visit_google_return(src, &v),
                None => Ok(false),
            },
                EntryRole::Yield => match GoogleYield::cast(parsed, node) {
                Some(v) => visitor.visit_google_yield(src, &v),
                None => Ok(false),
            },
                EntryRole::Exception => match GoogleException::cast(parsed, node) {
                Some(v) => visitor.visit_google_exception(src, &v),
                None => Ok(false),
            },
                EntryRole::Warning => match GoogleWarning::cast(parsed, node) {
                Some(v) => visitor.visit_google_warning(src, &v),
                None => Ok(false),
            },
                EntryRole::SeeAlsoItem => match GoogleSeeAlsoItem::cast(parsed, node) {
                Some(v) => visitor.visit_google_see_also_item(src, &v),
                None => Ok(false),
            },
                EntryRole::Attribute => match GoogleAttribute::cast(parsed, node) {
                Some(v) => visitor.visit_google_attribute(src, &v),
                None => Ok(false),
            },
                EntryRole::Method => match GoogleMethod::cast(parsed, node) {
                Some(v) => visitor.visit_google_method(src, &v),
                None => Ok(false),
            },
                _ => Ok(true),
            },
            Style::NumPy => match role {
                EntryRole::Parameter => match NumPyParameter::cast(parsed, node) {
                Some(v) => visitor.visit_numpy_parameter(src, &v),
                None => Ok(false),
            },
                EntryRole::Return => match NumPyReturns::cast(parsed, node) {
                Some(v) => visitor.visit_numpy_returns(src, &v),
                None => Ok(false),
            },
                EntryRole::Yield => match NumPyYields::cast(parsed, node) {
                Some(v) => visitor.visit_numpy_yields(src, &v),
                None => Ok(false),
            },
                EntryRole::Exception => match NumPyException::cast(parsed, node) {
                Some(v) => visitor.visit_numpy_exception(src, &v),
                None => Ok(false),
            },
                EntryRole::Warning => match NumPyWarning::cast(parsed, node) {
                Some(v) => visitor.visit_numpy_warning(src, &v),
                None => Ok(false),
            },
                EntryRole::SeeAlsoItem => match NumPySeeAlsoItem::cast(parsed, node) {
                Some(v) => visitor.visit_numpy_see_also_item(src, &v),
                None => Ok(false),
            },
                EntryRole::Attribute => match NumPyAttribute::cast(parsed, node) {
                Some(v) => visitor.visit_numpy_attribute(src, &v),
                None => Ok(false),
            },
                EntryRole::Method => match NumPyMethod::cast(parsed, node) {
                Some(v) => visitor.visit_numpy_method(src, &v),
                None => Ok(false),
            },
                _ => Ok(true),
            },
            Style::Plain => Ok(true),
        }
    } else if kind == SyntaxKind::CITATION {
        match style {
            Style::Google => match GoogleReference::cast(parsed, node) {
                Some(v) => visitor.visit_google_reference(src, &v),
                None => Ok(false),
            },
            Style::NumPy => match NumPyReference::cast(parsed, node) {
                Some(v) => visitor.visit_numpy_reference(src, &v),
                None => Ok(false),
            },
            Style::Plain => Ok(true),
        }
    } else {
        Ok(true)
    };
    let go = match descend {
        Ok(b) => b,
        Err(e) => return Err(e),
    };
    if !go {
        return Ok(());
    }
    let kids = node.children();
    let mut i: usize = 0;
    while i < kids.len()
        invariant
            kids@ == node.kids(),
        decreases kids@.len() - i,
    {
        if let SyntaxElement::Node(n) = &kids[i] {
            proof {
                node.lemma_kid_decreases(i as int);
            }
            match walk_in(parsed, n, child_role, visitor) {
                Ok(()) => {},
                Err(e) => return Err(e),
            }
        }
        i = i + 1;
    }
    Ok(())
}

} // verus!
