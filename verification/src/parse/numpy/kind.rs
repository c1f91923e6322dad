//! NumPy-style section kind enumeration.

use vstd::prelude::*;

use crate::strs::bytes_eq;
use vstd::string::StringSliceAdditionalSpecFns;
use crate::model::FreeSectionKind;
use crate::model::SectionKind;
use crate::parse::kind::EntryRole;

verus! {

/// NumPy-style section kinds: each variant is a recognised section name (or a
/// group of aliases), or [`Unknown`](Self::Unknown).
#[derive(Debug, Clone, Copy, PartialEq, Eq, Structural, Hash)]
#[non_exhaustive]
pub enum NumPySectionKind {
    /// `Args` / `Arguments` / `Parameters` / `Params` …
    Parameters,
    /// `Returns` / `Return`
    Returns,
    /// `Yields` / `Yield`
    Yields,
    /// `Receives` / `Receive`
    Receives,
    /// `Other Parameters` / `Other Args` …
    OtherParameters,
    /// `Keyword Args` / `Keyword Arguments` / `Keyword Parameters` …
    KeywordParameters,
    /// `Raises` / `Raise`
    Raises,
    /// `Warns` / `Warn`
    Warns,
    /// `Warnings` / `Warning`
    Warnings,
    /// `See Also`
    SeeAlso,
    /// `Notes` / `Note`
    Notes,
    /// `References` / `Reference`
    References,
    /// `Examples` / `Example`
    Examples,
    /// `Attributes` / `Attribute`
    Attributes,
    /// `Methods` / `Method`
    Methods,
    /// `Todo`
    Todo,
    /// `Attention`
    Attention,
    /// `Caution`
    Caution,
    /// `Danger`
    Danger,
    /// `Error`
    Error,
    /// `Hint`
    Hint,
    /// `Important`
    Important,
    /// `Tip`
    Tip,
    /// Unrecognised section name.
    Unknown,
}

/// The kind a **lowercased** name reads as.
pub open spec fn numpy_kind_of(name: Seq<u8>) -> NumPySectionKind {
    if name == "parameters".spec_bytes() || name == "parameter".spec_bytes() || name == "params".spec_bytes() || name == "param".spec_bytes() {
        NumPySectionKind::Parameters
    } else if name == "arguments".spec_bytes() || name == "argument".spec_bytes() || name == "args".spec_bytes() || name == "arg".spec_bytes() {
        NumPySectionKind::Parameters
    } else if name == "returns".spec_bytes() || name == "return".spec_bytes() {
        NumPySectionKind::Returns
    } else if name == "yields".spec_bytes() || name == "yield".spec_bytes() {
        NumPySectionKind::Yields
    } else if name == "receives".spec_bytes() || name == "receive".spec_bytes() {
        NumPySectionKind::Receives
    } else if name == "other parameters".spec_bytes() || name == "other parameter".spec_bytes() || name == "other params".spec_bytes() || name == "other param".spec_bytes() {
        NumPySectionKind::OtherParameters
    } else if name == "other arguments".spec_bytes() || name == "other argument".spec_bytes() || name == "other args".spec_bytes() || name == "other arg".spec_bytes() {
        NumPySectionKind::OtherParameters
    } else if name == "keyword parameters".spec_bytes() || name == "keyword parameter".spec_bytes() || name == "keyword params".spec_bytes() || name == "keyword param".spec_bytes() {
        NumPySectionKind::KeywordParameters
    } else if name == "keyword arguments".spec_bytes() || name == "keyword argument".spec_bytes() || name == "keyword args".spec_bytes() || name == "keyword arg".spec_bytes() {
        NumPySectionKind::KeywordParameters
    } else if name == "raises".spec_bytes() || name == "raise".spec_bytes() {
        NumPySectionKind::Raises
    } else if name == "warns".spec_bytes() || name == "warn".spec_bytes() {
        NumPySectionKind::Warns
    } else if name == "warnings".spec_bytes() || name == "warning".spec_bytes() {
        NumPySectionKind::Warnings
    } else if name == "see also".spec_bytes() {
        NumPySectionKind::SeeAlso
    } else if name == "notes".spec_bytes() || name == "note".spec_bytes() {
        NumPySectionKind::Notes
    } else if name == "references".spec_bytes() || name == "reference".spec_bytes() {
        NumPySectionKind::References
    } else if name == "examples".spec_bytes() || name == "example".spec_bytes() {
        NumPySectionKind::Examples
    } else if name == "attributes".spec_bytes() || name == "attribute".spec_bytes() {
        NumPySectionKind::Attributes
    } else if name == "methods".spec_bytes() || name == "method".spec_bytes() {
        NumPySectionKind::Methods
    } else if name == "todo".spec_bytes() {
        NumPySectionKind::Todo
    } else if name == "attention".spec_bytes() {
        NumPySectionKind::Attention
    } else if name == "caution".spec_bytes() {
        NumPySectionKind::Caution
    } else if name == "danger".spec_bytes() {
        NumPySectionKind::Danger
    } else if name == "error".spec_bytes() {
        NumPySectionKind::Error
    } else if name == "hint".spec_bytes() {
        NumPySectionKind::Hint
    } else if name == "important".spec_bytes() {
        NumPySectionKind::Important
    } else if name == "tip".spec_bytes() {
        NumPySectionKind::Tip
    } else {
        NumPySectionKind::Unknown
    }
}

/// Whether a kind parses its body as entries.
pub open spec fn numpy_kind_of_structured(k: NumPySectionKind) -> bool {
    matches!(k, NumPySectionKind::Parameters | NumPySectionKind::Returns | NumPySectionKind::Yields | NumPySectionKind::Receives | NumPySectionKind::OtherParameters | NumPySectionKind::KeywordParameters | NumPySectionKind::Raises | NumPySectionKind::Warns | NumPySectionKind::SeeAlso | NumPySectionKind::References | NumPySectionKind::Attributes | NumPySectionKind::Methods)
}

/// The role of a kind's body entries.
pub open spec fn numpy_kind_of_role(k: NumPySectionKind) -> EntryRole {
    match k {
        NumPySectionKind::Parameters => EntryRole::Parameter,
        NumPySectionKind::Returns => EntryRole::Return,
        NumPySectionKind::Yields => EntryRole::Yield,
        NumPySectionKind::Receives => EntryRole::Parameter,
        NumPySectionKind::OtherParameters => EntryRole::Parameter,
        NumPySectionKind::KeywordParameters => EntryRole::Parameter,
        NumPySectionKind::Raises => EntryRole::Exception,
        NumPySectionKind::Warns => EntryRole::Warning,
        NumPySectionKind::SeeAlso => EntryRole::SeeAlsoItem,
        NumPySectionKind::References => EntryRole::Citation,
        NumPySectionKind::Attributes => EntryRole::Attribute,
        NumPySectionKind::Methods => EntryRole::Method,
        _ => EntryRole::FreeText,
    }
}

/// The canonical header name of a kind.
pub open spec fn numpy_kind_name(k: NumPySectionKind) -> Seq<char> {
    match k {
        NumPySectionKind::Parameters => "Parameters"@,
        NumPySectionKind::Returns => "Returns"@,
        NumPySectionKind::Yields => "Yields"@,
        NumPySectionKind::Receives => "Receives"@,
        NumPySectionKind::OtherParameters => "Other Parameters"@,
        NumPySectionKind::KeywordParameters => "Keyword Parameters"@,
        NumPySectionKind::Raises => "Raises"@,
        NumPySectionKind::Warns => "Warns"@,
        NumPySectionKind::Warnings => "Warnings"@,
        NumPySectionKind::SeeAlso => "See Also"@,
        NumPySectionKind::Notes => "Notes"@,
        NumPySectionKind::References => "References"@,
        NumPySectionKind::Examples => "Examples"@,
        NumPySectionKind::Attributes => "Attributes"@,
        NumPySectionKind::Methods => "Methods"@,
        NumPySectionKind::Todo => "Todo"@,
        NumPySectionKind::Attention => "Attention"@,
        NumPySectionKind::Caution => "Caution"@,
        NumPySectionKind::Danger => "Danger"@,
        NumPySectionKind::Error => "Error"@,
        NumPySectionKind::Hint => "Hint"@,
        NumPySectionKind::Important => "Important"@,
        NumPySectionKind::Tip => "Tip"@,
        NumPySectionKind::Unknown => "Unknown"@,
    }
}

impl NumPySectionKind {
    /// Convert a **lowercased** section name; unrecognised names give
    /// [`Unknown`](Self::Unknown).
    pub fn from_name_bytes(name: &[u8]) -> (r: Self)
        ensures
            r == numpy_kind_of(name@),
    {
        if bytes_eq(name, "parameters".as_bytes()) || bytes_eq(name, "parameter".as_bytes()) || bytes_eq(name, "params".as_bytes()) || bytes_eq(name, "param".as_bytes()) {
            NumPySectionKind::Parameters
        } else if bytes_eq(name, "arguments".as_bytes()) || bytes_eq(name, "argument".as_bytes()) || bytes_eq(name, "args".as_bytes()) || bytes_eq(name, "arg".as_bytes()) {
            NumPySectionKind::Parameters
        } else if bytes_eq(name, "returns".as_bytes()) || bytes_eq(name, "return".as_bytes()) {
            NumPySectionKind::Returns
        } else if bytes_eq(name, "yields".as_bytes()) || bytes_eq(name, "yield".as_bytes()) {
            NumPySectionKind::Yields
        } else if bytes_eq(name, "receives".as_bytes()) || bytes_eq(name, "receive".as_bytes()) {
            NumPySectionKind::Receives
        } else if bytes_eq(name, "other parameters".as_bytes()) || bytes_eq(name, "other parameter".as_bytes()) || bytes_eq(name, "other params".as_bytes()) || bytes_eq(name, "other param".as_bytes()) {
            NumPySectionKind::OtherParameters
        } else if bytes_eq(name, "other arguments".as_bytes()) || bytes_eq(name, "other argument".as_bytes()) || bytes_eq(name, "other args".as_bytes()) || bytes_eq(name, "other arg".as_bytes()) {
            NumPySectionKind::OtherParameters
        } else if bytes_eq(name, "keyword parameters".as_bytes()) || bytes_eq(name, "keyword parameter".as_bytes()) || bytes_eq(name, "keyword params".as_bytes()) || bytes_eq(name, "keyword param".as_bytes()) {
            NumPySectionKind::KeywordParameters
        } else if bytes_eq(name, "keyword arguments".as_bytes()) || bytes_eq(name, "keyword argument".as_bytes()) || bytes_eq(name, "keyword args".as_bytes()) || bytes_eq(name, "keyword arg".as_bytes()) {
            NumPySectionKind::KeywordParameters
        } else if bytes_eq(name, "raises".as_bytes()) || bytes_eq(name, "raise".as_bytes()) {
            NumPySectionKind::Raises
        } else if bytes_eq(name, "warns".as_bytes()) || bytes_eq(name, "warn".as_bytes()) {
            NumPySectionKind::Warns
        } else if bytes_eq(name, "warnings".as_bytes()) || bytes_eq(name, "warning".as_bytes()) {
            NumPySectionKind::Warnings
        } else if bytes_eq(name, "see also".as_bytes()) {
            NumPySectionKind::SeeAlso
        } else if bytes_eq(name, "notes".as_bytes()) || bytes_eq(name, "note".as_bytes()) {
            NumPySectionKind::Notes
        } else if bytes_eq(name, "references".as_bytes()) || bytes_eq(name, "reference".as_bytes()) {
            NumPySectionKind::References
        } else if bytes_eq(name, "examples".as_bytes()) || bytes_eq(name, "example".as_bytes()) {
            NumPySectionKind::Examples
        } else if bytes_eq(name, "attributes".as_bytes()) || bytes_eq(name, "attribute".as_bytes()) {
            NumPySectionKind::Attributes
        } else if bytes_eq(name, "methods".as_bytes()) || bytes_eq(name, "method".as_bytes()) {
            NumPySectionKind::Methods
        } else if bytes_eq(name, "todo".as_bytes()) {
            NumPySectionKind::Todo
        } else if bytes_eq(name, "attention".as_bytes()) {
            NumPySectionKind::Attention
        } else if bytes_eq(name, "caution".as_bytes()) {
            NumPySectionKind::Caution
        } else if bytes_eq(name, "danger".as_bytes()) {
            NumPySectionKind::Danger
        } else if bytes_eq(name, "error".as_bytes()) {
            NumPySectionKind::Error
        } else if bytes_eq(name, "hint".as_bytes()) {
            NumPySectionKind::Hint
        } else if bytes_eq(name, "important".as_bytes()) {
            NumPySectionKind::Important
        } else if bytes_eq(name, "tip".as_bytes()) {
            NumPySectionKind::Tip
        } else {
            NumPySectionKind::Unknown
        }
    }

    pub fn from_name(name: &str) -> (r: Self)
        ensures
            r == numpy_kind_of(name.spec_bytes()),
    {
        Self::from_name_bytes(name.as_bytes())
    }

    /// Whether a lowercased name is a known section name.
    pub fn is_known(name: &str) -> (r: bool)
        ensures
            r == (numpy_kind_of(name.spec_bytes()) != NumPySectionKind::Unknown),
    {
        !matches!(Self::from_name_bytes(name.as_bytes()), NumPySectionKind::Unknown)
    }

    /// Whether this section kind uses structured (entry-based) body
    /// parsing.
    pub fn is_structured(&self) -> (r: bool)
        ensures
            r == numpy_kind_of_structured(*self),
    {
        matches!(self, NumPySectionKind::Parameters | NumPySectionKind::Returns | NumPySectionKind::Yields | NumPySectionKind::Receives | NumPySectionKind::OtherParameters | NumPySectionKind::KeywordParameters | NumPySectionKind::Raises | NumPySectionKind::Warns | NumPySectionKind::SeeAlso | NumPySectionKind::References | NumPySectionKind::Attributes | NumPySectionKind::Methods)
    }

    /// Whether this section kind uses free-text body parsing.
    pub fn is_freetext(&self) -> (r: bool)
        ensures
            r == !numpy_kind_of_structured(*self),
    {
        matches!(self, NumPySectionKind::Warnings | NumPySectionKind::Notes | NumPySectionKind::Examples | NumPySectionKind::Todo | NumPySectionKind::Attention | NumPySectionKind::Caution | NumPySectionKind::Danger | NumPySectionKind::Error | NumPySectionKind::Hint | NumPySectionKind::Important | NumPySectionKind::Tip | NumPySectionKind::Unknown)
    }

    /// The role of this section's body entries.
    pub fn entry_role(self) -> (r: EntryRole)
        ensures
            r == numpy_kind_of_role(self),
    {
        match self {
            NumPySectionKind::Parameters => EntryRole::Parameter,
            NumPySectionKind::Returns => EntryRole::Return,
            NumPySectionKind::Yields => EntryRole::Yield,
            NumPySectionKind::Receives => EntryRole::Parameter,
            NumPySectionKind::OtherParameters => EntryRole::Parameter,
            NumPySectionKind::KeywordParameters => EntryRole::Parameter,
            NumPySectionKind::Raises => EntryRole::Exception,
            NumPySectionKind::Warns => EntryRole::Warning,
            NumPySectionKind::SeeAlso => EntryRole::SeeAlsoItem,
            NumPySectionKind::References => EntryRole::Citation,
            NumPySectionKind::Attributes => EntryRole::Attribute,
            NumPySectionKind::Methods => EntryRole::Method,
            _ => EntryRole::FreeText,
        }
    }

    /// Map to the style-independent [`SectionKind`] of the model layer;
    /// `header_name` is the header text as written, kept for an unknown
    /// section.
    pub fn to_section_kind(self, header_name: &str) -> (r: SectionKind)
        ensures
            self == NumPySectionKind::Unknown ==> (r matches SectionKind::FreeText(FreeSectionKind::Unknown(n)) && n@ == header_name@),
            self != NumPySectionKind::Unknown ==> r == (match self {
                NumPySectionKind::Parameters => SectionKind::Parameters,
                NumPySectionKind::Returns => SectionKind::Returns,
                NumPySectionKind::Yields => SectionKind::Yields,
                NumPySectionKind::Receives => SectionKind::Receives,
                NumPySectionKind::OtherParameters => SectionKind::OtherParameters,
                NumPySectionKind::KeywordParameters => SectionKind::KeywordParameters,
                NumPySectionKind::Raises => SectionKind::Raises,
                NumPySectionKind::Warns => SectionKind::Warns,
                NumPySectionKind::Warnings => SectionKind::FreeText(FreeSectionKind::Warnings),
                NumPySectionKind::SeeAlso => SectionKind::SeeAlso,
                NumPySectionKind::Notes => SectionKind::FreeText(FreeSectionKind::Notes),
                NumPySectionKind::References => SectionKind::References,
                NumPySectionKind::Examples => SectionKind::FreeText(FreeSectionKind::Examples),
                NumPySectionKind::Attributes => SectionKind::Attributes,
                NumPySectionKind::Methods => SectionKind::Methods,
                NumPySectionKind::Todo => SectionKind::FreeText(FreeSectionKind::Todo),
                NumPySectionKind::Attention => SectionKind::FreeText(FreeSectionKind::Attention),
                NumPySectionKind::Caution => SectionKind::FreeText(FreeSectionKind::Caution),
                NumPySectionKind::Danger => SectionKind::FreeText(FreeSectionKind::Danger),
                NumPySectionKind::Error => SectionKind::FreeText(FreeSectionKind::Error),
                NumPySectionKind::Hint => SectionKind::FreeText(FreeSectionKind::Hint),
                NumPySectionKind::Important => SectionKind::FreeText(FreeSectionKind::Important),
                NumPySectionKind::Tip => SectionKind::FreeText(FreeSectionKind::Tip),
                _ => r,
            }),
    {
        match self {
            NumPySectionKind::Parameters => SectionKind::Parameters,
            NumPySectionKind::Returns => SectionKind::Returns,
            NumPySectionKind::Yields => SectionKind::Yields,
            NumPySectionKind::Receives => SectionKind::Receives,
            NumPySectionKind::OtherParameters => SectionKind::OtherParameters,
            NumPySectionKind::KeywordParameters => SectionKind::KeywordParameters,
            NumPySectionKind::Raises => SectionKind::Raises,
            NumPySectionKind::Warns => SectionKind::Warns,
            NumPySectionKind::Warnings => SectionKind::FreeText(FreeSectionKind::Warnings),
            NumPySectionKind::SeeAlso => SectionKind::SeeAlso,
            NumPySectionKind::Notes => SectionKind::FreeText(FreeSectionKind::Notes),
            NumPySectionKind::References => SectionKind::References,
            NumPySectionKind::Examples => SectionKind::FreeText(FreeSectionKind::Examples),
            NumPySectionKind::Attributes => SectionKind::Attributes,
            NumPySectionKind::Methods => SectionKind::Methods,
            NumPySectionKind::Todo => SectionKind::FreeText(FreeSectionKind::Todo),
            NumPySectionKind::Attention => SectionKind::FreeText(FreeSectionKind::Attention),
            NumPySectionKind::Caution => SectionKind::FreeText(FreeSectionKind::Caution),
            NumPySectionKind::Danger => SectionKind::FreeText(FreeSectionKind::Danger),
            NumPySectionKind::Error => SectionKind::FreeText(FreeSectionKind::Error),
            NumPySectionKind::Hint => SectionKind::FreeText(FreeSectionKind::Hint),
            NumPySectionKind::Important => SectionKind::FreeText(FreeSectionKind::Important),
            NumPySectionKind::Tip => SectionKind::FreeText(FreeSectionKind::Tip),
            NumPySectionKind::Unknown => SectionKind::FreeText(FreeSectionKind::Unknown(header_name.to_owned())),
        }
    }

    /// The canonical header name of this kind (`"Args"`, `"See Also"`, …).
    pub fn as_str(self) -> (r: &'static str)
        ensures
            r@ == numpy_kind_name(self),
    {
        match self {
            NumPySectionKind::Parameters => "Parameters",
            NumPySectionKind::Returns => "Returns",
            NumPySectionKind::Yields => "Yields",
            NumPySectionKind::Receives => "Receives",
            NumPySectionKind::OtherParameters => "Other Parameters",
            NumPySectionKind::KeywordParameters => "Keyword Parameters",
            NumPySectionKind::Raises => "Raises",
            NumPySectionKind::Warns => "Warns",
            NumPySectionKind::Warnings => "Warnings",
            NumPySectionKind::SeeAlso => "See Also",
            NumPySectionKind::Notes => "Notes",
            NumPySectionKind::References => "References",
            NumPySectionKind::Examples => "Examples",
            NumPySectionKind::Attributes => "Attributes",
            NumPySectionKind::Methods => "Methods",
            NumPySectionKind::Todo => "Todo",
            NumPySectionKind::Attention => "Attention",
            NumPySectionKind::Caution => "Caution",
            NumPySectionKind::Danger => "Danger",
            NumPySectionKind::Error => "Error",
            NumPySectionKind::Hint => "Hint",
            NumPySectionKind::Important => "Important",
            NumPySectionKind::Tip => "Tip",
            NumPySectionKind::Unknown => "Unknown",
        }
    }
}

} // verus!
