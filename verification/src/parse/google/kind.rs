//! Google-style section kind enumeration.

use vstd::prelude::*;

use crate::strs::bytes_eq;
use vstd::string::StringSliceAdditionalSpecFns;
use crate::model::FreeSectionKind;
use crate::model::SectionKind;
use crate::parse::kind::EntryRole;

verus! {

/// Google-style section kinds: each variant is a recognised section name (or a
/// group of aliases), or [`Unknown`](Self::Unknown).
#[derive(Debug, Clone, Copy, PartialEq, Eq, Structural, Hash)]
#[non_exhaustive]
pub enum GoogleSectionKind {
    /// `Args` / `Arguments` / `Parameters` / `Params`
    Args,
    /// `Keyword Args` / `Keyword Arguments`
    KeywordArgs,
    /// `Other Parameters`
    OtherParameters,
    /// `Receive` / `Receives`
    Receives,
    /// `Returns` / `Return`
    Returns,
    /// `Yields` / `Yield`
    Yields,
    /// `Raises` / `Raise`
    Raises,
    /// `Warns` / `Warn`
    Warns,
    /// `Attributes` / `Attribute`
    Attributes,
    /// `Methods`
    Methods,
    /// `See Also`
    SeeAlso,
    /// `Note` / `Notes`
    Notes,
    /// `Example` / `Examples`
    Examples,
    /// `Todo`
    Todo,
    /// `References`
    References,
    /// `Warning` / `Warnings`
    Warnings,
    /// `Attention`
    Attention,
    /// `Caution`
    Caution,
    /// `Danger`
    Danger,
    /// `Error`
    Error,
    /// `Hint`
    Hint,
    /// `Important`
    Important,
    /// `Tip`
    Tip,
    /// Unrecognised section name.
    Unknown,
}

/// The kind a **lowercased** name reads as.
pub open spec fn google_kind_of(name: Seq<u8>) -> GoogleSectionKind {
    if name == "args".spec_bytes() || name == "arg".spec_bytes() || name == "arguments".spec_bytes() || name == "argment".spec_bytes() {
        GoogleSectionKind::Args
    } else if name == "params".spec_bytes() || name == "param".spec_bytes() || name == "parameters".spec_bytes() || name == "paramter".spec_bytes() {
        GoogleSectionKind::Args
    } else if name == "keyword args".spec_bytes() || name == "keyword arg".spec_bytes() || name == "keyword arguments".spec_bytes() || name == "keyword argument".spec_bytes() {
        GoogleSectionKind::KeywordArgs
    } else if name == "keyword params".spec_bytes() || name == "keyword param".spec_bytes() || name == "keyword parameters".spec_bytes() || name == "keyword paramter".spec_bytes() {
        GoogleSectionKind::KeywordArgs
    } else if name == "other args".spec_bytes() || name == "other arg".spec_bytes() || name == "other arguments".spec_bytes() || name == "other argment".spec_bytes() {
        GoogleSectionKind::OtherParameters
    } else if name == "other params".spec_bytes() || name == "other param".spec_bytes() || name == "other parameters".spec_bytes() || name == "other paramter".spec_bytes() {
        GoogleSectionKind::OtherParameters
    } else if name == "receives".spec_bytes() || name == "receive".spec_bytes() {
        GoogleSectionKind::Receives
    } else if name == "returns".spec_bytes() || name == "return".spec_bytes() {
        GoogleSectionKind::Returns
    } else if name == "yields".spec_bytes() || name == "yield".spec_bytes() {
        GoogleSectionKind::Yields
    } else if name == "raises".spec_bytes() || name == "raise".spec_bytes() {
        GoogleSectionKind::Raises
    } else if name == "warns".spec_bytes() || name == "warn".spec_bytes() {
        GoogleSectionKind::Warns
    } else if name == "see also".spec_bytes() {
        GoogleSectionKind::SeeAlso
    } else if name == "attributes".spec_bytes() || name == "attribute".spec_bytes() {
        GoogleSectionKind::Attributes
    } else if name == "methods".spec_bytes() || name == "method".spec_bytes() {
        GoogleSectionKind::Methods
    } else if name == "notes".spec_bytes() || name == "note".spec_bytes() {
        GoogleSectionKind::Notes
    } else if name == "examples".spec_bytes() || name == "example".spec_bytes() {
        GoogleSectionKind::Examples
    } else if name == "todo".spec_bytes() {
        GoogleSectionKind::Todo
    } else if name == "references".spec_bytes() || name == "reference".spec_bytes() {
        GoogleSectionKind::References
    } else if name == "warnings".spec_bytes() || name == "warning".spec_bytes() {
        GoogleSectionKind::Warnings
    } else if name == "attention".spec_bytes() {
        GoogleSectionKind::Attention
    } else if name == "caution".spec_bytes() {
        GoogleSectionKind::Caution
    } else if name == "danger".spec_bytes() {
        GoogleSectionKind::Danger
    } else if name == "error".spec_bytes() {
        GoogleSectionKind::Error
    } else if name == "hint".spec_bytes() {
        GoogleSectionKind::Hint
    } else if name == "important".spec_bytes() {
        GoogleSectionKind::Important
    } else if name == "tip".spec_bytes() {
        GoogleSectionKind::Tip
    } else {
        GoogleSectionKind::Unknown
    }
}

/// Whether a kind parses its body as entries.
pub open spec fn google_kind_of_structured(k: GoogleSectionKind) -> bool {
    matches!(k, GoogleSectionKind::Args | GoogleSectionKind::KeywordArgs | GoogleSectionKind::OtherParameters | GoogleSectionKind::Receives | GoogleSectionKind::Returns | GoogleSectionKind::Yields | GoogleSectionKind::Raises | GoogleSectionKind::Warns | GoogleSectionKind::Attributes | GoogleSectionKind::Methods | GoogleSectionKind::SeeAlso | GoogleSectionKind::References)
}

/// The role of a kind's body entries.
pub open spec fn google_kind_of_role(k: GoogleSectionKind) -> EntryRole {
    match k {
        GoogleSectionKind::Args => EntryRole::Parameter,
        GoogleSectionKind::KeywordArgs => EntryRole::Parameter,
        GoogleSectionKind::OtherParameters => EntryRole::Parameter,
        GoogleSectionKind::Receives => EntryRole::Parameter,
        GoogleSectionKind::Returns => EntryRole::Return,
        GoogleSectionKind::Yields => EntryRole::Yield,
        GoogleSectionKind::Raises => EntryRole::Exception,
        GoogleSectionKind::Warns => EntryRole::Warning,
        GoogleSectionKind::Attributes => EntryRole::Attribute,
        GoogleSectionKind::Methods => EntryRole::Method,
        GoogleSectionKind::SeeAlso => EntryRole::SeeAlsoItem,
        GoogleSectionKind::References => EntryRole::Citation,
        _ => EntryRole::FreeText,
    }
}

/// The canonical header name of a kind.
pub open spec fn google_kind_name(k: GoogleSectionKind) -> Seq<char> {
    match k {
        GoogleSectionKind::Args => "Args"@,
        GoogleSectionKind::KeywordArgs => "Keyword Args"@,
        GoogleSectionKind::OtherParameters => "Other Parameters"@,
        GoogleSectionKind::Receives => "Receives"@,
        GoogleSectionKind::Returns => "Returns"@,
        GoogleSectionKind::Yields => "Yields"@,
        GoogleSectionKind::Raises => "Raises"@,
        GoogleSectionKind::Warns => "Warns"@,
        GoogleSectionKind::Attributes => "Attributes"@,
        GoogleSectionKind::Methods => "Methods"@,
        GoogleSectionKind::SeeAlso => "See Also"@,
        GoogleSectionKind::Notes => "Notes"@,
        GoogleSectionKind::Examples => "Examples"@,
        GoogleSectionKind::Todo => "Todo"@,
        GoogleSectionKind::References => "References"@,
        GoogleSectionKind::Warnings => "Warnings"@,
        GoogleSectionKind::Attention => "Attention"@,
        GoogleSectionKind::Caution => "Caution"@,
        GoogleSectionKind::Danger => "Danger"@,
        GoogleSectionKind::Error => "Error"@,
        GoogleSectionKind::Hint => "Hint"@,
        GoogleSectionKind::Important => "Important"@,
        GoogleSectionKind::Tip => "Tip"@,
        GoogleSectionKind::Unknown => "Unknown"@,
    }
}

impl GoogleSectionKind {
    /// Convert a **lowercased** section name; unrecognised names give
    /// [`Unknown`](Self::Unknown).
    pub fn from_name_bytes(name: &[u8]) -> (r: Self)
        ensures
            r == google_kind_of(name@),
    {
        if bytes_eq(name, "args".as_bytes()) || bytes_eq(name, "arg".as_bytes()) || bytes_eq(name, "arguments".as_bytes()) || bytes_eq(name, "argment".as_bytes()) {
            GoogleSectionKind::Args
        } else if bytes_eq(name, "params".as_bytes()) || bytes_eq(name, "param".as_bytes()) || bytes_eq(name, "parameters".as_bytes()) || bytes_eq(name, "paramter".as_bytes()) {
            GoogleSectionKind::Args
        } else if bytes_eq(name, "keyword args".as_bytes()) || bytes_eq(name, "keyword arg".as_bytes()) || bytes_eq(name, "keyword arguments".as_bytes()) || bytes_eq(name, "keyword argument".as_bytes()) {
            GoogleSectionKind::KeywordArgs
        } else if bytes_eq(name, "keyword params".as_bytes()) || bytes_eq(name, "keyword param".as_bytes()) || bytes_eq(name, "keyword parameters".as_bytes()) || bytes_eq(name, "keyword paramter".as_bytes()) {
            GoogleSectionKind::KeywordArgs
        } else if bytes_eq(name, "other args".as_bytes()) || bytes_eq(name, "other arg".as_bytes()) || bytes_eq(name, "other arguments".as_bytes()) || bytes_eq(name, "other argment".as_bytes()) {
            GoogleSectionKind::OtherParameters
        } else if bytes_eq(name, "other params".as_bytes()) || bytes_eq(name, "other param".as_bytes()) || bytes_eq(name, "other parameters".as_bytes()) || bytes_eq(name, "other paramter".as_bytes()) {
            GoogleSectionKind::OtherParameters
        } else if bytes_eq(name, "receives".as_bytes()) || bytes_eq(name, "receive".as_bytes()) {
            GoogleSectionKind::Receives
        } else if bytes_eq(name, "returns".as_bytes()) || bytes_eq(name, "return".as_bytes()) {
            GoogleSectionKind::Returns
        } else if bytes_eq(name, "yields".as_bytes()) || bytes_eq(name, "yield".as_bytes()) {
            GoogleSectionKind::Yields
        } else if bytes_eq(name, "raises".as_bytes()) || bytes_eq(name, "raise".as_bytes()) {
            GoogleSectionKind::Raises
        } else if bytes_eq(name, "warns".as_bytes()) || bytes_eq(name, "warn".as_bytes()) {
            GoogleSectionKind::Warns
        } else if bytes_eq(name, "see also".as_bytes()) {
            GoogleSectionKind::SeeAlso
        } else if bytes_eq(name, "attributes".as_bytes()) || bytes_eq(name, "attribute".as_bytes()) {
            GoogleSectionKind::Attributes
        } else if bytes_eq(name, "methods".as_bytes()) || bytes_eq(name, "method".as_bytes()) {
            GoogleSectionKind::Methods
        } else if bytes_eq(name, "notes".as_bytes()) || bytes_eq(name, "note".as_bytes()) {
            GoogleSectionKind::Notes
        } else if bytes_eq(name, "examples".as_bytes()) || bytes_eq(name, "example".as_bytes()) {
            GoogleSectionKind::Examples
        } else if bytes_eq(name, "todo".as_bytes()) {
            GoogleSectionKind::Todo
        } else if bytes_eq(name, "references".as_bytes()) || bytes_eq(name, "reference".as_bytes()) {
            GoogleSectionKind::References
        } else if bytes_eq(name, "warnings".as_bytes()) || bytes_eq(name, "warning".as_bytes()) {
            GoogleSectionKind::Warnings
        } else if bytes_eq(name, "attention".as_bytes()) {
            GoogleSectionKind::Attention
        } else if bytes_eq(name, "caution".as_bytes()) {
            GoogleSectionKind::Caution
        } else if bytes_eq(name, "danger".as_bytes()) {
            GoogleSectionKind::Danger
        } else if bytes_eq(name, "error".as_bytes()) {
            GoogleSectionKind::Error
        } else if bytes_eq(name, "hint".as_bytes()) {
            GoogleSectionKind::Hint
        } else if bytes_eq(name, "important".as_bytes()) {
            GoogleSectionKind::Important
        } else if bytes_eq(name, "tip".as_bytes()) {
            GoogleSectionKind::Tip
        } else {
            GoogleSectionKind::Unknown
        }
    }

    pub fn from_name(name: &str) -> (r: Self)
        ensures
            r == google_kind_of(name.spec_bytes()),
    {
        Self::from_name_bytes(name.as_bytes())
    }

    /// Whether a lowercased name is a known section name.
    pub fn is_known(name: &str) -> (r: bool)
        ensures
            r == (google_kind_of(name.spec_bytes()) != GoogleSectionKind::Unknown),
    {
        !matches!(Self::from_name_bytes(name.as_bytes()), GoogleSectionKind::Unknown)
    }

    /// Whether this section kind uses structured (entry-based) body
    /// parsing.
    pub fn is_structured(&self) -> (r: bool)
        ensures
            r == google_kind_of_structured(*self),
    {
        matches!(self, GoogleSectionKind::Args | GoogleSectionKind::KeywordArgs | GoogleSectionKind::OtherParameters | GoogleSectionKind::Receives | GoogleSectionKind::Returns | GoogleSectionKind::Yields | GoogleSectionKind::Raises | GoogleSectionKind::Warns | GoogleSectionKind::Attributes | GoogleSectionKind::Methods | GoogleSectionKind::SeeAlso | GoogleSectionKind::References)
    }

    /// Whether this section kind uses free-text body parsing.
    pub fn is_freetext(&self) -> (r: bool)
        ensures
            r == !google_kind_of_structured(*self),
    {
        matches!(self, GoogleSectionKind::Notes | GoogleSectionKind::Examples | GoogleSectionKind::Todo | GoogleSectionKind::Warnings | GoogleSectionKind::Attention | GoogleSectionKind::Caution | GoogleSectionKind::Danger | GoogleSectionKind::Error | GoogleSectionKind::Hint | GoogleSectionKind::Important | GoogleSectionKind::Tip | GoogleSectionKind::Unknown)
    }

    /// The role of this section's body entries.
    pub fn entry_role(self) -> (r: EntryRole)
        ensures
            r == google_kind_of_role(self),
    {
        match self {
            GoogleSectionKind::Args => EntryRole::Parameter,
            GoogleSectionKind::KeywordArgs => EntryRole::Parameter,
            GoogleSectionKind::OtherParameters => EntryRole::Parameter,
            GoogleSectionKind::Receives => EntryRole::Parameter,
            GoogleSectionKind::Returns => EntryRole::Return,
            GoogleSectionKind::Yields => EntryRole::Yield,
            GoogleSectionKind::Raises => EntryRole::Exception,
            GoogleSectionKind::Warns => EntryRole::Warning,
            GoogleSectionKind::Attributes => EntryRole::Attribute,
            GoogleSectionKind::Methods => EntryRole::Method,
            GoogleSectionKind::SeeAlso => EntryRole::SeeAlsoItem,
            GoogleSectionKind::References => EntryRole::Citation,
            _ => EntryRole::FreeText,
        }
    }

    /// Map to the style-independent [`SectionKind`] of the model layer;
    /// `header_name` is the header text as written, kept for an unknown
    /// section.
    pub fn to_section_kind(self, header_name: &str) -> (r: SectionKind)
        ensures
            self == GoogleSectionKind::Unknown ==> (r matches SectionKind::FreeText(FreeSectionKind::Unknown(n)) && n@ == header_name@),
            self != GoogleSectionKind::Unknown ==> r == (match self {
                GoogleSectionKind::Args => SectionKind::Parameters,
                GoogleSectionKind::KeywordArgs => SectionKind::KeywordParameters,
                GoogleSectionKind::OtherParameters => SectionKind::OtherParameters,
                GoogleSectionKind::Receives => SectionKind::Receives,
                GoogleSectionKind::Returns => SectionKind::Returns,
                GoogleSectionKind::Yields => SectionKind::Yields,
                GoogleSectionKind::Raises => SectionKind::Raises,
                GoogleSectionKind::Warns => SectionKind::Warns,
                GoogleSectionKind::Attributes => SectionKind::Attributes,
                GoogleSectionKind::Methods => SectionKind::Methods,
                GoogleSectionKind::SeeAlso => SectionKind::SeeAlso,
                GoogleSectionKind::Notes => SectionKind::FreeText(FreeSectionKind::Notes),
                GoogleSectionKind::Examples => SectionKind::FreeText(FreeSectionKind::Examples),
                GoogleSectionKind::Todo => SectionKind::FreeText(FreeSectionKind::Todo),
                GoogleSectionKind::References => SectionKind::References,
                GoogleSectionKind::Warnings => SectionKind::FreeText(FreeSectionKind::Warnings),
                GoogleSectionKind::Attention => SectionKind::FreeText(FreeSectionKind::Attention),
                GoogleSectionKind::Caution => SectionKind::FreeText(FreeSectionKind::Caution),
                GoogleSectionKind::Danger => SectionKind::FreeText(FreeSectionKind::Danger),
                GoogleSectionKind::Error => SectionKind::FreeText(FreeSectionKind::Error),
                GoogleSectionKind::Hint => SectionKind::FreeText(FreeSectionKind::Hint),
                GoogleSectionKind::Important => SectionKind::FreeText(FreeSectionKind::Important),
                GoogleSectionKind::Tip => SectionKind::FreeText(FreeSectionKind::Tip),
                _ => r,
            }),
    {
        match self {
            GoogleSectionKind::Args => SectionKind::Parameters,
            GoogleSectionKind::KeywordArgs => SectionKind::KeywordParameters,
            GoogleSectionKind::OtherParameters => SectionKind::OtherParameters,
            GoogleSectionKind::Receives => SectionKind::Receives,
            GoogleSectionKind::Returns => SectionKind::Returns,
            GoogleSectionKind::Yields => SectionKind::Yields,
            GoogleSectionKind::Raises => SectionKind::Raises,
            GoogleSectionKind::Warns => SectionKind::Warns,
            GoogleSectionKind::Attributes => SectionKind::Attributes,
            GoogleSectionKind::Methods => SectionKind::Methods,
            GoogleSectionKind::SeeAlso => SectionKind::SeeAlso,
            GoogleSectionKind::Notes => SectionKind::FreeText(FreeSectionKind::Notes),
            GoogleSectionKind::Examples => SectionKind::FreeText(FreeSectionKind::Examples),
            GoogleSectionKind::Todo => SectionKind::FreeText(FreeSectionKind::Todo),
            GoogleSectionKind::References => SectionKind::References,
            GoogleSectionKind::Warnings => SectionKind::FreeText(FreeSectionKind::Warnings),
            GoogleSectionKind::Attention => SectionKind::FreeText(FreeSectionKind::Attention),
            GoogleSectionKind::Caution => SectionKind::FreeText(FreeSectionKind::Caution),
            GoogleSectionKind::Danger => SectionKind::FreeText(FreeSectionKind::Danger),
            GoogleSectionKind::Error => SectionKind::FreeText(FreeSectionKind::Error),
            GoogleSectionKind::Hint => SectionKind::FreeText(FreeSectionKind::Hint),
            GoogleSectionKind::Important => SectionKind::FreeText(FreeSectionKind::Important),
            GoogleSectionKind::Tip => SectionKind::FreeText(FreeSectionKind::Tip),
            GoogleSectionKind::Unknown => SectionKind::FreeText(FreeSectionKind::Unknown(header_name.to_owned())),
        }
    }

    /// The canonical header name of this kind (`"Args"`, `"See Also"`, …).
    pub fn as_str(self) -> (r: &'static str)
        ensures
            r@ == google_kind_name(self),
    {
        match self {
            GoogleSectionKind::Args => "Args",
            GoogleSectionKind::KeywordArgs => "Keyword Args",
            GoogleSectionKind::OtherParameters => "Other Parameters",
            GoogleSectionKind::Receives => "Receives",
            GoogleSectionKind::Returns => "Returns",
            GoogleSectionKind::Yields => "Yields",
            GoogleSectionKind::Raises => "Raises",
            GoogleSectionKind::Warns => "Warns",
            GoogleSectionKind::Attributes => "Attributes",
            GoogleSectionKind::Methods => "Methods",
            GoogleSectionKind::SeeAlso => "See Also",
            GoogleSectionKind::Notes => "Notes",
            GoogleSectionKind::Examples => "Examples",
            GoogleSectionKind::Todo => "Todo",
            GoogleSectionKind::References => "References",
            GoogleSectionKind::Warnings => "Warnings",
            GoogleSectionKind::Attention => "Attention",
            GoogleSectionKind::Caution => "Caution",
            GoogleSectionKind::Danger => "Danger",
            GoogleSectionKind::Error => "Error",
            GoogleSectionKind::Hint => "Hint",
            GoogleSectionKind::Important => "Important",
            GoogleSectionKind::Tip => "Tip",
            GoogleSectionKind::Unknown => "Unknown",
        }
    }
}

} // verus!
