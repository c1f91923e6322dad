//! Style-independent section-name resolution.
//!
//! One enum covers every section kind either style recognizes; the two
//! styles differ only in the alias strings that reach them. Those alias
//! tables stay separate: Google keeps historic typo aliases (`argment`,
//! `paramter`), NumPy accepts the singular full forms (`parameter`,
//! `argument`). Role routing and the mapping to the model's
//! [`SectionKind`] are shared.

use vstd::prelude::*;

use crate::strs::bytes_eq;
use vstd::string::StringSliceAdditionalSpecFns;
use crate::model::FreeSectionKind;
use crate::model::SectionKind;

verus! {

/// The role of the `ENTRY` nodes in a section body, derived from the
/// section kind.
#[derive(Debug, Clone, Copy, PartialEq, Eq, Structural)]
pub enum EntryRole {
    /// Argument/parameter entries (Args, Keyword Args, Other Parameters, Receives).
    Parameter,
    /// Return entries.
    Return,
    /// Yield entries.
    Yield,
    /// Exception entries (Raises).
    Exception,
    /// Warning entries (Warns).
    Warning,
    /// "See Also" items.
    SeeAlsoItem,
    /// Attribute entries.
    Attribute,
    /// Method entries.
    Method,
    /// References sections: body items are `CITATION` nodes, never `ENTRY`.
    Citation,
    /// Free-text sections (Notes, Examples, unknown, …): no entries at all.
    FreeText,
}

/// A recognized section name, style-independent: `Args:` (Google) and
/// `Parameters` + underline (NumPy) both resolve to
/// [`Parameters`](Self::Parameters); unrecognised names resolve to
/// [`Unknown`](Self::Unknown).
#[derive(Debug, Clone, Copy, PartialEq, Eq, Structural, Hash)]
pub enum SectionName {
    /// `Args` / `Arguments` / `Parameters` / `Params` …
    Parameters,
    /// `Keyword Args` / `Keyword Arguments` / `Keyword Parameters` …
    KeywordParameters,
    /// `Other Parameters` / `Other Args` …
    OtherParameters,
    /// `Receives` / `Receive`
    Receives,
    /// `Returns` / `Return`
    Returns,
    /// `Yields` / `Yield`
    Yields,
    /// `Raises` / `Raise`
    Raises,
    /// `Warns` / `Warn`
    Warns,
    /// `Attributes` / `Attribute`
    Attributes,
    /// `Methods` / `Method`
    Methods,
    /// `See Also`
    SeeAlso,
    /// `Notes` / `Note`
    Notes,
    /// `Examples` / `Example`
    Examples,
    /// `Todo`
    Todo,
    /// `References` / `Reference`
    References,
    /// `Warnings` / `Warning`
    Warnings,
    /// `Attention`
    Attention,
    /// `Caution`
    Caution,
    /// `Danger`
    Danger,
    /// `Error`
    Error,
    /// `Hint`
    Hint,
    /// `Important`
    Important,
    /// `Tip`
    Tip,
    /// Unrecognised section name.
    Unknown,
}

/// The section kind both styles give a **lowercased** name.
pub open spec fn common_name_kind(name: Seq<u8>) -> SectionName {
    if name == "args".spec_bytes() || name == "arg".spec_bytes() || name == "arguments".spec_bytes() {
        SectionName::Parameters
    } else if name == "params".spec_bytes() || name == "param".spec_bytes() || name == "parameters".spec_bytes() {
        SectionName::Parameters
    } else if name == "keyword args".spec_bytes() || name == "keyword arg".spec_bytes() || name == "keyword arguments".spec_bytes() || name == "keyword argument".spec_bytes() {
        SectionName::KeywordParameters
    } else if name == "keyword params".spec_bytes() || name == "keyword param".spec_bytes() || name == "keyword parameters".spec_bytes() {
        SectionName::KeywordParameters
    } else if name == "other args".spec_bytes() || name == "other arg".spec_bytes() || name == "other arguments".spec_bytes() {
        SectionName::OtherParameters
    } else if name == "other params".spec_bytes() || name == "other param".spec_bytes() || name == "other parameters".spec_bytes() {
        SectionName::OtherParameters
    } else if name == "receives".spec_bytes() || name == "receive".spec_bytes() {
        SectionName::Receives
    } else if name == "returns".spec_bytes() || name == "return".spec_bytes() {
        SectionName::Returns
    } else if name == "yields".spec_bytes() || name == "yield".spec_bytes() {
        SectionName::Yields
    } else if name == "raises".spec_bytes() || name == "raise".spec_bytes() {
        SectionName::Raises
    } else if name == "warns".spec_bytes() || name == "warn".spec_bytes() {
        SectionName::Warns
    } else if name == "see also".spec_bytes() {
        SectionName::SeeAlso
    } else if name == "attributes".spec_bytes() || name == "attribute".spec_bytes() {
        SectionName::Attributes
    } else if name == "methods".spec_bytes() || name == "method".spec_bytes() {
        SectionName::Methods
    } else if name == "notes".spec_bytes() || name == "note".spec_bytes() {
        SectionName::Notes
    } else if name == "examples".spec_bytes() || name == "example".spec_bytes() {
        SectionName::Examples
    } else if name == "todo".spec_bytes() {
        SectionName::Todo
    } else if name == "references".spec_bytes() || name == "reference".spec_bytes() {
        SectionName::References
    } else if name == "warnings".spec_bytes() || name == "warning".spec_bytes() {
        SectionName::Warnings
    } else if name == "attention".spec_bytes() {
        SectionName::Attention
    } else if name == "caution".spec_bytes() {
        SectionName::Caution
    } else if name == "danger".spec_bytes() {
        SectionName::Danger
    } else if name == "error".spec_bytes() {
        SectionName::Error
    } else if name == "hint".spec_bytes() {
        SectionName::Hint
    } else if name == "important".spec_bytes() {
        SectionName::Important
    } else if name == "tip".spec_bytes() {
        SectionName::Tip
    } else {
        SectionName::Unknown
    }
}

/// The section kind the Google alias table gives a lowercased name.
pub open spec fn google_name_kind(name: Seq<u8>) -> SectionName {
    if name == "argment".spec_bytes() || name == "paramter".spec_bytes() {
        SectionName::Parameters
    } else if name == "keyword paramter".spec_bytes() {
        SectionName::KeywordParameters
    } else if name == "other argment".spec_bytes() || name == "other paramter".spec_bytes() {
        SectionName::OtherParameters
    } else {
        common_name_kind(name)
    }
}

/// The section kind the NumPy alias table gives a lowercased name.
pub open spec fn numpy_name_kind(name: Seq<u8>) -> SectionName {
    if name == "parameter".spec_bytes() || name == "argument".spec_bytes() {
        SectionName::Parameters
    } else if name == "keyword parameter".spec_bytes() {
        SectionName::KeywordParameters
    } else if name == "other parameter".spec_bytes() || name == "other argument".spec_bytes() {
        SectionName::OtherParameters
    } else {
        common_name_kind(name)
    }
}

/// The [`EntryRole`] of a section kind.
pub open spec fn role_of(k: SectionName) -> EntryRole {
    match k {
        SectionName::Parameters => EntryRole::Parameter,
        SectionName::KeywordParameters => EntryRole::Parameter,
        SectionName::OtherParameters => EntryRole::Parameter,
        SectionName::Receives => EntryRole::Parameter,
        SectionName::Returns => EntryRole::Return,
        SectionName::Yields => EntryRole::Yield,
        SectionName::Raises => EntryRole::Exception,
        SectionName::Warns => EntryRole::Warning,
        SectionName::SeeAlso => EntryRole::SeeAlsoItem,
        SectionName::Attributes => EntryRole::Attribute,
        SectionName::Methods => EntryRole::Method,
        SectionName::References => EntryRole::Citation,
        _ => EntryRole::FreeText,
    }
}

/// The model's [`SectionKind`] for a known section kind (an unknown one
/// carries its header text, which this does not fix).
pub open spec fn model_kind(k: SectionName) -> SectionKind {
    match k {
        SectionName::Parameters => SectionKind::Parameters,
        SectionName::KeywordParameters => SectionKind::KeywordParameters,
        SectionName::OtherParameters => SectionKind::OtherParameters,
        SectionName::Receives => SectionKind::Receives,
        SectionName::Returns => SectionKind::Returns,
        SectionName::Yields => SectionKind::Yields,
        SectionName::Raises => SectionKind::Raises,
        SectionName::Warns => SectionKind::Warns,
        SectionName::Attributes => SectionKind::Attributes,
        SectionName::Methods => SectionKind::Methods,
        SectionName::SeeAlso => SectionKind::SeeAlso,
        SectionName::Notes => SectionKind::FreeText(FreeSectionKind::Notes),
        SectionName::Examples => SectionKind::FreeText(FreeSectionKind::Examples),
        SectionName::Todo => SectionKind::FreeText(FreeSectionKind::Todo),
        SectionName::References => SectionKind::References,
        SectionName::Warnings => SectionKind::FreeText(FreeSectionKind::Warnings),
        SectionName::Attention => SectionKind::FreeText(FreeSectionKind::Attention),
        SectionName::Caution => SectionKind::FreeText(FreeSectionKind::Caution),
        SectionName::Danger => SectionKind::FreeText(FreeSectionKind::Danger),
        SectionName::Error => SectionKind::FreeText(FreeSectionKind::Error),
        SectionName::Hint => SectionKind::FreeText(FreeSectionKind::Hint),
        SectionName::Important => SectionKind::FreeText(FreeSectionKind::Important),
        SectionName::Tip => SectionKind::FreeText(FreeSectionKind::Tip),
        SectionName::Unknown => SectionKind::FreeText(FreeSectionKind::Unknown(arbitrary())),
    }
}

/// Distinct known section names give distinct model kinds: converting a
/// section to the model never merges two kinds of section.
pub proof fn law_model_kind_injective(a: SectionName, b: SectionName)
    requires
        a != SectionName::Unknown,
        b != SectionName::Unknown,
        a != b,
    ensures
        model_kind(a) != model_kind(b),
{
}

/// A section's model kind agrees with how its entries are read: a section
/// whose entries are exceptions becomes `Raises`, warnings `Warns`,
/// returns `Returns`, and so on; a free-text section stays free text.
pub proof fn law_model_kind_agrees_with_role(k: SectionName)
    ensures
        role_of(k) == EntryRole::Exception <==> model_kind(k) == SectionKind::Raises,
        role_of(k) == EntryRole::Warning <==> model_kind(k) == SectionKind::Warns,
        role_of(k) == EntryRole::Return <==> model_kind(k) == SectionKind::Returns,
        role_of(k) == EntryRole::Yield <==> model_kind(k) == SectionKind::Yields,
        role_of(k) == EntryRole::Attribute <==> model_kind(k) == SectionKind::Attributes,
        role_of(k) == EntryRole::Method <==> model_kind(k) == SectionKind::Methods,
        role_of(k) == EntryRole::SeeAlsoItem <==> model_kind(k) == SectionKind::SeeAlso,
        role_of(k) == EntryRole::Citation <==> model_kind(k) == SectionKind::References,
        role_of(k) == EntryRole::Parameter <==> (model_kind(k) == SectionKind::Parameters || model_kind(k)
            == SectionKind::KeywordParameters || model_kind(k) == SectionKind::OtherParameters || model_kind(k)
            == SectionKind::Receives),
        role_of(k) == EntryRole::FreeText <==> model_kind(k) is FreeText,
{
}

impl SectionName {
    /// Aliases both styles accept, **lowercased**.
    fn from_common_name_bytes(name: &[u8]) -> (r: Self)
        ensures
            r == common_name_kind(name@),
    {
        if bytes_eq(name, "args".as_bytes()) || bytes_eq(name, "arg".as_bytes()) || bytes_eq(name, "arguments".as_bytes()) {
            SectionName::Parameters
        } else if bytes_eq(name, "params".as_bytes()) || bytes_eq(name, "param".as_bytes()) || bytes_eq(name, "parameters".as_bytes()) {
            SectionName::Parameters
        } else if bytes_eq(name, "keyword args".as_bytes()) || bytes_eq(name, "keyword arg".as_bytes()) || bytes_eq(name, "keyword arguments".as_bytes()) || bytes_eq(name, "keyword argument".as_bytes()) {
            SectionName::KeywordParameters
        } else if bytes_eq(name, "keyword params".as_bytes()) || bytes_eq(name, "keyword param".as_bytes()) || bytes_eq(name, "keyword parameters".as_bytes()) {
            SectionName::KeywordParameters
        } else if bytes_eq(name, "other args".as_bytes()) || bytes_eq(name, "other arg".as_bytes()) || bytes_eq(name, "other arguments".as_bytes()) {
            SectionName::OtherParameters
        } else if bytes_eq(name, "other params".as_bytes()) || bytes_eq(name, "other param".as_bytes()) || bytes_eq(name, "other parameters".as_bytes()) {
            SectionName::OtherParameters
        } else if bytes_eq(name, "receives".as_bytes()) || bytes_eq(name, "receive".as_bytes()) {
            SectionName::Receives
        } else if bytes_eq(name, "returns".as_bytes()) || bytes_eq(name, "return".as_bytes()) {
            SectionName::Returns
        } else if bytes_eq(name, "yields".as_bytes()) || bytes_eq(name, "yield".as_bytes()) {
            SectionName::Yields
        } else if bytes_eq(name, "raises".as_bytes()) || bytes_eq(name, "raise".as_bytes()) {
            SectionName::Raises
        } else if bytes_eq(name, "warns".as_bytes()) || bytes_eq(name, "warn".as_bytes()) {
            SectionName::Warns
        } else if bytes_eq(name, "see also".as_bytes()) {
            SectionName::SeeAlso
        } else if bytes_eq(name, "attributes".as_bytes()) || bytes_eq(name, "attribute".as_bytes()) {
            SectionName::Attributes
        } else if bytes_eq(name, "methods".as_bytes()) || bytes_eq(name, "method".as_bytes()) {
            SectionName::Methods
        } else if bytes_eq(name, "notes".as_bytes()) || bytes_eq(name, "note".as_bytes()) {
            SectionName::Notes
        } else if bytes_eq(name, "examples".as_bytes()) || bytes_eq(name, "example".as_bytes()) {
            SectionName::Examples
        } else if bytes_eq(name, "todo".as_bytes()) {
            SectionName::Todo
        } else if bytes_eq(name, "references".as_bytes()) || bytes_eq(name, "reference".as_bytes()) {
            SectionName::References
        } else if bytes_eq(name, "warnings".as_bytes()) || bytes_eq(name, "warning".as_bytes()) {
            SectionName::Warnings
        } else if bytes_eq(name, "attention".as_bytes()) {
            SectionName::Attention
        } else if bytes_eq(name, "caution".as_bytes()) {
            SectionName::Caution
        } else if bytes_eq(name, "danger".as_bytes()) {
            SectionName::Danger
        } else if bytes_eq(name, "error".as_bytes()) {
            SectionName::Error
        } else if bytes_eq(name, "hint".as_bytes()) {
            SectionName::Hint
        } else if bytes_eq(name, "important".as_bytes()) {
            SectionName::Important
        } else if bytes_eq(name, "tip".as_bytes()) {
            SectionName::Tip
        } else {
            SectionName::Unknown
        }
    }

    /// Convert a **lowercased** section name using the Google alias table.
    pub fn from_google_name_bytes(name: &[u8]) -> (r: Self)
        ensures
            r == google_name_kind(name@),
    {
        if bytes_eq(name, "argment".as_bytes()) || bytes_eq(name, "paramter".as_bytes()) {
            SectionName::Parameters
        } else if bytes_eq(name, "keyword paramter".as_bytes()) {
            SectionName::KeywordParameters
        } else if bytes_eq(name, "other argment".as_bytes()) || bytes_eq(name, "other paramter".as_bytes()) {
            SectionName::OtherParameters
        } else {
            Self::from_common_name_bytes(name)
        }
    }

    pub fn from_google_name(name: &str) -> (r: Self)
        ensures
            r == google_name_kind(name.spec_bytes()),
    {
        Self::from_google_name_bytes(name.as_bytes())
    }

    /// Convert a **lowercased** section name using the NumPy alias table.
    pub fn from_numpy_name_bytes(name: &[u8]) -> (r: Self)
        ensures
            r == numpy_name_kind(name@),
    {
        if bytes_eq(name, "parameter".as_bytes()) || bytes_eq(name, "argument".as_bytes()) {
            SectionName::Parameters
        } else if bytes_eq(name, "keyword parameter".as_bytes()) {
            SectionName::KeywordParameters
        } else if bytes_eq(name, "other parameter".as_bytes()) || bytes_eq(name, "other argument".as_bytes()) {
            SectionName::OtherParameters
        } else {
            Self::from_common_name_bytes(name)
        }
    }

    pub fn from_numpy_name(name: &str) -> (r: Self)
        ensures
            r == numpy_name_kind(name.spec_bytes()),
    {
        Self::from_numpy_name_bytes(name.as_bytes())
    }

    /// Whether the Google alias table knows this lowercased name.
    pub fn is_known_google(name: &str) -> (r: bool)
        ensures
            r == (google_name_kind(name.spec_bytes()) != SectionName::Unknown),
    {
        !matches!(Self::from_google_name_bytes(name.as_bytes()), SectionName::Unknown)
    }

    /// Whether the NumPy alias table knows this lowercased name.
    pub fn is_known_numpy(name: &str) -> (r: bool)
        ensures
            r == (numpy_name_kind(name.spec_bytes()) != SectionName::Unknown),
    {
        !matches!(Self::from_numpy_name_bytes(name.as_bytes()), SectionName::Unknown)
    }

    /// The [`EntryRole`] of this section's body entries.
    pub fn entry_role(self) -> (r: EntryRole)
        ensures
            r == role_of(self),
    {
        match self {
            SectionName::Parameters => EntryRole::Parameter,
            SectionName::KeywordParameters => EntryRole::Parameter,
            SectionName::OtherParameters => EntryRole::Parameter,
            SectionName::Receives => EntryRole::Parameter,
            SectionName::Returns => EntryRole::Return,
            SectionName::Yields => EntryRole::Yield,
            SectionName::Raises => EntryRole::Exception,
            SectionName::Warns => EntryRole::Warning,
            SectionName::SeeAlso => EntryRole::SeeAlsoItem,
            SectionName::Attributes => EntryRole::Attribute,
            SectionName::Methods => EntryRole::Method,
            SectionName::References => EntryRole::Citation,
            _ => EntryRole::FreeText,
        }
    }

    /// Map to the style-independent [`SectionKind`] of the model layer;
    /// `header_name` is the header text as written, kept for an unknown
    /// section.
    pub fn to_section_kind(self, header_name: &str) -> (r: SectionKind)
        ensures
            self != SectionName::Unknown ==> r == model_kind(self),
            self == SectionName::Unknown ==> (r matches SectionKind::FreeText(FreeSectionKind::Unknown(n))
                && n@ == header_name@),
    {
        match self {
            SectionName::Parameters => SectionKind::Parameters,
            SectionName::KeywordParameters => SectionKind::KeywordParameters,
            SectionName::OtherParameters => SectionKind::OtherParameters,
            SectionName::Receives => SectionKind::Receives,
            SectionName::Returns => SectionKind::Returns,
            SectionName::Yields => SectionKind::Yields,
            SectionName::Raises => SectionKind::Raises,
            SectionName::Warns => SectionKind::Warns,
            SectionName::Attributes => SectionKind::Attributes,
            SectionName::Methods => SectionKind::Methods,
            SectionName::SeeAlso => SectionKind::SeeAlso,
            SectionName::Notes => SectionKind::FreeText(FreeSectionKind::Notes),
            SectionName::Examples => SectionKind::FreeText(FreeSectionKind::Examples),
            SectionName::Todo => SectionKind::FreeText(FreeSectionKind::Todo),
            SectionName::References => SectionKind::References,
            SectionName::Warnings => SectionKind::FreeText(FreeSectionKind::Warnings),
            SectionName::Attention => SectionKind::FreeText(FreeSectionKind::Attention),
            SectionName::Caution => SectionKind::FreeText(FreeSectionKind::Caution),
            SectionName::Danger => SectionKind::FreeText(FreeSectionKind::Danger),
            SectionName::Error => SectionKind::FreeText(FreeSectionKind::Error),
            SectionName::Hint => SectionKind::FreeText(FreeSectionKind::Hint),
            SectionName::Important => SectionKind::FreeText(FreeSectionKind::Important),
            SectionName::Tip => SectionKind::FreeText(FreeSectionKind::Tip),
            SectionName::Unknown => SectionKind::FreeText(FreeSectionKind::Unknown(header_name.to_owned())),
        }
    }
}

} // verus!
