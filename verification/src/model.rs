//! Style-independent document model (IR) for docstrings.
//!
//! Owned, editable data structures that represent the semantic content of a
//! docstring without being tied to a particular style (Google, NumPy, …) or
//! to source positions. A parsed docstring converts to it with
//! `Parsed::to_model`, and the emitters render it back to text.

use vstd::prelude::*;
use vstd::string::StringSliceAdditionalSpecFns;

use crate::strs::bytes_eq;

verus! {

// =============================================================================
// Docstring (root)
// =============================================================================

/// Style-independent representation of a parsed docstring.
#[derive(Debug, Clone, PartialEq, Eq)]
pub struct Docstring {
    /// Brief one-line summary.
    pub summary: Option<String>,
    /// Extended description (may span multiple lines).
    pub extended_summary: Option<String>,
    /// Document-level rST directives (`.. name:: argument`), in source
    /// order.
    pub directives: Vec<Directive>,
    /// Ordered list of sections.
    pub sections: Vec<Section>,
}

impl Default for Docstring {
    fn default() -> (r: Self)
        ensures
            r.summary is None,
            r.extended_summary is None,
            r.directives@.len() == 0,
            r.sections@.len() == 0,
    {
        Docstring { summary: None, extended_summary: None, directives: Vec::new(), sections: Vec::new() }
    }
}

/// Whether a directive is named `deprecated`.
pub open spec fn is_deprecation(d: Directive) -> bool {
    d.name@ == "deprecated"@
}

impl Docstring {
    /// The deprecation notice, if present: the first directive named
    /// `deprecated` (its argument is the version).
    pub fn deprecation(&self) -> (r: Option<&Directive>)
        ensures
            r matches Some(d) ==> exists|i: int|
                0 <= i < self.directives@.len() && self.directives@[i] == *d && is_deprecation(*d) && forall|j: int|
                    0 <= j < i ==> !is_deprecation(#[trigger] self.directives@[j]),
            r is None ==> forall|j: int| 0 <= j < self.directives@.len() ==> !is_deprecation(#[trigger] self.directives@[j]),
    {
        let mut i: usize = 0;
        while i < self.directives.len()
            invariant
                i <= self.directives@.len(),
                forall|j: int| 0 <= j < i ==> !is_deprecation(#[trigger] self.directives@[j]),
            decreases self.directives@.len() - i,
        {
            let d = &self.directives[i];
            if str_is(d.name.as_str(), "deprecated") {
                return Some(d);
            }
            i = i + 1;
        }
        None
    }
}

/// Whether `s` reads exactly `lit`.
pub fn str_is(s: &str, lit: &str) -> (r: bool)
    ensures
        r == (s@ == lit@),
{
    let r = bytes_eq(s.as_bytes(), lit.as_bytes());
    proof {
        if s.spec_bytes() == lit.spec_bytes() {
            vstd::utf8::encode_utf8_decode_utf8(s@);
            vstd::utf8::encode_utf8_decode_utf8(lit@);
        }
    }
    r
}

// =============================================================================
// Section
// =============================================================================

/// A single section: a [`SectionKind`] paired with a flat sequence of
/// [`Block`]s in source order.
///
/// The representation is permissive — nothing prevents a
/// [`Block::Parameter`] under a `Raises` section; emitters render every
/// block.
#[derive(Debug, Clone, PartialEq, Eq)]
#[non_exhaustive]
pub struct Section {
    /// The style-independent kind of this section.
    pub kind: SectionKind,
    /// The section body: a flat sequence of blocks in source order.
    pub blocks: Vec<Block>,
}

impl Section {
    /// Construct a section from its kind and block sequence.
    pub fn new(kind: SectionKind, blocks: Vec<Block>) -> (r: Self)
        ensures
            r.kind == kind,
            r.blocks == blocks,
    {
        Section { kind, blocks }
    }

    /// A `Parameters` section wrapping each parameter in a
    /// [`Block::Parameter`].
    pub fn parameters(params: Vec<Parameter>) -> (r: Self)
        ensures
            r.kind == SectionKind::Parameters,
            r.blocks@ == params@.map_values(|p: Parameter| Block::Parameter(p)),
    {
        Self::new(SectionKind::Parameters, wrap_parameters(params))
    }

    /// A `Keyword Parameters` section (Google `Keyword Args`).
    pub fn keyword_parameters(params: Vec<Parameter>) -> (r: Self)
        ensures
            r.kind == SectionKind::KeywordParameters,
            r.blocks@ == params@.map_values(|p: Parameter| Block::Parameter(p)),
    {
        Self::new(SectionKind::KeywordParameters, wrap_parameters(params))
    }

    /// An `Other Parameters` section.
    pub fn other_parameters(params: Vec<Parameter>) -> (r: Self)
        ensures
            r.kind == SectionKind::OtherParameters,
            r.blocks@ == params@.map_values(|p: Parameter| Block::Parameter(p)),
    {
        Self::new(SectionKind::OtherParameters, wrap_parameters(params))
    }

    /// A `Receives` section.
    pub fn receives(params: Vec<Parameter>) -> (r: Self)
        ensures
            r.kind == SectionKind::Receives,
            r.blocks@ == params@.map_values(|p: Parameter| Block::Parameter(p)),
    {
        Self::new(SectionKind::Receives, wrap_parameters(params))
    }

    /// A `Returns` section wrapping each entry in a [`Block::Return`].
    pub fn returns_of(entries: Vec<Return>) -> (r: Self)
        ensures
            r.kind == SectionKind::Returns,
            r.blocks@ == entries@.map_values(|x: Return| Block::Return(x)),
    {
        Self::new(SectionKind::Returns, wrap_returns(entries))
    }

    /// A `Yields` section.
    pub fn yields(entries: Vec<Return>) -> (r: Self)
        ensures
            r.kind == SectionKind::Yields,
            r.blocks@ == entries@.map_values(|x: Return| Block::Return(x)),
    {
        Self::new(SectionKind::Yields, wrap_returns(entries))
    }

    /// A `Raises` section wrapping each entry in a [`Block::Exception`].
    pub fn raises(entries: Vec<ExceptionEntry>) -> (r: Self)
        ensures
            r.kind == SectionKind::Raises,
            r.blocks@ == entries@.map_values(|x: ExceptionEntry| Block::Exception(x)),
    {
        Self::new(SectionKind::Raises, wrap_exceptions(entries))
    }

    /// A `Warns` section.
    pub fn warns(entries: Vec<ExceptionEntry>) -> (r: Self)
        ensures
            r.kind == SectionKind::Warns,
            r.blocks@ == entries@.map_values(|x: ExceptionEntry| Block::Exception(x)),
    {
        Self::new(SectionKind::Warns, wrap_exceptions(entries))
    }

    /// An `Attributes` section wrapping each entry in a
    /// [`Block::Attribute`].
    pub fn attributes(attrs: Vec<Attribute>) -> (r: Self)
        ensures
            r.kind == SectionKind::Attributes,
            r.blocks@ == attrs@.map_values(|x: Attribute| Block::Attribute(x)),
    {
        Self::new(SectionKind::Attributes, wrap_attributes(attrs))
    }

    /// A `Methods` section wrapping each entry in a [`Block::Method`].
    pub fn methods(methods: Vec<Method>) -> (r: Self)
        ensures
            r.kind == SectionKind::Methods,
            r.blocks@ == methods@.map_values(|x: Method| Block::Method(x)),
    {
        Self::new(SectionKind::Methods, wrap_methods(methods))
    }

    /// A `See Also` section wrapping each entry in a [`Block::SeeAlso`].
    pub fn see_also(items: Vec<SeeAlsoEntry>) -> (r: Self)
        ensures
            r.kind == SectionKind::SeeAlso,
            r.blocks@ == items@.map_values(|x: SeeAlsoEntry| Block::SeeAlso(x)),
    {
        Self::new(SectionKind::SeeAlso, wrap_see_also(items))
    }

    /// A `References` section wrapping each entry in a
    /// [`Block::Reference`].
    pub fn references(refs: Vec<Reference>) -> (r: Self)
        ensures
            r.kind == SectionKind::References,
            r.blocks@ == refs@.map_values(|x: Reference| Block::Reference(x)),
    {
        Self::new(SectionKind::References, wrap_references(refs))
    }

    /// A free-text section (Notes, Examples, …) whose body is a single
    /// [`Block::Paragraph`].
    pub fn free_text(kind: FreeSectionKind, body: String) -> (r: Self)
        ensures
            r.kind == SectionKind::FreeText(kind),
            r.blocks@ == seq![Block::Paragraph(body)],
    {
        let mut blocks: Vec<Block> = Vec::new();
        blocks.push(Block::Paragraph(body));
        Self::new(SectionKind::FreeText(kind), blocks)
    }
}

fn wrap_parameters(items: Vec<Parameter>) -> (r: Vec<Block>)
    ensures
        r@ == items@.map_values(|x: Parameter| Block::Parameter(x)),
{
    let ghost orig = items@;
    let mut rev = reverse_vec(items);
    let mut out: Vec<Block> = Vec::new();
    while rev.len() > 0
        invariant
            out@.len() + rev@.len() == orig.len(),
            rev@ == orig.subrange(out@.len() as int, orig.len() as int).reverse(),
            out@ == orig.take(out@.len() as int).map_values(|x: Parameter| Block::Parameter(x)),
        decreases rev@.len(),
    {
        let ghost k: int = out@.len() as int;
        let x = rev.pop().unwrap();
        proof {
            assert(x == orig[k as int]);
            assert(orig.take(k + 1) =~= orig.take(k as int).push(orig[k as int]));
            assert(rev@ =~= orig.subrange(k + 1, orig.len() as int).reverse());
        }
        out.push(Block::Parameter(x));
    }
    proof {
        assert(orig.take(orig.len() as int) =~= orig);
    }
    out
}

fn wrap_returns(items: Vec<Return>) -> (r: Vec<Block>)
    ensures
        r@ == items@.map_values(|x: Return| Block::Return(x)),
{
    let ghost orig = items@;
    let mut rev = reverse_vec(items);
    let mut out: Vec<Block> = Vec::new();
    while rev.len() > 0
        invariant
            out@.len() + rev@.len() == orig.len(),
            rev@ == orig.subrange(out@.len() as int, orig.len() as int).reverse(),
            out@ == orig.take(out@.len() as int).map_values(|x: Return| Block::Return(x)),
        decreases rev@.len(),
    {
        let ghost k: int = out@.len() as int;
        let x = rev.pop().unwrap();
        proof {
            assert(x == orig[k as int]);
            assert(orig.take(k + 1) =~= orig.take(k as int).push(orig[k as int]));
            assert(rev@ =~= orig.subrange(k + 1, orig.len() as int).reverse());
        }
        out.push(Block::Return(x));
    }
    proof {
        assert(orig.take(orig.len() as int) =~= orig);
    }
    out
}

fn wrap_exceptions(items: Vec<ExceptionEntry>) -> (r: Vec<Block>)
    ensures
        r@ == items@.map_values(|x: ExceptionEntry| Block::Exception(x)),
{
    let ghost orig = items@;
    let mut rev = reverse_vec(items);
    let mut out: Vec<Block> = Vec::new();
    while rev.len() > 0
        invariant
            out@.len() + rev@.len() == orig.len(),
            rev@ == orig.subrange(out@.len() as int, orig.len() as int).reverse(),
            out@ == orig.take(out@.len() as int).map_values(|x: ExceptionEntry| Block::Exception(x)),
        decreases rev@.len(),
    {
        let ghost k: int = out@.len() as int;
        let x = rev.pop().unwrap();
        proof {
            assert(x == orig[k as int]);
            assert(orig.take(k + 1) =~= orig.take(k as int).push(orig[k as int]));
            assert(rev@ =~= orig.subrange(k + 1, orig.len() as int).reverse());
        }
        out.push(Block::Exception(x));
    }
    proof {
        assert(orig.take(orig.len() as int) =~= orig);
    }
    out
}

fn wrap_attributes(items: Vec<Attribute>) -> (r: Vec<Block>)
    ensures
        r@ == items@.map_values(|x: Attribute| Block::Attribute(x)),
{
    let ghost orig = items@;
    let mut rev = reverse_vec(items);
    let mut out: Vec<Block> = Vec::new();
    while rev.len() > 0
        invariant
            out@.len() + rev@.len() == orig.len(),
            rev@ == orig.subrange(out@.len() as int, orig.len() as int).reverse(),
            out@ == orig.take(out@.len() as int).map_values(|x: Attribute| Block::Attribute(x)),
        decreases rev@.len(),
    {
        let ghost k: int = out@.len() as int;
        let x = rev.pop().unwrap();
        proof {
            assert(x == orig[k as int]);
            assert(orig.take(k + 1) =~= orig.take(k as int).push(orig[k as int]));
            assert(rev@ =~= orig.subrange(k + 1, orig.len() as int).reverse());
        }
        out.push(Block::Attribute(x));
    }
    proof {
        assert(orig.take(orig.len() as int) =~= orig);
    }
    out
}

fn wrap_methods(items: Vec<Method>) -> (r: Vec<Block>)
    ensures
        r@ == items@.map_values(|x: Method| Block::Method(x)),
{
    let ghost orig = items@;
    let mut rev = reverse_vec(items);
    let mut out: Vec<Block> = Vec::new();
    while rev.len() > 0
        invariant
            out@.len() + rev@.len() == orig.len(),
            rev@ == orig.subrange(out@.len() as int, orig.len() as int).reverse(),
            out@ == orig.take(out@.len() as int).map_values(|x: Method| Block::Method(x)),
        decreases rev@.len(),
    {
        let ghost k: int = out@.len() as int;
        let x = rev.pop().unwrap();
        proof {
            assert(x == orig[k as int]);
            assert(orig.take(k + 1) =~= orig.take(k as int).push(orig[k as int]));
            assert(rev@ =~= orig.subrange(k + 1, orig.len() as int).reverse());
        }
        out.push(Block::Method(x));
    }
    proof {
        assert(orig.take(orig.len() as int) =~= orig);
    }
    out
}

fn wrap_see_also(items: Vec<SeeAlsoEntry>) -> (r: Vec<Block>)
    ensures
        r@ == items@.map_values(|x: SeeAlsoEntry| Block::SeeAlso(x)),
{
    let ghost orig = items@;
    let mut rev = reverse_vec(items);
    let mut out: Vec<Block> = Vec::new();
    while rev.len() > 0
        invariant
            out@.len() + rev@.len() == orig.len(),
            rev@ == orig.subrange(out@.len() as int, orig.len() as int).reverse(),
            out@ == orig.take(out@.len() as int).map_values(|x: SeeAlsoEntry| Block::SeeAlso(x)),
        decreases rev@.len(),
    {
        let ghost k: int = out@.len() as int;
        let x = rev.pop().unwrap();
        proof {
            assert(x == orig[k as int]);
            assert(orig.take(k + 1) =~= orig.take(k as int).push(orig[k as int]));
            assert(rev@ =~= orig.subrange(k + 1, orig.len() as int).reverse());
        }
        out.push(Block::SeeAlso(x));
    }
    proof {
        assert(orig.take(orig.len() as int) =~= orig);
    }
    out
}

fn wrap_references(items: Vec<Reference>) -> (r: Vec<Block>)
    ensures
        r@ == items@.map_values(|x: Reference| Block::Reference(x)),
{
    let ghost orig = items@;
    let mut rev = reverse_vec(items);
    let mut out: Vec<Block> = Vec::new();
    while rev.len() > 0
        invariant
            out@.len() + rev@.len() == orig.len(),
            rev@ == orig.subrange(out@.len() as int, orig.len() as int).reverse(),
            out@ == orig.take(out@.len() as int).map_values(|x: Reference| Block::Reference(x)),
        decreases rev@.len(),
    {
        let ghost k: int = out@.len() as int;
        let x = rev.pop().unwrap();
        proof {
            assert(x == orig[k as int]);
            assert(orig.take(k + 1) =~= orig.take(k as int).push(orig[k as int]));
            assert(rev@ =~= orig.subrange(k + 1, orig.len() as int).reverse());
        }
        out.push(Block::Reference(x));
    }
    proof {
        assert(orig.take(orig.len() as int) =~= orig);
    }
    out
}

/// The elements of `v` in reverse order.
pub fn reverse_vec<T>(v: Vec<T>) -> (r: Vec<T>)
    ensures
        r@ == v@.reverse(),
{
    let ghost orig = v@;
    let mut v = v;
    let mut out: Vec<T> = Vec::new();
    while v.len() > 0
        invariant
            v@ == orig.take(v@.len() as int),
            out@ == orig.subrange(v@.len() as int, orig.len() as int).reverse(),
            v@.len() <= orig.len(),
        decreases v@.len(),
    {
        let ghost k: int = v@.len() as int;
        let x = v.pop().unwrap();
        proof {
            assert(x == orig[k - 1]);
            assert(v@ =~= orig.take(k - 1));
        }
        out.push(x);
        proof {
            assert(out@ =~= orig.subrange(k - 1, orig.len() as int).reverse());
        }
    }
    proof {
        assert(orig.subrange(0, orig.len() as int) =~= orig);
    }
    out
}

/// A single body block within a [`Section`], in source order: prose
/// paragraphs interleaved with typed entries.
#[derive(Debug, Clone, PartialEq, Eq)]
#[non_exhaustive]
pub enum Block {
    /// A prose paragraph (a section intro, a between-entries note, or a
    /// free-text section body).
    Paragraph(String),
    /// A parameter / argument entry.
    Parameter(Parameter),
    /// A return / yield entry.
    Return(Return),
    /// An exception / warning entry.
    Exception(ExceptionEntry),
    /// An attribute entry.
    Attribute(Attribute),
    /// A method entry.
    Method(Method),
    /// A see-also entry.
    SeeAlso(SeeAlsoEntry),
    /// A reference / citation entry.
    Reference(Reference),
}

impl Block {
    /// The [`Parameter`] if this is a [`Block::Parameter`].
    pub fn as_parameter(&self) -> (r: Option<&Parameter>)
        ensures
            r matches Some(p) ==> *self == Block::Parameter(*p),
            r is None <==> !(self is Parameter),
    {
        match self {
            Block::Parameter(p) => Some(p),
            _ => None,
        }
    }

    /// The [`Return`] if this is a [`Block::Return`].
    pub fn as_return(&self) -> (r: Option<&Return>)
        ensures
            r matches Some(x) ==> *self == Block::Return(*x),
            r is None <==> !(self is Return),
    {
        match self {
            Block::Return(x) => Some(x),
            _ => None,
        }
    }

    /// The [`ExceptionEntry`] if this is a [`Block::Exception`].
    pub fn as_exception(&self) -> (r: Option<&ExceptionEntry>)
        ensures
            r matches Some(x) ==> *self == Block::Exception(*x),
            r is None <==> !(self is Exception),
    {
        match self {
            Block::Exception(x) => Some(x),
            _ => None,
        }
    }

    /// The [`Attribute`] if this is a [`Block::Attribute`].
    pub fn as_attribute(&self) -> (r: Option<&Attribute>)
        ensures
            r matches Some(x) ==> *self == Block::Attribute(*x),
            r is None <==> !(self is Attribute),
    {
        match self {
            Block::Attribute(x) => Some(x),
            _ => None,
        }
    }

    /// The [`Method`] if this is a [`Block::Method`].
    pub fn as_method(&self) -> (r: Option<&Method>)
        ensures
            r matches Some(x) ==> *self == Block::Method(*x),
            r is None <==> !(self is Method),
    {
        match self {
            Block::Method(x) => Some(x),
            _ => None,
        }
    }

    /// The [`SeeAlsoEntry`] if this is a [`Block::SeeAlso`].
    pub fn as_see_also(&self) -> (r: Option<&SeeAlsoEntry>)
        ensures
            r matches Some(x) ==> *self == Block::SeeAlso(*x),
            r is None <==> !(self is SeeAlso),
    {
        match self {
            Block::SeeAlso(x) => Some(x),
            _ => None,
        }
    }

    /// The [`Reference`] if this is a [`Block::Reference`].
    pub fn as_reference(&self) -> (r: Option<&Reference>)
        ensures
            r matches Some(x) ==> *self == Block::Reference(*x),
            r is None <==> !(self is Reference),
    {
        match self {
            Block::Reference(x) => Some(x),
            _ => None,
        }
    }

    /// The prose text if this is a [`Block::Paragraph`].
    pub fn as_paragraph(&self) -> (r: Option<&str>)
        ensures
            r matches Some(t) ==> (self matches Block::Paragraph(p) && t@ == p@),
            r is None <==> !(self is Paragraph),
    {
        match self {
            Block::Paragraph(p) => Some(p.as_str()),
            _ => None,
        }
    }
}

// =============================================================================
// SectionKind
// =============================================================================

/// Unified section kind identifier (style-independent).
#[derive(Debug, Clone, PartialEq, Eq, Hash)]
#[non_exhaustive]
pub enum SectionKind {
    /// `Args` / `Parameters`
    Parameters,
    /// `Keyword Args`
    KeywordParameters,
    /// `Other Parameters`
    OtherParameters,
    /// `Receives`
    Receives,
    /// `Returns`
    Returns,
    /// `Yields`
    Yields,
    /// `Raises`
    Raises,
    /// `Warns`
    Warns,
    /// `Attributes`
    Attributes,
    /// `Methods`
    Methods,
    /// `See Also`
    SeeAlso,
    /// `References`
    References,
    /// Free-text section
    FreeText(FreeSectionKind),
}

/// Kind of a free-text (non-structured) section.
#[derive(Debug, Clone, PartialEq, Eq, Hash)]
#[non_exhaustive]
pub enum FreeSectionKind {
    /// `Notes`
    Notes,
    /// `Examples`
    Examples,
    /// `Warnings`
    Warnings,
    /// `Todo`
    Todo,
    /// `Attention`
    Attention,
    /// `Caution`
    Caution,
    /// `Danger`
    Danger,
    /// `Error`
    Error,
    /// `Hint`
    Hint,
    /// `Important`
    Important,
    /// `Tip`
    Tip,
    /// Unrecognised section name.
    Unknown(String),
}

// =============================================================================
// Entry types
// =============================================================================

/// A parameter / argument entry.
#[derive(Debug, Clone, PartialEq, Eq)]
pub struct Parameter {
    /// Parameter name(s) (`x, y` declares two).
    pub names: Vec<String>,
    /// Type annotation (e.g. `int`, `Dict[str, Any]`).
    pub type_annotation: Option<String>,
    /// Description text (may be multi-line).
    pub description: Option<String>,
    /// Whether the parameter is marked optional.
    pub is_optional: bool,
    /// Default value (the first `default …` marker).
    pub default_value: Option<String>,
}

/// A return / yield entry.
#[derive(Debug, Clone, PartialEq, Eq)]
pub struct Return {
    /// Return value name (NumPy allows `name : type`).
    pub name: Option<String>,
    /// Return type annotation.
    pub type_annotation: Option<String>,
    /// Description text.
    pub description: Option<String>,
}

/// An exception / warning entry.
#[derive(Debug, Clone, PartialEq, Eq)]
pub struct ExceptionEntry {
    /// Exception / warning type name.
    pub exception_type: String,
    /// Description text.
    pub description: Option<String>,
}

/// A "See Also" entry.
#[derive(Debug, Clone, PartialEq, Eq)]
pub struct SeeAlsoEntry {
    /// Referenced names.
    pub names: Vec<String>,
    /// Description text.
    pub description: Option<String>,
}

/// A reference / citation entry.
#[derive(Debug, Clone, PartialEq, Eq)]
pub struct Reference {
    /// Citation label (`1`, `CIT2002`, …).
    pub label: Option<String>,
    /// Citation content.
    pub content: Option<String>,
}

/// An attribute entry.
#[derive(Debug, Clone, PartialEq, Eq)]
pub struct Attribute {
    /// Attribute name(s).
    pub names: Vec<String>,
    /// Type annotation.
    pub type_annotation: Option<String>,
    /// Description text.
    pub description: Option<String>,
}

/// A method entry.
#[derive(Debug, Clone, PartialEq, Eq)]
pub struct Method {
    /// Method name (a signature may follow it).
    pub name: String,
    /// Type annotation.
    pub type_annotation: Option<String>,
    /// Description text.
    pub description: Option<String>,
}

/// An rST directive (`.. name:: argument`).
#[derive(Debug, Clone, PartialEq, Eq)]
pub struct Directive {
    /// Directive name (e.g. `deprecated`).
    pub name: String,
    /// Directive argument (e.g. the version).
    pub argument: Option<String>,
    /// Directive body text.
    pub description: Option<String>,
}

// =============================================================================
// Exact copies
// =============================================================================

/// An exact copy of a string.
pub fn copy_string(s: &String) -> (r: String)
    ensures
        r == *s,
{
    s.clone()
}

/// An exact copy of an optional string.
pub fn copy_opt(s: &Option<String>) -> (r: Option<String>)
    ensures
        r == *s,
{
    match s {
        Some(t) => Some(t.clone()),
        None => None,
    }
}

/// A copy of a list of strings.
pub fn copy_strings(v: &Vec<String>) -> (r: Vec<String>)
    ensures
        r@ == v@,
{
    let mut out: Vec<String> = Vec::new();
    let mut i: usize = 0;
    while i < v.len()
        invariant
            i <= v@.len(),
            out@ == v@.take(i as int),
        decreases v@.len() - i,
    {
        out.push(v[i].clone());
        proof {
            assert(v@.take(i + 1) =~= v@.take(i as int).push(v@[i as int]));
        }
        i = i + 1;
    }
    proof {
        assert(v@.take(v@.len() as int) =~= v@);
    }
    out
}

} // verus!
