use pydocstring::parse::kind::SectionName;

/// The per-style tables differ exactly by the documented deltas: Google's
/// typo aliases and NumPy's singular full forms. Everything else resolves
/// identically.
#[test]
fn alias_tables_differ_only_by_the_documented_deltas() {
    for (google_only, kind) in [
        ("argment", SectionName::Parameters),
        ("paramter", SectionName::Parameters),
        ("keyword paramter", SectionName::KeywordParameters),
        ("other argment", SectionName::OtherParameters),
        ("other paramter", SectionName::OtherParameters),
    ] {
        assert_eq!(SectionName::from_google_name(google_only), kind);
        assert_eq!(SectionName::from_numpy_name(google_only), SectionName::Unknown);
    }
    for (numpy_only, kind) in [
        ("parameter", SectionName::Parameters),
        ("argument", SectionName::Parameters),
        ("keyword parameter", SectionName::KeywordParameters),
        ("other parameter", SectionName::OtherParameters),
        ("other argument", SectionName::OtherParameters),
    ] {
        assert_eq!(SectionName::from_numpy_name(numpy_only), kind);
        assert_eq!(SectionName::from_google_name(numpy_only), SectionName::Unknown);
    }
    for shared in [
        "args",
        "parameters",
        "returns",
        "see also",
        "keyword argument",
        "other params",
    ] {
        assert_eq!(
            SectionName::from_google_name(shared),
            SectionName::from_numpy_name(shared),
            "shared alias {shared:?} diverged between the tables"
        );
        assert_ne!(SectionName::from_google_name(shared), SectionName::Unknown);
    }
}
