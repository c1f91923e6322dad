use pydocstring::text::TextRange;
use pydocstring::text::TextSize;

/// A range is two numbers and can be built by hand, so every accessor must
/// handle an inverted range gracefully.
#[test]
fn inverted_range_is_handled_gracefully() {
    let inverted = TextRange::new(TextSize::new(20), TextSize::new(5));
    assert_eq!(inverted.len(), TextSize::new(0));
    assert!(!inverted.is_empty());
    assert!(!inverted.contains(TextSize::new(10)));
    assert_eq!(inverted.source_text("hello world, hello again"), "");
}
