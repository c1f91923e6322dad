use pydocstring::cursor::indent_columns;
use pydocstring::cursor::indent_len;

#[test]
fn test_indent_columns_spaces_only() {
    assert_eq!(indent_columns("    hello"), 4);
    assert_eq!(indent_columns("hello"), 0);
    assert_eq!(indent_columns("  x"), 2);
}

#[test]
fn test_indent_columns_tab() {
    // A single tab at the start → next multiple of 4 → 4
    assert_eq!(indent_columns("\thello"), 4);
    // Two tabs → 8
    assert_eq!(indent_columns("\t\thello"), 8);
}

#[test]
fn test_indent_columns_mixed_tab_space() {
    // 2 spaces then tab → col=2, tab → next mult of 4 → 4
    assert_eq!(indent_columns("  \thello"), 4);
    // 3 spaces then tab → col=3, tab → next mult of 4 → 4
    assert_eq!(indent_columns("   \thello"), 4);
    // tab then 2 spaces → col=4, +2 → 6
    assert_eq!(indent_columns("\t  hello"), 6);
}

#[test]
fn test_indent_len_unchanged() {
    // indent_len counts bytes, not visual columns
    assert_eq!(indent_len("\thello"), 1);
    assert_eq!(indent_len("    hello"), 4);
    assert_eq!(indent_len("  \thello"), 3);
}
