use folder_favorite::text::{parse_usize, str_contains, str_eq, str_trim, usize_to_string};

#[test]
fn trims_like_the_standard_library() {
    assert_eq!("abc", str_trim("  abc \t\n"));
    assert_eq!("a b", str_trim("a b"));
    assert_eq!("", str_trim("   "));
    assert_eq!("", str_trim(""));
    assert_eq!("x", str_trim("\u{00A0}x\u{2028}"));
}

#[test]
fn compares_strings_by_content() {
    assert!(str_eq("same", "same"));
    assert!(!str_eq("same", "sane"));
    assert!(!str_eq("same", "sam"));
    assert!(str_eq("", ""));
}

#[test]
fn finds_substrings_like_the_standard_library() {
    assert!(str_contains("dev_rust", "rust"));
    assert!(str_contains("rust_book", "rust"));
    assert!(!str_contains("proc_macro", "rust"));
    assert!(str_contains("anything", ""));
    assert!(!str_contains("ab", "abc"));
}

#[test]
fn formats_decimals_exactly() {
    assert_eq!("0", usize_to_string(0));
    assert_eq!("7", usize_to_string(7));
    assert_eq!("10", usize_to_string(10));
    assert_eq!("90210", usize_to_string(90210));
}

#[test]
fn parses_decimals_like_the_standard_library() {
    assert_eq!(Some(0), parse_usize("0"));
    assert_eq!(Some(42), parse_usize("42"));
    assert_eq!(Some(42), parse_usize("+42"));
    assert_eq!(None, parse_usize(""));
    assert_eq!(None, parse_usize("+"));
    assert_eq!(None, parse_usize("-1"));
    assert_eq!(None, parse_usize("4 2"));
    assert_eq!(None, parse_usize("99999999999999999999999999"));
    assert_eq!(Some(usize::MAX), parse_usize(usize_to_string(usize::MAX).as_str()));
}
