use lark::json_factory::{stringify_files, u64_to_string};
use lark::string_factory::{
    base64_decode, base64_encode, contains_str, ends_with_str, lower_str, md5, md5_by_bytes,
    starts_with_str, str_eq, take_chars, text_to_pinyin, trim_str,
};

#[test]
fn md5_matches_known_digests() {
    // Standard MD5 test vectors: the wrapper must hash, not echo.
    assert_eq!(md5(""), "d41d8cd98f00b204e9800998ecf8427e");
    assert_eq!(md5("hello"), "5d41402abc4b2a76b9719d911017c592");
    assert_eq!(md5_by_bytes(b"hello"), "5d41402abc4b2a76b9719d911017c592");
    assert_eq!(md5_by_bytes(&[]), "d41d8cd98f00b204e9800998ecf8427e");
}

#[test]
fn md5_untrimmed_text_differs_from_trimmed() {
    // Novelty compares the untrimmed hash; emptiness checks the trimmed text.
    assert_ne!(md5(" hello "), md5("hello"));
}

#[test]
fn base64_standard_alphabet() {
    assert_eq!(base64_encode(&[1, 2, 3]), "AQID");
    assert_eq!(base64_encode(b"hello"), "aGVsbG8=");
    assert_eq!(base64_encode(&[]), "");
    assert_eq!(base64_decode("aGVsbG8=").unwrap(), b"hello".to_vec());
    assert!(base64_decode("!not base64!").is_none());
}

#[test]
fn trim_matches_std() {
    assert_eq!(trim_str("  hello  "), "hello");
    assert_eq!(trim_str("\t\n hello world \r\n"), "hello world");
    assert_eq!(trim_str("   "), "");
    assert_eq!(trim_str(""), "");
    assert_eq!(trim_str("x"), "x");
    assert_eq!(trim_str("\u{3000}full width\u{3000}"), "full width");
}

#[test]
fn take_chars_counts_characters() {
    assert_eq!(take_chars("hello", 3), "hel");
    assert_eq!(take_chars("hello", 10), "hello");
    assert_eq!(take_chars("", 3), "");
    // Characters, not bytes.
    assert_eq!(take_chars("\u{4F60}\u{597D}\u{5417}", 2), "\u{4F60}\u{597D}");
}

#[test]
fn substring_and_affix_checks() {
    assert!(contains_str("hello world", "lo wo"));
    assert!(contains_str("hello", ""));
    assert!(!contains_str("hello", "world"));
    assert!(starts_with_str("hello", "he"));
    assert!(!starts_with_str("hello", "el"));
    assert!(ends_with_str("photo.app", ".app"));
    assert!(!ends_with_str("photo.apk", ".app"));
    assert!(str_eq("same", "same"));
    assert!(!str_eq("same", "sane"));
    assert!(!str_eq("same", "same "));
}

#[test]
fn lowercase_folds_ascii_only() {
    assert_eq!(lower_str("MiXeD Case 42"), "mixed case 42");
    assert_eq!(lower_str("\u{00C9}"), "\u{00C9}");
}

#[test]
fn decimal_rendering() {
    assert_eq!(u64_to_string(0), "0");
    assert_eq!(u64_to_string(7), "7");
    assert_eq!(u64_to_string(100), "100");
    assert_eq!(u64_to_string(18446744073709551615), "18446744073709551615");
}

#[test]
fn file_list_serialization_is_canonical() {
    let files = vec![
        ("/tmp/a.txt".to_string(), "txt".to_string()),
        ("/home/u/b".to_string(), "folder".to_string()),
    ];
    assert_eq!(
        stringify_files(&files),
        "[[\"/tmp/a.txt\",\"txt\"],[\"/home/u/b\",\"folder\"]]"
    );
    let empty: Vec<(String, String)> = vec![];
    assert_eq!(stringify_files(&empty), "[]");
}

#[test]
fn file_list_serialization_escapes() {
    let files = vec![("C:\\dir\\\"quoted\"\n".to_string(), "txt".to_string())];
    assert_eq!(
        stringify_files(&files),
        "[[\"C:\\\\dir\\\\\\\"quoted\\\"\\n\",\"txt\"]]"
    );
    let control = vec![("\u{0001}".to_string(), "".to_string())];
    assert_eq!(stringify_files(&control), "[[\"\\u0001\",\"\"]]");
}

#[test]
fn pinyin_romanisation() {
    let (pinyin, abb) = text_to_pinyin("\u{4E2D}\u{56FD}");
    assert_eq!(pinyin, "zhongguo");
    assert_eq!(abb, "zg");
    // Characters outside the tables pass through into both renderings.
    let (pinyin, abb) = text_to_pinyin("a\u{4E2D}b");
    assert_eq!(pinyin, "azhongb");
    assert_eq!(abb, "azb");
}
