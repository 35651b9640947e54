use rev_toolkit::text::{str_chars, str_contains, trim_nul_str};

#[test]
fn str_chars_keeps_order() {
    assert_eq!(str_chars("aé\0b"), vec!['a', 'é', '\0', 'b']);
    assert!(str_chars("").is_empty());
}

#[test]
fn str_contains_cases() {
    assert!(str_contains("explorer.exe\0\0", "explorer"));
    assert!(str_contains("abc", ""));
    assert!(str_contains("", ""));
    assert!(!str_contains("", "a"));
    assert!(!str_contains("abc", "abcd"));
    assert!(str_contains("aaab", "aab"));
    assert!(!str_contains("abc", "cb"));
}

#[test]
fn trim_nul_cases() {
    assert_eq!(trim_nul_str("\0\0name.exe\0\0\0"), "name.exe");
    assert_eq!(trim_nul_str("name"), "name");
    assert_eq!(trim_nul_str("\0\0"), "");
    assert_eq!(trim_nul_str(""), "");
    assert_eq!(trim_nul_str("a\0b"), "a\0b");
    let once = trim_nul_str("\0x\0");
    assert_eq!(trim_nul_str(&once), once);
}
