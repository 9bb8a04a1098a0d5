use windiff_core::text::{push_dec_u64, push_hex_bytes_lower, push_hex_lower_u64,
    push_hex_upper_width_u64, str_cmp, str_eq, str_eq_ignore_ascii_case, CmpResult};

#[test]
fn decimal_formatting_edges() {
    let mut s = String::new();
    push_dec_u64(&mut s, 0);
    assert_eq!(s, "0");
    let mut s = String::new();
    push_dec_u64(&mut s, u64::MAX);
    assert_eq!(s, "18446744073709551615");
}

#[test]
fn hex_formatting_edges() {
    let mut s = String::new();
    push_hex_lower_u64(&mut s, 0);
    assert_eq!(s, "0");
    let mut s = String::new();
    push_hex_lower_u64(&mut s, 0xdeadbeef);
    assert_eq!(s, "deadbeef");
    let mut s = String::new();
    push_hex_upper_width_u64(&mut s, 0xabc, 8);
    assert_eq!(s, "00000ABC");
    let mut s = String::new();
    push_hex_upper_width_u64(&mut s, 0, 4);
    assert_eq!(s, "0000");
    let mut s = String::new();
    push_hex_bytes_lower(&mut s, &[0x00, 0xff, 0x0a]);
    assert_eq!(s, "00ff0a");
}

#[test]
fn string_comparison_is_lexicographic() {
    assert!(matches!(str_cmp("", ""), CmpResult::Equal));
    assert!(matches!(str_cmp("", "a"), CmpResult::Less));
    assert!(matches!(str_cmp("a", ""), CmpResult::Greater));
    assert!(matches!(str_cmp("abc", "abd"), CmpResult::Less));
    assert!(matches!(str_cmp("ab", "abc"), CmpResult::Less));
    assert!(matches!(str_cmp("abc", "abc"), CmpResult::Equal));
    // Uppercase letters order before lowercase ones, by code point.
    assert!(matches!(str_cmp("Z", "a"), CmpResult::Less));
    assert!(str_eq("same", "same"));
    assert!(!str_eq("same", "Same"));
}

#[test]
fn ascii_case_folding_comparison() {
    assert!(str_eq_ignore_ascii_case("NtosKrnl.EXE", "ntoskrnl.exe"));
    assert!(str_eq_ignore_ascii_case("", ""));
    assert!(!str_eq_ignore_ascii_case("win32k.sys", "win32kfull.sys"));
    // Only ASCII letters fold.
    assert!(!str_eq_ignore_ascii_case("stra\u{df}e", "STRA\u{1e9e}E"));
}
