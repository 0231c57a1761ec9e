use agent_infer::math::{div_ceil, max_usize, min_usize, mul_saturating, to_i32_saturating};
use agent_infer::text::{
    contains_text, decimal_string, distinct_texts, extension, is_before, is_white_space,
    parse_number, same_text, sorted_texts, starts_with_text, trimmed,
};
use std::path::Path;

#[test]
fn numbers_print_as_std_prints_them() {
    for n in [0u64, 7, 10, 99, 1_000_000, u64::MAX] {
        assert_eq!(decimal_string(n), n.to_string());
    }
}

#[test]
fn numbers_parse_as_std_parses_them() {
    for s in ["0", "42", "007", "+5", "", "+", "-1", "12a", " 3", "18446744073709551615",
        "18446744073709551616", "99999999999999999999999"]
    {
        let chars: Vec<char> = s.chars().collect();
        assert_eq!(parse_number(&chars, u64::MAX), s.parse::<u64>().ok(), "{s:?}");
        assert_eq!(
            parse_number(&chars, u32::MAX as u64),
            s.parse::<u32>().ok().map(|n| n as u64),
            "{s:?}"
        );
    }
}

#[test]
fn white_space_is_that_of_std() {
    for n in 0..=0x10_ffffu32 {
        if let Some(c) = char::from_u32(n) {
            assert_eq!(is_white_space(c), c.is_whitespace(), "{n:#x}");
        }
    }
    for s in ["", "  ", " a b\t", "\u{3000}x\u{2003}", "x"] {
        assert_eq!(trimmed(s), s.trim());
    }
}

#[test]
fn extensions_are_those_of_std() {
    for p in [
        "a.safetensors", "dir.x/a", "dir/a.tar.gz", ".hidden", "a.", "..", ".", "/", "", "a/..",
        "a/b.bin/", "a/b.bin/.", "x/.rc.d", "a//b.c",
    ] {
        let want = Path::new(p).extension().and_then(|e| e.to_str()).map(String::from);
        assert_eq!(extension(p), want, "{p:?}");
    }
}

#[test]
fn search_and_order_agree_with_std() {
    assert!(contains_text("Qwen3.6-27B", "3.6") && !contains_text("abc", "abd"));
    assert!(contains_text("x", ""));
    assert!(starts_with_text("model.layers", "model.") && !starts_with_text("m", "model"));
    assert!(same_text("a", "a") && !same_text("a", "b"));
    let words = ["b", "a", "ab", "", "\u{e9}", "z", "a"];
    for a in words {
        for b in words {
            assert_eq!(is_before(a, b), a < b, "{a:?} {b:?}");
        }
    }
    let v: Vec<String> = words.iter().map(|s| s.to_string()).collect();
    let mut want = v.clone();
    want.sort();
    assert_eq!(sorted_texts(&v), want);
    want.dedup();
    assert_eq!(distinct_texts(&want), want);
}

#[test]
fn whole_number_helpers() {
    assert_eq!(div_ceil(7, 3), 3);
    assert_eq!(max_usize(2, 9), 9);
    assert_eq!(min_usize(2, 9), 2);
    assert_eq!(mul_saturating(usize::MAX, 2), usize::MAX);
    assert_eq!(to_i32_saturating(usize::MAX), i32::MAX);
}
