use lcars_ops::text::{
    chars_of, find, has_substring, is_whitespace, last_word, lowered, parse_u32, parse_u64,
    precedes, split_lines, string_of, trim,
};

fn cs(s: &str) -> Vec<char> {
    s.chars().collect()
}

fn text(v: &[char]) -> String {
    v.iter().collect()
}

#[test]
fn chars_and_back() {
    assert_eq!(chars_of("héllo ✓"), cs("héllo ✓"));
    assert_eq!(string_of(&cs("héllo ✓")), "héllo ✓");
    assert_eq!(string_of(&[]), "");
}

#[test]
fn whitespace_is_what_the_standard_library_calls_so() {
    for n in 0u32..0x3100 {
        if let Some(c) = char::from_u32(n) {
            assert_eq!(is_whitespace(c), c.is_whitespace(), "for U+{:04X}", n);
        }
    }
}

#[test]
fn trim_removes_both_ends_only() {
    assert_eq!(text(trim(&cs("  a b \n"))), "a b");
    assert_eq!(text(trim(&cs("\t\r\n"))), "");
    assert_eq!(text(trim(&cs(""))), "");
    assert_eq!(text(trim(&cs("x"))), "x");
    assert_eq!(text(trim(&cs("\u{a0}x\u{3000}"))), "x");
}

#[test]
fn find_gives_the_first_occurrence() {
    assert_eq!(find(&cs("abcabc"), &cs("bc")), Some(1));
    assert_eq!(find(&cs("abcabc"), &cs("")), Some(0));
    assert_eq!(find(&cs(""), &cs("")), Some(0));
    assert_eq!(find(&cs("abc"), &cs("abcd")), None);
    assert_eq!(find(&cs("abc"), &cs("c")), Some(2));
    assert!(has_substring(&cs("8.0 GT/s"), &cs("8.0")));
    assert!(!has_substring(&cs("8 GT/s"), &cs("8.0")));
}

#[test]
fn lines_are_split_as_the_standard_library_splits_them() {
    for s in ["", "a", "a\n", "a\nb", "a\r\nb\r\n", "\n", "\n\n", "a\r", "a\r\n", "\r\n", "a\n\nb", "a\rb\n"] {
        let got: Vec<String> = split_lines(&cs(s)).iter().map(|l| text(l)).collect();
        let want: Vec<String> = s.lines().map(|l| l.to_string()).collect();
        assert_eq!(got, want, "for {:?}", s);
    }
}

#[test]
fn numbers_are_read_as_the_standard_library_reads_them() {
    for s in [
        "0", "7", "007", "+5", "+", "", "-1", "12a", " 12", "12 ", "18446744073709551615",
        "18446744073709551616", "99999999999999999999999", "4294967295", "4294967296", "++1", "1+",
    ] {
        assert_eq!(parse_u64(&cs(s)), s.parse::<u64>().ok(), "for {:?}", s);
        assert_eq!(parse_u32(&cs(s)), s.parse::<u32>().ok(), "for {:?}", s);
    }
}

#[test]
fn last_word_is_the_last_run_without_white_space() {
    for s in ["1: 800", "1: 800  ", "800", "", "   ", " a", "a b\tc\n"] {
        let got = last_word(&cs(s)).map(|w| text(w));
        let want = s.trim().split_whitespace().last().map(|w| w.to_string());
        assert_eq!(got, want, "for {:?}", s);
    }
}

#[test]
fn lexicographic_order_is_that_of_strings() {
    let words = ["", "a", "ab", "b", "B", "card10", "card2", "é", "z", "ab\u{10000}", "ab\u{ffff}"];
    for a in words {
        for b in words {
            assert_eq!(precedes(&cs(a), &cs(b)), a < b, "for {:?} and {:?}", a, b);
        }
    }
}

#[test]
fn lower_case_is_by_unicode() {
    assert_eq!(text(&lowered(&cs("MHz"))), "mhz");
    assert_eq!(text(&lowered(&cs("ÀÉ"))), "àé");
    assert_eq!(text(&lowered(&cs("İ"))), "İ".to_lowercase());
    assert_eq!(text(&lowered(&cs(""))), "");
}
