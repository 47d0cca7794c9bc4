use sirji::order::text_precedes;
use sirji::text::{
    chars_of, decimal_string, find, join, split, split_once, string_of, strip_leading,
    strip_trailing, trim,
};

fn s(cs: &[char]) -> String {
    cs.iter().collect()
}

#[test]
fn trimming_and_splitting_match_std() {
    let text = chars_of("  a, b ,,c  ");
    assert_eq!(s(&trim(&text)), "a, b ,,c");
    let pieces: Vec<String> = split(&text, ',').iter().map(|p| s(p)).collect();
    let expected: Vec<String> = "  a, b ,,c  ".split(',').map(|p| p.to_string()).collect();
    assert_eq!(pieces, expected);
    assert_eq!(s(&strip_trailing(&chars_of("url///"), '/')), "url");
    assert_eq!(s(&strip_leading(&chars_of("//x/y"), '/')), "x/y");
}

#[test]
fn joining_paths_matches_std() {
    for (base, rel) in [("/a", "b"), ("/a/", "b"), ("", "b"), ("/a", "/b"), ("a", "")] {
        let expected = std::path::Path::new(base).join(rel).to_string_lossy().to_string();
        assert_eq!(join(base, rel), expected, "{base} + {rel}");
    }
}

#[test]
fn small_texts_come_out_right() {
    assert_eq!(decimal_string(0), "0");
    assert_eq!(decimal_string(1_100), "1100");
    assert_eq!(decimal_string(u64::MAX), u64::MAX.to_string());
    assert_eq!(string_of(&chars_of("héllo")), "héllo");
    assert!(find(&chars_of("closed by peer"), &chars_of("by")));
    assert!(!find(&chars_of("closed"), &chars_of("peer")));
    assert_eq!(split_once("k@1.2.3.4:5", '@'), Some(("k".to_string(), "1.2.3.4:5".to_string())));
    assert_eq!(split_once("k", '@'), None);
}

#[test]
fn texts_order_as_strings_do() {
    let words = ["", "a", "ab", "b", "B", "é", "aa"];
    for a in words {
        for b in words {
            assert_eq!(text_precedes(&chars_of(a), &chars_of(b)), a < b, "{a} < {b}");
        }
    }
}

#[test]
fn trimming_knows_every_unicode_space() {
    let spaces: Vec<char> = (0u32..0x3001).filter_map(char::from_u32).filter(|c| c.is_whitespace()).collect();
    for c in spaces {
        let text = chars_of(&format!("{c}x{c}"));
        assert_eq!(s(&trim(&text)), "x", "{:?}", c);
    }
    assert_eq!(s(&trim(&chars_of("\u{200b}x"))), "\u{200b}x");
}
