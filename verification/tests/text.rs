use ox::paths::join_path;
use ox::strmap::StringMap;
use ox::text::{
    dec_i64, ellipsize, ends_with, hex_u64, insert_sorted, join, lines, may_ellipsize, pad_left, pad_right, parse_uint,
    replace, split_char, split_once, starts_with, strip_prefix, strip_suffix, text_before,
    trim, trim_end_char, trim_start,
};

#[test]
fn trims_like_the_standard_library() {
    for s in ["", "  ", " a ", "\t\u{a0}x y\u{3000}\n", "plain", "\u{85}z\u{2028}", "a\u{200b}"] {
        assert_eq!(trim(s), s.trim());
        assert_eq!(trim_start(s), s.trim_start());
    }
}

#[test]
fn lines_like_the_standard_library() {
    for s in ["", "\n", "a", "a\n", "a\r\nb", "a\r", "\n\n", "x\n\ny\r\n", "\r\n"] {
        let want: Vec<String> = s.lines().map(|l| l.to_string()).collect();
        assert_eq!(lines(s), want, "{s:?}");
    }
}

#[test]
fn splits_like_the_standard_library() {
    for s in ["", "a", "a.b", ".", "..", "a..b.", "é.ü"] {
        let want: Vec<String> = s.split('.').map(|l| l.to_string()).collect();
        assert_eq!(split_char(s, '.'), want);
        let once = s.split_once('.').map(|(a, b)| (a.to_string(), b.to_string()));
        assert_eq!(split_once(s, '.'), once);
    }
}

#[test]
fn replaces_like_the_standard_library() {
    for (s, from, to) in [("aaaa", "aa", "b"), ("{x} and {x}", "{x}", "{x}{x}"), ("none", "z", ""), ("", "a", "b")] {
        assert_eq!(replace(s, from, to), s.replace(from, to));
    }
}

#[test]
fn prefixes_and_suffixes() {
    assert!(starts_with("thread.started", "thread."));
    assert!(!starts_with("th", "thread."));
    assert!(ends_with("x.md", ".md"));
    assert!(!ends_with("md", ".md"));
    assert_eq!(strip_prefix("secret.key", "secret."), Some("key".to_string()));
    assert_eq!(strip_prefix("key", "secret."), None);
    assert_eq!(strip_suffix("a.toml", ".toml"), Some("a".to_string()));
    assert_eq!(strip_suffix("a.tom", ".toml"), None);
    assert_eq!(trim_end_char("http://x//", '/'), "http://x");
}

#[test]
fn numbers_read_and_print() {
    assert_eq!(parse_uint("42", 10, u32::MAX as u64), Some(42));
    assert_eq!(parse_uint("+7", 10, u32::MAX as u64), Some(7));
    assert_eq!(parse_uint("4294967295", 10, u32::MAX as u64), Some(u32::MAX as u64));
    assert_eq!(parse_uint("4294967296", 10, u32::MAX as u64), None);
    assert_eq!(parse_uint("99999999999999999999999", 10, u32::MAX as u64), None);
    for bad in ["", "+", "-1", "1a", " 1", "++1"] {
        assert_eq!(parse_uint(bad, 10, u32::MAX as u64), None, "{bad:?}");
    }
    assert_eq!(parse_uint("755", 8, u32::MAX as u64), Some(0o755));
    assert_eq!(parse_uint("8", 8, u32::MAX as u64), None);
    assert_eq!(dec_i64(i64::MIN), i64::MIN.to_string());
    assert_eq!(dec_i64(-70), "-70");
    assert_eq!(hex_u64(0xbeef), "beef");
}

#[test]
fn pads_by_characters() {
    assert_eq!(pad_left("7", 4, '0'), "0007");
    assert_eq!(pad_right("é", 3), "é  ");
    assert_eq!(pad_right("long", 3), "long");
}

#[test]
fn joins_with_separators() {
    let parts = vec!["a".to_string(), "b".to_string(), "".to_string()];
    assert_eq!(join(&parts, ", "), "a, b, ");
    assert_eq!(join(&Vec::new(), ", "), "");
}

#[test]
fn ellipsis_counts_bytes() {
    assert_eq!(ellipsize("abcdef", 3), "abc...");
    assert_eq!(ellipsize("abc", 3), "abc");
    assert_eq!(ellipsize("éa", 2), "é...");
    assert!(may_ellipsize("éa", 2));
    assert!(!may_ellipsize("aéb", 2), "the bound lies inside a character");
    assert!(may_ellipsize("aé", 3));
}

#[test]
fn sorted_insertion_keeps_the_order_and_skips_repetitions() {
    let mut v = Vec::new();
    for s in ["b", "a", "ab", "b", "Z", "é"] {
        insert_sorted(&mut v, s.to_string());
    }
    let mut want: Vec<String> = ["Z", "a", "ab", "b", "é"].iter().map(|s| s.to_string()).collect();
    assert_eq!(v, want);
    want.sort();
    assert_eq!(v, want, "the order of the standard library");
    assert!(text_before("a", "b"));
    assert!(text_before("", "a"));
    assert!(!text_before("a", "a"));
}

#[test]
fn paths_join_like_the_standard_library() {
    for (a, b) in [("/x", "y"), ("/x/", "y"), ("", "y"), ("/x", "/y"), ("x", ""), ("/", "etc")] {
        assert_eq!(join_path(a, b), std::path::Path::new(a).join(b).to_string_lossy());
    }
}

#[test]
fn string_map_keeps_the_first_place_of_a_key() {
    let mut m = StringMap::new();
    m.insert("a".to_string(), 1);
    m.insert("b".to_string(), 2);
    m.insert("a".to_string(), 3);
    assert_eq!(m.len(), 2);
    assert_eq!(m.get("a"), Some(&3));
    assert_eq!(m.entry(0).0, "a");
    m.remove("a");
    assert!(!m.contains_key("a"));
    assert_eq!(m.entry(0).0, "b");
    *m.get_mut("b").unwrap() = 9;
    assert_eq!(m.get("b"), Some(&9));
    assert!(m.get_mut("c").is_none());
    assert!(!m.is_empty());
}
