use pipecap::text::{last_segment, parse_u32, same, stands_before, strip_prefix};

#[test]
fn numbers_are_read_as_the_standard_library_reads_them() {
    let cases = [
        "0", "7", "42", "+42", "0042", "4294967295", "4294967296", "99999999999999999999", "",
        "+", "-1", "-0", " 1", "1 ", "1_0", "0x10", "1.0", "٣", "++1", "1+",
    ];
    for case in cases {
        assert_eq!(parse_u32(case), case.parse::<u32>().ok(), "{case:?}");
    }
    assert_eq!(parse_u32("4294967295"), Some(u32::MAX));
    assert_eq!(parse_u32("4294967296"), None);
}

#[test]
fn prefix_is_stripped_once() {
    assert_eq!(strip_prefix("aab", "a"), Some("ab".to_string()));
    assert_eq!(strip_prefix("äb", "ä"), Some("b".to_string()));
    assert_eq!(strip_prefix("ab", "ab"), Some(String::new()));
    assert_eq!(strip_prefix("ab", ""), Some("ab".to_string()));
    assert_eq!(strip_prefix("a", "ab"), None);
    assert_eq!(strip_prefix("ba", "a"), None);
}

#[test]
fn last_segment_follows_the_last_dot() {
    assert_eq!(last_segment("org.kde.dolphin"), "dolphin");
    assert_eq!(last_segment("dolphin"), "dolphin");
    assert_eq!(last_segment("a.ü.öä"), "öä");
    assert_eq!(last_segment("a."), "");
    assert_eq!(last_segment(""), "");
}

#[test]
fn order_is_that_of_the_standard_library() {
    let texts = ["", "a", "aa", "ab", "b", "A", "ä", "\u{ffff}", "\u{10000}", "a\u{0}"];
    for a in texts {
        assert!(!stands_before(a, a));
        for b in texts {
            assert_eq!(stands_before(a, b), a < b, "{a:?} {b:?}");
            assert!(a == b || stands_before(a, b) || stands_before(b, a));
            for c in texts {
                assert!(!(stands_before(a, b) && stands_before(b, c)) || stands_before(a, c));
            }
        }
    }
}

#[test]
fn same_is_equality() {
    assert!(same("ä", "ä"));
    assert!(!same("a", "A"));
    assert!(!same("a", "ab"));
}
