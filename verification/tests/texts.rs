use chromehub::text;

fn owned(parts: &[&str]) -> Vec<String> {
    parts.iter().map(|s| s.to_string()).collect()
}

const SAMPLES: [&str; 14] = [
    "",
    " ",
    "a",
    " a ",
    "a b  c",
    "\u{3000}ab\u{a0}",
    "aXbXXc",
    "XX",
    "ab - cd – ef",
    "🙂 – é",
    "\t\nx\r\n",
    "aaaa",
    "abababab",
    "\u{85}\u{2028}z\u{2029}",
];

#[test]
fn white_space_and_control_characters_are_those_of_unicode() {
    for n in 0..=0x10ffffu32 {
        if let Some(c) = char::from_u32(n) {
            assert_eq!(text::is_white_space(c), c.is_whitespace(), "{n:x}");
            assert_eq!(text::is_control(c), c.is_control(), "{n:x}");
        }
    }
}

#[test]
fn searching_in_a_text() {
    for s in SAMPLES {
        for p in ["", "a", "X", "XX", " - ", " – ", "ab", "aba", "zz", "🙂"] {
            assert_eq!(text::contains(s, p), s.contains(p), "{s:?} {p:?}");
            assert_eq!(text::starts_with(s, p), s.starts_with(p));
            assert_eq!(text::ends_with(s, p), s.ends_with(p));
            let cs = text::chars_of(s);
            let ps = text::chars_of(p);
            let first = s.find(p).map(|b| s[..b].chars().count());
            let last = s.rfind(p).map(|b| s[..b].chars().count());
            assert_eq!(text::find(&cs, &ps, 0), first);
            assert_eq!(text::rfind(&cs, &ps), last);
        }
        assert!(text::same(s, s));
        assert!(!text::same(s, "something else"));
    }
}

#[test]
fn splitting_and_joining() {
    for s in SAMPLES {
        for sep in ["X", " - ", " – ", "ab", "aa"] {
            let parts = text::split(s, sep);
            let expected: Vec<String> = s.split(sep).map(|p| p.to_string()).collect();
            assert_eq!(parts, expected, "{s:?} {sep:?}");
            assert_eq!(text::join(&parts, sep), s);
        }
    }
    assert_eq!(text::join(&owned(&[]), ", "), "");
    assert_eq!(text::join(&owned(&["a"]), ", "), "a");
    assert_eq!(text::join(&owned(&["a", "", "b"]), ", "), "a, , b");
}

#[test]
fn trimming_and_words() {
    for s in SAMPLES {
        assert_eq!(text::trim(s), s.trim(), "{s:?}");
        let expected: Vec<String> = s.split_whitespace().map(|p| p.to_string()).collect();
        assert_eq!(text::words(s), expected, "{s:?}");
    }
}

#[test]
fn texts_are_ordered_as_strings_are() {
    for a in SAMPLES {
        for b in SAMPLES {
            assert_eq!(text::at_most(a, b), a <= b, "{a:?} {b:?}");
        }
    }
    assert!(text::at_most("\u{ffff}", "\u{10000}"));
}

#[test]
fn decimals() {
    for n in [0u64, 1, 9, 10, 11, 99, 100, 12345, 1_000_000, u64::MAX - 1, u64::MAX] {
        assert_eq!(text::decimal(n), n.to_string());
    }
}
