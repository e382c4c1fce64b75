//! The text operations against those of the standard library.

use tabbify_broker::frame::split_head;
use tabbify_broker::lines::{lines_of, words_of};
use tabbify_broker::order::{insert_ascending, is_at_most};
use tabbify_broker::search::{
    find_bytes, has_text, replace, split_once, strip_prefix, strip_suffix,
};
use tabbify_broker::text::{
    chars_of, decimal_of, equal_ignoring_case, has_char, is_whitespace, same_text, trim,
    trim_leading, trim_trailing,
};

const SAMPLES: &[&str] = &[
    "",
    " ",
    "a",
    "aa",
    "aaa",
    " a b ",
    "a\nb",
    "a\r\nb\r\n",
    "\n",
    "\r\n",
    "\r",
    "a\r",
    "a\r\r\n",
    "\n\n",
    "\u{a0}x\u{2003}\u{3000}",
    "caf\u{e9} \u{1f600}",
    "/a//b/",
    "Bearer  abc",
    "x: y: z",
];

const PATTERNS: &[&str] = &["a", "aa", "\n", "\r\n", " ", ":", "/", "\u{e9}", "b/", "zz"];

#[test]
fn white_space_is_that_of_the_standard_library() {
    for u in 0..=0x10ffffu32 {
        if let Some(c) = char::from_u32(u) {
            assert_eq!(is_whitespace(c), c.is_whitespace(), "{u:#x}");
        }
    }
}

#[test]
fn trimming_agrees() {
    for s in SAMPLES {
        assert_eq!(trim(s), s.trim(), "{s:?}");
        for c in ['/', 'a', ' '] {
            assert_eq!(trim_leading(s, c), s.trim_start_matches(c), "{s:?}");
            assert_eq!(trim_trailing(s, c), s.trim_end_matches(c), "{s:?}");
        }
    }
}

#[test]
fn lines_and_words_agree() {
    for s in SAMPLES {
        assert_eq!(lines_of(s), s.lines().collect::<Vec<_>>(), "{s:?}");
        assert_eq!(words_of(s), s.split_whitespace().collect::<Vec<_>>(), "{s:?}");
        assert_eq!(chars_of(s), s.chars().collect::<Vec<_>>(), "{s:?}");
    }
}

#[test]
fn searching_agrees() {
    for s in SAMPLES {
        for p in PATTERNS {
            assert_eq!(has_text(s, p), s.contains(p), "{s:?} {p:?}");
            assert_eq!(split_once(s, p), s.split_once(p), "{s:?} {p:?}");
            assert_eq!(strip_prefix(s, p), s.strip_prefix(p), "{s:?} {p:?}");
            assert_eq!(strip_suffix(s, p), s.strip_suffix(p), "{s:?} {p:?}");
            let at = s.as_bytes().windows(p.len()).position(|w| w == p.as_bytes());
            assert_eq!(find_bytes(s.as_bytes(), p.as_bytes(), 0), at, "{s:?} {p:?}");
        }
        assert_eq!(has_char(s, 'b'), s.contains('b'), "{s:?}");
    }
}

#[test]
fn replacing_agrees() {
    for s in SAMPLES {
        for p in PATTERNS.iter().chain([&""]) {
            for to in ["", "[x]", "aa"] {
                assert_eq!(replace(s, p, to), s.replace(p, to), "{s:?} {p:?}");
            }
        }
    }
}

#[test]
fn comparing_agrees() {
    for a in SAMPLES.iter().chain([&"BEARER  ABC", &"\u{c9}"]) {
        for b in SAMPLES {
            assert_eq!(same_text(a, b), a == b);
            assert_eq!(is_at_most(a, b), a <= b, "{a:?} {b:?}");
            assert_eq!(equal_ignoring_case(a, b), a.eq_ignore_ascii_case(b), "{a:?} {b:?}");
        }
    }
    assert!(equal_ignoring_case("AZaz09", "azAZ09"));
    assert!(!equal_ignoring_case("@[`{", "`{@["));
}

#[test]
fn sorting_agrees() {
    let mut all: Vec<String> = SAMPLES.iter().map(|s| s.to_string()).collect();
    let mut sorted = Vec::new();
    for s in &all {
        insert_ascending(&mut sorted, s.clone());
    }
    all.sort();
    assert_eq!(sorted, all);
}

#[test]
fn numerals_agree() {
    for n in [0, 1, 9, 10, 99, 100, 8732, 16384, u64::MAX] {
        assert_eq!(decimal_of(n), n.to_string());
    }
}

#[test]
fn heads_are_split_off() {
    assert_eq!(split_head("a\r\nb\r\n\r\nc\r\n\r\nd"), ("a\r\nb", "c\r\n\r\nd"));
    assert_eq!(split_head("a\n\nb\r\n\r\nc"), ("a\n\nb", "c"));
    assert_eq!(split_head("a\n\nb"), ("a", "b"));
    assert_eq!(split_head("a\r\nb"), ("a\r\nb", ""));
}
