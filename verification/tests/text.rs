use mystic_update::number::{decimal, parse_i32, parse_unsigned, signed_decimal};
use mystic_update::order::{before, sort_dedup};
use mystic_update::text::{
    chars_of, contains, contains_char, equals, find, find_text, join, lines, rfind, same_text,
    split, starts_with, string_of, trim, trim_end, trim_start, white_space, words,
};

const SAMPLES: [&str; 12] = [
    "",
    " ",
    "\n",
    "a",
    "  a b\tc  ",
    "one\ntwo\r\nthree",
    "one\n\ntwo\n",
    "\r\n\r\n",
    "a\rb\n\r",
    "\u{a0}caf\u{e9} \u{3000}x\u{2003}",
    "x/y//z/",
    "\u{1d11e} clef / \u{feff}",
];

fn strings_of(parts: &[&[char]]) -> Vec<String> {
    parts.iter().map(|part| part.iter().collect()).collect()
}

fn owned(parts: &[&str]) -> Vec<String> {
    parts.iter().map(|part| part.to_string()).collect()
}

#[test]
fn white_space_is_that_of_char() {
    for code in 0..=0x10ffff {
        if let Some(c) = char::from_u32(code) {
            assert_eq!(white_space(c), c.is_whitespace(), "{code:x}");
        }
    }
}

#[test]
fn text_is_cut_as_by_str() {
    for sample in SAMPLES {
        let chars = chars_of(sample);
        assert_eq!(string_of(&chars), sample);
        assert_eq!(string_of(trim(&chars)), sample.trim());
        assert_eq!(string_of(trim_start(&chars)), sample.trim_start());
        assert_eq!(string_of(trim_end(&chars)), sample.trim_end());
        assert_eq!(strings_of(&lines(&chars)), sample.lines().collect::<Vec<_>>());
        assert_eq!(strings_of(&words(&chars)), sample.split_whitespace().collect::<Vec<_>>());
        assert_eq!(strings_of(&split(&chars, '/')), sample.split('/').collect::<Vec<_>>());
    }
}

#[test]
fn text_is_searched_as_by_str() {
    for sample in SAMPLES {
        let chars = chars_of(sample);
        for needle in ["a", "b", "/", "one", "two\r\n", "clef", "//"] {
            assert_eq!(contains(&chars, needle), sample.contains(needle));
            assert_eq!(starts_with(&chars, needle), sample.starts_with(needle));
            let at = sample.find(needle).map(|i| sample[..i].chars().count());
            assert_eq!(find_text(&chars, needle), at);
            assert_eq!(equals(&chars, needle), sample == needle);
            assert_eq!(same_text(sample, needle), sample == needle);
        }
        for c in ['a', '/', '\n', '\u{e9}'] {
            let place = chars.iter().position(|d| *d == c);
            assert_eq!(find(&chars, c), place.unwrap_or(chars.len()));
            assert_eq!(rfind(&chars, c), chars.iter().rposition(|d| *d == c));
            assert_eq!(contains_char(&chars, c), sample.contains(c));
        }
    }
}

#[test]
fn parts_are_joined() {
    assert_eq!(join(&owned(&[]), ", "), "");
    assert_eq!(join(&owned(&["a"]), ", "), "a");
    assert_eq!(join(&owned(&["a", "", "c"]), ", "), "a, , c");
}

#[test]
fn numbers_are_written_and_read_as_by_std() {
    for n in [0, 1, 9, 10, 11, 99, 100, 4294967295, 4294967296, u64::MAX] {
        assert_eq!(decimal(n), n.to_string());
    }
    for i in [0, 1, -1, 100, -100, i32::MAX, i32::MIN] {
        assert_eq!(signed_decimal(i), i.to_string());
    }
    for text in [
        "", "+", "-", "0", "-0", "+0", "00012", "+7", "-7", "1a", "a1", " 1", "1 ", "4294967295",
        "4294967296", "2147483647", "2147483648", "-2147483648", "-2147483649",
        "99999999999999999999999999", "\u{661}",
    ] {
        let chars = chars_of(text);
        assert_eq!(
            parse_unsigned(&chars, u32::MAX as u64),
            text.parse::<u32>().ok().map(u64::from),
            "{text}"
        );
        assert_eq!(parse_unsigned(&chars, u64::MAX), text.parse::<u64>().ok(), "{text}");
        assert_eq!(parse_i32(&chars), text.parse::<i32>().ok(), "{text}");
    }
}

#[test]
fn names_are_ordered_as_strings() {
    let mut names = SAMPLES.to_vec();
    names.extend(["b", "a", "B", "ab", "a", "\u{e9}", "\u{fb01}", "\u{1f600}"]);
    for a in &names {
        for b in &names {
            assert_eq!(before(a, b), a < b);
        }
    }
    let mut sorted = owned(&names);
    sorted.sort();
    sorted.dedup();
    assert_eq!(sort_dedup(&owned(&names)), sorted);
    assert_eq!(sort_dedup(&Vec::new()), Vec::<String>::new());
}
