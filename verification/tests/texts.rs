use dpn_reader::entity::decode_html_entities;
use dpn_reader::text::{
    ascii_alnum, begins_with, chars_of, count_text, decimal_text, finishes_with, holds_char,
    holds_text, lower_ascii, replace_text, same_text, signed_text, space, split_at_char,
    split_lines, split_words, string_of, trim_text, truncate_chars,
};

const SAMPLES: [&str; 12] = [
    "",
    " ",
    "one",
    "  one  two\tthree\n",
    "a\r\nb\n\nc\r",
    "\n",
    "\r\n",
    "x\n\r",
    "\u{a0}nbsp\u{2003}em\u{3000}",
    "äöü ß \u{1F600} end",
    "aaaa",
    "a-b--c-",
];

#[test]
fn white_space_is_that_of_unicode() {
    for n in 0..=0x10ffff {
        if let Some(c) = char::from_u32(n) {
            assert_eq!(space(c), c.is_whitespace(), "{:?}", c);
            assert_eq!(ascii_alnum(c), c.is_ascii_alphanumeric(), "{:?}", c);
        }
    }
}

#[test]
fn texts_and_characters() {
    for s in SAMPLES {
        let chars: Vec<char> = s.chars().collect();
        assert_eq!(chars_of(s), chars);
        assert_eq!(string_of(&chars), s);
        assert!(same_text(s, s));
        assert!(!same_text(s, "other"));
        assert_eq!(lower_ascii(&chars), s.to_ascii_lowercase().chars().collect::<Vec<char>>());
    }
    assert_eq!(string_of(&lower_ascii(&chars_of("AZaz09ÄÉ"))), "azaz09ÄÉ");
}

#[test]
fn texts_are_cut_by_characters() {
    assert_eq!(truncate_chars("äöü", 2), "äö");
    assert_eq!(truncate_chars("äöü", 3), "äöü");
    assert_eq!(truncate_chars("äöü", 9), "äöü");
    assert_eq!(truncate_chars("äöü", 0), "");
}

#[test]
fn texts_are_trimmed_and_split() {
    for s in SAMPLES {
        let chars = chars_of(s);
        assert_eq!(trim_text(s), s.trim());
        assert_eq!(split_words(&chars), s.split_whitespace().collect::<Vec<_>>());
        assert_eq!(split_lines(&chars), s.lines().collect::<Vec<_>>(), "{:?}", s);
        assert_eq!(split_at_char(&chars, '-'), s.split('-').collect::<Vec<_>>());
        assert_eq!(split_at_char(&chars, '\n'), s.split('\n').collect::<Vec<_>>());
    }
}

#[test]
fn parts_of_texts() {
    for s in SAMPLES {
        let chars = chars_of(s);
        for part in ["a", "aa", "one", "\n", " t", "é", "end", "b--"] {
            assert_eq!(holds_text(&chars, part), s.contains(part));
            assert_eq!(begins_with(&chars, part), s.starts_with(part));
            assert_eq!(finishes_with(&chars, part), s.ends_with(part));
            assert_eq!(string_of(&replace_text(&chars, part, "<>")), s.replace(part, "<>"));
            assert_eq!(string_of(&replace_text(&chars, part, "")), s.replace(part, ""));
        }
        assert_eq!(holds_char(&chars, '-'), s.contains('-'));
    }
}

#[test]
fn numbers_as_texts() {
    for n in [0, 1, 9, 10, 99, 100, 12345, u64::MAX] {
        assert_eq!(decimal_text(n), n.to_string());
    }
    for n in [0, 7, usize::MAX] {
        assert_eq!(count_text(n), n.to_string());
    }
    for n in [0, -1, 42, i64::MIN, i64::MAX] {
        assert_eq!(signed_text(n), n.to_string());
    }
}

#[test]
fn texts_without_references_are_not_decoded() {
    for s in SAMPLES {
        assert_eq!(decode_html_entities(s), s);
    }
    assert_eq!(decode_html_entities("<#65;> nbsp; amp;"), "<#65;> nbsp; amp;");
}
