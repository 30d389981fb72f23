use rust_cpp_parser::text::{char_is_whitespace, split, split_whitespace, trim};

const SAMPLES: [&str; 16] = [
    "",
    " ",
    "a",
    " a",
    "a ",
    "  a b  ",
    "\t\n a\u{a0}b \r\n",
    "a,b",
    ",",
    ",,",
    "a,",
    ",a",
    " int a , int b ",
    "\u{3000}x\u{2028}y\u{85}",
    "a\u{200b}b",
    "héllo wörld",
];

#[test]
fn whitespace_is_that_of_the_standard_library() {
    for code in 0..=0x10FFFFu32 {
        if let Some(c) = char::from_u32(code) {
            assert_eq!(char_is_whitespace(c), c.is_whitespace(), "U+{:04X}", code);
        }
    }
}

#[test]
fn space_is_whitespace_and_letters_are_not() {
    assert!(char_is_whitespace(' '));
    assert!(char_is_whitespace('\n'));
    assert!(char_is_whitespace('\u{a0}'));
    assert!(!char_is_whitespace('a'));
    assert!(!char_is_whitespace('\u{200b}'));
}

#[test]
fn trim_removes_whitespace_at_both_ends() {
    assert_eq!(trim("  a b \n"), "a b");
    assert_eq!(trim(" \t "), "");
    assert_eq!(trim("ab"), "ab");
}

#[test]
fn trim_is_that_of_the_standard_library() {
    for text in SAMPLES {
        assert_eq!(trim(text), text.trim(), "{:?}", text);
    }
}

#[test]
fn split_gives_one_piece_more_than_separators() {
    assert_eq!(split("", ','), vec![""]);
    assert_eq!(split("a,b", ','), vec!["a", "b"]);
    assert_eq!(split(",a,", ','), vec!["", "a", ""]);
}

#[test]
fn split_is_that_of_the_standard_library() {
    for text in SAMPLES {
        let expected: Vec<&str> = text.split(',').collect();
        assert_eq!(split(text, ','), expected, "{:?}", text);
    }
}

#[test]
fn split_whitespace_gives_the_words() {
    assert_eq!(split_whitespace(" int  a\t"), vec!["int", "a"]);
    assert!(split_whitespace(" \n ").is_empty());
    assert!(split_whitespace("").is_empty());
}

#[test]
fn split_whitespace_is_that_of_the_standard_library() {
    for text in SAMPLES {
        let expected: Vec<&str> = text.split_whitespace().collect();
        assert_eq!(split_whitespace(text), expected, "{:?}", text);
    }
}
