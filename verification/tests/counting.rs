use rwc::counter::{char_is_whitespace, count_bytes, count_lines, count_words, parse_input};

const SAMPLES: [&str; 16] = [
    "",
    " ",
    "\n",
    "\n\n",
    "a",
    "a\n",
    "a\nb",
    "a\nb\n",
    "a\r\nb\r\n",
    "  a  b c  ",
    "one two\tthree\nfour\u{00A0}five\u{3000}six",
    "tab\tseparated\tfields\n\nblank line above\n",
    "trailing spaces   \n   leading spaces",
    "h\u{e9}llo w\u{f6}rld\n",
    "\u{65e5}\u{672c}\u{8a9e} \u{1F600}\u{2003}x",
    "\r\n\r\n\r",
];

#[test]
fn words_are_maximal_runs_between_whitespace() {
    assert_eq!(count_words("  a  b c  "), 3);
}

#[test]
fn words_of_empty_and_blank_text() {
    assert_eq!(count_words(""), 0);
    assert_eq!(count_words(" \t\n\r "), 0);
}

#[test]
fn words_are_split_on_every_kind_of_whitespace() {
    assert_eq!(count_words("a\tb\nc\rd e"), 5);
    assert_eq!(count_words("a\u{00A0}b"), 2);
    assert_eq!(count_words("a\u{3000}b\u{2003}c\u{0085}d"), 4);
    assert_eq!(count_words("a\u{200B}b"), 1);
}

#[test]
fn words_agree_with_split_whitespace() {
    for text in SAMPLES {
        assert_eq!(count_words(text), text.split_whitespace().count());
    }
}

#[test]
fn whitespace_agrees_with_unicode() {
    let mut code: u32 = 0;
    while code <= 0x10FFFF {
        if let Some(c) = char::from_u32(code) {
            assert_eq!(char_is_whitespace(c), c.is_whitespace());
        }
        code += 1;
    }
}

#[test]
fn bytes_are_the_length_in_utf8() {
    assert_eq!(count_bytes(""), 0);
    assert_eq!(count_bytes("hello"), 5);
    assert_eq!(count_bytes("h\u{e9}llo"), 6);
    assert_eq!(count_bytes("\u{65e5}\u{672c}\u{8a9e}"), 9);
    assert_eq!(count_bytes("\u{1F600}"), 4);
}

#[test]
fn bytes_are_at_least_the_characters() {
    for text in SAMPLES {
        assert_eq!(count_bytes(text), text.len());
        assert!(count_bytes(text) >= text.chars().count());
    }
}

#[test]
fn lines_of_empty_input() {
    assert_eq!(count_lines(""), 0);
}

#[test]
fn lines_with_a_final_line_feed() {
    assert_eq!(count_lines("a\nb\n"), 2);
}

#[test]
fn lines_without_a_final_line_feed() {
    assert_eq!(count_lines("a\nb"), 2);
}

#[test]
fn lines_of_blank_lines() {
    assert_eq!(count_lines("\n"), 1);
    assert_eq!(count_lines("\n\n"), 2);
    assert_eq!(count_lines("a\n\nb"), 3);
    assert_eq!(count_lines("a"), 1);
}

#[test]
fn lines_agree_with_the_lines_iterator() {
    for text in SAMPLES {
        assert_eq!(count_lines(text), text.lines().count());
    }
}

#[test]
fn parse_input_counts_and_names() {
    let result = parse_input("hello world\n", "a.txt");
    assert_eq!(result.name, "a.txt");
    assert_eq!(result.lines, 1);
    assert_eq!(result.words, 2);
    assert_eq!(result.bytes, 12);
}

#[test]
fn parse_input_of_empty_text_is_all_zero() {
    let result = parse_input("", "empty");
    assert_eq!(result.name, "empty");
    assert_eq!(result.lines, 0);
    assert_eq!(result.words, 0);
    assert_eq!(result.bytes, 0);
}

#[test]
fn parse_input_of_multibyte_text() {
    let result = parse_input("na\u{ef}ve caf\u{e9}\n\u{65e5}\u{672c}", "t");
    assert_eq!(result.lines, 2);
    assert_eq!(result.words, 3);
    assert_eq!(result.bytes, 19);
}
