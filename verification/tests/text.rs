use nfa_sim::text::{chars_between, chars_of, is_whitespace, parse_index, trim_bounds};

fn index_of(token: &str) -> Option<usize> {
    let chars = chars_of(token);
    parse_index(&chars, 0, chars.len())
}

fn trim(text: &str) -> String {
    let chars = chars_of(text);
    let (start, end) = trim_bounds(&chars);
    chars_between(&chars, start, end).into_iter().collect()
}

#[test]
fn is_whitespace_agrees_with_the_standard_library_on_every_character() {
    for code in 0..=0x10FFFFu32 {
        if let Some(c) = char::from_u32(code) {
            assert_eq!(is_whitespace(c), c.is_whitespace(), "U+{:04X}", code);
        }
    }
}

#[test]
fn is_whitespace_knows_the_usual_characters() {
    for c in [' ', '\t', '\n', '\r', '\u{b}', '\u{c}', '\u{85}', '\u{a0}', '\u{2003}', '\u{3000}'] {
        assert!(is_whitespace(c));
    }
    for c in ['a', '0', '$', '#', '\u{1}', '\u{8}', '\u{e}', '\u{200b}', '\u{feff}'] {
        assert!(!is_whitespace(c));
    }
}

#[test]
fn chars_of_lists_the_characters_in_order() {
    assert_eq!(chars_of(""), Vec::<char>::new());
    assert_eq!(chars_of("a\u{e9}\u{4e2d}z"), vec!['a', '\u{e9}', '\u{4e2d}', 'z']);
}

#[test]
fn chars_between_copies_a_range() {
    let chars = chars_of("0=a>1");
    assert_eq!(chars_between(&chars, 1, 4), vec!['=', 'a', '>']);
    assert_eq!(chars_between(&chars, 2, 2), Vec::<char>::new());
    assert_eq!(chars_between(&chars, 0, 5), chars);
}

#[test]
fn trim_bounds_gives_the_trimmed_part() {
    assert_eq!(trim_bounds(&chars_of("")), (0, 0));
    assert_eq!(trim_bounds(&chars_of("abc")), (0, 3));
    assert_eq!(trim_bounds(&chars_of("  a b \t")), (2, 5));
    let blank = trim_bounds(&chars_of(" \t\r\n"));
    assert_eq!(blank.0, blank.1);
}

#[test]
fn trimming_agrees_with_the_standard_library() {
    for text in [
        "",
        " ",
        "a",
        " a",
        "a ",
        "  a  b  ",
        "\t\r\n$1,2\r\n",
        "\u{a0}\u{2003}x\u{3000}",
        "\u{200b} x \u{200b}",
        " \u{e9} ",
        "\n\n",
    ] {
        assert_eq!(trim(text), text.trim());
    }
}

#[test]
fn parse_index_reads_decimal_numbers() {
    assert_eq!(index_of("0"), Some(0));
    assert_eq!(index_of("7"), Some(7));
    assert_eq!(index_of("10"), Some(10));
    assert_eq!(index_of("0042"), Some(42));
    assert_eq!(index_of("123456789"), Some(123456789));
    assert_eq!(index_of("+5"), Some(5));
    assert_eq!(index_of("+0"), Some(0));
}

#[test]
fn parse_index_reads_a_part_of_the_characters() {
    let chars = chars_of("ab123cd");
    assert_eq!(parse_index(&chars, 2, 5), Some(123));
    assert_eq!(parse_index(&chars, 3, 4), Some(2));
    assert_eq!(parse_index(&chars, 1, 5), None);
    assert_eq!(parse_index(&chars, 2, 6), None);
    assert_eq!(parse_index(&chars, 4, 4), None);
}

#[test]
fn parse_index_rejects_what_is_no_number() {
    for token in ["", "+", "-", "-1", "++1", "1+", "1 ", " 1", "1_000", "0x10", "1e3", "a", "\u{663}"] {
        assert_eq!(index_of(token), None, "{:?}", token);
    }
}

#[test]
fn parse_index_stops_below_the_largest_machine_word() {
    assert_eq!(index_of(&(usize::MAX - 1).to_string()), Some(usize::MAX - 1));
    assert_eq!(index_of(&usize::MAX.to_string()), None);
    assert_eq!(index_of(&format!("{}0", usize::MAX)), None);
    assert_eq!(index_of(&format!("{}", u128::MAX)), None);
    assert_eq!(index_of(&format!("000{}", usize::MAX - 1)), Some(usize::MAX - 1));
}

#[test]
fn parse_index_agrees_with_the_standard_library_below_the_largest_word() {
    for token in [
        "0", "1", "9", "10", "99", "100", "+1", "+", "", "-0", "00", "12a", "a12", "1 2", "٣",
        "18446744073709551614", "18446744073709551616", "99999999999999999999999", "4294967295",
        "4294967296", "+0007",
    ] {
        assert_eq!(index_of(token), token.parse::<usize>().ok(), "{:?}", token);
    }
}
