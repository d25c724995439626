use ade_core::text::{
    contains_text, decimal_string, find_last_word, parse_u32, same_text, split_lines, to_chars,
    trim, wide_decimal_string,
};

fn chars(text: &str) -> Vec<char> {
    text.chars().collect()
}

fn text(chars: &[char]) -> String {
    chars.iter().collect()
}

#[test]
fn to_chars_gives_the_characters_in_order() {
    assert_eq!(to_chars("héllo"), vec!['h', 'é', 'l', 'l', 'o']);
    assert_eq!(to_chars(""), Vec::<char>::new());
}

#[test]
fn trim_agrees_with_the_standard_library() {
    let samples = [
        "",
        " ",
        "  a  ",
        "\t\r\n x y \u{a0}\u{3000}",
        "\u{2003}12\u{85}",
        "no-space",
        "\u{200b}zero-width\u{200b}",
        "\u{1680}\u{2028}\u{2029}\u{202f}\u{205f}",
    ];
    for sample in samples {
        assert_eq!(text(&trim(&chars(sample))), sample.trim());
    }
}

#[test]
fn white_space_is_what_the_standard_library_calls_so() {
    for code in 0..=0x10ffffu32 {
        if let Some(c) = char::from_u32(code) {
            assert_eq!(trim(&vec![c]).is_empty(), c.is_whitespace());
        }
    }
}

#[test]
fn parse_agrees_with_the_standard_library() {
    let samples = [
        "0",
        "7",
        "007",
        "+5",
        "++5",
        "+",
        "",
        "-0",
        "-1",
        "12a",
        " 12",
        "4294967295",
        "4294967296",
        "4294967289",
        "4294967300",
        "42949672950",
        "00000000000000000042",
        "99999999999999999999",
        "١٢",
        "1_000",
    ];
    for sample in samples {
        assert_eq!(parse_u32(&chars(sample)), sample.parse::<u32>().ok());
    }
}

#[test]
fn parse_reads_exact_values() {
    assert_eq!(parse_u32(&chars("4242")), Some(4242));
    assert_eq!(parse_u32(&chars("4294967295")), Some(u32::MAX));
    assert_eq!(parse_u32(&chars("4294967296")), None);
}

#[test]
fn decimal_agrees_with_the_standard_library() {
    for n in [0u32, 1, 9, 10, 11, 99, 100, 4242, 1_000_000, u32::MAX - 1, u32::MAX] {
        assert_eq!(decimal_string(n), n.to_string());
        assert_eq!(parse_u32(&chars(&decimal_string(n))), Some(n));
    }
}

#[test]
fn lines_agree_with_the_standard_library() {
    let samples = [
        "",
        "\n",
        "a",
        "a\n",
        "a\nb",
        "a\n\nb\n",
        "a\r\nb\r\n",
        "a\rb\n",
        "a\r",
        "\r\n",
        "\r\r\n",
        "\n\n\n",
        "p4242\nfcwd\nn/tmp\n",
    ];
    for sample in samples {
        let rows: Vec<String> = split_lines(&chars(sample)).iter().map(|row| text(row)).collect();
        let expected: Vec<String> = sample.lines().map(|line| line.to_string()).collect();
        assert_eq!(rows, expected);
    }
}

#[test]
fn wide_decimal_agrees_with_the_standard_library() {
    for n in [0u128, 9, 10, 4294967296, 1700000000123, u128::MAX] {
        assert_eq!(wide_decimal_string(n), n.to_string());
    }
}

#[test]
fn same_text_compares_character_by_character() {
    assert!(same_text(&chars("abc"), &chars("abc")));
    assert!(same_text(&chars(""), &chars("")));
    assert!(!same_text(&chars("abc"), &chars("abd")));
    assert!(!same_text(&chars("abc"), &chars("ab")));
    assert!(!same_text(&chars(""), &chars("a")));
}

#[test]
fn last_word_agrees_with_the_standard_library() {
    for sample in ["", " ", "one", " one ", "one two", "one  two\t\n", "é ü\u{a0}", "a\u{200b}b c"] {
        let found = find_last_word(&chars(sample)).map(|word| text(&word));
        let expected = sample.split_whitespace().last().map(|word| word.to_string());
        assert_eq!(found, expected);
    }
}

#[test]
fn contains_text_agrees_with_the_standard_library() {
    let hay = "abracadabra";
    for needle in ["", "a", "abra", "cad", "dabra", "abracadabra", "abracadabrax", "bb", "raa"] {
        assert_eq!(contains_text(&chars(hay), &chars(needle)), hay.contains(needle));
    }
}
