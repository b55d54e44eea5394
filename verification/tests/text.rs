use mcproxy::text::{
    chars_of, comes_before, contains_text, decimal_text, joined, parse_number, position_of,
    same_text, same_text_but_case, split_list, trim, white_space, NumberError,
};

const SAMPLES: [&str; 14] = [
    "",
    " ",
    "a",
    "___",
    "a___b",
    "_____",
    "server1___file_search",
    "\u{a0} Zoë\u{2009}\t",
    "zebra",
    "Zebra",
    "日本語___ツール",
    "\u{10ffff}",
    "\u{e000}x",
    "a,b, c ,,d",
];

#[test]
fn white_space_is_that_of_unicode() {
    for code in 0..=0x10ffffu32 {
        if let Some(c) = char::from_u32(code) {
            assert_eq!(white_space(c), c.is_whitespace(), "{:x}", code);
        }
    }
}

#[test]
fn trimming_takes_white_space_off_both_ends() {
    for sample in SAMPLES {
        assert_eq!(trim(sample), sample.trim());
    }
    assert_eq!(trim("\n\u{3000} x y \u{85}"), "x y");
}

#[test]
fn a_text_is_its_characters() {
    for sample in SAMPLES {
        assert_eq!(chars_of(sample), sample.chars().collect::<Vec<char>>());
        for other in SAMPLES {
            assert_eq!(same_text(sample, other), sample == other);
            assert_eq!(joined(sample, other), format!("{}{}", sample, other));
        }
    }
}

#[test]
fn the_first_position_is_found() {
    assert_eq!(position_of("a___b", "___"), Some(1));
    assert_eq!(position_of("a____b", "___"), Some(1));
    assert_eq!(position_of("日本語___ツール", "___"), Some(3));
    assert_eq!(position_of("a__b", "___"), None);
    assert_eq!(position_of("abc", ""), Some(0));
    assert_eq!(position_of("", "a"), None);
    for sample in SAMPLES {
        for part in SAMPLES {
            let expected = sample.find(part).map(|at| sample[..at].chars().count());
            assert_eq!(position_of(sample, part), expected);
            assert_eq!(contains_text(sample, part), sample.contains(part));
        }
    }
}

#[test]
fn a_list_is_split_at_its_separators() {
    assert_eq!(split_list("a,b, c ,,d", ','), vec!["a", "b", "c", "d"]);
    assert!(split_list("", ',').is_empty());
    assert!(split_list(" , ,\t", ',').is_empty());
    assert_eq!(split_list("http://a, http://b", ','), vec!["http://a", "http://b"]);
    for sample in SAMPLES {
        let expected: Vec<String> = sample
            .split(',')
            .map(|part| part.trim().to_string())
            .filter(|part| !part.is_empty())
            .collect();
        assert_eq!(split_list(sample, ','), expected);
    }
}

#[test]
fn numbers_are_written_in_decimal() {
    for number in [0u64, 7, 10, 25, 99, 100, 65535, u64::MAX] {
        assert_eq!(decimal_text(number), number.to_string());
    }
}

#[test]
fn numbers_are_read_as_the_standard_library_does() {
    let texts = [
        "", "+", "-", "0", "007", "8080", "+8080", "++1", "-1", "65535", "65536", "99999", "x1",
        "1x", " 1", "18446744073709551615", "18446744073709551616", "777", "789", "99999999999x",
        "37777777777", "40000000000",
    ];
    for text in texts {
        let message = |error: &NumberError| error.message().to_string();
        assert_eq!(
            parse_number(text, 10, 65535).map_err(|e| message(&e)),
            text.parse::<u16>().map(u64::from).map_err(|e| e.to_string()),
            "{}",
            text
        );
        assert_eq!(
            parse_number(text, 10, u64::MAX).map_err(|e| message(&e)),
            text.parse::<u64>().map_err(|e| e.to_string()),
            "{}",
            text
        );
        assert_eq!(
            parse_number(text, 8, 0xffff_ffff).map_err(|e| message(&e)),
            u32::from_str_radix(text, 8).map(u64::from).map_err(|e| e.to_string()),
            "{}",
            text
        );
    }
    assert_eq!(parse_number("", 10, 9), Err(NumberError::Empty));
    assert_eq!(parse_number("a", 10, 9), Err(NumberError::InvalidDigit));
    assert_eq!(parse_number("10", 10, 9), Err(NumberError::TooLarge));
}

#[test]
fn texts_have_the_order_of_their_characters() {
    for a in SAMPLES {
        for b in SAMPLES {
            assert_eq!(comes_before(a, b), a < b, "{:?} {:?}", a, b);
        }
    }
}

#[test]
fn words_are_compared_without_their_case() {
    let words = ["true", "1", "yes", "on", "false", "0", "no", "off"];
    let texts = [
        "TRUE", "True", "tRuE", "yes", "YES", "On", "oN", "OFF", "No", "1", "0", "", "y", "truee",
        "\u{17f}", "ye\u{17f}", "\u{212a}", "ON ", "Ｏn",
    ];
    for word in words {
        for text in texts {
            assert_eq!(same_text_but_case(text, word), text.to_lowercase() == word);
        }
    }
}
