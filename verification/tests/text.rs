use ivshmem::text::char_is_whitespace;
use ivshmem::text::chars_of;
use ivshmem::text::find_char;
use ivshmem::text::parse_unsigned;
use ivshmem::text::range_is;
use ivshmem::text::trim_bounds;
use ivshmem::text::NumberError;

fn trimmed(text: &str) -> String {
    let chars = chars_of(text);
    let (start, end) = trim_bounds(&chars);
    chars[start..end].iter().collect()
}

fn number(text: &str, max: u64) -> Result<u64, NumberError> {
    let chars = chars_of(text);
    parse_unsigned(&chars, 0, chars.len(), max)
}

#[test]
fn chars_of_lists_the_characters() {
    assert_eq!(chars_of(""), Vec::<char>::new());
    assert_eq!(chars_of("int 1"), vec!['i', 'n', 't', ' ', '1']);
    assert_eq!(chars_of("é\u{3000}x"), vec!['é', '\u{3000}', 'x']);
}

#[test]
fn whitespace_is_what_std_says() {
    for code in 0u32..=0x3100 {
        if let Some(c) = char::from_u32(code) {
            assert_eq!(char_is_whitespace(c), c.is_whitespace(), "U+{:04X}", code);
        }
    }
    assert!(!char_is_whitespace('\u{feff}'));
    assert!(!char_is_whitespace('\u{10ffff}'));
}

#[test]
fn trim_agrees_with_std() {
    for text in ["", " ", "dump", "  dump\n", "\tint 1 all \r\n", " a b ", "\u{a0}x\u{2003}", "\n\n", "x "] {
        assert_eq!(trimmed(text), text.trim());
    }
}

#[test]
fn find_char_finds_the_first_in_range() {
    let chars = chars_of("a b c");
    assert_eq!(find_char(&chars, 0, 5, ' '), 1);
    assert_eq!(find_char(&chars, 2, 5, ' '), 3);
    assert_eq!(find_char(&chars, 4, 5, ' '), 5);
    assert_eq!(find_char(&chars, 0, 1, ' '), 1);
    assert_eq!(find_char(&chars, 2, 2, ' '), 2);
}

#[test]
fn range_is_compares_a_range_with_a_word() {
    let chars = chars_of("int all");
    let int: Vec<char> = vec!['i', 'n', 't'];
    assert!(range_is(&chars, 0, 3, &int));
    assert!(!range_is(&chars, 0, 4, &int));
    assert!(!range_is(&chars, 1, 4, &int));
    assert!(range_is(&chars, 2, 2, &Vec::new()));
}

#[test]
fn numbers_parse_as_std_parses_them() {
    for text in ["0", "7", "007", "+7", "65535", "65536", "", "+", "-1", "1 ", " 1", "1_0", "12a", "a", "++1", "99999999999"] {
        assert_eq!(number(text, 65535).ok(), text.parse::<u16>().ok().map(u64::from), "{:?}", text);
    }
    for text in ["18446744073709551615", "18446744073709551616", "000018446744073709551615"] {
        assert_eq!(number(text, u64::MAX).ok(), text.parse::<u64>().ok(), "{:?}", text);
    }
}

#[test]
fn number_errors_say_what_is_wrong() {
    assert_eq!(number("", 10), Err(NumberError::Empty));
    assert_eq!(number("+", 10), Err(NumberError::InvalidDigit));
    assert_eq!(number("x", 10), Err(NumberError::InvalidDigit));
    assert_eq!(number("1x", 10), Err(NumberError::InvalidDigit));
    assert_eq!(number("11", 10), Err(NumberError::Overflow));
    assert_eq!(number("11x", 10), Err(NumberError::Overflow));
    assert_eq!(number("1x1", 10), Err(NumberError::InvalidDigit));
    assert_eq!(number("10", 10), Ok(10));
    assert_eq!(number("0", 0), Ok(0));
    assert_eq!(number("1", 0), Err(NumberError::Overflow));
}

#[test]
fn number_is_read_within_the_given_range() {
    let chars = chars_of("int 12 34");
    assert_eq!(parse_unsigned(&chars, 4, 6, 65535), Ok(12));
    assert_eq!(parse_unsigned(&chars, 7, 9, 65535), Ok(34));
    assert_eq!(parse_unsigned(&chars, 4, 9, 65535), Err(NumberError::InvalidDigit));
    assert_eq!(parse_unsigned(&chars, 4, 4, 65535), Err(NumberError::Empty));
}
