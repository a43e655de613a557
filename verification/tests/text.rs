use autokey_rust::order::comes_before;
use autokey_rust::text::{
    concat3, contains, eq_ignore_ascii_case, format_decimal, format_hexadecimal, nth_line,
    same_text, starts_with, to_chars, trim, trim_and_take,
};

#[test]
fn text_operations_agree_with_the_standard_library() {
    let samples = [
        "", " ", "a", " a ", "\u{3000}x\u{85}", "\t\r\n", "ab", "aB", "默认", "a\u{200B}", "aab",
    ];
    for a in samples {
        assert_eq!(trim(a), a.trim());
        assert_eq!(trim_and_take(a, 1), a.trim().chars().take(1).collect::<String>());
        for b in samples {
            assert_eq!(same_text(a, b), a == b);
            assert_eq!(contains(a, b), a.contains(b));
            assert_eq!(starts_with(a, b), a.starts_with(b));
            assert_eq!(eq_ignore_ascii_case(a, b), a.eq_ignore_ascii_case(b));
            assert_eq!(comes_before(a, b), a < b);
            assert_eq!(concat3(a, b, a), format!("{a}{b}{a}"));
        }
    }
    for n in [0u64, 7, 10, 99, 100, 4096, u64::MAX] {
        assert_eq!(format_decimal(n), format!("{n}"));
        assert_eq!(format_hexadecimal(n), format!("{n:x}"));
    }
}

#[test]
fn lines_agree_with_the_standard_library() {
    for text in ["", "a", "a\nb", "a\r\n b \r\n", "\n\nx", "\n"] {
        let chars = to_chars(text);
        let lines: Vec<&str> = text.lines().collect();
        for n in 0..4 {
            let expected = lines.get(n).map(|line| line.trim()).unwrap_or_default();
            assert_eq!(nth_line(&chars, n), expected);
        }
    }
}

#[test]
fn white_space_is_that_of_unicode() {
    for c in '\0'..='\u{10FFFF}' {
        assert_eq!(autokey_rust::text::is_whitespace(c), c.is_whitespace());
        assert_eq!(autokey_rust::text::is_control(c), c.is_control());
        assert_eq!(autokey_rust::text::is_ascii_alphanumeric(c), c.is_ascii_alphanumeric());
        assert_eq!(autokey_rust::text::to_upper(c), c.to_ascii_uppercase());
    }
}
