use raycaster::description::{characters, find_line_end, is_white_space, parse_size};

fn size_of(line: &str) -> Option<usize> {
    let chars: Vec<char> = line.chars().collect();
    parse_size(&chars)
}

#[test]
fn characters_are_taken_one_by_one() {
    assert_eq!(characters("a#é\n"), vec!['a', '#', 'é', '\n']);
    assert_eq!(characters(""), Vec::<char>::new());
}

#[test]
fn white_space_is_what_unicode_says() {
    for c in [
        '\t', '\n', '\u{b}', '\u{c}', '\r', ' ', '\u{85}', '\u{a0}', '\u{1680}', '\u{2000}',
        '\u{2005}', '\u{200a}', '\u{2028}', '\u{2029}', '\u{202f}', '\u{205f}', '\u{3000}',
    ] {
        assert!(is_white_space(c));
        assert!(c.is_whitespace());
    }
    for c in ['a', '0', '#', '_', '\u{8}', '\u{e}', '\u{200b}', '\u{1f}', '\u{2001f}', '\u{feff}'] {
        assert!(!is_white_space(c));
        assert!(!c.is_whitespace());
    }
}

#[test]
fn white_space_agrees_with_the_standard_library_everywhere() {
    for n in 0..=0x10FFFF_u32 {
        if let Some(c) = char::from_u32(n) {
            assert_eq!(is_white_space(c), c.is_whitespace());
        }
    }
}

#[test]
fn size_is_read_in_base_ten() {
    assert_eq!(size_of("0"), Some(0));
    assert_eq!(size_of("7"), Some(7));
    assert_eq!(size_of("16"), Some(16));
    assert_eq!(size_of("0016"), Some(16));
    assert_eq!(size_of("+16"), Some(16));
    assert_eq!(size_of(" 1 6\t\n"), Some(16));
    assert_eq!(size_of(" + 1 6 "), Some(16));
    assert_eq!(size_of(&format!("{}", usize::MAX)), Some(usize::MAX));
}

#[test]
fn size_agrees_with_the_standard_library() {
    for line in ["12", "+12", "-12", "", "+", "1+", "12a", "a12", "1_000", "٣", "0x1f", "1e3"] {
        assert_eq!(size_of(line), line.parse::<usize>().ok());
    }
}

#[test]
fn size_must_be_digits() {
    assert_eq!(size_of(""), None);
    assert_eq!(size_of("   "), None);
    assert_eq!(size_of("+"), None);
    assert_eq!(size_of("-1"), None);
    assert_eq!(size_of("1+"), None);
    assert_eq!(size_of("+-1"), None);
    assert_eq!(size_of("12x"), None);
    assert_eq!(size_of("x12"), None);
    assert_eq!(size_of("1.0"), None);
    assert_eq!(size_of("１２"), None);
}

#[test]
fn size_must_fit() {
    assert_eq!(size_of(&format!("{}0", usize::MAX)), None);
    assert_eq!(size_of(&format!("{}", usize::MAX as u128 + 1)), None);
    assert_eq!(size_of("340282366920938463463374607431768211456"), None);
    assert_eq!(size_of("340282366920938463463374607431768211456x"), None);
}

#[test]
fn line_ends_at_the_next_break() {
    let text: Vec<char> = "ab\ncd\n\nef".chars().collect();
    assert_eq!(find_line_end(&text, 0), 2);
    assert_eq!(find_line_end(&text, 1), 2);
    assert_eq!(find_line_end(&text, 2), 2);
    assert_eq!(find_line_end(&text, 3), 5);
    assert_eq!(find_line_end(&text, 6), 6);
    assert_eq!(find_line_end(&text, 7), 9);
    assert_eq!(find_line_end(&text, 9), 9);
    assert_eq!(find_line_end(&text, 100), 9);
    assert_eq!(find_line_end(&Vec::new(), 0), 0);
}
