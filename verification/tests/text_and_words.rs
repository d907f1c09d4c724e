use mam_audiofinder::numbers::{decimal_text, parse_number};
use mam_audiofinder::text::{
    contains, eq_ignore_case, has_char, is_blank, is_white, join, replace_char, split, split_once,
    starts_with, take_chars, trim, trim_end_of, trim_of, trim_start_of, CharClass,
};
use mam_audiofinder::words::{
    is_truthy_str, is_truthy_word, media_main_category, media_type_from_word, normalize_media_type,
    parse_positive_int,
};

#[test]
fn white_space_is_that_of_the_standard_library() {
    for n in 0..0x11_0000u32 {
        if let Some(c) = char::from_u32(n) {
            assert_eq!(is_white(c), c.is_whitespace(), "{:x}", n);
        }
    }
}

#[test]
fn trimming_is_that_of_the_standard_library() {
    for s in ["", "  ", " a b ", "\u{3000}x\u{a0}\n", "no", "//a//", "{{a},b}"] {
        assert_eq!(trim(s), s.trim());
        assert_eq!(is_blank(s), s.trim().is_empty());
        assert_eq!(trim_start_of(s, CharClass::Just('/')), s.trim_start_matches('/'));
        assert_eq!(trim_end_of(s, CharClass::Just('/')), s.trim_end_matches('/'));
        assert_eq!(trim_of(s, CharClass::Curly), s.trim_matches(|c| c == '{' || c == '}'));
        assert_eq!(trim_of(s, CharClass::White), s.trim());
    }
}

#[test]
fn splitting_and_joining_are_those_of_the_standard_library() {
    for s in ["", ",", "a", "a,b", ",a,,b,"] {
        let pieces = split(s, ',');
        assert_eq!(pieces, s.split(',').map(str::to_owned).collect::<Vec<_>>());
        assert_eq!(join(&pieces, ","), s);
        assert_eq!(
            split_once(s, ','),
            s.split_once(',').map(|(a, b)| (a.to_owned(), b.to_owned()))
        );
        assert_eq!(has_char(s, ','), s.contains(','));
        assert_eq!(replace_char(s, ',', " -"), s.replace(',', " -"));
    }
    assert_eq!(join(&Vec::new(), "/"), "");
}

#[test]
fn searching_is_that_of_the_standard_library() {
    for s in ["", "mam", "mam_id=1", "x mam_id=", "mam_i"] {
        for needle in ["", "mam", "mam_id="] {
            assert_eq!(contains(s, needle), s.contains(needle));
            assert_eq!(starts_with(s, needle), s.starts_with(needle));
        }
    }
    assert_eq!(take_chars("héllo", 2), "hé");
    assert_eq!(take_chars("ab", 5), "ab");
    assert!(eq_ignore_case("CuE", "cue"));
    assert!(!eq_ignore_case("cue", "cue "));
    assert!(!eq_ignore_case("É", "é"));
}

#[test]
fn numbers_are_read_in_any_base_up_to_ten() {
    assert_eq!(parse_number("0", 10, u64::MAX), Some(0));
    assert_eq!(parse_number("18446744073709551615", 10, u64::MAX), Some(u64::MAX));
    assert_eq!(parse_number("18446744073709551616", 10, u64::MAX), None);
    assert_eq!(parse_number("+7", 10, 10), Some(7));
    assert_eq!(parse_number("+", 10, 10), None);
    assert_eq!(parse_number("", 10, 10), None);
    assert_eq!(parse_number("-1", 10, 10), None);
    assert_eq!(parse_number("0022", 8, 0xFFFF_FFFF), Some(18));
    assert_eq!(parse_number("8", 8, 100), None);
    assert_eq!(parse_number("11", 10, 10), None);
}

#[test]
fn decimal_digits_give_their_number_back() {
    for n in [0u64, 7, 10, 99, 100, 12345, u64::MAX] {
        assert_eq!(decimal_text(n), n.to_string());
        assert_eq!(parse_number(&decimal_text(n), 10, u64::MAX), Some(n));
    }
}

#[test]
fn switches_are_read_in_any_case() {
    for word in ["1", "true", "TRUE", " Yes ", "on\n"] {
        assert!(is_truthy_str(word), "{}", word);
    }
    for word in ["", "0", "false", "off", "2", "y"] {
        assert!(!is_truthy_str(word), "{}", word);
    }
    assert!(is_truthy_word("on"));
    assert!(!is_truthy_word("ON"));
}

#[test]
fn positive_numbers_fall_back_to_the_default() {
    assert_eq!(parse_positive_int(" 45 ", 30), 45);
    assert_eq!(parse_positive_int("+45", 30), 45);
    assert_eq!(parse_positive_int("0", 30), 30);
    assert_eq!(parse_positive_int("-5", 30), 30);
    assert_eq!(parse_positive_int("soon", 30), 30);
}

#[test]
fn media_types_have_several_names() {
    for name in ["audiobook", "Audiobooks", " AUDIO "] {
        assert_eq!(normalize_media_type(Some(name)).unwrap(), "audiobook");
    }
    for name in ["ebook", "eBooks", "E-Book", " e-books\t"] {
        assert_eq!(normalize_media_type(Some(name)).unwrap(), "ebook");
    }
    assert_eq!(normalize_media_type(None).unwrap(), "audiobook");
}

#[test]
fn unknown_media_types_are_refused() {
    for name in ["", "film", "e book"] {
        let e = normalize_media_type(Some(name)).unwrap_err();
        assert_eq!(e.status.code(), 400);
        assert_eq!(e.detail, "media_type must be audiobook or ebook");
    }
    assert!(media_type_from_word("EBOOK").is_err());
}

#[test]
fn media_types_have_a_main_category() {
    assert_eq!(media_main_category("ebook"), "14");
    assert_eq!(media_main_category("audiobook"), "13");
}
