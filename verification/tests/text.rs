use appstore::text;

const SAMPLES: [&str; 12] = [
    "",
    " ",
    "Notes",
    "  two words\t",
    "\u{3000}wide\u{a0}",
    "ÄÖÜ straße",
    "MiXeD 123",
    "a;b;c",
    ";",
    "slashes///",
    "///",
    "日本語 app",
];

#[test]
fn white_space_is_that_of_unicode() {
    for code in 0..=0x10ffffu32 {
        if let Some(c) = char::from_u32(code) {
            assert_eq!(text::is_white_space(c), c.is_whitespace(), "{code:x}");
        }
    }
}

#[test]
fn trimming_takes_white_space_off_both_ends() {
    assert_eq!(text::trim("  two words\t"), "two words");
    for sample in SAMPLES {
        assert_eq!(text::trim(sample), sample.trim());
        assert_eq!(text::is_blank(sample), sample.trim().is_empty());
    }
}

#[test]
fn trailing_characters_are_taken_off() {
    assert_eq!(text::trim_end("slashes///", '/'), "slashes");
    for sample in SAMPLES {
        assert_eq!(text::trim_end(sample, '/'), sample.trim_end_matches('/'));
    }
}

#[test]
fn the_front_ends_at_the_first_separator() {
    assert_eq!(text::split_front("image/png; q=1; x", ';'), "image/png");
    for sample in SAMPLES {
        assert_eq!(text::split_front(sample, ';'), sample.split(';').next().unwrap_or(""));
    }
}

#[test]
fn only_ascii_letters_change_case() {
    for sample in SAMPLES {
        let lower: String = text::lower_chars(sample).into_iter().collect();
        assert_eq!(lower, sample.to_ascii_lowercase());
        for other in SAMPLES {
            assert_eq!(
                text::same_ignoring_case(sample, other),
                sample.eq_ignore_ascii_case(other)
            );
            assert_eq!(text::same_text(sample, other), sample == other);
        }
    }
    assert!(text::same_ignoring_case("Image/PNG", "image/png"));
    assert!(!text::same_ignoring_case("Ä", "ä"));
}

#[test]
fn parts_are_found_wherever_they_stand() {
    for sample in SAMPLES {
        for part in ["", "o", "words", "words ", "本語", "zz", "///", "////"] {
            assert_eq!(
                text::contains_chars(&text::chars_of(sample), &text::chars_of(part)),
                sample.contains(part)
            );
            assert_eq!(text::starts_with(sample, part), sample.starts_with(part));
            assert_eq!(text::strip_prefix(sample, part).as_deref(), sample.strip_prefix(part));
        }
    }
}

#[test]
fn numbers_are_written_in_decimal() {
    for n in [0u64, 7, 10, 99, 100, 4294967296, u64::MAX] {
        let mut written = String::from("n=");
        text::push_decimal(&mut written, n);
        assert_eq!(written, format!("n={n}"));
    }
    for n in [0i32, -1, 5, i32::MAX, i32::MIN] {
        let mut written = String::new();
        text::push_signed_decimal(&mut written, n);
        assert_eq!(written, format!("{n}"));
    }
}

#[test]
fn texts_are_joined_and_cut() {
    assert_eq!(text::joined("Get ", "Notes"), "Get Notes");
    assert_eq!(text::text_of(&text::chars_of("日本語 app"), 1, 5), "本語 a");
}
