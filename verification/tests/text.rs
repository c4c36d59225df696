use name_registry::text::{blank, chars_of, field_bounds, find, trim, trim_bounds};

#[test]
fn blank_is_unicode_white_space() {
    for code in 0..=0x10ffffu32 {
        if let Some(c) = char::from_u32(code) {
            assert_eq!(blank(c), c.is_whitespace(), "U+{:04X}", code);
        }
    }
}

#[test]
fn chars_of_lists_every_character() {
    assert_eq!(chars_of(""), Vec::<char>::new());
    assert_eq!(chars_of("aé|ñ"), vec!['a', 'é', '|', 'ñ']);
}

#[test]
fn find_gives_the_first_place_or_the_end() {
    let s = chars_of("a.b.c");
    assert_eq!(find(&s, 0, '.'), 1);
    assert_eq!(find(&s, 1, '.'), 1);
    assert_eq!(find(&s, 2, '.'), 3);
    assert_eq!(find(&s, 4, '.'), 5);
    assert_eq!(find(&s, 5, '.'), 5);
    assert_eq!(find(&s, 0, '|'), 5);
}

fn split_with_bounds(text: &str, sep: char) -> Vec<String> {
    let chars = chars_of(text);
    field_bounds(&chars, sep)
        .into_iter()
        .map(|(from, to)| chars[from..to].iter().collect())
        .collect()
}

#[test]
fn fields_are_what_split_gives() {
    for text in [
        "", "a", "|", "a|", "|a", "a|b", "a||b", "||", "a|b|c", "onlyonepart", "ñ|é|", "1.2.3.4",
    ] {
        for sep in ['|', '.'] {
            let expected: Vec<String> = text.split(sep).map(|p| p.to_string()).collect();
            assert_eq!(split_with_bounds(text, sep), expected, "{:?} by {:?}", text, sep);
        }
    }
}

#[test]
fn an_empty_text_is_one_empty_field() {
    assert_eq!(field_bounds(&[], '|'), vec![(0, 0)]);
}

#[test]
fn trim_is_what_std_trims() {
    for text in [
        "",
        " ",
        "   ",
        "a",
        " a",
        "a ",
        "  a b  ",
        "\t\r\nname\u{a0}\u{2003}",
        "\u{3000}x\u{3000}",
        "in ner",
        "\u{200b}zero width is no blank\u{200b}",
    ] {
        assert_eq!(trim(text), text.trim(), "{:?}", text);
    }
}

#[test]
fn trim_bounds_stay_inside_the_stretch() {
    let s = chars_of("ab  cd  ef");
    assert_eq!(trim_bounds(&s, 2, 8), (4, 6));
    assert_eq!(trim_bounds(&s, 2, 4), (4, 4));
    assert_eq!(trim_bounds(&s, 0, 10), (0, 10));
    assert_eq!(trim_bounds(&s, 3, 3), (3, 3));
}
