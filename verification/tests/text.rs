use advanzia2csv::text::{
    chars_of, cut, find_marker, is_white_space_char, join_lines, split_first_line, trim,
};

#[test]
fn white_space_agrees_with_the_standard_library() {
    for code in 0..=0x10FFFFu32 {
        if let Some(c) = char::from_u32(code) {
            assert_eq!(is_white_space_char(c), c.is_whitespace(), "U+{:04X}", code);
        }
    }
}

#[test]
fn trim_removes_white_space_at_both_ends() {
    assert_eq!(trim("  a b \n"), "a b");
    assert_eq!(trim("x"), "x");
    assert_eq!(trim(""), "");
    assert_eq!(trim(" \n\t\r"), "");
    assert_eq!(trim("\u{3000}x\u{a0}y\u{2028}"), "x\u{a0}y");
    assert_eq!(trim("\u{feff}x"), "\u{feff}x");
    for s in ["", " ", "a", " a", "a ", "\nä ö\u{85}", "\u{200b} z \u{200a}"] {
        assert_eq!(trim(s), s.trim());
    }
}

#[test]
fn first_line_ends_at_the_first_line_feed() {
    assert_eq!(split_first_line("a\nb\nc"), Some(("a", "b\nc")));
    assert_eq!(split_first_line("\nabc"), Some(("", "abc")));
    assert_eq!(split_first_line("abc\n"), Some(("abc", "")));
    assert_eq!(split_first_line("ä\nö"), Some(("ä", "ö")));
    assert_eq!(split_first_line("abc"), None);
    assert_eq!(split_first_line(""), None);
}

#[test]
fn lines_are_joined_with_comma_and_space() {
    assert_eq!(join_lines("a\nb"), "a, b");
    assert_eq!(join_lines("a\n\nb"), "a, , b");
    assert_eq!(join_lines("\n"), ", ");
    assert_eq!(join_lines("ä ö"), "ä ö");
    assert_eq!(join_lines(""), "");
    assert_eq!(join_lines("x\ny\n"), "x\ny\n".replace("\n", ", "));
}

#[test]
fn marker_is_found_at_its_first_byte_offset() {
    assert_eq!(find_marker("xxALTERyyALTER", "ALTER"), Some(2));
    assert_eq!(find_marker("äöALTER", "ALTER"), Some(4));
    assert_eq!(find_marker("ALTE", "ALTER"), None);
    assert_eq!(find_marker("", "ALTER"), None);
    assert_eq!(find_marker("abc", ""), Some(0));
    assert_eq!(find_marker("aab", "ab"), Some(1));
    for (hay, needle) in [("abcabc", "ca"), ("ä€ä€", "€"), ("nothing", "x")] {
        assert_eq!(find_marker(hay, needle), hay.find(needle));
    }
}

#[test]
fn cut_takes_the_bytes_between_two_offsets() {
    assert_eq!(cut("héllo", 1, 3), "é");
    assert_eq!(cut("héllo", 0, 6), "héllo");
    assert_eq!(cut("héllo", 3, 3), "");
}

#[test]
fn chars_are_decoded_in_order() {
    assert_eq!(chars_of("a€ö"), vec!['a', '€', 'ö']);
    assert_eq!(chars_of(""), Vec::<char>::new());
}
