use kimi_ui::text::{
    chars_of, cut_at_first, cut_at_last, cut_at_str, ends_with, fields, has_char, has_str, owned,
    parse_number, replace, same, starts_with, string_of, strip_leading, strip_leading_str,
    strip_prefix, strip_trailing, tail_chars, to_decimal, trim, truncate_chars, until_char, words,
};

const SAMPLES: [&str; 10] = [
    "",
    " ",
    "a",
    "  a b\t\n",
    "会话 标题",
    "a,b,,c",
    ",",
    "xx%yy%",
    "\u{3000}x\u{85}",
    "--a--",
];

#[test]
fn truncates_on_char_boundaries() {
    assert_eq!(truncate_chars("abcde", 3), "abc");
    assert_eq!(truncate_chars("会话标题很长", 4), "会话标题");
    assert_eq!(truncate_chars("短", 10), "短");
    assert_eq!(truncate_chars("", 10), "");
}

#[test]
fn tails_on_char_boundaries() {
    assert_eq!(tail_chars("abcde", 3), "cde");
    assert_eq!(tail_chars("会话标题很长", 4), "标题很长");
    assert_eq!(tail_chars("短", 10), "短");
}

#[test]
fn agrees_with_the_standard_library() {
    for s in SAMPLES {
        assert_eq!(trim(s), s.trim());
        assert_eq!(owned(s), s);
        assert_eq!(chars_of(s), s.chars().collect::<Vec<char>>());
        assert_eq!(words(s), s.split_whitespace().map(str::to_string).collect::<Vec<_>>());
        for c in [',', '-', '%', 'a', '会'] {
            assert_eq!(fields(s, c), s.split(c).map(str::to_string).collect::<Vec<_>>());
            assert_eq!(has_char(s, c), s.contains(c));
            assert_eq!(strip_leading(s, c), s.trim_start_matches(c));
            assert_eq!(strip_trailing(s, c), s.trim_end_matches(c));
            assert_eq!(replace(s, c, "<>"), s.replace(c, "<>"));
            assert_eq!(until_char(s, c), s.split(c).next().unwrap());
            assert_eq!(
                cut_at_first(s, c),
                s.split_once(c).map(|(a, b)| (a.to_string(), b.to_string()))
            );
            assert_eq!(
                cut_at_last(s, c),
                s.rsplit_once(c).map(|(a, b)| (a.to_string(), b.to_string()))
            );
        }
        for p in ["a", "xx", "-", "会话", "zz", "b,"] {
            assert_eq!(starts_with(s, p), s.starts_with(p));
            assert_eq!(ends_with(s, p), s.ends_with(p));
            assert_eq!(has_str(s, p), s.contains(p));
            assert_eq!(strip_leading_str(s, p), s.trim_start_matches(p));
            assert_eq!(strip_prefix(s, p), s.strip_prefix(p).map(str::to_string));
            assert_eq!(
                cut_at_str(s, p),
                s.split_once(p).map(|(a, b)| (a.to_string(), b.to_string()))
            );
            assert_eq!(same(s, p), s == p);
        }
    }
}

#[test]
fn every_white_space_is_trimmed() {
    for n in 0..0x110000u32 {
        if let Some(c) = char::from_u32(n) {
            let trimmed = trim(&c.to_string()).is_empty();
            assert_eq!(trimmed, c.is_whitespace(), "{n:x}");
        }
    }
}

#[test]
fn decimals_read_back() {
    for n in [0u64, 7, 10, 58627, 4294967295, 18446744073709551615] {
        assert_eq!(to_decimal(n), n.to_string());
    }
    for n in [0u32, 9, 99, 65535] {
        assert_eq!(parse_number(&to_decimal(n as u64), 65535), Some(n));
    }
}

#[test]
fn numbers_are_read_like_the_standard_library_reads_them() {
    for s in ["", "+", "-1", "0", "+8", "007", "65535", "65536", "99999999999", "1 ", "1x", "++1"] {
        assert_eq!(parse_number(s, 65535), s.parse::<u16>().ok().map(|n| n as u32), "{s}");
        assert_eq!(parse_number(s, u32::MAX), s.parse::<u32>().ok(), "{s}");
    }
}

#[test]
fn characters_make_strings() {
    let chars = chars_of("会话标题");
    assert_eq!(string_of(&chars, 1, 3), "话标");
    assert_eq!(string_of(&chars, 0, 4), "会话标题");
    assert_eq!(string_of(&chars, 2, 2), "");
}
