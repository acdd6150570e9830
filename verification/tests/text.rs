use cts6_emulator::text;

fn chars(s: &str) -> Vec<char> {
    s.chars().collect()
}

fn strings(v: &[Vec<char>]) -> Vec<String> {
    v.iter().map(|w| w.iter().collect()).collect()
}

#[test]
fn numbers_are_written_in_decimal() {
    assert_eq!(text::dec_string(0), "0");
    assert_eq!(text::dec_string(10), "10");
    assert_eq!(text::dec_string(u64::MAX), "18446744073709551615");
    let mut s = String::from("n=");
    text::put_dec_left(&mut s, 7, 3);
    assert_eq!(s, "n=  7");
    text::put_dec_left(&mut s, 12345, 3);
    assert_eq!(s, "n=  712345");
}

#[test]
fn numbers_are_read_like_the_standard_library_reads_them() {
    for s in ["0", "7", "+7", "255", "256", "007", "", "+", "-1", "1a", " 1", "99999999999999999999"] {
        assert_eq!(text::parse_u8(&chars(s)), s.parse::<u8>().ok(), "{s:?}");
        assert_eq!(text::parse_u16(&chars(s)), s.parse::<u16>().ok(), "{s:?}");
        assert_eq!(text::parse_usize(&chars(s)), s.parse::<usize>().ok(), "{s:?}");
    }
    assert_eq!(text::parse_u16(&chars("65535")), Some(65535));
    assert_eq!(text::parse_u16(&chars("65536")), None);
    assert_eq!(text::parse_usize(&chars("18446744073709551615")), "18446744073709551615".parse().ok());
}

#[test]
fn a_number_reads_back() {
    for n in [0u16, 1, 9, 10, 99, 100, 65535] {
        assert_eq!(text::parse_u16(&chars(&text::dec_string(n as u64))), Some(n));
    }
}

#[test]
fn white_space_is_unicode_white_space() {
    for u in 0..=0x10FFFFu32 {
        if let Some(c) = char::from_u32(u) {
            assert_eq!(text::space(c), c.is_whitespace(), "U+{u:04X}");
        }
    }
}

#[test]
fn ascii_case_mapping() {
    for u in 0..=0x2FFu32 {
        let c = char::from_u32(u).unwrap();
        assert_eq!(text::to_upper_char(c), c.to_ascii_uppercase());
        assert_eq!(text::to_lower_char(c), c.to_ascii_lowercase());
    }
    assert_eq!(text::to_upper(&chars("fr-é")), chars("FR-é"));
    assert_eq!(text::to_lower(&chars("Fly É")), chars("fly É"));
}

#[test]
fn texts_are_trimmed_and_split_into_words() {
    assert_eq!(text::trim(&chars("  a b\t\n")), chars("a b"));
    assert_eq!(text::trim(&chars(" \u{3000} ")), chars(""));
    assert_eq!(strings(&text::split_words(&chars("  1  3\t5 "))), ["1", "3", "5"]);
    assert!(text::split_words(&chars(" \n ")).is_empty());
    assert_eq!(strings(&text::split_words(&chars("word"))), ["word"]);
}

#[test]
fn words_are_joined_with_single_blanks() {
    let ws = vec![chars("slot"), chars("rename"), chars("big"), chars("meet")];
    assert_eq!(text::join_words(&ws, 2), "big meet");
    assert_eq!(text::join_words(&ws, 3), "meet");
    assert_eq!(text::join_words(&ws, 4), "");
}

#[test]
fn texts_contain_texts() {
    assert!(text::has_text(&chars("butterfly"), "fly"));
    assert!(text::has_text(&chars("fly"), ""));
    assert!(!text::has_text(&chars("fl"), "fly"));
}

#[test]
fn texts_are_padded() {
    let mut s = String::new();
    text::put_pad_left(&mut s, "DQ", 5);
    text::put_pad_right(&mut s, "é", 3);
    text::put_pad_left(&mut s, "long", 2);
    text::put_repeated(&mut s, '-', 3);
    assert_eq!(s, "   DQé  long---");
}

#[test]
fn texts_are_cut_at_bytes() {
    assert_eq!(text::bytes_in("aé"), 3);
    assert!(text::is_boundary("aé", 1));
    assert!(!text::is_boundary("aé", 2));
    assert!(text::is_boundary("aé", 3));
    assert!(!text::is_boundary("aé", 4));
    assert_eq!(text::cut("aéb", 3), ("aé".to_string(), "b".to_string()));
    assert_eq!(text::cut("ab", 0), (String::new(), "ab".to_string()));
}

#[test]
fn texts_are_parted_at_line_breaks() {
    for s in ["", "a", "a\nb", "\n", "a\n", "\n\nx", "a\r\nb"] {
        let mut parts = vec![String::from("before")];
        text::put_line_parts(&mut parts, s);
        let mut expected = vec!["before"];
        expected.extend(s.split('\n'));
        assert_eq!(parts, expected, "{s:?}");
    }
}
