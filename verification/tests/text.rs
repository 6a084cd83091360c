use kafka_sync::text;

#[test]
fn white_space_is_that_of_the_standard_library() {
    for code in 0..=0x10ffff_u32 {
        if let Some(c) = char::from_u32(code) {
            let s = c.to_string();
            assert_eq!(text::trim(&s).is_empty(), c.is_whitespace(), "U+{code:x}");
        }
    }
}

#[test]
fn trim_removes_white_space_at_the_edges_only() {
    assert_eq!(text::trim("  a b\t\n"), "a b");
    assert_eq!(text::trim("\u{3000}x\u{a0}"), "x");
    assert_eq!(text::trim(" \t "), "");
    assert_eq!(text::trim(""), "");
    for s in [" é ", "\u{200b}x", "a\u{85}", "\u{1680}\u{2028}"] {
        assert_eq!(text::trim(s), s.trim());
    }
}

#[test]
fn trimming_twice_changes_nothing() {
    for s in ["  a b ", "//x//", "", " \u{2003}é\u{2003} "] {
        assert_eq!(text::trim(text::trim(s)), text::trim(s));
        let once = text::strip(s, text::Trimming::Only('/'));
        assert_eq!(text::strip(once, text::Trimming::Only('/')), once);
        assert_eq!(once, s.trim_matches('/'));
    }
}

#[test]
fn lists_drop_blank_entries_and_keep_the_order() {
    assert_eq!(text::parse_list(" a , b,,c ,"), vec!["a", "b", "c"]);
    assert_eq!(text::parse_list("one"), vec!["one"]);
    assert_eq!(text::parse_list("b,a,b"), vec!["b", "a", "b"]);
    assert!(text::parse_list(" , ,").is_empty());
    assert!(text::parse_list("").is_empty());
}

#[test]
fn join_puts_the_separator_between_parts() {
    let parts = vec!["a:1".to_owned(), "b:2".to_owned(), "c:3".to_owned()];
    assert_eq!(text::join(&parts, ","), "a:1,b:2,c:3");
    assert_eq!(text::join(&parts[..1].to_vec(), ","), "a:1");
    assert_eq!(text::join(&Vec::new(), ","), "");
    let empty = vec![String::new(), String::new()];
    assert_eq!(text::join(&empty, "-"), empty.join("-"));
}

#[test]
fn ascii_lower_case_leaves_other_letters() {
    assert_eq!(text::to_ascii_lower("FileSystem"), "filesystem");
    assert_eq!(text::to_ascii_lower("ÀÉ@[`{Z"), "ÀÉ@[`{z");
    assert_eq!(text::to_ascii_lower("GCS"), "GCS".to_ascii_lowercase());
}

#[test]
fn decimal_forms_are_those_of_the_formatter() {
    for n in [0_i64, 7, 10, 42, -1, -1001, i64::MAX, i64::MIN, 9_000_000_000] {
        let mut s = String::from(">");
        text::push_decimal(&mut s, n);
        assert_eq!(s, format!(">{n}"));
    }
}

#[test]
fn zero_padding_is_that_of_the_formatter() {
    for n in [0_i64, 5, 12, 2026, 10000, -5, -2026, -12345, i64::MIN] {
        let mut s = String::new();
        text::push_zero_padded(&mut s, n, 4);
        assert_eq!(s, format!("{n:04}"));
        let mut s = String::new();
        text::push_zero_padded(&mut s, n, 2);
        assert_eq!(s, format!("{n:02}"));
        let mut s = String::new();
        text::push_zero_padded(&mut s, n, 0);
        assert_eq!(s, format!("{n}"));
    }
}

#[test]
fn hexadecimal_form_is_that_of_the_formatter() {
    for n in [0_u64, 1, 0xabc, 0x0123_4567_89ab_cdef, u64::MAX] {
        let mut s = String::from("x");
        text::push_hex(&mut s, n, 16);
        assert_eq!(s, format!("x{n:016x}"));
    }
}

#[test]
fn naturals_parse_as_the_standard_library_parses_them() {
    let inputs = [
        "0", "7", "+7", "-7", "-0", "+", "", "007", "18446744073709551615", "18446744073709551616",
        "99999999999999999999999", "1_000", "1.0", "12a", " 1", "\u{661}", "++1", "+0",
    ];
    for s in inputs {
        assert_eq!(text::parse_natural(s, u64::MAX), s.parse::<u64>().ok(), "{s:?}");
    }
    assert_eq!(text::parse_natural("255", 255), Some(255));
    assert_eq!(text::parse_natural("256", 255), None);
}

#[test]
fn encoded_length_counts_bytes() {
    for s in ["", "abc", "é", "日本", "\u{1f600}x"] {
        assert_eq!(text::encoded_len(s), s.len());
    }
}
