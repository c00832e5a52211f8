use hostinfo::strutil::{
    contains_str, lines_of, parse_u32, parse_u64, remove_char, rfind_char, split_char, split_ws,
    starts_with_str, str_eq, strip_trailing_char, trim_str,
};

#[test]
fn decimal_parse_accepts_plus_and_range() {
    assert_eq!(parse_u64("0"), Some(0));
    assert_eq!(parse_u64("123"), Some(123));
    assert_eq!(parse_u64("+123"), Some(123));
    assert_eq!(parse_u64("18446744073709551615"), Some(u64::MAX));
    assert_eq!(parse_u64("18446744073709551616"), None);
    assert_eq!(parse_u64(""), None);
    assert_eq!(parse_u64("+"), None);
    assert_eq!(parse_u64("12a"), None);
    assert_eq!(parse_u64("-1"), None);
    assert_eq!(parse_u32("4294967295"), Some(u32::MAX));
    assert_eq!(parse_u32("4294967296"), None);
}

#[test]
fn whitespace_split_keeps_tokens_in_order() {
    let toks = split_ws("  one\ttwo   three ");
    assert_eq!(toks, vec!["one", "two", "three"]);
    assert_eq!(split_ws(""), Vec::<String>::new());
    assert_eq!(split_ws("   "), Vec::<String>::new());
}

#[test]
fn separator_split_keeps_empty_pieces() {
    assert_eq!(split_char("a,b,c", ','), vec!["a", "b", "c"]);
    assert_eq!(split_char("a,,c", ','), vec!["a", "", "c"]);
    assert_eq!(split_char("", ','), vec![""]);
    assert_eq!(split_char("a,", ','), vec!["a", ""]);
}

#[test]
fn line_split_handles_crlf_and_final_newline() {
    assert_eq!(lines_of("a\nb"), vec!["a", "b"]);
    assert_eq!(lines_of("a\nb\n"), vec!["a", "b"]);
    assert_eq!(lines_of("a\r\nb\r\n"), vec!["a", "b"]);
    assert_eq!(lines_of("\n"), vec![""]);
    assert_eq!(lines_of(""), Vec::<String>::new());
}

#[test]
fn trim_and_strip_behave_like_their_names() {
    assert_eq!(trim_str("  x y\t\n"), "x y");
    assert_eq!(trim_str("   "), "");
    assert_eq!(strip_trailing_char("Key::", ':'), "Key");
    assert_eq!(strip_trailing_char("Key", ':'), "Key");
}

#[test]
fn searching_and_comparing_strings() {
    assert!(str_eq("abc", "abc"));
    assert!(!str_eq("abc", "abd"));
    assert!(starts_with_str("loop0", "loop"));
    assert!(!starts_with_str("sda1", "loop"));
    assert!(contains_str("../../sda", "sda"));
    assert!(!contains_str("../../sdb", "sda"));
    assert!(contains_str("anything", ""));
    assert_eq!(rfind_char("nvme0n1p3", 'p'), Some(7));
    assert_eq!(rfind_char("sda1", 'p'), None);
}

#[test]
fn removing_a_character_drops_every_occurrence() {
    assert_eq!(remove_char("32-bit, 64-bit", ','), "32-bit 64-bit");
    assert_eq!(remove_char(",,", ','), "");
    assert_eq!(remove_char("abc", ','), "abc");
}
