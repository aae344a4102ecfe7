use ttv::paths::{config_path, db_path};
use ttv::text::{lower_str, parse_usize, str_eq, str_le, trim_str};
use ttv::vod::{parse_selection, vod_url, Selection};

#[test]
fn trimming_strips_surrounding_whitespace_only() {
    assert_eq!(trim_str("  a b  "), "a b");
    assert_eq!(trim_str("\t\r\nx\n"), "x");
    assert_eq!(trim_str("   "), "");
    assert_eq!(trim_str("plain"), "plain");
}

#[test]
fn lowercasing_folds_ascii_capitals_only() {
    assert_eq!(lower_str("FOO_1"), "foo_1");
    assert_eq!(lower_str("MiXeD"), "mixed");
    assert_eq!(lower_str("déjà"), "déjà");
}

#[test]
fn string_comparisons_are_by_code_point() {
    assert!(str_le("abc", "abd"));
    assert!(str_le("abc", "abc"));
    assert!(str_le("ab", "abc"));
    assert!(!str_le("b", "abc"));
    assert!(str_eq("same", "same"));
    assert!(!str_eq("same", "sane"));
}

#[test]
fn decimal_parsing_rejects_junk_and_overflow() {
    assert_eq!(parse_usize("42"), Some(42));
    assert_eq!(parse_usize("0"), Some(0));
    assert_eq!(parse_usize(""), None);
    assert_eq!(parse_usize("a1"), None);
    assert_eq!(parse_usize("1 2"), None);
    assert_eq!(parse_usize("99999999999999999999999"), None);
}

#[test]
fn selections_are_read_from_trimmed_decimal_input() {
    assert_eq!(parse_selection("  2  ", 3), Selection::Chosen { index: 2 });
    assert_eq!(parse_selection("", 3), Selection::NoInput);
    assert_eq!(parse_selection("   ", 3), Selection::NoInput);
    assert_eq!(parse_selection("0", 3), Selection::OutOfRange);
    assert_eq!(parse_selection("4", 3), Selection::OutOfRange);
    assert_eq!(parse_selection("two", 3), Selection::OutOfRange);
}

#[test]
fn recording_urls_are_derived_from_the_id() {
    assert_eq!(vod_url("123"), "https://www.twitch.tv/videos/123");
}

#[test]
fn store_paths_join_the_base_directory() {
    assert_eq!(config_path("/home/u/.config/ttv"), "/home/u/.config/ttv/config.json");
    assert_eq!(db_path("/home/u/.local/share/ttv"), "/home/u/.local/share/ttv/ttv.sqlite");
}
