use web_scrapper::text::{
    contains, decimal_string, join_strings, replace_all, signed_decimal_string, trim,
};
use web_scrapper::matches::{config_urls, match_directory};

fn strings(items: &[&str]) -> Vec<String> {
    items.iter().map(|s| s.to_string()).collect()
}

#[test]
fn contains_finds_substrings() {
    assert!(contains("player of the match", "of the"));
    assert!(contains("abc", ""));
    assert!(!contains("ab", "abc"));
    assert!(!contains("/team/india", "/cricketers/"));
}

#[test]
fn replace_all_removes_prefix() {
    assert_eq!(replace_all("/cricketers/ms-dhoni-28081", "/cricketers/", ""), "ms-dhoni-28081");
    assert_eq!(replace_all("/cricket-grounds/wankhede-stadium-56486", "/cricket-grounds/", ""), "wankhede-stadium-56486");
}

#[test]
fn replace_all_is_left_to_right_and_non_overlapping() {
    assert_eq!(replace_all("aaa", "aa", "b"), "ba");
    assert_eq!(replace_all("abab", "ab", "x"), "xx");
}

#[test]
fn replace_all_with_empty_pattern_inserts_everywhere() {
    assert_eq!(replace_all("ab", "", "x"), "xaxbx");
    assert_eq!(replace_all("", "", "x"), "x");
}

#[test]
fn law_replace_absent_on_values() {
    assert_eq!(replace_all("wankhede", "/cricket-grounds/", ""), "wankhede");
}

#[test]
fn trim_removes_unicode_white_space() {
    assert_eq!(trim("  Toss \u{a0}\n"), "Toss");
    assert_eq!(trim("\t\r\n"), "");
    assert_eq!(trim("a b"), "a b");
}

#[test]
fn law_trim_idempotent_on_values() {
    let once = trim(" \u{2003}x y\u{3000} ");
    assert_eq!(once, "x y");
    assert_eq!(trim(&once), once);
}

#[test]
fn decimal_strings() {
    assert_eq!(decimal_string(0), "0");
    assert_eq!(decimal_string(1234), "1234");
    assert_eq!(decimal_string(u64::MAX), u64::MAX.to_string());
    assert_eq!(signed_decimal_string(-5), "-5");
    assert_eq!(signed_decimal_string(i32::MIN), "-2147483648");
    assert_eq!(signed_decimal_string(6), "6");
}

#[test]
fn join_strings_puts_separator_between() {
    assert_eq!(join_strings(&strings(&["a", "b", "c"]), ","), "a,b,c");
    assert_eq!(join_strings(&strings(&["a"]), ","), "a");
    assert_eq!(join_strings(&Vec::new(), ","), "");
}

#[test]
fn config_urls_trims_each_line() {
    assert_eq!(config_urls("a\r\n  b \n\nc\r"), strings(&["a", "b", "", "c"]));
    assert_eq!(config_urls("x\n"), strings(&["x"]));
    assert_eq!(config_urls(""), Vec::<String>::new());
}

#[test]
fn match_directory_takes_the_match_segment() {
    let url = "https://www.espncricinfo.com/series/ipl-2023-1345038/chennai-super-kings-vs-gujarat-titans-final-1370353/full-scorecard";
    assert_eq!(match_directory(url), "chennai-super-kings-vs-gujarat-titans-final-1370353");
    assert_eq!(match_directory("a/b"), "a");
    assert_eq!(match_directory("/x"), "");
    assert_eq!(match_directory("a/b/"), "b");
}
