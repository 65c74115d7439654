use docs_indexer::text::{decimal_string, remove_whitespace, site_name};
use docs_indexer::translit::to_pinyin;

#[test]
fn transliterates_logographs() {
    assert_eq!(to_pinyin(&"拼音".to_string()), " pin yin");
}

#[test]
fn unmapped_characters_are_dropped() {
    assert_eq!(to_pinyin(&"a拼b音!".to_string()), " pin yin");
}

#[test]
fn text_without_syllables_is_returned_unchanged() {
    let x = "hello, world".to_string();
    let once = to_pinyin(&x);
    assert_eq!(once, x);
    assert_eq!(to_pinyin(&once), once);
}

#[test]
fn transliteration_of_non_empty_text_is_non_empty() {
    for s in ["a", " ", "中", "!?"] {
        assert!(!to_pinyin(&s.to_string()).is_empty());
    }
    assert_eq!(to_pinyin(&String::new()), "");
}

#[test]
fn whitespace_is_removed() {
    assert_eq!(remove_whitespace(" Getting  Started\t- Site\n"), "GettingStarted-Site");
    assert_eq!(remove_whitespace(""), "");
}

#[test]
fn site_name_is_the_trimmed_text_before_the_first_dash() {
    assert_eq!(site_name("Guide - MySite"), "Guide");
    assert_eq!(site_name("  A - B - C"), "A");
    assert_eq!(site_name("NoDash "), "NoDash");
    assert_eq!(site_name("-lead"), "");
    assert_eq!(site_name("   "), "");
}

#[test]
fn decimal_strings() {
    assert_eq!(decimal_string(0), "0");
    assert_eq!(decimal_string(7), "7");
    assert_eq!(decimal_string(10), "10");
    assert_eq!(decimal_string(1234), "1234");
    assert_eq!(decimal_string(usize::MAX), usize::MAX.to_string());
}
