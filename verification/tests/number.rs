use zstats::number::{push_tenths, read_number, round_div, tell_again, Reading};
use zstats::text::{chars_of, number_text, parse_bool, parse_unsigned, to_lower, trim};

fn read(text: &str) -> Option<Reading> {
    read_number(&chars_of(text))
}

fn millionths(text: &str) -> i64 {
    match read(text) {
        Some(Reading::Millionths(v)) => v,
        other => panic!("{text}: {other:?}"),
    }
}

#[test]
fn numerals_are_read_to_millionths() {
    assert_eq!(millionths("0"), 0);
    assert_eq!(millionths("40"), 40_000_000);
    assert_eq!(millionths("+12.5"), 12_500_000);
    assert_eq!(millionths("-1"), -1_000_000);
    assert_eq!(millionths(".5"), 500_000);
    assert_eq!(millionths("5."), 5_000_000);
    assert_eq!(millionths("1e3"), 1_000_000_000);
    assert_eq!(millionths("25E-1"), 2_500_000);
    // Finer digits never turn a threshold into nothing
    assert_eq!(millionths("0.0000011"), 2);
    assert_eq!(millionths("-0.0000000001"), -1);
}

#[test]
fn what_is_no_numeral_is_refused() {
    for text in ["", ".", "e5", "1e", "1e+", "--1", "1 ", "0x1", "1_000", "1.2.3", "abc"] {
        assert_eq!(read(text), None, "{text}");
    }
}

#[test]
fn the_words_for_numbers_are_read() {
    assert_eq!(read("NaN"), Some(Reading::NotANumber));
    assert_eq!(read("-nan"), Some(Reading::NotANumber));
    assert!(millionths("inf") > 1_000_000_000);
    assert_eq!(millionths("Infinity"), millionths("inf"));
    assert_eq!(millionths("-inf"), -millionths("inf"));
    assert_eq!(millionths("1e400"), millionths("inf"));
}

fn told(text: &str) -> String {
    assert!(read(text).is_some(), "{text}");
    tell_again(&chars_of(text))
}

#[test]
fn a_number_is_told_again_without_idle_zeros() {
    assert_eq!(told("100"), "100");
    assert_eq!(told("012.50"), "12.5");
    assert_eq!(told("+.5"), "0.5");
    assert_eq!(told("5."), "5");
    assert_eq!(told("0.0000001"), "0.0000001");
    assert_eq!(told("1e3"), "1000");
    assert_eq!(told("125E-1"), "12.5");
    assert_eq!(told("0.5e-2"), "0.005");
    assert_eq!(told("-0"), "-0");
    assert_eq!(told("-0.0"), "-0");
    assert_eq!(told("0e99999999999999999999"), "0");
    assert_eq!(told("1e-99999999999999999999"), "0");
}

#[test]
fn words_are_told_again() {
    assert_eq!(told("nan"), "NaN");
    assert_eq!(told("-NaN"), "NaN");
    assert_eq!(told("Infinity"), "inf");
    assert_eq!(told("-inf"), "-inf");
    assert_eq!(told("1e400"), "inf");
    assert_eq!(told("-1e99999999999999999999"), "-inf");
}

#[test]
fn quotients_are_rounded() {
    assert_eq!(round_div(10, 4), 2);
    assert_eq!(round_div(11, 4), 3);
    assert_eq!(round_div(14, 4), 4);
    let mut out = "t=".to_string();
    push_tenths(&mut out, 123);
    assert_eq!(out, "t=12.3");
}

#[test]
fn texts_are_read() {
    assert_eq!(parse_bool(&chars_of("true")), Some(true));
    assert_eq!(parse_bool(&chars_of("yes")), None);
    assert_eq!(parse_unsigned(&chars_of("+12")), Some(12));
    assert_eq!(parse_unsigned(&chars_of("18446744073709551616")), None);
    assert_eq!(number_text(1_200), "1200");
    assert_eq!(trim(&chars_of(" \u{a0}a b\t\n")), chars_of("a b"));
    assert_eq!(to_lower(&chars_of("AbÉ")), chars_of("abÉ"));
}
