use bills::amount::is_valid_amount;
use bills::text::trim_str;

#[test]
fn plain_and_fractional_numbers_are_accepted() {
    assert!(is_valid_amount("1200"));
    assert!(is_valid_amount("1200.0"));
    assert!(is_valid_amount("0.5"));
    assert!(is_valid_amount(".5"));
    assert!(is_valid_amount("5."));
    assert!(is_valid_amount("-42"));
    assert!(is_valid_amount("+42"));
    assert!(is_valid_amount("-0.0"));
}

#[test]
fn exponents_are_accepted() {
    assert!(is_valid_amount("1e3"));
    assert!(is_valid_amount("1.5E-3"));
    assert!(is_valid_amount("-2.e+10"));
    assert!(is_valid_amount(".5e2"));
}

#[test]
fn special_words_are_accepted_in_any_case() {
    assert!(is_valid_amount("inf"));
    assert!(is_valid_amount("Infinity"));
    assert!(is_valid_amount("-INF"));
    assert!(is_valid_amount("nan"));
    assert!(is_valid_amount("NaN"));
    assert!(is_valid_amount("+nAn"));
}

#[test]
fn malformed_amounts_are_rejected() {
    assert!(!is_valid_amount(""));
    assert!(!is_valid_amount("."));
    assert!(!is_valid_amount("-"));
    assert!(!is_valid_amount("abc"));
    assert!(!is_valid_amount("12a"));
    assert!(!is_valid_amount("1.2.3"));
    assert!(!is_valid_amount("e5"));
    assert!(!is_valid_amount("1e"));
    assert!(!is_valid_amount("1e+"));
    assert!(!is_valid_amount("--1"));
    assert!(!is_valid_amount("1 200"));
    assert!(!is_valid_amount("infini"));
}

#[test]
fn acceptance_matches_float_parsing() {
    for s in [
        "1200", "1200.0", ".5", "5.", "-42", "1e3", "1.5E-3", "-2.e+10", "inf", "Infinity",
        "NaN", "", ".", "-", "abc", "12a", "1.2.3", "e5", "1e", "1e+", "--1", "1 200", "infini",
        "0x10", "1_000",
    ] {
        assert_eq!(
            is_valid_amount(s),
            s.parse::<f64>().is_ok(),
            "disagreement on {:?}",
            s
        );
    }
}

#[test]
fn trim_strips_surrounding_whitespace_only() {
    assert_eq!(trim_str("  rent \n"), "rent");
    assert_eq!(trim_str("\t1200\r\n"), "1200");
    assert_eq!(trim_str("a b"), "a b");
    assert_eq!(trim_str("   \n"), "");
    assert_eq!(trim_str(""), "");
    assert_eq!(trim_str("\u{2003}x\u{2003}"), "x");
}
