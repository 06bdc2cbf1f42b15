//! The readers for command arguments: unsigned integers and booleans.

use modpack_manifest::de::parse_bool_arg;
use modpack_manifest::de::parse_u64_arg;

#[test]
fn parse_u64_arg_accepts_plain_decimal() {
    assert_eq!(parse_u64_arg("0"), Some(0));
    assert_eq!(parse_u64_arg("123456"), Some(123456));
    assert_eq!(parse_u64_arg("007"), Some(7));
    assert_eq!(parse_u64_arg("18446744073709551615"), Some(u64::MAX));
}

#[test]
fn parse_u64_arg_rejects_non_numeric_text() {
    assert_eq!(parse_u64_arg(""), None);
    assert_eq!(parse_u64_arg("abc"), None);
    assert_eq!(parse_u64_arg("12x"), None);
    assert_eq!(parse_u64_arg("x12"), None);
    assert_eq!(parse_u64_arg("-5"), None);
    assert_eq!(parse_u64_arg("+5"), None);
    assert_eq!(parse_u64_arg("1 2"), None);
    assert_eq!(parse_u64_arg("18446744073709551616"), None);
}

#[test]
fn parse_bool_arg_accepts_exact_words() {
    assert_eq!(parse_bool_arg("true"), Some(true));
    assert_eq!(parse_bool_arg("false"), Some(false));
}

#[test]
fn parse_bool_arg_rejects_other_text() {
    assert_eq!(parse_bool_arg(""), None);
    assert_eq!(parse_bool_arg("True"), None);
    assert_eq!(parse_bool_arg("1"), None);
    assert_eq!(parse_bool_arg("truex"), None);
    assert_eq!(parse_bool_arg("fals"), None);
}
