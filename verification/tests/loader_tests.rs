use intcode::loader::{parse_code, string_to_code};

#[test]
fn parses_plain_lists() {
    assert_eq!(string_to_code("1,2,3"), vec![1, 2, 3]);
    assert_eq!(string_to_code("99"), vec![99]);
    assert_eq!(string_to_code("-1,0,+7"), vec![-1, 0, 7]);
    assert_eq!(string_to_code("007"), vec![7]);
}

#[test]
fn trims_surrounding_whitespace() {
    assert_eq!(string_to_code("  1,2,3\n"), vec![1, 2, 3]);
    assert_eq!(string_to_code("\t99\r\n"), vec![99]);
}

#[test]
fn accepts_the_value_domain_bounds() {
    assert_eq!(
        string_to_code("9223372036854775807,-9223372036854775808"),
        vec![i64::MAX, i64::MIN]
    );
}

#[test]
fn rejects_malformed_texts() {
    assert_eq!(parse_code(""), None);
    assert_eq!(parse_code(","), None);
    assert_eq!(parse_code("1,,2"), None);
    assert_eq!(parse_code("1,"), None);
    assert_eq!(parse_code(",1"), None);
    assert_eq!(parse_code("1, 2"), None);
    assert_eq!(parse_code("a,2"), None);
    assert_eq!(parse_code("-"), None);
    assert_eq!(parse_code("+"), None);
    assert_eq!(parse_code("1-2"), None);
}

#[test]
fn rejects_values_outside_the_domain() {
    assert_eq!(parse_code("9223372036854775808"), None);
    assert_eq!(parse_code("-9223372036854775809"), None);
    assert_eq!(parse_code("99999999999999999999999999"), None);
    // while the bounds themselves pass
    assert!(parse_code("9223372036854775807").is_some());
    assert!(parse_code("-9223372036854775808").is_some());
}
