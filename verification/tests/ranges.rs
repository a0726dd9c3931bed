use eb::parse::parse_line_range;

#[test]
fn range_plain_and_signed() {
    assert_eq!(parse_line_range("3:7"), Some((3, 7)));
    assert_eq!(parse_line_range("-1:-1"), Some((-1, -1)));
    assert_eq!(parse_line_range("+4:9"), Some((4, 9)));
    assert_eq!(parse_line_range("0:0"), Some((0, 0)));
}

#[test]
fn range_rejects_malformed_text() {
    assert_eq!(parse_line_range("1:2:3"), None);
    assert_eq!(parse_line_range("a:b"), None);
    assert_eq!(parse_line_range(":5"), None);
    assert_eq!(parse_line_range("5:"), None);
    assert_eq!(parse_line_range("5"), None);
    assert_eq!(parse_line_range(""), None);
    assert_eq!(parse_line_range("-:3"), None);
    assert_eq!(parse_line_range("1 :3"), None);
}

#[test]
fn range_bounds_of_sixty_four_bits() {
    assert_eq!(
        parse_line_range("-9223372036854775808:9223372036854775807"),
        Some((i64::MIN, i64::MAX))
    );
    assert_eq!(parse_line_range("9223372036854775808:0"), None);
    assert_eq!(parse_line_range("0:-9223372036854775809"), None);
    assert_eq!(parse_line_range("99999999999999999999999999:1"), None);
}
