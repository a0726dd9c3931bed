use eb::numfmt::format_human_size;
use eb::numfmt::format_with_separator;

#[test]
fn separator_small_values_have_no_comma() {
    assert_eq!(format_with_separator(0), "0");
    assert_eq!(format_with_separator(7), "7");
    assert_eq!(format_with_separator(42), "42");
    assert_eq!(format_with_separator(999), "999");
}

#[test]
fn separator_groups_of_three_from_the_right() {
    assert_eq!(format_with_separator(1000), "1,000");
    assert_eq!(format_with_separator(1234567), "1,234,567");
    assert_eq!(format_with_separator(1000500), "1,000,500");
    assert_eq!(format_with_separator(10000), "10,000");
    assert_eq!(format_with_separator(100000), "100,000");
    assert_eq!(format_with_separator(u64::MAX), "18,446,744,073,709,551,615");
}

#[test]
fn human_size_order_zero() {
    assert_eq!(format_human_size(0, false), "0");
    assert_eq!(format_human_size(999, false), "999");
    // A value exactly equal to the divisor keeps order zero: the loop
    // advances only on a strict excess.
    assert_eq!(format_human_size(1000, false), "1,000");
    assert_eq!(format_human_size(1024, true), "1,024");
}

#[test]
fn human_size_fractional_digit() {
    assert_eq!(format_human_size(1001, false), "1.0k");
    assert_eq!(format_human_size(1536, true), "1.5ki");
    assert_eq!(format_human_size(2000000, false), "2.0M");
    assert_eq!(format_human_size(2500, false), "2.5k");
}

#[test]
fn human_size_rounds_to_integer_from_ten_up() {
    assert_eq!(format_human_size(10240, true), "10ki");
    assert_eq!(format_human_size(999000, false), "999k");
    assert_eq!(format_human_size(1048576, true), "1,024ki");
}

#[test]
fn human_size_fraction_of_ten_carries() {
    // 9.97k: the fractional digit rounds to ten and carries.
    assert_eq!(format_human_size(9970, false), "10.0k");
}

#[test]
fn human_size_largest_values() {
    assert_eq!(format_human_size(u64::MAX, false), "18E");
    assert_eq!(format_human_size(u64::MAX, true), "16Ei");
}

#[test]
fn human_size_binary_marker() {
    assert_eq!(format_human_size(1025, true), "1.0ki");
    assert_eq!(format_human_size(3 * 1024 * 1024, true), "3.0Mi");
}
