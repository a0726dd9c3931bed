use eb::perms::format_permissions;
use eb::timefmt::format_timestamp;
use eb::timefmt::CivilTime;

#[test]
fn permissions_non_directory() {
    assert_eq!(format_permissions(0o755, false), ".rwxr-xr-x");
    assert_eq!(format_permissions(0o644, false), ".rw-r--r--");
    assert_eq!(format_permissions(0, false), ".---------");
}

#[test]
fn permissions_directory() {
    assert_eq!(format_permissions(0o644, true), "drw-r--r--");
    assert_eq!(format_permissions(0o777, true), "drwxrwxrwx");
}

#[test]
fn permissions_ignore_high_bits() {
    // Only the low nine bits matter; a full mode word decodes the same.
    assert_eq!(format_permissions(0o100644, false), ".rw-r--r--");
}

#[test]
fn timestamp_fixed_pattern() {
    let t = CivilTime { day: 5, month: 3, hour: 14, minute: 22 };
    assert_eq!(format_timestamp(&t), "05 Mar 14:22");
}

#[test]
fn timestamp_all_months_and_bounds() {
    let t = CivilTime { day: 31, month: 12, hour: 23, minute: 59 };
    assert_eq!(format_timestamp(&t), "31 Dec 23:59");
    let t = CivilTime { day: 1, month: 1, hour: 0, minute: 0 };
    assert_eq!(format_timestamp(&t), "01 Jan 00:00");
    let t = CivilTime { day: 10, month: 8, hour: 9, minute: 5 };
    assert_eq!(format_timestamp(&t), "10 Aug 09:05");
}
