use colorify::calendar::{date_of_days, timestamp_text};
use colorify::process::timestamp_folder;

#[test]
fn epoch_is_1970() {
    assert_eq!(timestamp_text(0), "1970-01-01_00-00-00");
}

#[test]
fn a_known_time() {
    // 2024-02-29 12:34:56 UTC
    assert_eq!(timestamp_text(1_709_210_096), "2024-02-29_12-34-56");
}

#[test]
fn leap_rules() {
    assert_eq!(date_of_days(10957), (2000, 1, 1));
    assert_eq!(date_of_days(11017), (2000, 3, 1));
    assert_eq!(date_of_days(11016), (2000, 2, 29));
    // 2100 is not a leap year
    assert_eq!(date_of_days(47541), (2100, 3, 1));
    assert_eq!(date_of_days(47540), (2100, 2, 28));
}

#[test]
fn before_the_epoch() {
    assert_eq!(date_of_days(-1), (1969, 12, 31));
    assert_eq!(timestamp_text(-1), "1969-12-31_23-59-59");
}

#[test]
fn years_before_zero_are_signed() {
    let days = -719_528 - 365; // 0000-01-01 (day -719528) less the 365 days of year -1
    assert_eq!(date_of_days(days), (-1, 1, 1));
    assert_eq!(timestamp_text(days * 86400), "-001-01-01_00-00-00");
}

#[test]
fn folder_name_has_the_shape() {
    let name = timestamp_folder();
    assert_eq!(name.len(), 19);
    assert_eq!(&name[4..5], "-");
    assert_eq!(&name[10..11], "_");
}
