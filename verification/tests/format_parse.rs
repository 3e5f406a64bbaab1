use video_splits::helpers::format::format_clock;
use video_splits::helpers::parse::{string_to_nseconds, validate_split_table_entry};

#[test]
fn format_clock_unset_time_is_empty() {
    assert_eq!(format_clock(u64::MAX), "");
}

#[test]
fn format_clock_zero() {
    assert_eq!(format_clock(0), "00:00.000");
}

#[test]
fn format_clock_minutes_and_millis() {
    assert_eq!(format_clock(61_500_000_000), "01:01.500");
    assert_eq!(format_clock(59_999_999_999), "00:59.999");
    assert_eq!(format_clock(3_599_999_000_000), "59:59.999");
}

#[test]
fn format_clock_with_hours() {
    assert_eq!(format_clock(3_600_000_000_000), "1:00:00.000");
    assert_eq!(format_clock(3_723_456_789_012), "1:02:03.456");
    assert_eq!(format_clock(36_000_000_000_000), "10:00:00.000");
}

#[test]
fn format_clock_largest_time() {
    assert_eq!(format_clock(u64::MAX - 1), "5124095:34:33.709");
}

#[test]
fn parse_three_decimals() {
    assert_eq!(string_to_nseconds(&"01:02.500".to_string()), Some(62_500_000_000));
    assert_eq!(string_to_nseconds(&"00:00.001".to_string()), Some(1_000_000));
}

#[test]
fn parse_fraction_lengths() {
    assert_eq!(string_to_nseconds(&"0:1.5".to_string()), Some(1_500_000_000));
    assert_eq!(string_to_nseconds(&"0:1.05".to_string()), Some(1_050_000_000));
    assert_eq!(string_to_nseconds(&"0:0.12345678".to_string()), Some(123_456_780));
    assert_eq!(string_to_nseconds(&"0:0.123456789".to_string()), Some(123_456_789));
    // Nine or more digits are read as nanoseconds.
    assert_eq!(string_to_nseconds(&"0:0.1234567890".to_string()), Some(1_234_567_890));
}

#[test]
fn parse_empty_fraction() {
    assert_eq!(string_to_nseconds(&"2:03.".to_string()), Some(123_000_000_000));
}

#[test]
fn parse_plus_signs() {
    // `u64::from_str` takes a leading `+`; it counts towards the fraction's length.
    assert_eq!(string_to_nseconds(&"+1:+2.+5".to_string()), Some(62_050_000_000));
}

#[test]
fn parse_many_minutes() {
    assert_eq!(string_to_nseconds(&"90:00.000".to_string()), Some(5_400_000_000_000));
}

#[test]
fn parse_reads_back_formatted_times() {
    for t in [0u64, 1, 999_999, 1_000_000, 61_500_000_123, 754_321_987_654, 3_599_999_999_999] {
        let text = format_clock(t);
        assert_eq!(string_to_nseconds(&text), Some(t - t % 1_000_000), "time {t}");
    }
}

#[test]
fn entry_validation_accepts_mm_ss_mmm() {
    assert!(validate_split_table_entry("00:00.000"));
    assert!(validate_split_table_entry("59:59.999"));
    assert!(validate_split_table_entry("12:34.567"));
}

#[test]
fn entry_validation_rejects_other_forms() {
    assert!(!validate_split_table_entry(""));
    assert!(!validate_split_table_entry("60:00.000"));
    assert!(!validate_split_table_entry("00:60.000"));
    assert!(!validate_split_table_entry("1:00.000"));
    assert!(!validate_split_table_entry("01:00.00"));
    assert!(!validate_split_table_entry("01:00.0000"));
    assert!(!validate_split_table_entry("01.00:000"));
    assert!(!validate_split_table_entry("0a:00.000"));
    assert!(!validate_split_table_entry("01:00.000\n"));
    assert!(!validate_split_table_entry("1:00:00.000"));
}

#[test]
fn valid_entries_read_back() {
    let t = "12:34.567".to_string();
    assert!(validate_split_table_entry(&t));
    assert_eq!(string_to_nseconds(&t), Some(754_567_000_000));
    let t = "59:59.999".to_string();
    assert!(validate_split_table_entry(&t));
    assert_eq!(string_to_nseconds(&t), Some(3_599_999_000_000));
}
