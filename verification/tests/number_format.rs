use robinne::number_format::{decimal_chars, format_bytes, format_file_size, format_usage_value};

#[test]
fn file_sizes_below_a_kilobyte_are_whole_bytes() {
    assert_eq!(format_file_size(0), "0 B");
    assert_eq!(format_file_size(512), "512 B");
    assert_eq!(format_file_size(1023), "1023 B");
}

#[test]
fn file_sizes_in_kilobytes_and_megabytes_have_one_decimal() {
    assert_eq!(format_file_size(1024), "1.0 KB");
    assert_eq!(format_file_size(1536), "1.5 KB");
    assert_eq!(format_file_size(1280), "1.2 KB");
    assert_eq!(format_file_size(1331), "1.3 KB");
    assert_eq!(format_file_size(1048576), "1.0 MB");
    assert_eq!(format_file_size(5 * 1048576 + 524288), "5.5 MB");
    assert_eq!(format_file_size(3 * 1073741824), "3072.0 MB");
}

#[test]
fn byte_counts_reach_gigabytes() {
    assert_eq!(format_bytes(100), "100 B");
    assert_eq!(format_bytes(2048), "2.0 KB");
    assert_eq!(format_bytes(1073741824), "1.0 GB");
    assert_eq!(format_bytes(1610612736), "1.5 GB");
    assert_eq!(format_bytes(u64::MAX), format!("{:.1} GB", u64::MAX as f64 / 1073741824.0));
}

#[test]
fn one_decimal_matches_float_formatting() {
    for size in [1024u64, 1100, 1126, 1177, 1280, 1434, 99_999, 1_048_575, 1_048_577, 123_456_789, 9_007_199_254_740_993] {
        let expected = if size >= 1048576 {
            format!("{:.1} MB", size as f64 / 1048576.0)
        } else {
            format!("{:.1} KB", size as f64 / 1024.0)
        };
        assert_eq!(format_file_size(size as usize), expected);
    }
}

#[test]
fn usage_values_and_decimals() {
    assert_eq!(format_usage_value(Some(42)), "42");
    assert_eq!(format_usage_value(Some(0)), "0");
    assert_eq!(format_usage_value(None), "暂无");
    assert_eq!(decimal_chars(1907).iter().collect::<String>(), "1907");
}
