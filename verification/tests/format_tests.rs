use dirsize::format::human_readable_size;

#[test]
fn zero_bytes() {
    assert_eq!(human_readable_size(0), "0.00 B");
}

#[test]
fn small_sizes_stay_in_bytes() {
    assert_eq!(human_readable_size(1), "1.00 B");
    assert_eq!(human_readable_size(512), "512.00 B");
    assert_eq!(human_readable_size(1023), "1023.00 B");
}

#[test]
fn one_kilobyte() {
    assert_eq!(human_readable_size(1024), "1.00 KB");
}

#[test]
fn one_and_a_half_kilobytes() {
    assert_eq!(human_readable_size(1536), "1.50 KB");
}

#[test]
fn one_megabyte() {
    assert_eq!(human_readable_size(1048576), "1.00 MB");
}

#[test]
fn one_gigabyte() {
    assert_eq!(human_readable_size(1073741824), "1.00 GB");
}

#[test]
fn no_escalation_beyond_gigabytes() {
    assert_eq!(human_readable_size(2147483648), "2.00 GB");
    assert_eq!(human_readable_size(u64::MAX), "17179869184.00 GB");
}

#[test]
fn two_decimal_places_rounded() {
    // 1025 bytes is 1.0009... KB and shows as 1.00 KB.
    assert_eq!(human_readable_size(1025), "1.00 KB");
    // 1100 bytes is 1.0742... KB and shows as 1.07 KB.
    assert_eq!(human_readable_size(1100), "1.07 KB");
    // 1912 bytes is 1.8671... KB and rounds up to 1.87 KB.
    assert_eq!(human_readable_size(1912), "1.87 KB");
}
