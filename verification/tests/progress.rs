use disk_inventory::progress::{
    counts_line_from, progress_bar, progress_counts_line, progress_percent, BAR_WIDTH,
};

#[test]
fn progress_percent_rounds_down() {
    assert_eq!(progress_percent(1, 3), Some(33));
    assert_eq!(progress_percent(3, 3), Some(100));
    assert_eq!(progress_percent(5, 2), Some(250));
    assert_eq!(progress_percent(7, 0), None);
}

#[test]
fn progress_bar_fills_in_proportion() {
    assert_eq!(progress_bar(0), "-".repeat(40));
    assert_eq!(progress_bar(100), "#".repeat(40));
    assert_eq!(progress_bar(250), "#".repeat(40));
    assert_eq!(progress_bar(50), "#".repeat(20) + &"-".repeat(20));
    assert_eq!(progress_bar(33), "#".repeat(13) + &"-".repeat(27));
    for p in 0..=120u64 {
        assert_eq!(progress_bar(p).len() as u64, BAR_WIDTH);
    }
}

#[test]
fn progress_percent_of_an_unknown_total_never_multiplies() {
    assert_eq!(progress_percent(u64::MAX, 0), None);
}

#[test]
fn counts_line_groups_digits_by_thousands() {
    assert_eq!(counts_line_from("1".to_string(), "2"), "1 files scanned, 2 bytes");
    let line = progress_counts_line(1234567, 42);
    assert!(line.starts_with("1"));
    assert!(line.ends_with(" files scanned, 42 bytes"));
    assert_ne!(line, "1234567 files scanned, 42 bytes");
    assert_eq!(line.chars().filter(|c| c.is_ascii_digit()).count(), 9);
}
