use bmtop::format::{
    format_count, format_duration, format_uptime_at, pad_field_label, pad_label, right_align, spaces,
    truncate_columns,
};

#[test]
fn pad_label_counts_display_columns_not_chars() {
    assert_eq!(pad_label("已用", 10).chars().count(), 2 + 6);
    assert_eq!(pad_label("CPU", 10), "CPU       ");
    assert_eq!(pad_label("超长的中文标签文本", 4), "超长的中文标签文本");
}

#[test]
fn labels_never_run_into_their_values() {
    assert_eq!(pad_field_label("Compressed", 10), "Compressed ");
    assert_eq!(pad_field_label("Capabilities", 10), "Capabilities ");
    assert_eq!(pad_field_label("Used", 10), "Used      ");
}

#[test]
fn counts_are_grouped_by_thousands() {
    assert_eq!(format_count(1_042), "1,042");
    assert_eq!(format_count(999), "999");
    assert_eq!(format_count(1_000_000), "1,000,000");
    assert_eq!(format_count(0), "0");
    assert_eq!(format_count(12_345_678), "12,345,678");
}

#[test]
fn durations_show_their_two_largest_units() {
    assert_eq!(format_duration(9 * 3_600 + 18 * 60), "9h 18m");
    assert_eq!(format_duration(3 * 86_400 + 7 * 3_600), "3d 07h");
    assert_eq!(format_duration(64), "1m 04s");
    assert_eq!(format_duration(0), "0m 00s");
    assert_eq!(format_uptime_at(100, 100 + 64), "1m 04s");
    assert_eq!(format_uptime_at(0, 500), "--");
    assert_eq!(format_uptime_at(600, 500), "--");
}

#[test]
fn alignment_counts_display_columns() {
    assert_eq!(spaces(3), "   ");
    assert_eq!(right_align("42", 5), "   42");
    assert_eq!(right_align("中文", 5), " 中文");
    assert_eq!(right_align("toolong", 3), "toolong");
}

#[test]
fn truncation_marks_the_cut_with_an_ellipsis() {
    assert_eq!(truncate_columns("/Volumes/External", 20), "/Volumes/External");
    assert_eq!(truncate_columns("/Volumes/External", 8), "/Volume…");
    assert_eq!(truncate_columns("硬件概览", 5), "硬件…");
    assert_eq!(truncate_columns("abc", 0), "abc");
    assert_eq!(truncate_columns("abc", 1), "…");
}
