use cosmic_widget::disk_io::parse_diskstats;

#[test]
fn sums_only_selected_physical_devices() {
    let devices = vec!["nvme0n1".to_string(), "sda".to_string()];
    let fixture = "\
259 0 nvme0n1 1 0 100 0 2 0 50 0 0 0 0 0 0 0 0 0\n\
259 1 nvme0n1p1 1 0 75 0 2 0 30 0 0 0 0 0 0 0 0 0\n\
8 0 sda 1 0 20 0 2 0 10 0 0 0 0 0 0 0 0 0\n";

    assert_eq!(parse_diskstats(fixture, &devices), (120 * 512, 60 * 512));
}

#[test]
fn short_lines_and_bad_counters_count_as_nothing() {
    let devices = vec!["sda".to_string()];
    let fixture = "8 0 sda 1 0\n8 0 sda 1 0 x 0 2 0 7\n";
    assert_eq!(parse_diskstats(fixture, &devices), (0, 7 * 512));
    let huge = format!("8 0 sda 1 0 {} 0 2 0 1\n", u64::MAX);
    assert_eq!(parse_diskstats(&huge, &devices), (u64::MAX, 512));
}
