use bmtop::disk::{base_device_name, parse_df_output, parse_df_row, parse_nobrowse_mounts, volume_rank};

const DF_FIXTURE: &str = "\
Filesystem     1024-blocks       Used  Available Capacity  Mounted on
/dev/disk3s1s1  7811085600   16688940 4116883116     1%    /
devfs                  242        242          0   100%    /dev
/dev/disk3s6    7811085600    1048596 4116883116     1%    /System/Volumes/VM
/dev/disk1s1        512000       5736     492284     2%    /System/Volumes/iSCPreboot
/dev/disk3s5    7811085600 3654617788 4116883116    48%    /System/Volumes/Data
map auto_home            0          0          0   100%    /System/Volumes/Data/home
/dev/disk17s1      1303844     927088     371024    72%    /Volumes/WorkBuddy 5.3.14-arm64
/dev/disk7s1      19380224   18845428     486292    98%    /Library/Developer/CoreSimulator/Volumes/iOS_22D8075
";

const MOUNT_FIXTURE: &str = "\
/dev/disk3s1s1 on / (apfs, sealed, local, read-only, journaled)
/dev/disk17s1 on /Volumes/WorkBuddy 5.3.14-arm64 (apfs, local, nodev, nosuid, read-only, journaled, noowners, quarantine, mounted by mac)
/dev/disk7s1 on /Library/Developer/CoreSimulator/Volumes/iOS_22D8075 (apfs, sealed, local, nodev, nosuid, read-only, journaled, noatime, nobrowse)
";

fn hidden_contains(hidden: &[String], mountpoint: &str) -> bool {
    hidden.iter().any(|m| m == mountpoint)
}

#[test]
fn df_parsing_keeps_one_volume_per_device_and_drops_pseudo_filesystems() {
    let volumes = parse_df_output(DF_FIXTURE, MOUNT_FIXTURE);
    let mounts: Vec<&str> = volumes.iter().map(|v| v.mountpoint.as_str()).collect();
    assert_eq!(mounts, vec!["/", "/Volumes/WorkBuddy 5.3.14-arm64"]);
}

#[test]
fn nobrowse_volumes_are_hidden_like_finder_hides_them() {
    let hidden = parse_nobrowse_mounts(MOUNT_FIXTURE);
    assert!(hidden_contains(&hidden, "/Library/Developer/CoreSimulator/Volumes/iOS_22D8075"));
    assert!(!hidden_contains(&hidden, "/"));
    assert!(!hidden_contains(&hidden, "/Volumes/WorkBuddy 5.3.14-arm64"));
    assert!(parse_nobrowse_mounts("").is_empty());
}

#[test]
fn mount_unavailable_falls_back_to_showing_every_volume() {
    let volumes = parse_df_output(DF_FIXTURE, "");
    assert_eq!(volumes.len(), 3);
}

#[test]
fn df_parsing_reports_container_usage_for_the_root_volume() {
    let root = &parse_df_output(DF_FIXTURE, MOUNT_FIXTURE)[0];
    let percent = root.used_bytes as f64 / root.total_bytes as f64 * 100.0;
    assert!((percent - 47.29).abs() < 0.01, "got {percent}");
    assert_eq!(root.total_bytes, 7_811_085_600 * 1024);
    assert_eq!(root.used_bytes, (7_811_085_600 - 4_116_883_116) * 1024);
}

#[test]
fn df_parsing_handles_spaces_in_both_variable_width_columns() {
    let volume = parse_df_row("/dev/disk17s1  1303844  927088  371024  72%  /Volumes/My Big Disk")
        .expect("row should parse");
    assert_eq!(volume.mountpoint, "/Volumes/My Big Disk");
    assert_eq!(volume.filesystem, "/dev/disk17s1");
    let mapped = parse_df_row("map auto_home  0  0  0  100%  /System/Volumes/Data/home")
        .expect("row should parse");
    assert_eq!(mapped.filesystem, "map auto_home");
}

#[test]
fn df_parsing_rejects_malformed_rows() {
    assert!(parse_df_row("").is_none());
    assert!(parse_df_row("Filesystem 1024-blocks Used Available Capacity Mounted on").is_none());
    assert!(parse_df_row("/dev/disk1 100 50 50").is_none());
    assert!(parse_df_row("/dev/disk1 abc def ghi 50% /").is_none());
    assert_eq!(parse_df_output("only a header line\n", ""), Vec::new());
}

#[test]
fn base_device_name_collapses_apfs_slices() {
    assert_eq!(base_device_name("/dev/disk3s1s1").as_deref(), Some("disk3"));
    assert_eq!(base_device_name("/dev/disk17s1").as_deref(), Some("disk17"));
    assert_eq!(base_device_name("devfs"), None);
    assert_eq!(base_device_name("map auto_home"), None);
    assert_eq!(base_device_name("//user@server/share"), None);
}

#[test]
fn volumes_are_ordered_root_then_external_then_by_size() {
    let df = "Filesystem 1024-blocks Used Available Capacity Mounted on
/dev/disk9s1 2097152 0 1048576 50% /Library/Big
/dev/disk8s1 4194304 0 1048576 75% /Volumes/Second
/dev/disk4s1 1048576 0 1048576 0% /Volumes/First
/dev/disk3s1 1048576 0 0 100% /
/dev/disk5s1 8388608 0 0 100% /opt/huge
";
    let mounts: Vec<String> = parse_df_output(df, "").into_iter().map(|v| v.mountpoint).collect();
    assert_eq!(mounts, vec!["/", "/Volumes/Second", "/Volumes/First", "/opt/huge", "/Library/Big"]);
    assert_eq!(volume_rank("/"), 0);
    assert_eq!(volume_rank("/Volumes/x"), 1);
    assert_eq!(volume_rank("/Volumesx"), 2);
}

#[test]
fn equal_volumes_keep_their_df_order_and_small_ones_are_dropped() {
    let df = "header
/dev/disk2s1 1048576 0 0 100% /b
/dev/disk3s1 1048576 0 0 100% /a
/dev/disk4s1 1048575 0 0 100% /tiny
/dev/disk2s2 9999999 0 0 100% /same-disk
";
    let mounts: Vec<String> = parse_df_output(df, "").into_iter().map(|v| v.mountpoint).collect();
    assert_eq!(mounts, vec!["/b", "/a"]);
}

#[test]
fn capacity_column_allows_repeated_percent_signs() {
    let volume = parse_df_row("/dev/disk1s1 10 5 5 50%% /x").expect("row should parse");
    assert_eq!(volume.total_bytes, 10 * 1024);
    assert_eq!(volume.available_bytes, 5 * 1024);
    assert!(parse_df_row("/dev/disk1s1 10 5 5 % /x").is_none());
    let saturated = parse_df_row("/dev/disk1s1 18446744073709551615 0 0 0% /x").unwrap();
    assert_eq!(saturated.total_bytes, u64::MAX);
}
