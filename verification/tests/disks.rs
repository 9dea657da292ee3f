use disk_inventory::disks::{build_disk_info, is_internal_macos_volume, list_disks, DiskInfo, DiskReading};

/// The share of the disk in use, in percent, as the volume list shows it.
fn used_percent(info: &DiskInfo) -> f64 {
    if info.total_bytes > 0 {
        (info.used_bytes as f64 / info.total_bytes as f64) * 100.0
    } else {
        0.0
    }
}

fn reading(name: &str, mount_point: &str, total: u64, available: u64) -> DiskReading {
    DiskReading {
        name: name.to_string(),
        mount_point: mount_point.to_string(),
        file_system: "apfs".to_string(),
        kind: "SSD".to_string(),
        is_removable: false,
        is_read_only: false,
        total_bytes: total,
        available_bytes: available,
    }
}

#[test]
fn flags_system_volumes_mount_points() {
    assert!(is_internal_macos_volume("/System/Volumes/Data"));
    assert!(is_internal_macos_volume("/System/Volumes/VM"));
}

#[test]
fn does_not_flag_regular_mount_points() {
    assert!(!is_internal_macos_volume("/"));
    assert!(!is_internal_macos_volume("/Volumes/Backup"));
}

#[test]
fn computes_used_bytes_and_percent() {
    let info = build_disk_info(
        "Macintosh HD".to_string(),
        "/".to_string(),
        "apfs".to_string(),
        "SSD".to_string(),
        false,
        false,
        1000,
        250,
    );

    assert_eq!(info.used_bytes, 750);
    assert_eq!(used_percent(&info), 75.0);
}

#[test]
fn falls_back_to_the_mount_point_when_the_disk_name_is_empty() {
    let info = build_disk_info(
        "".to_string(),
        "/Volumes/Backup".to_string(),
        "apfs".to_string(),
        "SSD".to_string(),
        false,
        false,
        1000,
        500,
    );

    assert_eq!(info.name, "/Volumes/Backup");
}

#[test]
fn keeps_the_disk_name_when_present() {
    let info = build_disk_info(
        "Backup Drive".to_string(),
        "/Volumes/Backup".to_string(),
        "apfs".to_string(),
        "SSD".to_string(),
        false,
        false,
        1000,
        500,
    );

    assert_eq!(info.name, "Backup Drive");
}

#[test]
fn used_percent_is_zero_for_a_zero_sized_disk() {
    let info = build_disk_info(
        "Empty".to_string(),
        "/mnt/empty".to_string(),
        "".to_string(),
        "".to_string(),
        false,
        false,
        0,
        0,
    );

    assert_eq!(info.used_bytes, 0);
    assert_eq!(used_percent(&info), 0.0);
}

#[test]
fn used_bytes_never_underflows_when_available_exceeds_total() {
    let info = build_disk_info(
        "Weird".to_string(),
        "/mnt/weird".to_string(),
        "".to_string(),
        "".to_string(),
        false,
        false,
        100,
        150,
    );

    assert_eq!(info.used_bytes, 0);
}

#[test]
fn list_disks_excludes_macos_system_volumes() {
    let readings = vec![
        reading("Macintosh HD", "/", 1000, 400),
        reading("Data", "/System/Volumes/Data", 1000, 400),
        reading("VM", "/System/Volumes/VM", 1000, 900),
        reading("Backup", "/Volumes/Backup", 500, 100),
    ];
    let listed = list_disks(&readings);
    for disk in &listed {
        assert!(!is_internal_macos_volume(&disk.mount_point));
    }
    assert_eq!(listed.len(), 2);
}

#[test]
fn list_disks_keeps_order_and_derives_each_disk() {
    let readings = vec![
        reading("", "/Volumes/Stick", 64, 16),
        reading("Data", "/System/Volumes/Data", 1000, 400),
        reading("Macintosh HD", "/", 1000, 400),
    ];
    let listed = list_disks(&readings);
    assert_eq!(listed.len(), 2);
    assert_eq!(listed[0].name, "/Volumes/Stick");
    assert_eq!(listed[0].mount_point, "/Volumes/Stick");
    assert_eq!(listed[0].used_bytes, 48);
    assert_eq!(listed[0].available_bytes, 16);
    assert_eq!(listed[0].file_system, "apfs");
    assert_eq!(listed[1].name, "Macintosh HD");
    assert_eq!(listed[1].used_bytes, 600);
}

#[test]
fn list_disks_of_nothing_is_empty() {
    assert!(list_disks(&Vec::new()).is_empty());
}

#[test]
fn system_volumes_prefix_needs_the_trailing_separator() {
    assert!(!is_internal_macos_volume("/System/Volumes"));
    assert!(!is_internal_macos_volume("/System/VolumesX/Data"));
    assert!(is_internal_macos_volume("/System/Volumes/"));
}
