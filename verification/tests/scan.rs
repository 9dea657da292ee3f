use disk_inventory::disks::DiskInfo;
use disk_inventory::filesystem::{
    backfill_directory_sizes, get_directory_contents, should_skip_directory, AppState, ChildIndex,
    EntryType, FsEntry, ScanMessage, StringHashMap,
};
use disk_inventory::scan::{
    keep_walk_child, other_mount_points, progress_due, volume_used_bytes, ChildProbe, ScanState,
    WalkedEntry,
};

fn disk(mount_point: &str, used: u64) -> DiskInfo {
    DiskInfo {
        name: mount_point.to_string(),
        mount_point: mount_point.to_string(),
        file_system: "apfs".to_string(),
        kind: "SSD".to_string(),
        is_removable: false,
        is_read_only: false,
        total_bytes: used * 2,
        available_bytes: used,
        used_bytes: used,
    }
}

fn dir(path: &str) -> WalkedEntry {
    WalkedEntry { path: path.to_string(), is_dir: true, is_symlink: false, length: Some(4096) }
}

fn file(path: &str, len: u64) -> WalkedEntry {
    WalkedEntry { path: path.to_string(), is_dir: false, is_symlink: false, length: Some(len) }
}

fn symlink(path: &str) -> WalkedEntry {
    WalkedEntry { path: path.to_string(), is_dir: false, is_symlink: true, length: Some(999) }
}

fn sample_walk() -> Vec<WalkedEntry> {
    vec![
        dir("/data"),
        dir("/data/a"),
        file("/data/a/f1", 100),
        dir("/data/a/b"),
        file("/data/a/b/f2", 50),
        file("/data/g", 10),
        symlink("/data/link"),
        WalkedEntry { path: "/data/unreadable".to_string(), is_dir: false, is_symlink: false, length: None },
    ]
}

fn scanned(entries: Vec<WalkedEntry>) -> ScanState {
    let disks = vec![disk("/", 600), disk("/Volumes/Backup", 40)];
    let (mut state, start) = ScanState::start(1, "/data".to_string(), 7, &disks);
    match start {
        ScanMessage::Start { total_bytes, generation } => {
            assert_eq!(total_bytes, 600);
            assert_eq!(generation, 1);
        },
        other => panic!("unexpected first message {other:?}"),
    }
    for e in entries {
        assert!(state.can_record(&e));
        state.record_entry(e);
    }
    state
}

#[test]
fn start_announces_the_used_bytes_of_the_volume_and_excludes_the_others() {
    let disks = vec![disk("/", 600), disk("/data", 100), disk("/Volumes/Backup", 40)];
    let (state, start) = ScanState::start(5, "/data".to_string(), 3, &disks);
    assert!(matches!(start, ScanMessage::Start { total_bytes: 700, generation: 5 }));
    assert_eq!(state.excluded_mounts(), &vec!["/Volumes/Backup".to_string()]);
    assert_eq!(state.root(), "/data");
    assert_eq!(state.root_device(), 3);
    assert_eq!(state.scanned_files(), 0);
    assert_eq!(volume_used_bytes("/data", &disks), Some(700));
    assert_eq!(other_mount_points("/", &disks), vec!["/data".to_string(), "/Volumes/Backup".to_string()]);
}

#[test]
fn try_start_refuses_a_total_that_overflows() {
    let disks = vec![disk("/", u64::MAX), disk("/data", 1)];
    assert!(ScanState::try_start(1, "/data".to_string(), 1, &disks).is_none());
    assert_eq!(volume_used_bytes("/data", &disks), None);
    assert!(ScanState::try_start(1, "/Volumes/X".to_string(), 1, &disks).is_some());
}

#[test]
fn record_entry_counts_files_and_rolls_sizes_up_to_the_root() {
    let state = scanned(sample_walk());
    assert_eq!(state.scanned_files(), 8);
    assert_eq!(state.scanned_bytes(), 160);
    assert_eq!(state.directory_size("/data/a/b"), Some(50));
    assert_eq!(state.directory_size("/data/a"), Some(150));
    assert_eq!(state.directory_size("/data"), Some(160));
    assert_eq!(state.directory_size("/"), None);
}

#[test]
fn record_entry_groups_entries_under_their_parent_in_walk_order() {
    let state = scanned(sample_walk());
    let top = state.recorded_children("/data").unwrap();
    let paths: Vec<&str> = top.iter().map(|e| e.path.as_str()).collect();
    assert_eq!(paths, vec!["/data/a", "/data/g", "/data/link", "/data/unreadable"]);
    assert_eq!(top[0].entry_type, EntryType::Directory);
    assert_eq!(top[0].size_bytes, 0);
    assert_eq!(top[1].entry_type, EntryType::File);
    assert_eq!(top[1].size_bytes, 10);
    assert_eq!(top[2].entry_type, EntryType::Symlink);
    assert_eq!(top[2].size_bytes, 0);
    assert_eq!(top[3].size_bytes, 0);
    let root_parent = state.recorded_children("/").unwrap();
    assert_eq!(root_parent.len(), 1);
    assert_eq!(root_parent[0].path, "/data");
    assert!(state.recorded_children("/data/a/b/f2").is_none());
}

#[test]
fn sizes_roll_up_to_the_top_when_the_root_is_not_an_ancestor() {
    let disks = vec![disk("/", 1)];
    let (mut state, _) = ScanState::start(1, "/elsewhere".to_string(), 1, &disks);
    state.record_entry(file("/x/y/z", 5));
    assert_eq!(state.directory_size("/x/y"), Some(5));
    assert_eq!(state.directory_size("/x"), Some(5));
    assert_eq!(state.directory_size("/"), Some(5));
}

#[test]
fn directory_sizes_do_not_depend_on_walk_order() {
    let mut reversed = sample_walk();
    reversed.reverse();
    let forward = scanned(sample_walk());
    let backward = scanned(reversed);
    for d in ["/data", "/data/a", "/data/a/b", "/"] {
        assert_eq!(forward.directory_size(d), backward.directory_size(d));
    }
    assert_eq!(forward.scanned_bytes(), backward.scanned_bytes());
}

#[test]
fn can_record_refuses_an_entry_that_would_overflow_the_byte_count() {
    let mut state = scanned(vec![file("/data/big", u64::MAX - 5)]);
    assert!(!state.can_record(&file("/data/more", 6)));
    assert!(state.can_record(&file("/data/more", 5)));
    assert!(state.can_record(&dir("/data/sub")));
    state.record_entry(file("/data/more", 5));
    assert_eq!(state.scanned_bytes(), u64::MAX);
}

#[test]
fn publish_backfills_directory_sizes_into_the_results() {
    let state = scanned(sample_walk());
    let mut app = AppState::default();
    state.publish(&mut app.scan_results);
    let listing = get_directory_contents("/data", &app).unwrap();
    let sizes: Vec<(String, u64)> = listing.iter().map(|e| (e.path.clone(), e.size_bytes)).collect();
    assert_eq!(
        sizes,
        vec![
            ("/data/a".to_string(), 150),
            ("/data/g".to_string(), 10),
            ("/data/link".to_string(), 0),
            ("/data/unreadable".to_string(), 0),
        ]
    );
    let inner = get_directory_contents("/data/a", &app).unwrap();
    assert_eq!(inner[0].path, "/data/a/f1");
    assert_eq!(inner[0].size_bytes, 100);
    assert_eq!(inner[1].path, "/data/a/b");
    assert_eq!(inner[1].size_bytes, 50);
    assert!(get_directory_contents("/nowhere", &app).unwrap().is_empty());
}

#[test]
fn finish_publishes_everything_and_closes_the_scan() {
    let state = scanned(sample_walk());
    let mut app = AppState::default();
    let messages = state.finish(&mut app.scan_results);
    assert_eq!(messages.len(), 2);
    assert!(matches!(messages[0], ScanMessage::Progress { scanned_files: 8, scanned_bytes: 160, generation: 1 }));
    assert!(matches!(messages[1], ScanMessage::Complete { generation: 1 }));
    let listing = get_directory_contents("/data", &app).unwrap();
    assert_eq!(listing[0].size_bytes, 150);
}

#[test]
fn publishing_keeps_results_of_other_scans() {
    let mut app = AppState::default();
    let disks = vec![disk("/", 1)];
    let (mut other, _) = ScanState::start(2, "/other".to_string(), 1, &disks);
    other.record_entry(file("/other/x", 3));
    other.publish(&mut app.scan_results);
    let state = scanned(sample_walk());
    state.publish(&mut app.scan_results);
    let kept = get_directory_contents("/other", &app).unwrap();
    assert_eq!(kept.len(), 1);
    assert_eq!(kept[0].size_bytes, 3);
}

#[test]
fn progress_reports_the_counters() {
    let state = scanned(sample_walk());
    assert!(matches!(state.progress(), ScanMessage::Progress { scanned_files: 8, scanned_bytes: 160, generation: 1 }));
    assert!(!progress_due(499));
    assert!(progress_due(500));
}

#[test]
fn contents_are_largest_first_and_stable_among_equal_sizes() {
    let mut index = ChildIndex::new();
    for (name, size) in [("p", 5u64), ("q", 9), ("r", 5), ("s", 0), ("t", 9)] {
        index.push_child(
            "/d".to_string(),
            FsEntry { path: format!("/d/{name}"), entry_type: EntryType::File, size_bytes: size },
        );
    }
    let app = AppState { scan_results: index, scans_begun: 0 };
    let listing = get_directory_contents("/d", &app).unwrap();
    let paths: Vec<&str> = listing.iter().map(|e| e.path.as_str()).collect();
    assert_eq!(paths, vec!["/d/q", "/d/t", "/d/p", "/d/r", "/d/s"]);
}

#[test]
fn backfill_sets_only_directories_with_a_known_size() {
    let mut index = ChildIndex::new();
    index.push_child("/d".to_string(), FsEntry { path: "/d/sub".to_string(), entry_type: EntryType::Directory, size_bytes: 0 });
    index.push_child("/d".to_string(), FsEntry { path: "/d/new".to_string(), entry_type: EntryType::Directory, size_bytes: 0 });
    index.push_child("/d".to_string(), FsEntry { path: "/d/file".to_string(), entry_type: EntryType::File, size_bytes: 7 });
    let mut sizes: StringHashMap<u64> = StringHashMap::new();
    sizes.insert("/d/sub".to_string(), 42);
    sizes.insert("/d/file".to_string(), 1000);
    backfill_directory_sizes(&mut index, &sizes);
    let group = index.children_of("/d").unwrap();
    assert_eq!(group[0].size_bytes, 42);
    assert_eq!(group[1].size_bytes, 0);
    assert_eq!(group[2].size_bytes, 7);
    backfill_directory_sizes(&mut index, &sizes);
    let again = index.children_of("/d").unwrap();
    assert_eq!(again[0].size_bytes, 42);
    assert_eq!(again[2].size_bytes, 7);
}

#[test]
fn set_children_replaces_a_group() {
    let mut index = ChildIndex::new();
    index.push_child("/d".to_string(), FsEntry { path: "/d/a".to_string(), entry_type: EntryType::File, size_bytes: 1 });
    index.set_children("/d".to_string(), vec![]);
    assert!(index.children_of("/d").unwrap().is_empty());
    assert!(index.children_of("/e").is_none());
}

#[test]
fn should_skip_directory_only_for_whole_system_scans() {
    let excludes = vec!["/Volumes/Backup".to_string()];
    assert!(should_skip_directory("/System/Volumes/Data", "/", &excludes));
    assert!(should_skip_directory("/Volumes/Backup", "/", &excludes));
    assert!(should_skip_directory("/Volumes/Backup/", "/", &excludes));
    assert!(!should_skip_directory("/Volumes/Other", "/", &excludes));
    assert!(!should_skip_directory("/System/Volumes/Data", "/Volumes/Backup", &excludes));
    assert!(!should_skip_directory("/Volumes/Backup", "/data", &excludes));
}

#[test]
fn keep_walk_child_stays_on_the_root_device() {
    let excludes = vec!["/Volumes/Backup".to_string()];
    let probe = |path: &str, is_dir: bool, device: Option<u64>| ChildProbe { path: path.to_string(), is_dir, device };
    assert!(keep_walk_child(Some(&probe("/Users", true, Some(1))), "/", &excludes, 1));
    assert!(!keep_walk_child(Some(&probe("/Users", true, Some(2))), "/", &excludes, 1));
    assert!(!keep_walk_child(Some(&probe("/Users", true, None)), "/", &excludes, 1));
    assert!(!keep_walk_child(None, "/", &excludes, 1));
    assert!(!keep_walk_child(Some(&probe("/System/Volumes/Data", true, Some(1))), "/", &excludes, 1));
    assert!(!keep_walk_child(Some(&probe("/Volumes/Backup", true, Some(1))), "/", &excludes, 1));
    assert!(keep_walk_child(Some(&probe("/Volumes/Backup", false, Some(1))), "/", &excludes, 1));
}

#[test]
fn duplicate_copies_an_entry() {
    let e = FsEntry { path: "/x".to_string(), entry_type: EntryType::Symlink, size_bytes: 3 };
    let d = e.duplicate();
    assert_eq!(d.path, "/x");
    assert_eq!(d.entry_type, EntryType::Symlink);
    assert_eq!(d.size_bytes, 3);
}

#[test]
fn sizes_are_whole_allocation_blocks() {
    assert_eq!(disk_inventory::scan::allocated_bytes(0), Some(0));
    assert_eq!(disk_inventory::scan::allocated_bytes(8), Some(4096));
    assert_eq!(disk_inventory::scan::allocated_bytes(u64::MAX / 512 + 1), None);
}

#[test]
fn snapshots_are_published_more_often_than_progress_is_reported() {
    assert!(!disk_inventory::scan::snapshot_due(249));
    assert!(disk_inventory::scan::snapshot_due(250));
    assert!(!progress_due(250));
}

#[test]
fn each_scan_gets_a_later_generation_that_all_its_messages_carry() {
    let mut app = AppState::default();
    let first = app.begin_scan().unwrap();
    let second = app.begin_scan().unwrap();
    assert!(second > first);
    assert_eq!((first, second), (1, 2));
    let disks = vec![disk("/", 1)];
    let (mut state, start) = ScanState::start(second, "/s".to_string(), 1, &disks);
    assert!(matches!(start, ScanMessage::Start { generation: 2, .. }));
    state.record_entry(file("/s/f", 1));
    assert!(matches!(state.progress(), ScanMessage::Progress { generation: 2, .. }));
    let messages = state.finish(&mut app.scan_results);
    assert!(messages.iter().all(|m| matches!(
        m,
        ScanMessage::Progress { generation: 2, .. } | ScanMessage::Complete { generation: 2 }
    )));
}

#[test]
fn generations_run_out_without_wrapping() {
    let mut app = AppState::default();
    app.scans_begun = u64::MAX;
    assert_eq!(app.begin_scan(), None);
    assert_eq!(app.scans_begun, u64::MAX);
}
