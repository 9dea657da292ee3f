use disk_inventory::windows::{
    forget_window, get_window_mount_point, open_volume_window, volume_window_label,
    VolumeWindowState, WindowCounter,
};

#[test]
fn default_state_starts_empty() {
    let state = VolumeWindowState::default();
    assert!(state.is_empty());
}

#[test]
fn tracks_mount_point_by_label() {
    let mut state = VolumeWindowState::default();

    state.remember("volume-42".to_string(), "/Volumes/Data".to_string());

    assert_eq!(state.mount_point_of("volume-42"), Some("/Volumes/Data".to_string()));
    assert_eq!(state.mount_point_of("volume-missing"), None);
}

#[test]
fn forget_window_removes_only_the_matching_label() {
    let mut state = VolumeWindowState::default();

    state.remember("volume-1".to_string(), "/Volumes/Backup".to_string());
    state.remember("volume-2".to_string(), "/Volumes/Data".to_string());

    forget_window("volume-1", &mut state);

    assert_eq!(state.mount_point_of("volume-1"), None);
    assert_eq!(state.mount_point_of("volume-2"), Some("/Volumes/Data".to_string()));
}

#[test]
fn forget_window_on_an_unknown_label_is_a_no_op() {
    let mut state = VolumeWindowState::default();

    state.remember("volume-1".to_string(), "/Volumes/Backup".to_string());

    forget_window("volume-missing", &mut state);

    assert_eq!(state.mount_point_of("volume-1"), Some("/Volumes/Backup".to_string()));
}

#[test]
fn window_counter_produces_unique_increasing_labels() {
    let mut counter = WindowCounter::new();
    let first = counter.fetch_add();
    let second = counter.fetch_add();

    assert!(second > first);
    assert_ne!(format!("volume-{first}"), format!("volume-{second}"));
    assert_ne!(volume_window_label(first), volume_window_label(second));
}

#[test]
fn volume_window_label_is_the_decimal_number() {
    assert_eq!(volume_window_label(0), "volume-0");
    assert_eq!(volume_window_label(7), "volume-7");
    assert_eq!(volume_window_label(42), "volume-42");
    assert_eq!(volume_window_label(1000), "volume-1000");
    assert_eq!(volume_window_label(u64::MAX), format!("volume-{}", u64::MAX));
}

#[test]
fn opening_a_volume_window_registers_it() {
    let mut state = VolumeWindowState::default();
    let mut counter = WindowCounter::new();
    let first = open_volume_window(&mut state, &mut counter, "/Volumes/Data".to_string());
    let second = open_volume_window(&mut state, &mut counter, "/".to_string());
    assert_eq!(first.label, "volume-0");
    assert_eq!(first.title, "Disk Inventory — /Volumes/Data");
    assert_eq!(second.label, "volume-1");
    assert_eq!(get_window_mount_point("volume-0", &state), Some("/Volumes/Data".to_string()));
    assert_eq!(get_window_mount_point("volume-1", &state), Some("/".to_string()));
    assert_eq!(get_window_mount_point("main", &state), None);
    assert!(!state.is_empty());
}

#[test]
fn forgetting_twice_is_forgetting_once() {
    let mut state = VolumeWindowState::default();
    state.remember("volume-3".to_string(), "/".to_string());
    forget_window("volume-3", &mut state);
    forget_window("volume-3", &mut state);
    assert!(state.is_empty());
}
