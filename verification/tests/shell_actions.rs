use disk_inventory::shell_actions::{app_display_name, rank_apps, sort_apps, text_precedes, AppInfo};

#[test]
fn app_display_name_strips_the_dot_app_extension() {
    assert_eq!(app_display_name("/Applications/Preview.app"), "Preview");
}

#[test]
fn app_display_name_falls_back_to_the_full_path_without_a_file_name() {
    assert_eq!(app_display_name("/"), "/");
}

#[test]
fn text_precedes_orders_like_string_comparison() {
    let words = ["", "a", "ab", "b", "B", "Zebra", "zebra", "é", "e", "ee"];
    for a in words {
        for b in words {
            assert_eq!(text_precedes(a, b), a < b, "{a:?} vs {b:?}");
        }
    }
}

fn app(name: &str, is_default: bool) -> AppInfo {
    AppInfo { name: name.to_string(), path: format!("/Applications/{name}.app"), is_default }
}

#[test]
fn sort_apps_puts_the_default_first_then_orders_by_name() {
    let sorted = sort_apps(vec![app("TextEdit", false), app("Xcode", true), app("BBEdit", false)]);
    let names: Vec<&str> = sorted.iter().map(|a| a.name.as_str()).collect();
    assert_eq!(names, vec!["Xcode", "BBEdit", "TextEdit"]);
    assert!(sorted[0].is_default);
}

#[test]
fn sort_apps_keeps_the_order_of_apps_with_the_same_name() {
    let mut first = app("Preview", false);
    first.path = "/Applications/Preview.app".to_string();
    let mut second = app("Preview", false);
    second.path = "/System/Applications/Preview.app".to_string();
    let sorted = sort_apps(vec![first, app("Atom", false), second]);
    assert_eq!(sorted[0].name, "Atom");
    assert_eq!(sorted[1].path, "/Applications/Preview.app");
    assert_eq!(sorted[2].path, "/System/Applications/Preview.app");
}

#[test]
fn rank_apps_marks_the_default_and_names_each_app() {
    let found = vec![
        "/Applications/TextEdit.app".to_string(),
        "/Applications/Preview.app".to_string(),
        "/Applications/Safari.app".to_string(),
    ];
    let ranked = rank_apps(&found, Some("/Applications/Safari.app/"));
    assert_eq!(ranked.len(), 3);
    assert_eq!(ranked[0].name, "Safari");
    assert!(ranked[0].is_default);
    assert_eq!(ranked[1].name, "Preview");
    assert!(!ranked[1].is_default);
    assert_eq!(ranked[2].name, "TextEdit");
    assert_eq!(ranked[2].path, "/Applications/TextEdit.app");
}

#[test]
fn rank_apps_without_a_default_orders_by_name_only() {
    let found = vec!["/Applications/b.app".to_string(), "/Applications/a.app".to_string()];
    let ranked = rank_apps(&found, None);
    assert_eq!(ranked[0].name, "a");
    assert_eq!(ranked[1].name, "b");
    assert!(ranked.iter().all(|a| !a.is_default));
}
