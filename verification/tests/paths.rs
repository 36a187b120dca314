use mib_browser::config::Config;
use mib_browser::paths::UnloadMibItem;

fn strings(paths: &[&str]) -> Vec<String> {
    paths.iter().map(|s| s.to_string()).collect()
}

fn config(paths: &[&str]) -> Config {
    let mut config = Config::default();
    config.active_profile = "p".to_string();
    config.mibs = strings(paths);
    config
}

fn items(marks: &[(&str, bool)]) -> Vec<UnloadMibItem> {
    marks
        .iter()
        .map(|(path, checked)| UnloadMibItem { path: path.to_string(), checked: *checked })
        .collect()
}

#[test]
fn picked_files_are_added_once() {
    let mut c = config(&["a", "b"]);
    assert!(c.add_mibs(&strings(&["c", "a", "c", "d"])));
    assert_eq!(c.mibs, strings(&["a", "b", "c", "d"]));
    assert_eq!(c.active_profile, "p");
    assert!(c.add_mibs(&strings(&["c", "a", "c", "d"])));
    assert_eq!(c.mibs, strings(&["a", "b", "c", "d"]));
}

#[test]
fn nothing_picked_changes_nothing() {
    let mut c = config(&["a"]);
    assert!(!c.add_mibs(&strings(&[])));
    assert_eq!(c.mibs, strings(&["a"]));
}

#[test]
fn unload_list_is_unchecked() {
    let list = config(&["a", "b"]).unload_items();
    assert_eq!(list.len(), 2);
    assert_eq!(list[0].path, "a");
    assert_eq!(list[1].path, "b");
    assert!(!list[0].checked && !list[1].checked);
}

#[test]
fn checked_files_are_removed() {
    let mut c = config(&["a", "b", "c", "b"]);
    assert!(c.remove_mibs(&items(&[("a", false), ("b", true), ("x", true), ("c", false)])));
    assert_eq!(c.mibs, strings(&["a", "c"]));
    assert_eq!(c.active_profile, "p");
}

#[test]
fn nothing_checked_changes_nothing() {
    let mut c = config(&["a", "b"]);
    let list = c.unload_items();
    assert!(!c.remove_mibs(&list));
    assert_eq!(c.mibs, strings(&["a", "b"]));
}

#[test]
fn unload_undoes_load() {
    let mut c = config(&["a", "b"]);
    c.add_mibs(&strings(&["c", "d"]));
    c.remove_mibs(&items(&[("c", true), ("d", true)]));
    assert_eq!(c.mibs, strings(&["a", "b"]));
}
