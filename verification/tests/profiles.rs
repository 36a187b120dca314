use mib_browser::config::{Config, Profile};

fn named(name: &str) -> Profile {
    let mut profile = Profile::default();
    profile.name = name.to_string();
    profile.host = format!("host of {}", name);
    profile
}

fn config(active: &str, names: &[&str]) -> Config {
    Config {
        mibs: vec!["m".to_string()],
        active_profile: active.to_string(),
        profiles: names.iter().map(|n| named(n)).collect(),
    }
}

fn names(config: &Config) -> Vec<String> {
    config.profile_names()
}

#[test]
fn names_come_in_order() {
    assert_eq!(names(&config("", &["b", "a"])), vec!["b".to_string(), "a".to_string()]);
    assert!(names(&config("", &[])).is_empty());
}

#[test]
fn select_sets_the_active_profile() {
    let mut c = config("a", &["a", "b"]);
    c.select_profile("b");
    assert_eq!(c.active_profile, "b");
    assert_eq!(names(&c), vec!["a".to_string(), "b".to_string()]);
}

#[test]
fn apply_renames_the_active_profile() {
    let mut c = config("a", &["a", "b"]);
    assert!(c.apply_profile(0, &named("z")));
    assert_eq!(c.active_profile, "z");
    assert_eq!(names(&c), vec!["z".to_string(), "b".to_string()]);
    assert_eq!(c.profiles[0].host, "host of z");
    assert!(c.apply_profile(1, &named("y")));
    assert_eq!(c.active_profile, "z");
    assert_eq!(names(&c), vec!["z".to_string(), "y".to_string()]);
}

#[test]
fn apply_outside_the_list_changes_nothing() {
    let mut c = config("a", &["a"]);
    assert!(!c.apply_profile(-1, &named("z")));
    assert!(c.apply_profile(1, &named("z")));
    assert_eq!(c.active_profile, "a");
    assert_eq!(names(&c), vec!["a".to_string()]);
}

#[test]
fn apply_the_same_profile_changes_nothing() {
    let mut c = config("a", &["a", "b"]);
    let same = c.profiles[0].clone();
    c.apply_profile(0, &same);
    assert_eq!(c.active_profile, "a");
    assert_eq!(c.profiles[0].host, "host of a");
    c.apply_profile(1, &named("x"));
    c.apply_profile(1, &named("y"));
    assert_eq!(names(&c), vec!["a".to_string(), "y".to_string()]);
}

#[test]
fn new_profile_is_not_active() {
    let mut c = config("a", &["a"]);
    let (row, profile) = c.new_profile(1);
    assert_eq!(row, 1);
    assert_eq!(profile.name, "Unnamed Profile");
    assert_eq!(profile.host, "");
    assert_eq!(c.active_profile, "a");
    assert_eq!(names(&c), vec!["a".to_string(), "Unnamed Profile".to_string()]);
    assert_eq!(c.profiles[1].host, "");
    let mut empty = Config::default();
    assert_eq!(empty.new_profile(0).0, 0);
    assert_eq!(empty.active_profile, "");
}

#[test]
fn delete_selects_a_neighbour() {
    let mut c = config("b", &["a", "b", "c"]);
    assert_eq!(c.delete_profile(1, 3), Some(1));
    assert_eq!(c.active_profile, "c");
    assert_eq!(names(&c), vec!["a".to_string(), "c".to_string()]);
    assert_eq!(c.delete_profile(1, 2), Some(0));
    assert_eq!(c.active_profile, "a");
    assert_eq!(c.delete_profile(0, 1), Some(-1));
    assert_eq!(c.active_profile, "");
    assert!(c.profiles.is_empty());
    assert_eq!(c.delete_profile(0, 0), None);
}

#[test]
fn delete_keeps_another_active_profile() {
    let mut c = config("c", &["a", "b", "c"]);
    assert_eq!(c.delete_profile(0, 3), Some(0));
    assert_eq!(c.active_profile, "c");
    assert_eq!(c.delete_profile(5, 2), None);
    assert_eq!(c.delete_profile(-1, 2), None);
    assert_eq!(names(&c), vec!["b".to_string(), "c".to_string()]);
    let mut last = config("gone", &["a"]);
    assert_eq!(last.delete_profile(0, 1), Some(-1));
    assert_eq!(last.active_profile, "gone");
}

#[test]
fn duplicate_comes_behind() {
    let mut c = config("a", &["a", "b"]);
    let (row, copy) = c.duplicate_profile(0, 2).unwrap();
    assert_eq!(row, 1);
    assert_eq!(copy.name, "Duplicated of a");
    assert_eq!(copy.host, "host of a");
    assert_eq!(
        names(&c),
        vec!["a".to_string(), "Duplicated of a".to_string(), "b".to_string()]
    );
    assert_eq!(c.profiles[1].host, "host of a");
    assert_eq!(c.active_profile, "a");
    assert!(c.duplicate_profile(3, 3).is_none());
    assert!(c.duplicate_profile(-1, 3).is_none());
    assert_eq!(c.profiles.len(), 3);
}

#[test]
fn a_window_with_fewer_rows_counts_its_own() {
    let mut c = config("a", &["a", "b"]);
    assert!(c.deletable(0, 1));
    assert_eq!(c.delete_profile(0, 1), Some(-1));
    assert_eq!(c.active_profile, "");
    assert_eq!(names(&c), vec!["b".to_string()]);

    let mut c = config("b", &["a", "b", "c"]);
    assert_eq!(c.delete_profile(1, 2), Some(0));
    assert_eq!(c.active_profile, "a");
    assert_eq!(names(&c), vec!["a".to_string(), "c".to_string()]);

    let mut c = config("a", &["a", "b", "c"]);
    assert_eq!(c.new_profile(1).0, 1);
    assert_eq!(c.profiles.len(), 4);
    assert_eq!(c.delete_profile(2, 2), None);
    assert!(c.duplicate_profile(2, 2).is_none());
    assert_eq!(c.profiles.len(), 4);
}

#[test]
fn a_window_with_more_rows_may_list_profiles_that_are_gone() {
    let mut c = config("a", &["a", "b"]);
    assert!(!c.deletable(2, 3));
    assert!(!c.deletable(2, 4));
    assert!(c.deletable(0, 3));
    assert!(c.deletable(1, 4));
    assert_eq!(c.delete_profile(1, 4), Some(1));
    assert_eq!(c.active_profile, "a");
    assert!(!c.deletable(0, 3));
    assert!(c.deletable(0, 1));
    let other = config("x", &["a"]);
    assert!(other.deletable(0, 3));
}

#[test]
fn delete_undoes_new_and_duplicate() {
    let mut c = config("b", &["a", "b"]);
    let (at, _) = c.new_profile(2);
    c.delete_profile(at, 3);
    assert_eq!(names(&c), vec!["a".to_string(), "b".to_string()]);
    assert_eq!(c.active_profile, "b");
    let (at, _) = c.duplicate_profile(1, 2).unwrap();
    c.delete_profile(at, 3);
    assert_eq!(names(&c), vec!["a".to_string(), "b".to_string()]);
    assert_eq!(c.active_profile, "b");
}

#[test]
fn active_profile_stays_known() {
    let known = |c: &Config| c.active_profile.is_empty() || names(c).contains(&c.active_profile);
    let mut c = config("a", &["a", "b", "a"]);
    c.apply_profile(0, &named("x"));
    assert!(known(&c));
    c.duplicate_profile(2, 3);
    assert!(known(&c));
    c.new_profile(4);
    assert!(known(&c));
    let mut rows = c.profiles.len();
    assert_eq!(rows, 5);
    while rows > 0 {
        assert!(c.deletable(0, rows));
        c.delete_profile(0, rows);
        rows -= 1;
        assert_eq!(c.profiles.len(), rows);
        assert!(known(&c));
    }
    assert_eq!(c.active_profile, "");
}
