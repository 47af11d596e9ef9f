use apptrack::store::Store;

fn names(v: &[String]) -> Vec<&str> {
    v.iter().map(|s| s.as_str()).collect()
}

fn running(names: &[&str]) -> Vec<String> {
    names.iter().map(|s| s.to_string()).collect()
}

fn total_of(s: &Store, name: &str) -> Option<i64> {
    s.get_app_usage()
        .iter()
        .find(|u| u.name == name)
        .map(|u| u.total_seconds)
}

fn paused_of(s: &Store, name: &str) -> Option<bool> {
    s.get_app_usage().iter().find(|u| u.name == name).map(|u| u.paused)
}

#[test]
fn tick_increments_tracked_running_unpaused() {
    // registry = {"Editor"}, paused = {}, running = {"Editor","Browser"}:
    // one tick adds one unit to Editor and creates nothing for Browser.
    let mut s = Store::new();
    s.add_app("Editor".to_string(), None);
    let accrued = s.increment_usage_for_running_apps(&running(&["Editor", "Browser"]));
    assert_eq!(names(&accrued), vec!["Editor"]);
    assert_eq!(total_of(&s, "Editor"), Some(1));
    assert_eq!(total_of(&s, "Browser"), None);
}

#[test]
fn toggle_creates_zero_total_paused_record() {
    // togglePause("Editor") on a fresh store returns true and creates the
    // record with total 0; a subsequent tick with Editor running adds nothing.
    let mut s = Store::new();
    s.add_app("Editor".to_string(), None);
    let now_paused = s.pause_app("Editor".to_string());
    assert!(now_paused);
    assert_eq!(total_of(&s, "Editor"), Some(0));
    assert_eq!(paused_of(&s, "Editor"), Some(true));
    let accrued = s.increment_usage_for_running_apps(&running(&["Editor"]));
    assert!(accrued.is_empty());
    assert_eq!(total_of(&s, "Editor"), Some(0));
}

#[test]
fn usage_survives_removal_without_delete() {
    // remove("Editor", alsoDeleteUsage=false), add("Editor"), tick with it
    // running: the total continues from its prior value.
    let mut s = Store::new();
    s.add_app("Editor".to_string(), None);
    for _ in 0..5 {
        s.increment_usage_for_running_apps(&running(&["Editor"]));
    }
    assert_eq!(total_of(&s, "Editor"), Some(5));
    s.remove_app(&"Editor".to_string(), false);
    assert!(s.get_tracked_apps().is_empty());
    assert_eq!(total_of(&s, "Editor"), Some(5));
    s.add_app("Editor".to_string(), None);
    s.increment_usage_for_running_apps(&running(&["Editor"]));
    assert_eq!(total_of(&s, "Editor"), Some(6));
}

#[test]
fn usage_deleted_with_delete_flag() {
    let mut s = Store::new();
    s.add_app("Editor".to_string(), None);
    s.increment_usage_for_running_apps(&running(&["Editor"]));
    s.remove_app(&"Editor".to_string(), true);
    assert_eq!(total_of(&s, "Editor"), None);
    assert!(s.get_tracked_apps().is_empty());
}

#[test]
fn add_is_idempotent_on_name() {
    // a second add never creates a second row; it updates the icon only
    // and keeps the id.
    let mut s = Store::new();
    s.add_app("Editor".to_string(), Some("icon-one".to_string()));
    let first = s.get_tracked_apps();
    assert_eq!(first.len(), 1);
    let id = first[0].id;
    assert_eq!(first[0].icon.as_deref(), Some("icon-one"));
    s.add_app("Editor".to_string(), Some("icon-two".to_string()));
    let second = s.get_tracked_apps();
    assert_eq!(second.len(), 1);
    assert_eq!(second[0].id, id);
    assert_eq!(second[0].name, "Editor");
    assert_eq!(second[0].icon.as_deref(), Some("icon-two"));
}

#[test]
fn toggle_twice_round_trips() {
    // two toggles restore the original pause state and never touch totals.
    let mut s = Store::new();
    s.add_app("Editor".to_string(), None);
    for _ in 0..3 {
        s.increment_usage_for_running_apps(&running(&["Editor"]));
    }
    assert_eq!(paused_of(&s, "Editor"), Some(false));
    assert!(s.pause_app("Editor".to_string()));
    assert!(!s.pause_app("Editor".to_string()));
    assert_eq!(paused_of(&s, "Editor"), Some(false));
    assert_eq!(total_of(&s, "Editor"), Some(3));
}

#[test]
fn n_ticks_add_exactly_n() {
    // tracked, running, never paused: N ticks add exactly N units.
    let mut s = Store::new();
    s.add_app("Editor".to_string(), None);
    s.update_app("Editor".to_string(), 100);
    for _ in 0..7 {
        s.increment_usage_for_running_apps(&running(&["Editor", "Shell"]));
    }
    assert_eq!(total_of(&s, "Editor"), Some(107));
}

#[test]
fn paused_app_never_accrues() {
    // tracked but paused: the total is unchanged whatever is running.
    let mut s = Store::new();
    s.add_app("Editor".to_string(), None);
    s.update_app("Editor".to_string(), 42);
    s.pause_app("Editor".to_string());
    s.increment_usage_for_running_apps(&running(&["Editor"]));
    s.increment_usage_for_running_apps(&running(&[]));
    s.increment_usage_for_running_apps(&running(&["Editor", "Editor"]));
    assert_eq!(total_of(&s, "Editor"), Some(42));
    assert_eq!(paused_of(&s, "Editor"), Some(true));
}

#[test]
fn pause_flip_between_ticks_gates_accrual() {
    // accrual stops after the flag flips on between ticks and resumes
    // when it flips back.
    let mut s = Store::new();
    s.add_app("Editor".to_string(), None);
    let run = running(&["Editor"]);
    s.increment_usage_for_running_apps(&run);
    assert_eq!(total_of(&s, "Editor"), Some(1));
    s.pause_app("Editor".to_string());
    s.increment_usage_for_running_apps(&run);
    assert_eq!(total_of(&s, "Editor"), Some(1));
    s.pause_app("Editor".to_string());
    s.increment_usage_for_running_apps(&run);
    assert_eq!(total_of(&s, "Editor"), Some(2));
}

#[test]
fn tick_with_empty_registry_is_noop() {
    let mut s = Store::new();
    let accrued = s.increment_usage_for_running_apps(&running(&["Editor"]));
    assert!(accrued.is_empty());
    assert!(s.get_app_usage().is_empty());
}

#[test]
fn untracked_running_app_gets_no_record() {
    let mut s = Store::new();
    s.add_app("Editor".to_string(), None);
    s.increment_usage_for_running_apps(&running(&["Browser"]));
    assert_eq!(total_of(&s, "Editor"), None);
    assert_eq!(total_of(&s, "Browser"), None);
}

#[test]
fn update_app_overwrites_total_and_keeps_flag() {
    let mut s = Store::new();
    s.pause_app("Editor".to_string());
    s.update_app("Editor".to_string(), 500);
    assert_eq!(total_of(&s, "Editor"), Some(500));
    assert_eq!(paused_of(&s, "Editor"), Some(true));
    s.update_app("Editor".to_string(), 0);
    assert_eq!(total_of(&s, "Editor"), Some(0));
}

#[test]
fn tracked_names_in_insertion_order() {
    let mut s = Store::new();
    s.add_app("Editor".to_string(), None);
    s.add_app("Browser".to_string(), None);
    s.add_app("Shell".to_string(), None);
    let got = s.get_tracked_app_names();
    assert_eq!(names(&got), vec!["Editor", "Browser", "Shell"]);
    let rows = s.get_tracked_apps();
    assert!(rows[0].id < rows[1].id && rows[1].id < rows[2].id);
}

#[test]
fn paused_names_lists_only_paused() {
    let mut s = Store::new();
    s.pause_app("Editor".to_string());
    s.pause_app("Browser".to_string());
    s.pause_app("Browser".to_string());
    s.update_app("Shell".to_string(), 3);
    let got = s.get_paused_appnames();
    assert_eq!(names(&got), vec!["Editor"]);
}

#[test]
fn loader_rejects_bad_rows() {
    let mut s = Store::new();
    assert!(s.insert_usage_row("Editor".to_string(), 10, false));
    assert!(!s.insert_usage_row("Editor".to_string(), 3, true));
    assert!(!s.insert_usage_row("Shell".to_string(), -1, false));
    assert_eq!(total_of(&s, "Editor"), Some(10));
    assert_eq!(total_of(&s, "Shell"), None);

    assert!(s.insert_tracked_row(3, "Editor".to_string(), None));
    assert!(!s.insert_tracked_row(3, "Browser".to_string(), None));
    assert!(!s.insert_tracked_row(10, "Editor".to_string(), None));
    assert!(s.insert_tracked_row(7, "Browser".to_string(), None));
    let rows = s.get_tracked_apps();
    assert_eq!(rows.len(), 2);
    assert_eq!((rows[0].id, rows[1].id), (3, 7));
    // a later add hands out an id above every loaded one
    s.add_app("Shell".to_string(), None);
    assert_eq!(s.get_tracked_apps()[2].id, 8);
}

#[test]
fn counter_reaches_the_top_of_its_range() {
    let mut s = Store::new();
    s.add_app("Editor".to_string(), None);
    s.update_app("Editor".to_string(), i64::MAX - 1);
    s.increment_usage_for_running_apps(&running(&["Editor"]));
    assert_eq!(total_of(&s, "Editor"), Some(i64::MAX));
}

#[test]
fn duplicate_running_names_count_once() {
    let mut s = Store::new();
    s.add_app("Editor".to_string(), None);
    s.increment_usage_for_running_apps(&running(&["Editor", "Editor", "Editor"]));
    assert_eq!(total_of(&s, "Editor"), Some(1));
}
