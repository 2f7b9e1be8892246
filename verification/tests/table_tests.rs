use denizo_init::service::{Service, ServiceAction};
use denizo_init::table::{find_diff, ServiceTable};

fn table_of(paths: &[&str]) -> ServiceTable {
    let mut t = ServiceTable::new();
    for p in paths {
        t.insert(Service::new(p.to_string()));
    }
    t
}

fn names_of(t: &ServiceTable) -> Vec<String> {
    (0..t.len()).map(|i| t.get(i).name().clone()).collect()
}

#[test]
fn insert_then_find() {
    let mut t = table_of(&["/d/a", "/d/b"]);
    assert_eq!(t.len(), 2);
    assert_eq!(t.position("b"), Some(1));
    assert!(t.contains("a"));
    assert!(!t.contains("c"));
    // a service of the same name takes the place of the old one
    t.insert(Service::new("/other/a".to_string()));
    assert_eq!(t.len(), 2);
    assert_eq!(t.get(0).path().as_str(), "/other/a");
}

#[test]
fn remove_then_find() {
    let mut t = table_of(&["/d/a", "/d/b", "/d/c"]);
    let r = t.remove("b").unwrap();
    assert_eq!(r.name().as_str(), "b");
    assert!(!t.contains("b"));
    assert_eq!(names_of(&t), vec!["a", "c"]);
    assert!(t.remove("zzz").is_none());
}

#[test]
fn find_diff_splits_names() {
    let old = table_of(&["/d/a", "/d/b", "/d/c"]);
    let new = table_of(&["/d/c", "/d/d", "/d/a"]);
    let (removed, kept) = find_diff(&old, &new);
    assert_eq!(removed, vec!["b".to_string()]);
    assert_eq!(kept, vec!["a".to_string(), "c".to_string()]);
    let (added, known) = find_diff(&new, &old);
    assert_eq!(added, vec!["d".to_string()]);
    assert_eq!(known, vec!["c".to_string(), "a".to_string()]);
}

#[test]
fn status_report_lists_each_service() {
    let mut t = table_of(&["/d/a", "/d/b"]);
    t.child_spawned("b", 12);
    assert_eq!(t.status_report(), "a is running: false\nb is running: true\n");
    assert_eq!(ServiceTable::new().status_report(), "");
}

#[test]
fn supervisor_events_by_name() {
    let mut t = table_of(&["/d/a-auto-restart"]);
    t.supervision_began("a-auto-restart");
    t.child_spawned("a-auto-restart", 5);
    assert!(t.run_ended("a-auto-restart"));
    assert_eq!(t.get(0).pid(), 5);
    let p = t.position("a-auto-restart").unwrap();
    assert_eq!(t.stop_at(p), Ok(ServiceAction::Terminate(5)));
    assert!(!t.run_ended("a-auto-restart"));
    assert!(!t.get(0).is_service_running());
    // a supervisor whose service left the table stops
    assert!(!t.run_ended("gone"));
}

#[test]
fn refresh_reports_and_reloads() {
    let mut t = table_of(&["/d/a", "/d/b-oneshot", "/d/c", "/d/e"]);
    t.child_spawned("a", 31);
    t.child_spawned("c", 33);
    let fresh = table_of(&["/d/c", "/d/d", "/d/f-oneshot"]);
    let (report, halts) = t.refresh(fresh);
    assert_eq!(
        report,
        "a stopped\na removed\nb-oneshot removed\ne removed\nd added\nf-oneshot added\nc unchanged\n"
    );
    assert_eq!(halts, vec![31]);
    assert_eq!(names_of(&t), vec!["c", "d", "f-oneshot"]);
    // the service that stayed kept its state
    assert_eq!(t.get(0).pid(), 33);
    assert!(!t.get(1).is_service_running());
}

#[test]
fn refresh_with_same_scripts_changes_nothing() {
    let mut t = table_of(&["/d/a", "/d/b"]);
    t.child_spawned("a", 4);
    let (report, halts) = t.refresh(table_of(&["/d/a", "/d/b"]));
    assert_eq!(report, "a unchanged\nb unchanged\n");
    assert!(halts.is_empty());
    assert_eq!(t.get(0).pid(), 4);
}
