use denizo_init::simple_boot::{boot_plan, script_label, BootStep};
use denizo_init::power::{drain_done, power_mode, reaper_done, stop_for_shutdown, PowerMode, WaitResult};
use denizo_init::scripts::{process_scripts, sort_entries, text_le_exec, LoadStep, ScriptEntry};
use denizo_init::service::{Service, ServiceAction};
use denizo_init::table::ServiceTable;
use denizo_init::text::strip_newlines;

fn entry(p: &str, is_file: bool) -> ScriptEntry {
    ScriptEntry { path: p.to_string(), is_file }
}

#[test]
fn text_order() {
    assert!(text_le_exec("a", "b"));
    assert!(text_le_exec("a", "ab"));
    assert!(!text_le_exec("ab", "a"));
    assert!(text_le_exec("", ""));
    assert!(text_le_exec("02-x", "10-y"));
    assert!(!text_le_exec("b", "B"));
}

#[test]
fn sorts_like_paths() {
    let es = vec![entry("/d/10-b", true), entry("/d/02-a", true), entry("/d/02-a.sh", false), entry("/d/01", true)];
    let sorted = sort_entries(es);
    let got: Vec<&str> = sorted.iter().map(|e| e.path.as_str()).collect();
    let mut want = vec!["/d/10-b", "/d/02-a", "/d/02-a.sh", "/d/01"];
    want.sort_by(|a, b| std::path::Path::new(a).cmp(std::path::Path::new(b)));
    assert_eq!(got, want);
    assert_eq!(got, vec!["/d/01", "/d/02-a", "/d/02-a.sh", "/d/10-b"]);
}

#[test]
fn boot_load_starts_enabled_scripts_in_order() {
    let es = vec![
        entry("/d/03-web", true),
        entry("/d/01-mount-oneshot", true),
        entry("/d/02-sub", false),
        entry("/d/04-old-disabled", true),
        entry("/d/05-net-auto-restart", true),
    ];
    let (table, steps) = process_scripts(es, true);
    assert_eq!(table.len(), 4);
    let names: Vec<String> = (0..table.len()).map(|i| table.get(i).name().clone()).collect();
    assert_eq!(names, vec!["01-mount-oneshot", "03-web", "04-old-disabled", "05-net-auto-restart"]);
    assert_eq!(steps.len(), 4);
    assert!(matches!(&steps[0], LoadStep::Launch { name, action: ServiceAction::RunOnce, .. } if name == "01-mount-oneshot"));
    assert!(matches!(&steps[1], LoadStep::NotAFile { path } if path == "/d/02-sub"));
    assert!(matches!(&steps[2], LoadStep::Launch { name, action: ServiceAction::Supervise, .. } if name == "03-web"));
    assert!(matches!(&steps[3], LoadStep::Launch { name, path, action: ServiceAction::Supervise } if name == "05-net-auto-restart" && path == "/d/05-net-auto-restart"));
}

#[test]
fn reload_load_starts_nothing() {
    let es = vec![entry("/d/03-web", true), entry("/d/x", false)];
    let (table, steps) = process_scripts(es, false);
    assert_eq!(table.len(), 1);
    assert_eq!(steps.len(), 1);
    assert!(matches!(&steps[0], LoadStep::NotAFile { .. }));
}

#[test]
fn wait_decisions() {
    assert!(drain_done(WaitResult::NoChildren));
    assert!(!drain_done(WaitResult::Failed));
    assert!(!drain_done(WaitResult::Status(Some(12))));
    assert!(!drain_done(WaitResult::Status(None)));
    assert!(reaper_done(WaitResult::NoChildren));
    assert!(reaper_done(WaitResult::Status(Some(0))));
    assert!(!reaper_done(WaitResult::Status(Some(5))));
    assert!(!reaper_done(WaitResult::Status(None)));
    assert!(!reaper_done(WaitResult::Failed));
    assert_eq!(power_mode(true), PowerMode::Reboot);
    assert_eq!(power_mode(false), PowerMode::PowerOff);
}

#[test]
fn shutdown_stops_running_services() {
    let mut t = ServiceTable::new();
    for p in ["/d/a", "/d/b", "/d/c-oneshot", "/d/e-auto-restart"] {
        t.insert(Service::new(p.to_string()));
    }
    t.supervision_began("a");
    t.child_spawned("a", 11);
    t.child_spawned("c-oneshot", 13);
    t.supervision_began("e-auto-restart");
    t.child_spawned("e-auto-restart", 15);
    let pids = stop_for_shutdown(&mut t);
    assert_eq!(pids, vec![11, 15]);
    assert!(!t.run_ended("e-auto-restart"));
}

#[test]
fn hostname_loses_line_feeds() {
    assert_eq!(strip_newlines("myhost\n"), "myhost");
    assert_eq!(strip_newlines("my\nhost\n\n"), "myhost");
    assert_eq!(strip_newlines(""), "");
}

#[test]
fn boot_plan_orders_and_classifies() {
    let es = vec![entry("/d/2-x-auto-restart", true), entry("/d/1-y", true), entry("/d/3", false)];
    let steps = boot_plan(es);
    assert_eq!(steps.len(), 3);
    assert!(matches!(&steps[0], BootStep::RunAndWait { label, .. } if label == "1-y"));
    assert!(matches!(&steps[1], BootStep::KeepRestarting { label, .. } if label == "2-x-auto-restart"));
    assert!(matches!(&steps[2], BootStep::NotAFile { path } if path == "/d/3"));
    assert_eq!(script_label("/"), "?");
    assert_eq!(script_label("/d/a.sh"), "a.sh");
}
