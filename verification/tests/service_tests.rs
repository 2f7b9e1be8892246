use denizo_init::path::file_name_of;
use denizo_init::service::{Service, ServiceAction, ServiceError, NO_PID};
use std::path::Path;

fn std_file_name(p: &str) -> Option<String> {
    Path::new(p).file_name().map(|n| n.to_str().unwrap().to_string())
}

#[test]
fn file_name_matches_std_path() {
    let cases = [
        "/etc/denizo-init/boot-scripts/03-service.sh",
        "03-service.sh",
        "a/b/",
        "a/b/.",
        "a/./b",
        "a//b//",
        "/",
        "",
        ".",
        "..",
        "a/..",
        "./",
        "./a",
        "/.",
        "a/../b",
        "...",
        "x/.hidden",
        "a/b/..",
        "//x",
    ];
    for c in cases.iter() {
        assert_eq!(file_name_of(c), std_file_name(c), "path {:?}", c);
    }
}

#[test]
fn file_name_examples() {
    assert_eq!(file_name_of("/etc/x/03-a.sh"), Some("03-a.sh".to_string()));
    assert_eq!(file_name_of("a/b/"), Some("b".to_string()));
    assert_eq!(file_name_of("a/.."), None);
    assert_eq!(file_name_of("/"), None);
}

#[test]
fn new_service_is_named_by_file_and_not_running() {
    let s = Service::new("/etc/denizo-init/boot-scripts/03-service.sh".to_string());
    assert_eq!(s.name().as_str(), "03-service.sh");
    assert_eq!(s.path().as_str(), "/etc/denizo-init/boot-scripts/03-service.sh");
    assert!(!s.is_service_running());
    assert_eq!(s.pid(), NO_PID);
    assert!(!s.check_if_oneshot());
    assert!(!s.is_auto_restarting());
}

#[test]
fn script_kinds_follow_name_suffix() {
    let a = Service::new("/d/10-net-auto-restart".to_string());
    assert!(a.is_auto_restarting());
    assert!(!a.check_if_oneshot());
    let o = Service::new("/d/01-mount-oneshot".to_string());
    assert!(o.check_if_oneshot());
    assert!(!o.is_auto_restarting());
    let plain = Service::new("/d/mountoneshot".to_string());
    assert!(!plain.check_if_oneshot());
}

#[test]
fn from_path_without_file_name_is_none() {
    assert!(Service::from_path("/".to_string()).is_none());
    assert!(Service::from_path("a/..".to_string()).is_none());
    let s = Service::from_path("x/y.sh".to_string()).unwrap();
    assert_eq!(s.name().as_str(), "y.sh");
}

#[test]
fn start_decisions() {
    let mut s = Service::new("/d/web".to_string());
    assert_eq!(s.start(), Ok(ServiceAction::Supervise));
    s.child_spawned(42);
    assert_eq!(s.start(), Err(ServiceError::AlreadyRunning));
    assert_eq!(s.pid(), 42);
    let mut o = Service::new("/d/x-oneshot".to_string());
    assert_eq!(o.start(), Ok(ServiceAction::RunOnce));
    assert_eq!(o.start(), Ok(ServiceAction::RunOnce));
}

#[test]
fn stop_decisions() {
    let mut s = Service::new("/d/web".to_string());
    assert_eq!(s.stop(), Err(ServiceError::NotRunning));
    s.supervision_began();
    s.child_spawned(7);
    assert_eq!(s.stop(), Ok(ServiceAction::Terminate(7)));
    let mut o = Service::new("/d/x-oneshot".to_string());
    assert_eq!(o.stop(), Err(ServiceError::OneshotCannotStop));
    assert_eq!(o.restart(), Err(ServiceError::OneshotCannotStop));
}

#[test]
fn restart_cycle() {
    let mut s = Service::new("/d/db-auto-restart".to_string());
    assert_eq!(s.restart(), Err(ServiceError::NotRunning));
    s.supervision_began();
    s.child_spawned(100);
    // while supervised, an exit of an auto-restart script runs it again
    assert!(s.run_ended());
    assert!(s.is_service_running());
    s.child_spawned(101);
    assert_eq!(s.restart(), Ok(ServiceAction::Terminate(101)));
    // the terminated run is not run again, and the service is free
    assert!(!s.run_ended());
    assert!(!s.is_service_running());
    assert_eq!(s.start(), Ok(ServiceAction::Supervise));
}

#[test]
fn plain_service_runs_once_under_supervision() {
    let mut s = Service::new("/d/web".to_string());
    s.supervision_began();
    s.child_spawned(9);
    assert!(!s.run_ended());
    assert!(!s.is_service_running());
}

#[test]
fn error_messages() {
    assert_eq!(ServiceError::AlreadyRunning.describe("web"), "service web is already running");
    assert_eq!(ServiceError::NotRunning.describe("web"), "service web is not running");
    assert_eq!(ServiceError::OneshotCannotStop.describe("m-oneshot"), "cannot stop oneshot service m-oneshot");
}
