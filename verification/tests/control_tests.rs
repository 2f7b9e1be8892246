use denizo_init::client::compose_command;
use denizo_init::control::{handle_request, parse_request, resume_restart, Effect, Request};
use denizo_init::service::Service;
use denizo_init::table::ServiceTable;

fn control_table(paths: &[&str]) -> ServiceTable {
    let mut t = ServiceTable::new();
    for p in paths {
        t.insert(Service::new(p.to_string()));
    }
    t
}

fn name_of(r: &Request) -> Option<&str> {
    match r {
        Request::Start(n) | Request::Restart(n) | Request::Stop(n) | Request::Status(n) => Some(n.as_str()),
        _ => None,
    }
}

#[test]
fn parses_bare_words() {
    assert!(matches!(parse_request("reboot"), Request::Reboot));
    assert!(matches!(parse_request("shutdown"), Request::Shutdown));
    assert!(matches!(parse_request("status"), Request::StatusAll));
    assert!(matches!(parse_request("refresh"), Request::Refresh));
}

#[test]
fn parses_verbs_with_names() {
    let r = parse_request("start 03-service.sh");
    assert!(matches!(r, Request::Start(_)));
    assert_eq!(name_of(&r), Some("03-service.sh"));
    let r = parse_request("restart 03-service.sh");
    assert!(matches!(r, Request::Restart(_)));
    assert_eq!(name_of(&r), Some("03-service.sh"));
    let r = parse_request("stop 03-service.sh");
    assert!(matches!(r, Request::Stop(_)));
    assert_eq!(name_of(&r), Some("03-service.sh"));
    let r = parse_request("status 03-service.sh");
    assert!(matches!(r, Request::Status(_)));
    assert_eq!(name_of(&r), Some("03-service.sh"));
    let r = parse_request("status ");
    assert_eq!(name_of(&r), Some(""));
}

#[test]
fn unknown_commands() {
    for c in ["", "Reboot", "start", "reboot ", "stopx", "halt now"] {
        match parse_request(c) {
            Request::Unknown(t) => assert_eq!(t, c),
            other => panic!("{:?} parsed as {:?}", c, other),
        }
    }
}

#[test]
fn client_commands_from_readme() {
    let args = |v: &[&str]| v.iter().map(|s| s.to_string()).collect::<Vec<String>>();
    assert_eq!(compose_command(&args(&["d-initctl", "start", "03-service.sh"])), Some("start 03-service.sh".to_string()));
    assert_eq!(compose_command(&args(&["d-initctl", "status"])), Some("status".to_string()));
    assert_eq!(compose_command(&args(&["d-initctl"])), None);
    assert_eq!(compose_command(&args(&["d-initctl", "a", "b", "c"])), None);
    let cmd = compose_command(&args(&["d-initctl", "restart", "03-service.sh"])).unwrap();
    let r = parse_request(&cmd);
    assert!(matches!(r, Request::Restart(_)));
    assert_eq!(name_of(&r), Some("03-service.sh"));
}

#[test]
fn replies_to_power_and_listing() {
    let mut t = control_table(&["/d/a"]);
    let (reply, eff) = handle_request(&mut t, Request::Reboot);
    assert_eq!(reply, "got reboot");
    assert!(matches!(eff, Effect::PowerDown { reboot: true }));
    let (reply, eff) = handle_request(&mut t, Request::Shutdown);
    assert_eq!(reply, "got shutdown");
    assert!(matches!(eff, Effect::PowerDown { reboot: false }));
    let (reply, eff) = handle_request(&mut t, Request::StatusAll);
    assert_eq!(reply, "a is running: false\n");
    assert!(matches!(eff, Effect::Nothing));
    let (reply, eff) = handle_request(&mut t, Request::Refresh);
    assert_eq!(reply, "");
    assert!(matches!(eff, Effect::Reload));
    let (reply, _) = handle_request(&mut t, Request::Unknown("frobnicate".to_string()));
    assert_eq!(reply, "unknown command frobnicate");
}

#[test]
fn replies_about_missing_service() {
    let mut t = control_table(&["/d/a"]);
    for req in [
        Request::Start("x".to_string()),
        Request::Restart("x".to_string()),
        Request::Stop("x".to_string()),
        Request::Status("x".to_string()),
    ] {
        let (reply, eff) = handle_request(&mut t, req);
        assert_eq!(reply, "service x does not exist");
        assert!(matches!(eff, Effect::Nothing));
    }
}

#[test]
fn start_replies() {
    let mut t = control_table(&["/d/web", "/d/m-oneshot"]);
    let (reply, eff) = handle_request(&mut t, Request::Start("web".to_string()));
    assert_eq!(reply, "started web");
    match eff {
        Effect::Supervise { name, path } => {
            assert_eq!(name, "web");
            assert_eq!(path, "/d/web");
        }
        other => panic!("{:?}", other),
    }
    let (reply, eff) = handle_request(&mut t, Request::Start("m-oneshot".to_string()));
    assert_eq!(reply, "started m-oneshot");
    assert!(matches!(eff, Effect::RunOnce { path } if path == "/d/m-oneshot"));
    t.child_spawned("web", 77);
    let (reply, eff) = handle_request(&mut t, Request::Start("web".to_string()));
    assert_eq!(reply, "service web is already running");
    assert!(matches!(eff, Effect::Nothing));
}

#[test]
fn stop_and_status_replies() {
    let mut t = control_table(&["/d/web", "/d/m-oneshot"]);
    let (reply, _) = handle_request(&mut t, Request::Stop("web".to_string()));
    assert_eq!(reply, "service web is not running");
    let (reply, _) = handle_request(&mut t, Request::Stop("m-oneshot".to_string()));
    assert_eq!(reply, "cannot stop oneshot service m-oneshot");
    t.supervision_began("web");
    t.child_spawned("web", 88);
    let (reply, _) = handle_request(&mut t, Request::Status("web".to_string()));
    assert_eq!(reply, "web is running: true");
    let (reply, eff) = handle_request(&mut t, Request::Stop("web".to_string()));
    assert_eq!(reply, "stopped web");
    assert!(matches!(eff, Effect::Terminate { pid: 88 }));
    assert!(!t.run_ended("web"));
    let (reply, _) = handle_request(&mut t, Request::Status("web".to_string()));
    assert_eq!(reply, "web is running: false");
}

#[test]
fn restart_replies() {
    let mut t = control_table(&["/d/web", "/d/m-oneshot"]);
    let (reply, _) = handle_request(&mut t, Request::Restart("web".to_string()));
    assert_eq!(reply, "service web is not running");
    let (reply, _) = handle_request(&mut t, Request::Restart("m-oneshot".to_string()));
    assert_eq!(reply, "cannot stop oneshot service m-oneshot");
    t.supervision_began("web");
    t.child_spawned("web", 90);
    let (reply, eff) = handle_request(&mut t, Request::Restart("web".to_string()));
    assert_eq!(reply, "");
    assert!(matches!(eff, Effect::TerminateThenStart { ref name, pid: 90 } if name == "web"));
    // termination failed: the process still runs, so the start is refused
    let (reply, eff) = resume_restart(&mut t, "web");
    assert_eq!(reply, "service web is already running");
    assert!(matches!(eff, Effect::Nothing));
    // the supervisor ends
    assert!(!t.run_ended("web"));
    let (reply, eff) = resume_restart(&mut t, "web");
    assert_eq!(reply, "restarted web");
    assert!(matches!(eff, Effect::Supervise { .. }));
    let (reply, _) = resume_restart(&mut t, "nope");
    assert_eq!(reply, "service nope does not exist");
}
