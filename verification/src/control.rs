//! The control protocol of the init socket: the commands it reads, and how
//! each is answered and what it asks the caller to carry out.
use vstd::prelude::*;
use vstd::string::*;

use crate::service::{
    after_run, error_text, is_oneshot_name, runs_again, start_outcome, stop_outcome, ServiceAction,
    ServiceError, ServiceView, NO_PID,
};
use crate::table::{names, status_line, status_text, table_wf, ServiceTable};
use crate::client::command_text;
use crate::text::{bool_word, has_prefix, push_bool, same_text};

verus! {

/// A command read from the control socket.
#[derive(Debug)]
pub enum Request {
    /// `reboot`
    Reboot,
    /// `shutdown`
    Shutdown,
    /// `status`
    StatusAll,
    /// `refresh`
    Refresh,
    /// `start NAME`
    Start(String),
    /// `restart NAME`
    Restart(String),
    /// `stop NAME`
    Stop(String),
    /// `status NAME`
    Status(String),
    /// Anything else, as it was read.
    Unknown(String),
}

/// The mathematical form of a `Request`.
pub enum RequestView {
    Reboot,
    Shutdown,
    StatusAll,
    Refresh,
    Start(Seq<char>),
    Restart(Seq<char>),
    Stop(Seq<char>),
    Status(Seq<char>),
    Unknown(Seq<char>),
}

impl View for Request {
    type V = RequestView;

    open spec fn view(&self) -> RequestView {
        match self {
            Request::Reboot => RequestView::Reboot,
            Request::Shutdown => RequestView::Shutdown,
            Request::StatusAll => RequestView::StatusAll,
            Request::Refresh => RequestView::Refresh,
            Request::Start(n) => RequestView::Start(n@),
            Request::Restart(n) => RequestView::Restart(n@),
            Request::Stop(n) => RequestView::Stop(n@),
            Request::Status(n) => RequestView::Status(n@),
            Request::Unknown(c) => RequestView::Unknown(c@),
        }
    }
}

/// What the command text `c` asks. The four bare words must match exactly;
/// the four verbs with a name are recognised by their prefix, and the name
/// is everything after it.
pub open spec fn parse_spec(c: Seq<char>) -> RequestView {
    if c == "reboot"@ {
        RequestView::Reboot
    } else if c == "shutdown"@ {
        RequestView::Shutdown
    } else if c == "status"@ {
        RequestView::StatusAll
    } else if c == "refresh"@ {
        RequestView::Refresh
    } else if "start "@.is_prefix_of(c) {
        RequestView::Start(c.skip("start "@.len() as int))
    } else if "restart "@.is_prefix_of(c) {
        RequestView::Restart(c.skip("restart "@.len() as int))
    } else if "stop "@.is_prefix_of(c) {
        RequestView::Stop(c.skip("stop "@.len() as int))
    } else if "status "@.is_prefix_of(c) {
        RequestView::Status(c.skip("status "@.len() as int))
    } else {
        RequestView::Unknown(c)
    }
}

/// The rest of `cmd` after its first `k` characters.
fn rest_after(cmd: &str, k: usize) -> (r: String)
    requires
        k <= cmd@.len(),
    ensures
        r@ == cmd@.skip(k as int),
{
    let n = cmd.unicode_len();
    let r = cmd.substring_char(k, n).to_owned();
    assert(cmd@.subrange(k as int, n as int) =~= cmd@.skip(k as int));
    r
}

/// Reads a command.
pub fn parse_request(cmd: &str) -> (r: Request)
    ensures
        r@ == parse_spec(cmd@),
{
    if same_text(cmd, "reboot") {
        Request::Reboot
    } else if same_text(cmd, "shutdown") {
        Request::Shutdown
    } else if same_text(cmd, "status") {
        Request::StatusAll
    } else if same_text(cmd, "refresh") {
        Request::Refresh
    } else if has_prefix(cmd, "start ") {
        Request::Start(rest_after(cmd, "start ".unicode_len()))
    } else if has_prefix(cmd, "restart ") {
        Request::Restart(rest_after(cmd, "restart ".unicode_len()))
    } else if has_prefix(cmd, "stop ") {
        Request::Stop(rest_after(cmd, "stop ".unicode_len()))
    } else if has_prefix(cmd, "status ") {
        Request::Status(rest_after(cmd, "status ".unicode_len()))
    } else {
        Request::Unknown(cmd.to_owned())
    }
}

/// What the caller carries out after a command has been decided.
#[derive(Debug)]
pub enum Effect {
    /// Nothing: write the reply.
    Nothing,
    /// Write the reply, then stop every service and reboot (or power off).
    PowerDown { reboot: bool },
    /// Read the boot scripts again without starting them, hand them to
    /// `ServiceTable::refresh`, and write its report.
    Reload,
    /// Run the script at `path` once and wait for it, then write the reply.
    RunOnce { path: String },
    /// Start a supervisor for the service `name` at `path`, then write the reply.
    Supervise { name: String, path: String },
    /// Terminate `pid` and wait for its supervisor to end, then write the reply.
    Terminate { pid: i32 },
    /// Terminate `pid` and wait for its supervisor to end, then call
    /// `resume_restart` with `name` for the reply.
    TerminateThenStart { name: String, pid: i32 },
}

/// The mathematical form of an `Effect`.
pub enum EffectView {
    Nothing,
    PowerDown { reboot: bool },
    Reload,
    RunOnce { path: Seq<char> },
    Supervise { name: Seq<char>, path: Seq<char> },
    Terminate { pid: int },
    TerminateThenStart { name: Seq<char>, pid: int },
}

impl View for Effect {
    type V = EffectView;

    open spec fn view(&self) -> EffectView {
        match self {
            Effect::Nothing => EffectView::Nothing,
            Effect::PowerDown { reboot } => EffectView::PowerDown { reboot: *reboot },
            Effect::Reload => EffectView::Reload,
            Effect::RunOnce { path } => EffectView::RunOnce { path: path@ },
            Effect::Supervise { name, path } => EffectView::Supervise { name: name@, path: path@ },
            Effect::Terminate { pid } => EffectView::Terminate { pid: *pid as int },
            Effect::TerminateThenStart { name, pid } => EffectView::TerminateThenStart {
                name: name@,
                pid: *pid as int,
            },
        }
    }
}

/// The reply to a request about a service the table does not have.
pub open spec fn missing_text(name: Seq<char>) -> Seq<char> {
    "service "@ + name + " does not exist"@
}

/// The reply and effect of a start of the service at index `i` of `t`,
/// with `done` the word of the reply on success.
pub open spec fn launch_answer(t: Seq<ServiceView>, i: int, done: Seq<char>) -> (
    Seq<char>,
    EffectView,
) {
    let s = t[i];
    match start_outcome(s) {
        Ok(ServiceAction::RunOnce) => (done + s.name, EffectView::RunOnce { path: s.path }),
        Ok(_) => (done + s.name, EffectView::Supervise { name: s.name, path: s.path }),
        Err(e) => (error_text(e, s.name), EffectView::Nothing),
    }
}

/// The index in `t` of the service named `name`.
pub open spec fn slot(t: Seq<ServiceView>, name: Seq<char>) -> int {
    names(t).index_of(name)
}

/// The reply and effect of request `r` on table `t`.
pub open spec fn answer(t: Seq<ServiceView>, r: RequestView) -> (Seq<char>, EffectView) {
    match r {
        RequestView::Reboot => ("got reboot"@, EffectView::PowerDown { reboot: true }),
        RequestView::Shutdown => ("got shutdown"@, EffectView::PowerDown { reboot: false }),
        RequestView::StatusAll => (status_text(t), EffectView::Nothing),
        RequestView::Refresh => (Seq::empty(), EffectView::Reload),
        RequestView::Start(n) => if names(t).contains(n) {
            launch_answer(t, slot(t, n), "started "@)
        } else {
            (missing_text(n), EffectView::Nothing)
        },
        RequestView::Restart(n) => if names(t).contains(n) {
            match stop_outcome(t[slot(t, n)]) {
                Ok(ServiceAction::Terminate(pid)) => (
                    Seq::empty(),
                    EffectView::TerminateThenStart { name: n, pid: pid as int },
                ),
                Ok(_) => (Seq::empty(), EffectView::Nothing),
                Err(e) => (error_text(e, n), EffectView::Nothing),
            }
        } else {
            (missing_text(n), EffectView::Nothing)
        },
        RequestView::Stop(n) => if names(t).contains(n) {
            match stop_outcome(t[slot(t, n)]) {
                Ok(ServiceAction::Terminate(pid)) => (
                    "stopped "@ + n,
                    EffectView::Terminate { pid: pid as int },
                ),
                Ok(_) => (Seq::empty(), EffectView::Nothing),
                Err(e) => (error_text(e, n), EffectView::Nothing),
            }
        } else {
            (missing_text(n), EffectView::Nothing)
        },
        RequestView::Status(n) => if names(t).contains(n) {
            (n + " is running: "@ + bool_word(t[slot(t, n)].pid != NO_PID), EffectView::Nothing)
        } else {
            (missing_text(n), EffectView::Nothing)
        },
        RequestView::Unknown(c) => ("unknown command "@ + c, EffectView::Nothing),
    }
}

/// The table after request `r`: stops and restarts release their service;
/// nothing else changes it here.
pub open spec fn after_request(t: Seq<ServiceView>, r: RequestView) -> Seq<ServiceView> {
    match r {
        RequestView::Restart(n) => if names(t).contains(n) {
            t.update(slot(t, n), crate::service::after_restart(t[slot(t, n)]))
        } else {
            t
        },
        RequestView::Stop(n) => if names(t).contains(n) {
            t.update(slot(t, n), crate::service::after_stop(t[slot(t, n)]))
        } else {
            t
        },
        _ => t,
    }
}

fn missing_reply(name: &str) -> (r: String)
    ensures
        r@ == missing_text(name@),
{
    let mut r = String::from_str("service ");
    r.append(name);
    r.append(" does not exist");
    r
}

/// Starts the service at index `i`, answering with `done` and its name.
fn launch(table: &mut ServiceTable, i: usize, done: &str) -> (r: (String, Effect))
    requires
        i < old(table)@.len(),
    ensures
        final(table)@ == old(table)@,
        (r.0@, r.1@) == launch_answer(old(table)@, i as int, done@),
{
    match table.start_at(i) {
        Ok(a) => {
            let s = table.get(i);
            let mut reply = String::from_str(done);
            reply.append(s.name().as_str());
            match a {
                ServiceAction::RunOnce => (reply, Effect::RunOnce { path: s.path().clone() }),
                _ => (reply, Effect::Supervise { name: s.name().clone(), path: s.path().clone() }),
            }
        },
        Err(e) => {
            let s = table.get(i);
            (e.describe(s.name().as_str()), Effect::Nothing)
        },
    }
}

/// Decides a command of the control socket.
pub fn handle_request(table: &mut ServiceTable, req: Request) -> (r: (String, Effect))
    requires
        table_wf(old(table)@),
    ensures
        (r.0@, r.1@) == answer(old(table)@, req@),
        final(table)@ == after_request(old(table)@, req@),
        table_wf(final(table)@),
{
    let ghost t = table@;
    match req {
        Request::Reboot => (String::from_str("got reboot"), Effect::PowerDown { reboot: true }),
        Request::Shutdown => (String::from_str("got shutdown"), Effect::PowerDown { reboot: false }),
        Request::StatusAll => (table.status_report(), Effect::Nothing),
        Request::Refresh => (String::new(), Effect::Reload),
        Request::Start(name) => match table.position(name.as_str()) {
            Some(i) => {
                proof {
                    crate::table::lemma_unique_index(t, i as int);
                }
                launch(table, i, "started ")
            },
            None => (missing_reply(name.as_str()), Effect::Nothing),
        },
        Request::Restart(name) => match table.position(name.as_str()) {
            Some(i) => {
                proof {
                    crate::table::lemma_unique_index(t, i as int);
                }
                match table.restart_at(i) {
                    Ok(ServiceAction::Terminate(pid)) => (
                        String::new(),
                        Effect::TerminateThenStart { name, pid },
                    ),
                    Ok(_) => (String::new(), Effect::Nothing),
                    Err(e) => (e.describe(name.as_str()), Effect::Nothing),
                }
            },
            None => (missing_reply(name.as_str()), Effect::Nothing),
        },
        Request::Stop(name) => match table.position(name.as_str()) {
            Some(i) => {
                proof {
                    crate::table::lemma_unique_index(t, i as int);
                }
                match table.stop_at(i) {
                    Ok(ServiceAction::Terminate(pid)) => {
                        let mut reply = String::from_str("stopped ");
                        reply.append(name.as_str());
                        (reply, Effect::Terminate { pid })
                    },
                    Ok(_) => (String::new(), Effect::Nothing),
                    Err(e) => (e.describe(name.as_str()), Effect::Nothing),
                }
            },
            None => (missing_reply(name.as_str()), Effect::Nothing),
        },
        Request::Status(name) => match table.position(name.as_str()) {
            Some(i) => {
                proof {
                    crate::table::lemma_unique_index(t, i as int);
                }
                let mut reply = name.clone();
                reply.append(" is running: ");
                push_bool(&mut reply, table.get(i).is_service_running());
                (reply, Effect::Nothing)
            },
            None => (missing_reply(name.as_str()), Effect::Nothing),
        },
        Request::Unknown(c) => {
            let mut reply = String::from_str("unknown command ");
            reply.append(c.as_str());
            (reply, Effect::Nothing)
        },
    }
}

/// Finishes a restart once the terminated service's supervisor has ended:
/// the service is started again, answering `restarted NAME` on success.
pub fn resume_restart(table: &mut ServiceTable, name: &str) -> (r: (String, Effect))
    requires
        table_wf(old(table)@),
    ensures
        final(table)@ == old(table)@,
        names(old(table)@).contains(name@) ==> (r.0@, r.1@) == launch_answer(
            old(table)@,
            slot(old(table)@, name@),
            "restarted "@,
        ),
        !names(old(table)@).contains(name@) ==> r.0@ == missing_text(name@) && r.1@
            == EffectView::Nothing,
{
    match table.position(name) {
        Some(i) => {
            proof {
                crate::table::lemma_unique_index(table@, i as int);
            }
            launch(table, i, "restarted ")
        },
        None => (missing_reply(name), Effect::Nothing),
    }
}

proof fn lemma_verb_command(verb: Seq<char>, n: Seq<char>)
    requires
        verb == "start"@ || verb == "restart"@ || verb == "stop"@ || verb == "status"@,
    ensures
        verb == "start"@ ==> parse_spec(verb + " "@ + n) == RequestView::Start(n),
        verb == "restart"@ ==> parse_spec(verb + " "@ + n) == RequestView::Restart(n),
        verb == "stop"@ ==> parse_spec(verb + " "@ + n) == RequestView::Stop(n),
        verb == "status"@ ==> parse_spec(verb + " "@ + n) == RequestView::Status(n),
{
    reveal_strlit("start");
    reveal_strlit("restart");
    reveal_strlit("stop");
    reveal_strlit("status");
    reveal_strlit(" ");
    reveal_strlit("start ");
    reveal_strlit("restart ");
    reveal_strlit("stop ");
    reveal_strlit("status ");
    reveal_strlit("reboot");
    reveal_strlit("shutdown");
    reveal_strlit("refresh");
    let c = verb + " "@ + n;
    let p = verb + " "@;
    assert(c.subrange(0, p.len() as int) =~= p);
    assert(c.skip(p.len() as int) =~= n);
    assert(c[0] == verb[0]);
    assert(c[1] == verb[1]);
    assert(c[2] == verb[2]);
    assert(c[3] == verb[3]);
    assert(c[verb.len() as int] == ' ');
    if verb == "start"@ {
        assert(p =~= "start "@);
        assert(c != "reboot"@ && c != "shutdown"@ && c != "refresh"@);
        assert(c[3] != "status"@[3]);
        assert(c != "status"@);
    } else if verb == "restart"@ {
        assert(p =~= "restart "@);
        assert(c[2] != "reboot"@[2]);
        assert(c != "reboot"@ && c != "shutdown"@ && c != "status"@);
        assert(c[2] != "refresh"@[2]);
        assert(c != "refresh"@);
        assert(!"start "@.is_prefix_of(c));
    } else if verb == "stop"@ {
        assert(p =~= "stop "@);
        assert(c != "reboot"@ && c != "refresh"@);
        assert(c[1] != "shutdown"@[1]);
        assert(c != "shutdown"@);
        assert(c[2] != "status"@[2]);
        assert(c != "status"@);
        if "start "@.is_prefix_of(c) {
            assert(c.subrange(0, 6)[2] == c[2]);
            assert("start "@[2] != c[2]);
        }
        assert(!"restart "@.is_prefix_of(c));
    } else {
        assert(p =~= "status "@);
        assert(c.len() > "status"@.len());
        assert(c != "reboot"@ && c != "refresh"@ && c != "status"@);
        assert(c[1] != "shutdown"@[1]);
        assert(c != "shutdown"@);
        if "start "@.is_prefix_of(c) {
            assert(c.subrange(0, 6)[3] == c[3]);
            assert("start "@[3] != c[3]);
        }
        assert(!"restart "@.is_prefix_of(c));
        if "stop "@.is_prefix_of(c) {
            assert(c.subrange(0, 5)[2] == c[2]);
            assert("stop "@[2] != c[2]);
        }
    }
}

/// What the command line client sends, the socket reads as the command the
/// user typed: `VERB NAME` for the four verbs with a name, and the bare word
/// for the four others.
pub proof fn law_client_commands_understood(args: Seq<Seq<char>>)
    requires
        2 <= args.len() <= 3,
    ensures
        args.len() == 3 && args[1] == "start"@ ==> parse_spec(command_text(args))
            == RequestView::Start(args[2]),
        args.len() == 3 && args[1] == "restart"@ ==> parse_spec(command_text(args))
            == RequestView::Restart(args[2]),
        args.len() == 3 && args[1] == "stop"@ ==> parse_spec(command_text(args))
            == RequestView::Stop(args[2]),
        args.len() == 3 && args[1] == "status"@ ==> parse_spec(command_text(args))
            == RequestView::Status(args[2]),
        args.len() == 2 && args[1] == "reboot"@ ==> parse_spec(command_text(args))
            == RequestView::Reboot,
        args.len() == 2 && args[1] == "shutdown"@ ==> parse_spec(command_text(args))
            == RequestView::Shutdown,
        args.len() == 2 && args[1] == "status"@ ==> parse_spec(command_text(args))
            == RequestView::StatusAll,
        args.len() == 2 && args[1] == "refresh"@ ==> parse_spec(command_text(args))
            == RequestView::Refresh,
{
    reveal_strlit("reboot");
    reveal_strlit("shutdown");
    reveal_strlit("status");
    reveal_strlit("refresh");
    if args.len() == 3 {
        let v = args[1];
        if v == "start"@ || v == "restart"@ || v == "stop"@ || v == "status"@ {
            lemma_verb_command(v, args[2]);
        }
    } else {
        assert("shutdown"@.len() != "reboot"@.len());
        assert("status"@[0] != "reboot"@[0]);
        assert("status"@.len() != "shutdown"@.len());
        assert("refresh"@[2] != "reboot"@[2]);
    }
}

/// A refused request changes nothing, except that a refused stop still
/// releases the service (its supervisor will not run it again); no refused
/// request changes any service's process.
pub proof fn law_refusals_change_nothing(t: Seq<ServiceView>, r: RequestView)
    requires
        table_wf(t),
        answer(t, r).1 == EffectView::Nothing,
    ensures
        !(r is Stop) ==> after_request(t, r) == t,
        after_request(t, r).len() == t.len(),
        forall|i: int| 0 <= i < t.len() ==> #[trigger] after_request(t, r)[i].pid == t[i].pid,
{
    match r {
        RequestView::Restart(n) => {
            if names(t).contains(n) {
                let i = slot(t, n);
                assert(names(t)[i] == n);
                assert(t.update(i, t[i]) =~= t);
            }
        },
        _ => {},
    }
}

/// A restart of a service with a running process that is not one-shot asks
/// to terminate that process and start again; it releases the service, so
/// that when the terminated run ends its supervisor does not run it again
/// and holds no process, and the start that follows gives it a fresh
/// supervisor with the reply `restarted NAME`. No other service changes.
pub proof fn law_restart_releases(t: Seq<ServiceView>, n: Seq<char>)
    requires
        table_wf(t),
        names(t).contains(n),
        !is_oneshot_name(n),
        t[slot(t, n)].pid != NO_PID,
    ensures
        ({
            let i = slot(t, n);
            let a = after_request(t, RequestView::Restart(n));
            let ended = a.update(i, after_run(a[i]));
            &&& answer(t, RequestView::Restart(n)).1 == EffectView::TerminateThenStart {
                name: n,
                pid: t[i].pid,
            }
            &&& a.len() == t.len()
            &&& !a[i].running
            &&& a[i].pid == t[i].pid
            &&& a[i].name == n
            &&& forall|j: int| 0 <= j < t.len() && j != i ==> a[j] == t[j]
            &&& !runs_again(a[i])
            &&& ended[i].pid == NO_PID
            &&& launch_answer(ended, i, "restarted "@) == (
                "restarted "@ + n,
                EffectView::Supervise { name: n, path: t[i].path },
            )
        }),
{
    let i = slot(t, n);
    assert(names(t)[i] == n);
    assert(t[i].name == n);
}

/// A stop of a service that is not one-shot releases it: its supervisor
/// never runs it again, its process (if any) is the one terminated with the
/// reply `stopped NAME`, and no other service changes.
pub proof fn law_stop_releases(t: Seq<ServiceView>, n: Seq<char>)
    requires
        table_wf(t),
        names(t).contains(n),
        !is_oneshot_name(n),
    ensures
        ({
            let i = slot(t, n);
            let a = after_request(t, RequestView::Stop(n));
            &&& a.len() == t.len()
            &&& !a[i].running
            &&& !runs_again(a[i])
            &&& a[i].pid == t[i].pid
            &&& a[i].name == n
            &&& forall|j: int| 0 <= j < t.len() && j != i ==> a[j] == t[j]
            &&& t[i].pid != NO_PID ==> answer(t, RequestView::Stop(n)) == (
                "stopped "@ + n,
                EffectView::Terminate { pid: t[i].pid },
            )
            &&& t[i].pid == NO_PID ==> answer(t, RequestView::Stop(n)) == (
                error_text(ServiceError::NotRunning, n),
                EffectView::Nothing,
            )
        }),
{
    let i = slot(t, n);
    assert(names(t)[i] == n);
    assert(t[i].name == n);
}

/// The reply to `status NAME` is that service's line of the status listing
/// (without its line feed), and it says `true` exactly when the service
/// holds a process.
pub proof fn law_status_agrees_with_listing(t: Seq<ServiceView>, n: Seq<char>)
    requires
        table_wf(t),
        names(t).contains(n),
    ensures
        answer(t, RequestView::Status(n)).0 + "\n"@ == status_line(t[slot(t, n)]),
        answer(t, RequestView::Status(n)).1 == EffectView::Nothing,
        t[slot(t, n)].pid == NO_PID ==> answer(t, RequestView::Status(n)).0 == n
            + " is running: "@ + seq!['f', 'a', 'l', 's', 'e'],
        t[slot(t, n)].pid != NO_PID ==> answer(t, RequestView::Status(n)).0 == n
            + " is running: "@ + seq!['t', 'r', 'u', 'e'],
{
    let i = slot(t, n);
    assert(names(t)[i] == n);
    assert(t[i].name == n);
}

} // verus!
