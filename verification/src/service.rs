//! One supervised boot script: what starting, stopping and restarting it
//! decide, and how its supervisor's progress changes it.
//!
//! A service is named by its script's file name. A name ending in `-oneshot`
//! makes it a one-shot script, run to completion once and never stopped; a
//! name ending in `-auto-restart` makes its supervisor run it again each time
//! it exits, until it is stopped.
use vstd::prelude::*;
use vstd::string::*;

use crate::path::{file_name, file_name_of};
use crate::text::has_suffix;

verus! {

/// The pid a service holds while no process of it is known to run.
pub const NO_PID: i32 = -2;

/// Names ending in this are one-shot scripts.
pub open spec fn oneshot_word() -> Seq<char> {
    "-oneshot"@
}

/// Names ending in this are run again whenever they exit.
pub open spec fn auto_restart_word() -> Seq<char> {
    "-auto-restart"@
}

pub open spec fn is_oneshot_name(name: Seq<char>) -> bool {
    oneshot_word().is_suffix_of(name)
}

pub open spec fn is_auto_restart_name(name: Seq<char>) -> bool {
    auto_restart_word().is_suffix_of(name)
}

/// The mathematical state of a service.
pub struct ServiceView {
    /// The pid of its running process, or `NO_PID`.
    pub pid: int,
    /// The path of its script.
    pub path: Seq<char>,
    /// The file name of its script.
    pub name: Seq<char>,
    /// Whether its supervisor runs it again when it exits.
    pub auto_restarting: bool,
    /// Whether its supervisor is asked to keep it going.
    pub running: bool,
}

/// A boot script under supervision.
pub struct Service {
    pid: i32,
    path: String,
    name: String,
    auto_restarting: bool,
    running: bool,
}

/// Why a service refused a request.
#[derive(Clone, Copy, Debug, PartialEq, Eq, Structural)]
pub enum ServiceError {
    /// A start was asked of a service whose process runs.
    AlreadyRunning,
    /// A stop or restart was asked of a service with no running process.
    NotRunning,
    /// A stop or restart was asked of a one-shot service.
    OneshotCannotStop,
}

/// What the caller has to carry out for an accepted request.
#[derive(Clone, Copy, Debug, PartialEq, Eq, Structural)]
pub enum ServiceAction {
    /// Run the script once and wait for it to finish.
    RunOnce,
    /// Start a supervisor that runs the script (again while it is auto-restarting).
    Supervise,
    /// Send a termination signal to this pid and wait until the supervisor has ended.
    Terminate(i32),
}

/// The state of a freshly loaded service.
pub open spec fn fresh_service(path: Seq<char>, name: Seq<char>) -> ServiceView {
    ServiceView {
        pid: NO_PID as int,
        path,
        name,
        auto_restarting: is_auto_restart_name(name),
        running: false,
    }
}

/// What a start request answers: a one-shot script is run once, a service
/// with a running process refuses, any other gets a supervisor.
pub open spec fn start_outcome(s: ServiceView) -> Result<ServiceAction, ServiceError> {
    if is_oneshot_name(s.name) {
        Ok(ServiceAction::RunOnce)
    } else if s.pid != NO_PID {
        Err(ServiceError::AlreadyRunning)
    } else {
        Ok(ServiceAction::Supervise)
    }
}

/// What a stop request answers: a one-shot service refuses, a service with
/// no running process refuses, any other has its process terminated.
pub open spec fn stop_outcome(s: ServiceView) -> Result<ServiceAction, ServiceError> {
    if is_oneshot_name(s.name) {
        Err(ServiceError::OneshotCannotStop)
    } else if s.pid == NO_PID {
        Err(ServiceError::NotRunning)
    } else {
        Ok(ServiceAction::Terminate(s.pid as i32))
    }
}

/// The state with the supervisor no longer asked to keep the service going.
pub open spec fn released(s: ServiceView) -> ServiceView {
    ServiceView { running: false, ..s }
}

/// The state after a stop request: anything but a one-shot service is released.
pub open spec fn after_stop(s: ServiceView) -> ServiceView {
    if is_oneshot_name(s.name) {
        s
    } else {
        released(s)
    }
}

/// The state after a restart request: only an accepted one releases the service.
pub open spec fn after_restart(s: ServiceView) -> ServiceView {
    if stop_outcome(s) is Ok {
        released(s)
    } else {
        s
    }
}

/// Whether the supervisor runs the script again once a run has ended.
pub open spec fn runs_again(s: ServiceView) -> bool {
    s.auto_restarting && s.running
}

/// The state once a run has ended: unchanged when it runs again, else
/// holding no process.
pub open spec fn after_run(s: ServiceView) -> ServiceView {
    if runs_again(s) {
        s
    } else {
        ServiceView { pid: NO_PID as int, ..s }
    }
}

/// The text of a refusal, as the control socket answers it.
pub open spec fn error_text(e: ServiceError, name: Seq<char>) -> Seq<char> {
    match e {
        ServiceError::AlreadyRunning => "service "@ + name + " is already running"@,
        ServiceError::NotRunning => "service "@ + name + " is not running"@,
        ServiceError::OneshotCannotStop => "cannot stop oneshot service "@ + name,
    }
}

impl ServiceError {
    /// The message of this refusal for the service `name`.
    pub fn describe(&self, name: &str) -> (r: String)
        ensures
            r@ == error_text(*self, name@),
    {
        match self {
            ServiceError::AlreadyRunning => {
                let mut r = String::from_str("service ");
                r.append(name);
                r.append(" is already running");
                r
            },
            ServiceError::NotRunning => {
                let mut r = String::from_str("service ");
                r.append(name);
                r.append(" is not running");
                r
            },
            ServiceError::OneshotCannotStop => {
                let mut r = String::from_str("cannot stop oneshot service ");
                r.append(name);
                r
            },
        }
    }
}

impl View for Service {
    type V = ServiceView;

    closed spec fn view(&self) -> ServiceView {
        ServiceView {
            pid: self.pid as int,
            path: self.path@,
            name: self.name@,
            auto_restarting: self.auto_restarting,
            running: self.running,
        }
    }
}

impl ServiceView {
    /// A service is named by its script's file name, and its pid is either
    /// `NO_PID` or that of a real process.
    pub open spec fn wf(self) -> bool {
        &&& file_name(self.path) == Some(self.name)
        &&& (self.pid == NO_PID || 0 < self.pid <= i32::MAX)
    }
}

impl Service {
    /// The service for the script at `path`, with no process running.
    pub fn new(path: String) -> (s: Service)
        requires
            file_name(path@) is Some,
        ensures
            s@ == fresh_service(path@, file_name(path@)->0),
            s@.wf(),
    {
        let name = match file_name_of(path.as_str()) {
            Some(n) => n,
            None => {
                proof {
                    assert(false);
                }
                String::new()
            },
        };
        let auto_restarting = has_suffix(name.as_str(), "-auto-restart");
        Service { pid: NO_PID, path, name, auto_restarting, running: false }
    }

    /// The service for the script at `path`, or `None` when the path names no file.
    pub fn from_path(path: String) -> (r: Option<Service>)
        ensures
            r is Some <==> file_name(path@) is Some,
            r matches Some(s) ==> s@ == fresh_service(path@, file_name(path@)->0) && s@.wf(),
    {
        if file_name_of(path.as_str()).is_none() {
            None
        } else {
            Some(Service::new(path))
        }
    }

    /// The file name of the service's script.
    pub fn name(&self) -> (r: &String)
        ensures
            r@ == self@.name,
    {
        &self.name
    }

    /// The path of the service's script.
    pub fn path(&self) -> (r: &String)
        ensures
            r@ == self@.path,
    {
        &self.path
    }

    /// Whether the supervisor runs the script again when it exits.
    pub fn is_auto_restarting(&self) -> (r: bool)
        ensures
            r == self@.auto_restarting,
    {
        self.auto_restarting
    }

    /// Whether the supervisor is asked to keep the service going.
    pub fn is_supervised(&self) -> (r: bool)
        ensures
            r == self@.running,
    {
        self.running
    }

    /// The pid of the running process, or `NO_PID`.
    pub fn pid(&self) -> (r: i32)
        ensures
            r == self@.pid,
    {
        self.pid
    }

    /// Whether a process of the service is known to run.
    pub fn is_service_running(&self) -> (r: bool)
        ensures
            r == (self@.pid != NO_PID),
    {
        self.pid != NO_PID
    }

    /// Whether the service is a one-shot script.
    pub fn check_if_oneshot(&self) -> (r: bool)
        ensures
            r == is_oneshot_name(self@.name),
    {
        has_suffix(self.name.as_str(), "-oneshot")
    }

    /// Decides a start request; the state is left as it was.
    pub fn start(&mut self) -> (r: Result<ServiceAction, ServiceError>)
        ensures
            r == start_outcome(old(self)@),
            final(self)@ == old(self)@,
            !is_oneshot_name(old(self)@.name) && old(self)@.pid == NO_PID ==> r == Ok::<
                ServiceAction,
                ServiceError,
            >(ServiceAction::Supervise),
    {
        if self.check_if_oneshot() {
            return Ok(ServiceAction::RunOnce);
        }
        if self.pid != NO_PID {
            return Err(ServiceError::AlreadyRunning);
        }
        Ok(ServiceAction::Supervise)
    }

    /// Decides a stop request. Anything but a one-shot service is released,
    /// whether or not a process of it runs.
    pub fn stop(&mut self) -> (r: Result<ServiceAction, ServiceError>)
        ensures
            r == stop_outcome(old(self)@),
            final(self)@ == after_stop(old(self)@),
    {
        if self.check_if_oneshot() {
            return Err(ServiceError::OneshotCannotStop);
        }
        self.running = false;
        if self.pid == NO_PID {
            return Err(ServiceError::NotRunning);
        }
        Ok(ServiceAction::Terminate(self.pid))
    }

    /// Decides a restart request. Accepted, it is a stop: the caller
    /// terminates the process, waits for the supervisor to end, and then
    /// starts the service again. A refused restart leaves the service as it was.
    pub fn restart(&mut self) -> (r: Result<ServiceAction, ServiceError>)
        ensures
            r == stop_outcome(old(self)@),
            final(self)@ == after_restart(old(self)@),
    {
        if self.check_if_oneshot() {
            return Err(ServiceError::OneshotCannotStop);
        }
        if self.pid == NO_PID {
            return Err(ServiceError::NotRunning);
        }
        self.stop()
    }

    /// The supervisor has begun: it is asked to keep the service going.
    pub fn supervision_began(&mut self)
        ensures
            final(self)@ == (ServiceView { running: true, ..old(self)@ }),
    {
        self.running = true;
    }

    /// The supervisor has started a process of the service.
    pub fn child_spawned(&mut self, pid: i32)
        requires
            pid > 0,
        ensures
            final(self)@ == (ServiceView { pid: pid as int, ..old(self)@ }),
    {
        self.pid = pid;
    }

    /// A run of the script has ended (or could not be started). The answer
    /// tells the supervisor whether to run it again; when it does not, the
    /// service holds no process any more.
    pub fn run_ended(&mut self) -> (again: bool)
        ensures
            again == runs_again(old(self)@),
            final(self)@ == after_run(old(self)@),
    {
        if self.auto_restarting && self.running {
            true
        } else {
            self.pid = NO_PID;
            false
        }
    }
}

/// A restart of a running service that is not one-shot is accepted and
/// terminates its process; the supervisor then does not run the script
/// again, and once its run has ended the service can be started anew.
pub proof fn law_restart_cycle(s: ServiceView)
    requires
        s.wf(),
        !is_oneshot_name(s.name),
        s.pid != NO_PID,
    ensures
        stop_outcome(s) == Ok::<ServiceAction, ServiceError>(ServiceAction::Terminate(s.pid as i32)),
        !runs_again(after_restart(s)),
        !after_run(after_restart(s)).running,
        after_run(after_restart(s)).pid == NO_PID,
        start_outcome(after_run(after_restart(s))) == Ok::<ServiceAction, ServiceError>(
            ServiceAction::Supervise,
        ),
{
}

/// A stopped service (one-shot or not) is never run again by its supervisor.
pub proof fn law_stop_ends_supervision(s: ServiceView)
    requires
        !is_oneshot_name(s.name),
    ensures
        !runs_again(after_stop(s)),
{
}

/// A one-shot service refuses stops and restarts and is left as it was, and
/// each start of it runs it once.
pub proof fn law_oneshot(s: ServiceView)
    requires
        is_oneshot_name(s.name),
    ensures
        stop_outcome(s) == Err::<ServiceAction, ServiceError>(ServiceError::OneshotCannotStop),
        after_stop(s) == s,
        after_restart(s) == s,
        start_outcome(s) == Ok::<ServiceAction, ServiceError>(ServiceAction::RunOnce),
{
}

/// A termination is only ever asked for a real process.
pub proof fn law_terminate_real_process(s: ServiceView)
    requires
        s.wf(),
    ensures
        stop_outcome(s) matches Ok(a) ==> a matches ServiceAction::Terminate(p) && p > 0,
{
}

/// A start is refused only for a service that is not one-shot while its
/// process runs, and then it changes nothing.
pub proof fn law_start_refusal(s: ServiceView)
    ensures
        start_outcome(s) is Err <==> (!is_oneshot_name(s.name) && s.pid != NO_PID),
{
}

/// A service that is not one-shot and holds no process is always given a
/// supervisor when started, whatever else its state says (in particular
/// whether a supervisor was asked to keep it going before).
pub proof fn law_start_idle_supervises(s: ServiceView)
    requires
        !is_oneshot_name(s.name),
        s.pid == NO_PID,
    ensures
        start_outcome(s) == Ok::<ServiceAction, ServiceError>(ServiceAction::Supervise),
        start_outcome(ServiceView { running: true, ..s }) == start_outcome(
            ServiceView { running: false, ..s },
        ),
{
}

} // verus!
