//! Powering down: which services are stopped first, when waiting for the
//! remaining processes is over, and how the machine goes down. Also when the
//! zombie reaper stops.
use vstd::prelude::*;

use crate::service::{after_stop, is_oneshot_name, runs_again, stop_outcome, ServiceView, NO_PID};
use crate::table::{halt_pids, law_halts_are_real, table_wf, ServiceTable};

verus! {

/// What a non-blocking wait for any child reported, as plain values.
#[derive(Clone, Copy, Debug, PartialEq, Eq, Structural)]
pub enum WaitResult {
    /// A status was reported; the pid it names, if any.
    Status(Option<i32>),
    /// There are no children left (`ECHILD`).
    NoChildren,
    /// Any other error.
    Failed,
}

/// Whether waiting for the processes that remain after the termination
/// signal is over: only when no child is left.
pub fn drain_done(r: WaitResult) -> (done: bool)
    ensures
        done == (r == WaitResult::NoChildren),
{
    match r {
        WaitResult::NoChildren => true,
        _ => false,
    }
}

/// Whether the zombie reaper stops: when no child is left, or when the
/// status names pid 0.
pub fn reaper_done(r: WaitResult) -> (done: bool)
    ensures
        done == (r == WaitResult::NoChildren || r == WaitResult::Status(Some(0i32))),
{
    match r {
        WaitResult::NoChildren => true,
        WaitResult::Status(Some(p)) => p == 0,
        _ => false,
    }
}

/// How the machine goes down.
#[derive(Clone, Copy, Debug, PartialEq, Eq, Structural)]
pub enum PowerMode {
    /// Restart the machine.
    Reboot,
    /// Switch the machine off.
    PowerOff,
}

/// A reboot request reboots; a shutdown powers off.
pub fn power_mode(reboot: bool) -> (m: PowerMode)
    ensures
        m == (if reboot {
            PowerMode::Reboot
        } else {
            PowerMode::PowerOff
        }),
{
    if reboot {
        PowerMode::Reboot
    } else {
        PowerMode::PowerOff
    }
}

/// The table after power-down has stopped every service with a running
/// process that is not one-shot.
pub open spec fn after_shutdown_stops(t: Seq<ServiceView>) -> Seq<ServiceView> {
    t.map_values(
        |s: ServiceView|
            if stop_outcome(s) is Ok {
                after_stop(s)
            } else {
                s
            },
    )
}

/// Stops, before powering down, every service with a running process that
/// is not one-shot. Answers the pids to terminate, in table order; the
/// caller terminates each and waits for its supervisor to end.
pub fn stop_for_shutdown(table: &mut ServiceTable) -> (pids: Vec<i32>)
    requires
        table_wf(old(table)@),
    ensures
        pids@ == halt_pids(old(table)@),
        final(table)@ == after_shutdown_stops(old(table)@),
        table_wf(final(table)@),
{
    let ghost t = table@;
    let n = table.len();
    let mut pids: Vec<i32> = Vec::new();
    let mut i: usize = 0;
    assert(t.take(0) =~= Seq::<ServiceView>::empty());
    while i < n
        invariant
            i <= n,
            n == t.len(),
            table@.len() == n,
            table_wf(table@),
            forall|k: int| 0 <= k < i ==> table@[k] == after_shutdown_stops(t)[k],
            forall|k: int| i <= k < n ==> table@[k] == t[k],
            pids@ == halt_pids(t.take(i as int)),
        decreases n - i,
    {
        let s = table.get(i);
        let go = s.is_service_running() && !s.check_if_oneshot();
        let ghost before = table@;
        proof {
            assert(t.take(i + 1).drop_last() =~= t.take(i as int));
            assert(t.take(i + 1).last() == t[i as int]);
        }
        if go {
            let r = table.stop_at(i);
            if let Ok(crate::service::ServiceAction::Terminate(pid)) = r {
                pids.push(pid);
            }
        }
        proof {
            assert forall|k: int| 0 <= k <= i implies table@[k] == after_shutdown_stops(t)[k] by {
                if k < i {
                    assert(table@[k] == before[k]);
                }
            }
        }
        i = i + 1;
    }
    assert(t.take(n as int) =~= t);
    assert(table@ =~= after_shutdown_stops(t));
    pids
}

/// Power-down leaves no supervisor that would run a script again among the
/// services it stopped, which are exactly those with a running process that
/// are not one-shot; the terminations it asks for target real processes.
pub proof fn law_shutdown_stops(t: Seq<ServiceView>)
    requires
        table_wf(t),
    ensures
        after_shutdown_stops(t).len() == t.len(),
        forall|i: int|
            0 <= i < t.len() ==> (stop_outcome(t[i]) is Ok <==> (t[i].pid != NO_PID
                && !is_oneshot_name(t[i].name))),
        forall|i: int|
            0 <= i < t.len() && stop_outcome(t[i]) is Ok ==> !runs_again(
                #[trigger] after_shutdown_stops(t)[i],
            ),
        forall|k: int| 0 <= k < halt_pids(t).len() ==> halt_pids(t)[k] > 0,
{
    law_halts_are_real(t);
}

} // verus!
