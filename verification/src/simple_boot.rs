//! A table-less boot sequence: every script of the boot
//! directory is started in path order, an auto-restart script under a
//! supervisor that runs it until power-down begins, any other run to its end.
use vstd::prelude::*;
use vstd::string::*;

use crate::path::{file_name, file_name_of};
use crate::scripts::{sort_entries, sorted_by_path, EntryView, ScriptEntry};
use crate::service::{is_auto_restart_name, is_oneshot_name};
use crate::text::has_suffix;

verus! {

/// The name a script is announced by: its file name, or `"?"`.
pub open spec fn label_of(path: Seq<char>) -> Seq<char> {
    match file_name(path) {
        Some(n) => n,
        None => "?"@,
    }
}

/// Computes `label_of(path@)`.
pub fn script_label(path: &str) -> (r: String)
    ensures
        r@ == label_of(path@),
{
    match file_name_of(path) {
        Some(n) => n,
        None => String::from_str("?"),
    }
}

/// What the caller does for one script entry.
#[derive(Debug)]
pub enum BootStep {
    /// Report that `path` is not a file.
    NotAFile { path: String },
    /// Announce `label`, run the script at `path` and wait for it.
    RunAndWait { label: String, path: String },
    /// Announce `label` and run the script at `path` again each time it
    /// exits, until power-down begins.
    KeepRestarting { label: String, path: String },
}

/// The mathematical form of a `BootStep`.
pub enum BootStepView {
    NotAFile { path: Seq<char> },
    RunAndWait { label: Seq<char>, path: Seq<char> },
    KeepRestarting { label: Seq<char>, path: Seq<char> },
}

impl View for BootStep {
    type V = BootStepView;

    open spec fn view(&self) -> BootStepView {
        match self {
            BootStep::NotAFile { path } => BootStepView::NotAFile { path: path@ },
            BootStep::RunAndWait { label, path } => BootStepView::RunAndWait {
                label: label@,
                path: path@,
            },
            BootStep::KeepRestarting { label, path } => BootStepView::KeepRestarting {
                label: label@,
                path: path@,
            },
        }
    }
}

/// The step for one entry.
pub open spec fn boot_step(e: EntryView) -> BootStepView {
    if !e.is_file {
        BootStepView::NotAFile { path: e.path }
    } else if is_auto_restart_name(label_of(e.path)) {
        BootStepView::KeepRestarting { label: label_of(e.path), path: e.path }
    } else {
        BootStepView::RunAndWait { label: label_of(e.path), path: e.path }
    }
}

/// The steps for the entries of the boot directory: one per entry, in the
/// order of their paths.
pub fn boot_plan(entries: Vec<ScriptEntry>) -> (r: Vec<BootStep>)
    ensures
        exists|es: Seq<EntryView>|
            {
                &&& sorted_by_path(es)
                &&& es.to_multiset() == entries@.map_values(|e: ScriptEntry| e@).to_multiset()
                &&& r@.map_values(|s: BootStep| s@) == es.map_values(
                    |e: EntryView| boot_step(e),
                )
            },
{
    let sorted = sort_entries(entries);
    let ghost sv = sorted@;
    let ghost es = sorted@.map_values(|e: ScriptEntry| e@);
    let n = sorted.len();
    let mut steps: Vec<BootStep> = Vec::new();
    let mut i: usize = 0;
    while i < n
        invariant
            i <= n,
            n == sv.len(),
            sv == sorted@,
            es == sv.map_values(|e: ScriptEntry| e@),
            steps@.map_values(|s: BootStep| s@) == es.take(i as int).map_values(
                |e: EntryView| boot_step(e),
            ),
        decreases n - i,
    {
        let e = &sorted[i];
        let ghost s0 = steps@.map_values(|s: BootStep| s@);
        let step = if !e.is_file {
            BootStep::NotAFile { path: e.path.clone() }
        } else {
            let label = script_label(e.path.as_str());
            if has_suffix(label.as_str(), "-auto-restart") {
                BootStep::KeepRestarting { label, path: e.path.clone() }
            } else {
                BootStep::RunAndWait { label, path: e.path.clone() }
            }
        };
        proof {
            assert(es[i as int] == e@);
            assert(step@ == boot_step(es[i as int]));
        }
        steps.push(step);
        proof {
            assert(steps@.map_values(|s: BootStep| s@) =~= s0.push(boot_step(es[i as int])));
            assert(es.take(i + 1).map_values(|e: EntryView| boot_step(e)) =~= es.take(
                i as int,
            ).map_values(|e: EntryView| boot_step(e)).push(boot_step(es[i as int])));
        }
        i = i + 1;
    }
    assert(es.take(n as int) =~= es);
    steps
}

/// A file entry is run again until power-down exactly when its file name
/// ends in `-auto-restart`; every other file, a one-shot one among them, is
/// run once and waited for. An entry that is not a file is only reported.
pub proof fn law_boot_step_kinds(e: EntryView)
    ensures
        e.is_file ==> ((boot_step(e) is KeepRestarting) <==> is_auto_restart_name(label_of(e.path))),
        e.is_file ==> ((boot_step(e) is RunAndWait) <==> !is_auto_restart_name(label_of(e.path))),
        (e.is_file && is_oneshot_name(label_of(e.path))) ==> (boot_step(e) is RunAndWait),
        !e.is_file ==> (boot_step(e) == BootStepView::NotAFile { path: e.path }),
        (e.is_file && is_auto_restart_name(label_of(e.path))) ==> (boot_step(e)
            == BootStepView::KeepRestarting { label: label_of(e.path), path: e.path }),
        (e.is_file && !is_auto_restart_name(label_of(e.path))) ==> (boot_step(e)
            == BootStepView::RunAndWait { label: label_of(e.path), path: e.path }),
{
    let l = label_of(e.path);
    if is_oneshot_name(l) && is_auto_restart_name(l) {
        reveal_strlit("-oneshot");
        reveal_strlit("-auto-restart");
        let a = "-oneshot"@;
        let b = "-auto-restart"@;
        assert(a[a.len() - 2] == l[l.len() - 2]);
        assert(b[b.len() - 2] == l[l.len() - 2]);
        assert(false);
    }
}

} // verus!
