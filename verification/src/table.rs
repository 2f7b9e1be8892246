//! The services that init knows, keyed by name, in the order they were loaded.
use vstd::prelude::*;
use vstd::string::*;

use crate::service::{
    after_restart, after_run, after_stop, runs_again, start_outcome, stop_outcome, Service, ServiceAction, ServiceError,
    ServiceView, NO_PID,
};
use crate::text::{bool_word, lemma_filter_take_step, push_bool, same_text};

verus! {

/// The names of the services of `t`, in order.
pub open spec fn names(t: Seq<ServiceView>) -> Seq<Seq<char>> {
    t.map_values(|s: ServiceView| s.name)
}

/// Names are unique and every service is well formed.
pub open spec fn table_wf(t: Seq<ServiceView>) -> bool {
    &&& names(t).no_duplicates()
    &&& forall|i: int| 0 <= i < t.len() ==> (#[trigger] t[i]).wf()
}

/// The names of `a` that `b` lacks, in `a`'s order.
pub open spec fn names_missing_from(a: Seq<ServiceView>, b: Seq<ServiceView>) -> Seq<Seq<char>> {
    names(a).filter(|n: Seq<char>| !names(b).contains(n))
}

/// The names of `a` that `b` has too, in `a`'s order.
pub open spec fn names_shared_with(a: Seq<ServiceView>, b: Seq<ServiceView>) -> Seq<Seq<char>> {
    names(a).filter(|n: Seq<char>| names(b).contains(n))
}

/// One line of the status listing.
pub open spec fn status_line(s: ServiceView) -> Seq<char> {
    s.name + " is running: "@ + bool_word(s.pid != NO_PID) + "\n"@
}

/// The status listing: one line per service, in order.
pub open spec fn status_text(t: Seq<ServiceView>) -> Seq<char>
    decreases t.len(),
{
    if t.len() == 0 {
        Seq::empty()
    } else {
        status_text(t.drop_last()) + status_line(t.last())
    }
}

/// The table with `s` in place of the service of the same name, or added at the end.
pub open spec fn upsert(t: Seq<ServiceView>, s: ServiceView) -> Seq<ServiceView> {
    if names(t).contains(s.name) {
        t.update(names(t).index_of(s.name), s)
    } else {
        t.push(s)
    }
}

/// The table without the service named `name`, if it has one.
pub open spec fn without(t: Seq<ServiceView>, name: Seq<char>) -> Seq<ServiceView> {
    if names(t).contains(name) {
        t.remove(names(t).index_of(name))
    } else {
        t
    }
}

/// In a table with unique names, the service named `name` sits at index `i`
/// exactly when `i` is the index of that name.
pub proof fn lemma_unique_index(t: Seq<ServiceView>, i: int)
    requires
        names(t).no_duplicates(),
        0 <= i < t.len(),
    ensures
        names(t).contains(t[i].name),
        names(t).index_of(t[i].name) == i,
{
    assert(names(t)[i] == t[i].name);
    let k = names(t).index_of(t[i].name);
    assert(names(t)[k] == t[i].name);
}

/// Replacing a service by one of the same name that is well formed keeps
/// the table well formed and its names as they were.
pub proof fn lemma_update_same_name(t: Seq<ServiceView>, i: int, s: ServiceView)
    requires
        table_wf(t),
        0 <= i < t.len(),
        s.name == t[i].name,
        s.wf(),
    ensures
        names(t.update(i, s)) == names(t),
        table_wf(t.update(i, s)),
{
    assert(names(t.update(i, s)) =~= names(t));
}

/// The table with the service named `name` changed by `f`, if it has one.
pub open spec fn change_named(
    t: Seq<ServiceView>,
    name: Seq<char>,
    f: spec_fn(ServiceView) -> ServiceView,
) -> Seq<ServiceView> {
    if names(t).contains(name) {
        t.update(names(t).index_of(name), f(t[names(t).index_of(name)]))
    } else {
        t
    }
}

/// The services of a table, each named once.
pub struct ServiceTable {
    services: Vec<Service>,
}

impl View for ServiceTable {
    type V = Seq<ServiceView>;

    closed spec fn view(&self) -> Seq<ServiceView> {
        self.services@.map_values(|s: Service| s@)
    }
}

impl ServiceTable {
    /// An empty table.
    pub fn new() -> (t: ServiceTable)
        ensures
            t@ == Seq::<ServiceView>::empty(),
    {
        let t = ServiceTable { services: Vec::new() };
        assert(t@ =~= Seq::<ServiceView>::empty());
        t
    }

    /// The number of services.
    pub fn len(&self) -> (n: usize)
        ensures
            n == self@.len(),
    {
        self.services.len()
    }

    /// The service at index `i`.
    pub fn get(&self, i: usize) -> (s: &Service)
        requires
            i < self@.len(),
        ensures
            s@ == self@[i as int],
    {
        &self.services[i]
    }

    /// The index of the service named `name`, if any.
    pub fn position(&self, name: &str) -> (r: Option<usize>)
        ensures
            match r {
                Some(i) => i < self@.len() && self@[i as int].name == name@,
                None => !names(self@).contains(name@),
            },
    {
        let n = self.services.len();
        let mut i: usize = 0;
        while i < n
            invariant
                i <= n,
                n == self@.len(),
                forall|j: int| 0 <= j < i ==> self@[j].name != name@,
            decreases n - i,
        {
            if same_text(self.services[i].name().as_str(), name) {
                return Some(i);
            }
            i = i + 1;
        }
        proof {
            if names(self@).contains(name@) {
                let k = choose|k: int| 0 <= k < names(self@).len() && names(self@)[k] == name@;
                assert(self@[k].name == name@);
            }
        }
        None
    }

    /// Whether a service is named `name`.
    pub fn contains(&self, name: &str) -> (r: bool)
        ensures
            r == names(self@).contains(name@),
    {
        match self.position(name) {
            Some(i) => {
                assert(names(self@)[i as int] == name@);
                true
            },
            None => false,
        }
    }

    /// Puts `svc` in the table, in place of the service of the same name if there is one.
    pub fn insert(&mut self, svc: Service)
        requires
            table_wf(old(self)@),
            svc@.wf(),
        ensures
            final(self)@ == upsert(old(self)@, svc@),
            table_wf(final(self)@),
    {
        let ghost t = self@;
        match self.position(svc.name().as_str()) {
            Some(i) => {
                proof {
                    lemma_unique_index(t, i as int);
                }
                self.services.set(i, svc);
                proof {
                    assert(self@ =~= t.update(i as int, svc@));
                    assert(names(self@) =~= names(t).update(i as int, svc@.name));
                }
            },
            None => {
                self.services.push(svc);
                proof {
                    assert(self@ =~= t.push(svc@));
                    assert(names(self@) =~= names(t).push(svc@.name));
                }
            },
        }
    }

    /// Takes the service named `name` out of the table.
    pub fn remove(&mut self, name: &str) -> (r: Option<Service>)
        requires
            table_wf(old(self)@),
        ensures
            final(self)@ == without(old(self)@, name@),
            table_wf(final(self)@),
            match r {
                Some(s) => names(old(self)@).contains(name@) && s@ == old(self)@[names(
                    old(self)@,
                ).index_of(name@)],
                None => !names(old(self)@).contains(name@),
            },
    {
        let ghost t = self@;
        match self.position(name) {
            Some(i) => {
                proof {
                    lemma_unique_index(t, i as int);
                }
                let s = self.services.remove(i);
                proof {
                    assert(self@ =~= t.remove(i as int));
                    assert(names(self@) =~= names(t).remove(i as int));
                    assert forall|a: int, b: int|
                        0 <= a < names(self@).len() && 0 <= b < names(self@).len() && a != b
                        implies names(self@)[a] != names(self@)[b] by {
                        let a2 = if a < i { a } else { a + 1 };
                        let b2 = if b < i { b } else { b + 1 };
                        assert(names(self@)[a] == names(t)[a2]);
                        assert(names(self@)[b] == names(t)[b2]);
                    }
                    assert forall|k: int| 0 <= k < self@.len() implies (#[trigger] self@[k]).wf() by {
                        if k < i {
                            assert(self@[k] == t[k]);
                        } else {
                            assert(self@[k] == t[k + 1]);
                        }
                    }
                }
                Some(s)
            },
            None => None,
        }
    }

    /// Decides a start request of the service at index `i`; nothing changes.
    pub fn start_at(&mut self, i: usize) -> (r: Result<ServiceAction, ServiceError>)
        requires
            i < old(self)@.len(),
        ensures
            r == start_outcome(old(self)@[i as int]),
            final(self)@ == old(self)@,
    {
        let ghost t = self@;
        let r = self.services[i].start();
        assert(self@ =~= t);
        r
    }

    /// Decides a stop request of the service at index `i`.
    pub fn stop_at(&mut self, i: usize) -> (r: Result<ServiceAction, ServiceError>)
        requires
            i < old(self)@.len(),
            table_wf(old(self)@),
        ensures
            r == stop_outcome(old(self)@[i as int]),
            final(self)@ == old(self)@.update(i as int, after_stop(old(self)@[i as int])),
            table_wf(final(self)@),
    {
        let ghost t = self@;
        let r = self.services[i].stop();
        proof {
            assert(self@ =~= t.update(i as int, after_stop(t[i as int])));
            lemma_update_same_name(t, i as int, after_stop(t[i as int]));
        }
        r
    }

    /// Decides a restart request of the service at index `i`.
    pub fn restart_at(&mut self, i: usize) -> (r: Result<ServiceAction, ServiceError>)
        requires
            i < old(self)@.len(),
            table_wf(old(self)@),
        ensures
            r == stop_outcome(old(self)@[i as int]),
            final(self)@ == old(self)@.update(i as int, after_restart(old(self)@[i as int])),
            table_wf(final(self)@),
    {
        let ghost t = self@;
        let r = self.services[i].restart();
        proof {
            assert(self@ =~= t.update(i as int, after_restart(t[i as int])));
            lemma_update_same_name(t, i as int, after_restart(t[i as int]));
        }
        r
    }

    /// The supervisor of the service named `name` has begun.
    pub fn supervision_began(&mut self, name: &str)
        requires
            table_wf(old(self)@),
        ensures
            final(self)@ == change_named(
                old(self)@,
                name@,
                |s: ServiceView| ServiceView { running: true, ..s },
            ),
            table_wf(final(self)@),
    {
        let ghost t = self@;
        if let Some(i) = self.position(name) {
            proof {
                lemma_unique_index(t, i as int);
            }
            self.services[i].supervision_began();
            proof {
                let s2 = ServiceView { running: true, ..t[i as int] };
                assert(self@ =~= t.update(i as int, s2));
                lemma_update_same_name(t, i as int, s2);
            }
        }
    }

    /// The supervisor of the service named `name` has started process `pid`.
    pub fn child_spawned(&mut self, name: &str, pid: i32)
        requires
            table_wf(old(self)@),
            pid > 0,
        ensures
            final(self)@ == change_named(
                old(self)@,
                name@,
                |s: ServiceView| ServiceView { pid: pid as int, ..s },
            ),
            table_wf(final(self)@),
    {
        let ghost t = self@;
        if let Some(i) = self.position(name) {
            proof {
                lemma_unique_index(t, i as int);
            }
            self.services[i].child_spawned(pid);
            proof {
                let s2 = ServiceView { pid: pid as int, ..t[i as int] };
                assert(self@ =~= t.update(i as int, s2));
                lemma_update_same_name(t, i as int, s2);
            }
        }
    }

    /// A run of the service named `name` has ended; the answer tells its
    /// supervisor whether to run it again. The supervisor of a service that
    /// has left the table stops.
    pub fn run_ended(&mut self, name: &str) -> (again: bool)
        requires
            table_wf(old(self)@),
        ensures
            again == (names(old(self)@).contains(name@) && runs_again(
                old(self)@[names(old(self)@).index_of(name@)],
            )),
            final(self)@ == change_named(old(self)@, name@, |s: ServiceView| after_run(s)),
            table_wf(final(self)@),
    {
        let ghost t = self@;
        match self.position(name) {
            Some(i) => {
                proof {
                    lemma_unique_index(t, i as int);
                }
                let again = self.services[i].run_ended();
                proof {
                    let s2 = after_run(t[i as int]);
                    assert(self@ =~= t.update(i as int, s2));
                    lemma_update_same_name(t, i as int, s2);
                }
                again
            },
            None => false,
        }
    }

    /// Reloads the table from `fresh`, the services read anew from the boot
    /// scripts directory. Services that `fresh` no longer names are stopped
    /// (where a stop is accepted) and dropped; services new in `fresh` are
    /// added; the others stay as they were. Answers the report and the pids
    /// that the accepted stops ask to terminate, in order.
    pub fn refresh(&mut self, fresh: ServiceTable) -> (r: (String, Vec<i32>))
        requires
            table_wf(old(self)@),
            table_wf(fresh@),
        ensures
            final(self)@ == refreshed(old(self)@, fresh@),
            table_wf(final(self)@),
            r.0@ == refresh_report(old(self)@, fresh@),
            r.1@ == halt_pids(leaving(old(self)@, fresh@)),
    {
        let ghost o = self@;
        let ghost f = fresh@;
        let n = self.services.len();
        let mut stays: Vec<bool> = Vec::new();
        let mut i: usize = 0;
        while i < n
            invariant
                i <= n,
                n == o.len(),
                o == self@,
                f == fresh@,
                stays@.len() == i,
                forall|k: int| 0 <= k < i ==> stays@[k] == names(f).contains(o[k].name),
            decreases n - i,
        {
            proof {
                assert(o[i as int] == self.services@[i as int]@);
            }
            stays.push(fresh.contains(self.services[i].name().as_str()));
            i = i + 1;
        }
        let m = fresh.services.len();
        let mut knowns: Vec<bool> = Vec::new();
        let mut j: usize = 0;
        while j < m
            invariant
                j <= m,
                m == f.len(),
                o == self@,
                f == fresh@,
                knowns@.len() == j,
                forall|k: int| 0 <= k < j ==> knowns@[k] == names(o).contains(f[k].name),
            decreases m - j,
        {
            proof {
                assert(f[j as int] == fresh.services@[j as int]@);
            }
            knowns.push(self.contains(fresh.services[j].name().as_str()));
            j = j + 1;
        }
        let mut olds: Vec<Service> = Vec::new();
        std::mem::swap(&mut olds, &mut self.services);
        let ghost ov = olds@;
        let mut kept: Vec<Service> = Vec::new();
        let mut report = String::new();
        let mut halts: Vec<i32> = Vec::new();
        proof {
            reveal_with_fuel(Seq::filter, 1);
            assert(o.take(0) =~= Seq::<ServiceView>::empty());
            assert(kept@.map_values(|s: Service| s@) =~= Seq::<ServiceView>::empty());
            assert(olds@ =~= ov.subrange(0, n as int));
        }
        let mut i: usize = 0;
        while i < n
            invariant
                i <= n,
                n == ov.len(),
                olds@ == ov.subrange(i as int, n as int),
                o == ov.map_values(|s: Service| s@),
                stays@.len() == n,
                forall|k: int| 0 <= k < n ==> stays@[k] == names(f).contains(o[k].name),
                kept@.map_values(|s: Service| s@) == o.take(i as int).filter(named_in(f)),
                report@ == leave_lines(o.take(i as int).filter(unnamed_in(f))),
                halts@ == halt_pids(o.take(i as int).filter(unnamed_in(f))),
            decreases n - i,
        {
            let mut s = olds.remove(0);
            let ghost sv = s@;
            let ghost k0 = kept@.map_values(|s: Service| s@);
            let ghost r0 = o.take(i as int).filter(unnamed_in(f));
            proof {
                assert(s == ov[i as int]);
                assert(o[i as int] == sv);
                lemma_filter_take_step(o, named_in(f), i as int);
                lemma_filter_take_step(o, unnamed_in(f), i as int);
                assert(olds@ =~= ov.subrange(i + 1, n as int));
                assert(r0.push(sv).drop_last() =~= r0);
            }
            if stays[i] {
                kept.push(s);
                assert(kept@.map_values(|s: Service| s@) =~= k0.push(sv));
            } else {
                let r = s.stop();
                if let Ok(ServiceAction::Terminate(pid)) = r {
                    halts.push(pid);
                    report.append(s.name().as_str());
                    report.append(" stopped\n");
                }
                report.append(s.name().as_str());
                report.append(" removed\n");
            }
            i = i + 1;
        }
        assert(o.take(n as int) =~= o);
        let mut fresh_services = fresh.services;
        let ghost fv = fresh_services@;
        let ghost st = kept@.map_values(|s: Service| s@);
        let mut added = String::new();
        let mut same = String::new();
        proof {
            reveal_with_fuel(Seq::filter, 1);
            assert(f.take(0) =~= Seq::<ServiceView>::empty());
            assert(st + f.take(0).filter(unnamed_in(o)) =~= st);
            assert(fresh_services@ =~= fv.subrange(0, m as int));
        }
        let mut j: usize = 0;
        while j < m
            invariant
                j <= m,
                m == fv.len(),
                fresh_services@ == fv.subrange(j as int, m as int),
                f == fv.map_values(|s: Service| s@),
                knowns@.len() == m,
                forall|k: int| 0 <= k < m ==> knowns@[k] == names(o).contains(f[k].name),
                kept@.map_values(|s: Service| s@) == st + f.take(j as int).filter(unnamed_in(o)),
                added@ == name_lines(f.take(j as int).filter(unnamed_in(o)), " added\n"@),
                same@ == name_lines(f.take(j as int).filter(named_in(o)), " unchanged\n"@),
            decreases m - j,
        {
            let s = fresh_services.remove(0);
            let ghost sv = s@;
            let ghost k0 = kept@.map_values(|s: Service| s@);
            let ghost a0 = f.take(j as int).filter(unnamed_in(o));
            let ghost u0 = f.take(j as int).filter(named_in(o));
            proof {
                assert(s == fv[j as int]);
                assert(f[j as int] == sv);
                lemma_filter_take_step(f, named_in(o), j as int);
                lemma_filter_take_step(f, unnamed_in(o), j as int);
                assert(fresh_services@ =~= fv.subrange(j + 1, m as int));
                assert(a0.push(sv).drop_last() =~= a0);
                assert(u0.push(sv).drop_last() =~= u0);
            }
            if knowns[j] {
                same.append(s.name().as_str());
                same.append(" unchanged\n");
            } else {
                added.append(s.name().as_str());
                added.append(" added\n");
                kept.push(s);
                assert(kept@.map_values(|s: Service| s@) =~= k0.push(sv));
                assert(st + a0.push(sv) =~= (st + a0).push(sv));
            }
            j = j + 1;
        }
        assert(f.take(m as int) =~= f);
        report.append(added.as_str());
        report.append(same.as_str());
        self.services = kept;
        proof {
            lemma_refreshed_wf(o, f);
        }
        (report, halts)
    }

    /// The status listing of all services.
    pub fn status_report(&self) -> (r: String)
        ensures
            r@ == status_text(self@),
    {
        let mut out = String::new();
        let n = self.services.len();
        let mut i: usize = 0;
        assert(self@.take(0) =~= Seq::<ServiceView>::empty());
        while i < n
            invariant
                i <= n,
                n == self@.len(),
                out@ == status_text(self@.take(i as int)),
            decreases n - i,
        {
            let s = &self.services[i];
            out.append(s.name().as_str());
            out.append(" is running: ");
            push_bool(&mut out, s.is_service_running());
            out.append("\n");
            assert(self@.take(i + 1).drop_last() =~= self@.take(i as int));
            assert(self@[i as int] == s@);
            i = i + 1;
        }
        assert(self@.take(n as int) =~= self@);
        out
    }
}

/// The names of `services` that `new_services` lacks, and those it has
/// too, each in the order of `services`.
pub fn find_diff(services: &ServiceTable, new_services: &ServiceTable) -> (r: (Vec<String>, Vec<String>))
    ensures
        r.0.deep_view() == names_missing_from(services@, new_services@),
        r.1.deep_view() == names_shared_with(services@, new_services@),
{
    let mut diff: Vec<String> = Vec::new();
    let mut unchanged: Vec<String> = Vec::new();
    let n = services.len();
    let ghost a = names(services@);
    let ghost pm = |x: Seq<char>| !names(new_services@).contains(x);
    let ghost ps = |x: Seq<char>| names(new_services@).contains(x);
    let mut i: usize = 0;
    proof {
        reveal_with_fuel(Seq::filter, 1);
        assert(a.take(0) =~= Seq::<Seq<char>>::empty());
        assert(diff.deep_view() =~= Seq::<Seq<char>>::empty());
        assert(unchanged.deep_view() =~= Seq::<Seq<char>>::empty());
    }
    while i < n
        invariant
            i <= n,
            n == services@.len(),
            a == names(services@),
            pm == (|x: Seq<char>| !names(new_services@).contains(x)),
            ps == (|x: Seq<char>| names(new_services@).contains(x)),
            diff.deep_view() == a.take(i as int).filter(pm),
            unchanged.deep_view() == a.take(i as int).filter(ps),
        decreases n - i,
    {
        let name = services.get(i).name().clone();
        let ghost d0 = diff.deep_view();
        let ghost u0 = unchanged.deep_view();
        proof {
            reveal_with_fuel(Seq::filter, 1);
            assert(a.take(i + 1).drop_last() =~= a.take(i as int));
            assert(a.take(i + 1).last() == a[i as int]);
            assert(a[i as int] == name@);
        }
        if new_services.contains(name.as_str()) {
            unchanged.push(name);
            assert(unchanged.deep_view() =~= u0.push(a[i as int]));
        } else {
            diff.push(name);
            assert(diff.deep_view() =~= d0.push(a[i as int]));
        }
        i = i + 1;
    }
    assert(a.take(n as int) =~= a);
    (diff, unchanged)
}


/// Whether a service's name is among the names of `t`.
pub open spec fn named_in(t: Seq<ServiceView>) -> spec_fn(ServiceView) -> bool {
    |s: ServiceView| names(t).contains(s.name)
}

/// Whether a service's name is missing from the names of `t`.
pub open spec fn unnamed_in(t: Seq<ServiceView>) -> spec_fn(ServiceView) -> bool {
    |s: ServiceView| !names(t).contains(s.name)
}

/// The services of `old` that a reload with `fresh` drops, in order.
pub open spec fn leaving(old: Seq<ServiceView>, fresh: Seq<ServiceView>) -> Seq<ServiceView> {
    old.filter(unnamed_in(fresh))
}

/// The services of `old` that a reload with `fresh` keeps, in order.
pub open spec fn staying(old: Seq<ServiceView>, fresh: Seq<ServiceView>) -> Seq<ServiceView> {
    old.filter(named_in(fresh))
}

/// The services of `fresh` that a reload adds to `old`, in order.
pub open spec fn arriving(old: Seq<ServiceView>, fresh: Seq<ServiceView>) -> Seq<ServiceView> {
    fresh.filter(unnamed_in(old))
}

/// The services of `fresh` that `old` already has, in order.
pub open spec fn known(old: Seq<ServiceView>, fresh: Seq<ServiceView>) -> Seq<ServiceView> {
    fresh.filter(named_in(old))
}

/// The table after a reload: the services of `old` that `fresh` still
/// names, as they were, followed by the services new in `fresh`.
pub open spec fn refreshed(old: Seq<ServiceView>, fresh: Seq<ServiceView>) -> Seq<ServiceView> {
    staying(old, fresh) + arriving(old, fresh)
}

/// The report lines for one dropped service: stopped (when a stop is
/// accepted), then removed.
pub open spec fn leave_line(s: ServiceView) -> Seq<char> {
    (if stop_outcome(s) is Ok {
        s.name + " stopped\n"@
    } else {
        Seq::empty()
    }) + s.name + " removed\n"@
}

pub open spec fn leave_lines(rs: Seq<ServiceView>) -> Seq<char>
    decreases rs.len(),
{
    if rs.len() == 0 {
        Seq::empty()
    } else {
        leave_lines(rs.drop_last()) + leave_line(rs.last())
    }
}

/// One line `name + word` per service of `rs`, in order.
pub open spec fn name_lines(rs: Seq<ServiceView>, word: Seq<char>) -> Seq<char>
    decreases rs.len(),
{
    if rs.len() == 0 {
        Seq::empty()
    } else {
        name_lines(rs.drop_last(), word) + rs.last().name + word
    }
}

/// The pids that the accepted stops of dropped services ask to terminate.
pub open spec fn halt_pids(rs: Seq<ServiceView>) -> Seq<i32>
    decreases rs.len(),
{
    if rs.len() == 0 {
        Seq::empty()
    } else if stop_outcome(rs.last()) is Ok {
        halt_pids(rs.drop_last()).push(rs.last().pid as i32)
    } else {
        halt_pids(rs.drop_last())
    }
}

/// The report of a reload: the dropped services, then the added ones, then
/// those that were already known.
pub open spec fn refresh_report(old: Seq<ServiceView>, fresh: Seq<ServiceView>) -> Seq<char> {
    leave_lines(leaving(old, fresh)) + name_lines(arriving(old, fresh), " added\n"@) + name_lines(
        known(old, fresh),
        " unchanged\n"@,
    )
}

/// Filtering a table keeps its names unique and its services well formed,
/// and keeps only services of the table that pass the filter.
proof fn lemma_filter_table(t: Seq<ServiceView>, p: spec_fn(ServiceView) -> bool)
    requires
        table_wf(t),
    ensures
        table_wf(t.filter(p)),
        forall|k: int|
            0 <= k < t.filter(p).len() ==> p(#[trigger] t.filter(p)[k]) && names(t).contains(
                t.filter(p)[k].name,
            ) && t.contains(t.filter(p)[k]),
    decreases t.len(),
{
    reveal(Seq::filter);
    if t.len() > 0 {
        let d = t.drop_last();
        assert(names(d) =~= names(t).drop_last());
        assert forall|i: int| 0 <= i < d.len() implies (#[trigger] d[i]).wf() by {
            assert(d[i] == t[i]);
        }
        lemma_filter_table(d, p);
        let fd = d.filter(p);
        assert forall|k: int| 0 <= k < fd.len() implies names(t).contains(
            #[trigger] fd[k].name,
        ) && t.contains(fd[k]) by {
            let j = choose|j: int| 0 <= j < names(d).len() && names(d)[j] == fd[k].name;
            assert(names(t)[j] == fd[k].name);
            let j2 = choose|j2: int| 0 <= j2 < d.len() && d[j2] == fd[k];
            assert(t[j2] == fd[k]);
        }
        if p(t.last()) {
            let r = fd.push(t.last());
            assert(t.filter(p) == r);
            assert(names(r) =~= names(fd).push(t.last().name));
            assert(names(t)[t.len() - 1] == t.last().name);
            assert(!names(fd).contains(t.last().name)) by {
                if names(fd).contains(t.last().name) {
                    let k = choose|k: int| 0 <= k < names(fd).len() && names(fd)[k] == t.last().name;
                    assert(names(fd)[k] == fd[k].name);
                    let j = choose|j: int| 0 <= j < names(d).len() && names(d)[j] == fd[k].name;
                    assert(names(t)[j] == names(t)[t.len() - 1]);
                }
            }
            assert(t.last().wf());
            assert(t.contains(t.last()));
        }
    }
}

/// Two well-formed tables with no name in common make a well-formed table.
proof fn lemma_concat_tables(a: Seq<ServiceView>, b: Seq<ServiceView>)
    requires
        table_wf(a),
        table_wf(b),
        forall|k: int| 0 <= k < b.len() ==> !names(a).contains(#[trigger] b[k].name),
    ensures
        table_wf(a + b),
{
    let c = a + b;
    assert(names(c) =~= names(a) + names(b));
    assert forall|i: int, j: int|
        0 <= i < names(c).len() && 0 <= j < names(c).len() && i != j implies names(c)[i]
        != names(c)[j] by {
        if i < a.len() && j >= a.len() {
            assert(names(c)[j] == b[j - a.len()].name);
            assert(names(a)[i] == names(c)[i]);
        } else if j < a.len() && i >= a.len() {
            assert(names(c)[i] == b[i - a.len()].name);
            assert(names(a)[j] == names(c)[j]);
        } else if i >= a.len() && j >= a.len() {
            assert(names(b)[i - a.len()] == names(c)[i]);
            assert(names(b)[j - a.len()] == names(c)[j]);
        }
    }
    assert forall|k: int| 0 <= k < c.len() implies (#[trigger] c[k]).wf() by {
        if k < a.len() {
            assert(c[k] == a[k]);
        } else {
            assert(c[k] == b[k - a.len()]);
        }
    }
}

/// A reload of a well-formed table with a well-formed table is well formed.
pub proof fn lemma_refreshed_wf(old: Seq<ServiceView>, fresh: Seq<ServiceView>)
    requires
        table_wf(old),
        table_wf(fresh),
    ensures
        table_wf(refreshed(old, fresh)),
{
    let st = staying(old, fresh);
    let ar = arriving(old, fresh);
    lemma_filter_table(old, named_in(fresh));
    lemma_filter_table(fresh, unnamed_in(old));
    assert forall|k: int| 0 <= k < ar.len() implies !names(st).contains(#[trigger] ar[k].name) by {
        if names(st).contains(ar[k].name) {
            let j = choose|j: int| 0 <= j < names(st).len() && names(st)[j] == ar[k].name;
            assert(names(st)[j] == st[j].name);
            assert(names(old).contains(st[j].name));
        }
    }
    lemma_concat_tables(st, ar);
}

/// A service that belongs to a table with unique names is the one that
/// table holds under its name.
pub proof fn lemma_member_is_named(t: Seq<ServiceView>, s: ServiceView)
    requires
        table_wf(t),
        t.contains(s),
    ensures
        names(t).contains(s.name),
        t[names(t).index_of(s.name)] == s,
{
    let j = choose|j: int| 0 <= j < t.len() && t[j] == s;
    lemma_unique_index(t, j);
}

/// Putting a service in the table and looking its name up finds it; every
/// other name finds what it found before.
pub proof fn law_insert_then_find(t: Seq<ServiceView>, s: ServiceView, n: Seq<char>)
    requires
        table_wf(t),
        s.wf(),
    ensures
        names(upsert(t, s)).contains(s.name),
        upsert(t, s)[names(upsert(t, s)).index_of(s.name)] == s,
        n != s.name ==> (names(upsert(t, s)).contains(n) <==> names(t).contains(n)),
        n != s.name && names(t).contains(n) ==> upsert(t, s)[names(upsert(t, s)).index_of(n)]
            == t[names(t).index_of(n)],
{
    let u = upsert(t, s);
    if names(t).contains(s.name) {
        let i = names(t).index_of(s.name);
        assert(names(u) =~= names(t).update(i, s.name));
        lemma_update_same_name(t, i, s);
    } else {
        assert(names(u) =~= names(t).push(s.name));
        assert forall|a: int, b: int|
            0 <= a < names(u).len() && 0 <= b < names(u).len() && a != b implies names(u)[a]
            != names(u)[b] by {
            if a == t.len() {
                assert(names(t)[b] == names(u)[b]);
            } else if b == t.len() {
                assert(names(t)[a] == names(u)[a]);
            } else {
                assert(names(t)[a] == names(u)[a]);
                assert(names(t)[b] == names(u)[b]);
            }
        }
    }
    assert(u.contains(s)) by {
        if names(t).contains(s.name) {
            assert(u[names(t).index_of(s.name)] == s);
        } else {
            assert(u[t.len() as int] == s);
        }
    }
    assert forall|k: int| 0 <= k < u.len() implies (#[trigger] u[k]).wf() by {
        if !names(t).contains(s.name) && k < t.len() {
            assert(u[k] == t[k]);
        }
    }
    lemma_member_is_named(u, s);
    if n != s.name {
        if names(t).contains(n) {
            let j = names(t).index_of(n);
            assert(names(t)[j] == n);
            assert(t[j].name == n);
            assert(u[j] == t[j]);
            assert(u.contains(t[j]));
            lemma_member_is_named(u, t[j]);
        }
        if names(u).contains(n) {
            let j = names(u).index_of(n);
            assert(names(u)[j] == n);
            assert(names(t)[j] == n);
        }
    }
}

/// A removed name is no longer found; every other name finds what it found before.
pub proof fn law_remove_then_find(t: Seq<ServiceView>, name: Seq<char>, n: Seq<char>)
    requires
        table_wf(t),
    ensures
        !names(without(t, name)).contains(name),
        n != name ==> (names(without(t, name)).contains(n) <==> names(t).contains(n)),
        n != name && names(t).contains(n) ==> without(t, name)[names(without(t, name)).index_of(
            n,
        )] == t[names(t).index_of(n)],
{
    if names(t).contains(name) {
        let i = names(t).index_of(name);
        let w = t.remove(i);
        assert(names(t)[i] == name);
        assert(names(w) =~= names(t).remove(i));
        assert forall|a: int, b: int|
            0 <= a < names(w).len() && 0 <= b < names(w).len() && a != b implies names(w)[a]
            != names(w)[b] by {
            let a2 = if a < i { a } else { a + 1 };
            let b2 = if b < i { b } else { b + 1 };
            assert(names(w)[a] == names(t)[a2]);
            assert(names(w)[b] == names(t)[b2]);
        }
        assert forall|k: int| 0 <= k < w.len() implies (#[trigger] w[k]).wf() by {
            if k < i {
                assert(w[k] == t[k]);
            } else {
                assert(w[k] == t[k + 1]);
            }
        }
        if names(w).contains(name) {
            let k = names(w).index_of(name);
            let k2 = if k < i { k } else { k + 1 };
            assert(names(w)[k] == names(t)[k2]);
        }
        if n != name {
            if names(t).contains(n) {
                let j = names(t).index_of(n);
                assert(names(t)[j] == n);
                let j2 = if j < i { j } else { j - 1 };
                assert(w[j2] == t[j]);
                assert(w.contains(t[j]));
                lemma_member_is_named(w, t[j]);
            }
            if names(w).contains(n) {
                let k = names(w).index_of(n);
                let k2 = if k < i { k } else { k + 1 };
                assert(names(w)[k] == names(t)[k2]);
            }
        }
    }
}

/// What `find_diff` separates: each name of `a` is either missing from `b`
/// or shared with it, never both; the missing ones are not names of `b`,
/// the shared ones are.
pub proof fn law_find_diff_partition(a: Seq<ServiceView>, b: Seq<ServiceView>, n: Seq<char>)
    ensures
        names(a).contains(n) ==> (names_missing_from(a, b).contains(n) <==> !names(b).contains(n)),
        names(a).contains(n) ==> (names_shared_with(a, b).contains(n) <==> names(b).contains(n)),
        names_missing_from(a, b).contains(n) ==> names(a).contains(n) && !names(b).contains(n),
        names_shared_with(a, b).contains(n) ==> names(a).contains(n) && names(b).contains(n),
{
    broadcast use vstd::seq_lib::group_filter_ensures;

    let pm = |x: Seq<char>| !names(b).contains(x);
    let ps = |x: Seq<char>| names(b).contains(x);
    if names(a).contains(n) {
        let i = names(a).index_of(n);
        assert(names(a)[i] == n);
    }
    if names_missing_from(a, b).contains(n) {
        let k = choose|k: int| 0 <= k < names(a).filter(pm).len() && names(a).filter(pm)[k] == n;
        assert(pm(names(a).filter(pm)[k]));
        names(a).lemma_filter_contains_rev(pm, n);
    }
    if names_shared_with(a, b).contains(n) {
        let k = choose|k: int| 0 <= k < names(a).filter(ps).len() && names(a).filter(ps)[k] == n;
        assert(ps(names(a).filter(ps)[k]));
        names(a).lemma_filter_contains_rev(ps, n);
    }
}

/// After a reload, the table names exactly the services that `fresh`
/// names; a service that was already known keeps its state, and a new one
/// has the state it was loaded with.
pub proof fn law_refresh(old: Seq<ServiceView>, fresh: Seq<ServiceView>, n: Seq<char>)
    requires
        table_wf(old),
        table_wf(fresh),
    ensures
        table_wf(refreshed(old, fresh)),
        names(refreshed(old, fresh)).contains(n) <==> names(fresh).contains(n),
        names(old).contains(n) && names(fresh).contains(n) ==> refreshed(old, fresh)[names(
            refreshed(old, fresh),
        ).index_of(n)] == old[names(old).index_of(n)],
        !names(old).contains(n) && names(fresh).contains(n) ==> refreshed(old, fresh)[names(
            refreshed(old, fresh),
        ).index_of(n)] == fresh[names(fresh).index_of(n)],
{
    broadcast use vstd::seq_lib::group_filter_ensures;

    let r = refreshed(old, fresh);
    let st = staying(old, fresh);
    let ar = arriving(old, fresh);
    lemma_refreshed_wf(old, fresh);
    lemma_filter_table(old, named_in(fresh));
    lemma_filter_table(fresh, unnamed_in(old));
    if names(r).contains(n) {
        let k = names(r).index_of(n);
        assert(names(r)[k] == n);
        if k < st.len() {
            assert(r[k] == st[k]);
            assert(named_in(fresh)(st[k]));
        } else {
            assert(r[k] == ar[k - st.len()]);
            assert(fresh.contains(ar[k - st.len()]));
            lemma_member_is_named(fresh, ar[k - st.len()]);
        }
    }
    if names(fresh).contains(n) {
        if names(old).contains(n) {
            let j = names(old).index_of(n);
            assert(names(old)[j] == n);
            assert(named_in(fresh)(old[j]));
            assert(st.contains(old[j]));
            let k = choose|k: int| 0 <= k < st.len() && st[k] == old[j];
            assert(r[k] == old[j]);
            assert(r.contains(old[j]));
            lemma_member_is_named(r, old[j]);
        } else {
            let j = names(fresh).index_of(n);
            assert(names(fresh)[j] == n);
            assert(unnamed_in(old)(fresh[j]));
            assert(ar.contains(fresh[j]));
            let k = choose|k: int| 0 <= k < ar.len() && ar[k] == fresh[j];
            assert(r[st.len() + k] == fresh[j]);
            assert(r.contains(fresh[j]));
            lemma_member_is_named(r, fresh[j]);
        }
    }
}

/// Every pid that stops ask to terminate is that of a real process.
pub proof fn law_halts_are_real(rs: Seq<ServiceView>)
    requires
        forall|i: int| 0 <= i < rs.len() ==> (#[trigger] rs[i]).wf(),
    ensures
        forall|k: int| 0 <= k < halt_pids(rs).len() ==> halt_pids(rs)[k] > 0,
    decreases rs.len(),
{
    if rs.len() > 0 {
        let d = rs.drop_last();
        assert forall|i: int| 0 <= i < d.len() implies (#[trigger] d[i]).wf() by {
            assert(d[i] == rs[i]);
        }
        law_halts_are_real(d);
        assert(rs.last().wf());
        if stop_outcome(rs.last()) is Ok {
            assert(rs.last().pid > 0);
            assert(halt_pids(rs) == halt_pids(d).push(rs.last().pid as i32));
            assert forall|k: int| 0 <= k < halt_pids(rs).len() implies halt_pids(rs)[k] > 0 by {
                if k < halt_pids(d).len() {
                    assert(halt_pids(rs)[k] == halt_pids(d)[k]);
                }
            }
        }
    }
}

/// The terminations a reload asks for all target real processes.
pub proof fn law_refresh_halts_are_real(old: Seq<ServiceView>, fresh: Seq<ServiceView>)
    requires
        table_wf(old),
    ensures
        forall|k: int|
            0 <= k < halt_pids(leaving(old, fresh)).len() ==> halt_pids(leaving(old, fresh))[k]
                > 0,
{
    lemma_filter_table(old, unnamed_in(fresh));
    law_halts_are_real(leaving(old, fresh));
}

} // verus!
