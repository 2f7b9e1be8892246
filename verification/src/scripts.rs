//! Loading a directory of scripts: the entries are taken in the order of
//! their paths, files become services, and each enabled one is started
//! when the caller asks for it.
use vstd::prelude::*;
use vstd::string::*;

use crate::path::file_name;
use crate::service::{fresh_service, start_outcome, Service, ServiceAction, ServiceView};
use crate::table::{table_wf, upsert, ServiceTable};
use crate::text::has_suffix;

verus! {

/// Paths ending in this name scripts that are not started at boot.
pub open spec fn disabled_word() -> Seq<char> {
    "-disabled"@
}

/// Character-by-character order of two texts, a prefix first.
pub open spec fn text_le(a: Seq<char>, b: Seq<char>) -> bool
    decreases a.len(),
{
    if a.len() == 0 {
        true
    } else if b.len() == 0 {
        false
    } else if (a[0] as u32) < (b[0] as u32) {
        true
    } else if (a[0] as u32) > (b[0] as u32) {
        false
    } else {
        text_le(a.drop_first(), b.drop_first())
    }
}

pub proof fn lemma_text_le_total(a: Seq<char>, b: Seq<char>)
    ensures
        text_le(a, b) || text_le(b, a),
    decreases a.len(),
{
    if a.len() > 0 && b.len() > 0 && (a[0] as u32) == (b[0] as u32) {
        lemma_text_le_total(a.drop_first(), b.drop_first());
    }
}

pub proof fn lemma_text_le_transitive(a: Seq<char>, b: Seq<char>, c: Seq<char>)
    requires
        text_le(a, b),
        text_le(b, c),
    ensures
        text_le(a, c),
    decreases a.len(),
{
    if a.len() > 0 && b.len() > 0 && c.len() > 0 && (a[0] as u32) == (b[0] as u32) && (b[0]
        as u32) == (c[0] as u32) {
        lemma_text_le_transitive(a.drop_first(), b.drop_first(), c.drop_first());
    }
}

/// Decides `text_le(a@, b@)`.
pub fn text_le_exec(a: &str, b: &str) -> (r: bool)
    ensures
        r == text_le(a@, b@),
{
    let n = a.unicode_len();
    let m = b.unicode_len();
    let mut i: usize = 0;
    assert(a@.skip(0) =~= a@);
    assert(b@.skip(0) =~= b@);
    while i < n && i < m
        invariant
            i <= n,
            i <= m,
            n == a@.len(),
            m == b@.len(),
            text_le(a@, b@) == text_le(a@.skip(i as int), b@.skip(i as int)),
        decreases n - i,
    {
        let ca = a.get_char(i);
        let cb = b.get_char(i);
        proof {
            assert(a@.skip(i as int)[0] == ca);
            assert(b@.skip(i as int)[0] == cb);
        }
        if (ca as u32) != (cb as u32) {
            return (ca as u32) < (cb as u32);
        }
        proof {
            assert(a@.skip(i as int).drop_first() =~= a@.skip(i + 1));
            assert(b@.skip(i as int).drop_first() =~= b@.skip(i + 1));
        }
        i = i + 1;
    }
    i == n
}

/// One entry of a scripts directory, as the caller found it.
pub struct ScriptEntry {
    /// The entry's path.
    pub path: String,
    /// Whether the entry is a regular file.
    pub is_file: bool,
}

/// The mathematical form of a `ScriptEntry`.
pub struct EntryView {
    pub path: Seq<char>,
    pub is_file: bool,
}

impl View for ScriptEntry {
    type V = EntryView;

    open spec fn view(&self) -> EntryView {
        EntryView { path: self.path@, is_file: self.is_file }
    }
}

/// Entries in the order of their paths.
pub open spec fn sorted_by_path(es: Seq<EntryView>) -> bool {
    forall|i: int, j: int| 0 <= i < j < es.len() ==> text_le(es[i].path, es[j].path)
}

/// Puts `entries` in the order of their paths (for the entries of one
/// directory, the order of their file names).
pub fn sort_entries(entries: Vec<ScriptEntry>) -> (r: Vec<ScriptEntry>)
    ensures
        sorted_by_path(r@.map_values(|e: ScriptEntry| e@)),
        r@.map_values(|e: ScriptEntry| e@).to_multiset() =~= entries@.map_values(
            |e: ScriptEntry| e@,
        ).to_multiset(),
{
    broadcast use vstd::seq_lib::group_to_multiset_ensures;

    let ghost src = entries@.map_values(|e: ScriptEntry| e@);
    let ghost ev = entries@;
    let mut rest = entries;
    let mut out: Vec<ScriptEntry> = Vec::new();
    let n = rest.len();
    let mut i: usize = 0;
    proof {
        assert(out@.map_values(|e: ScriptEntry| e@) =~= src.take(0));
        assert(rest@ =~= ev.subrange(0, n as int));
    }
    while i < n
        invariant
            i <= n,
            n == ev.len(),
            src == ev.map_values(|e: ScriptEntry| e@),
            rest@ == ev.subrange(i as int, n as int),
            sorted_by_path(out@.map_values(|e: ScriptEntry| e@)),
            out@.map_values(|e: ScriptEntry| e@).to_multiset() == src.take(i as int).to_multiset(),
            out@.len() == i,
        decreases n - i,
    {
        let e = rest.remove(0);
        let ghost o = out@.map_values(|e: ScriptEntry| e@);
        proof {
            assert(e == ev[i as int]);
            assert(rest@ =~= ev.subrange(i + 1, n as int));
        }
        let mut k: usize = 0;
        while k < out.len() && text_le_exec(out[k].path.as_str(), e.path.as_str())
            invariant
                k <= out@.len(),
                o == out@.map_values(|e: ScriptEntry| e@),
                forall|j: int| 0 <= j < k ==> text_le(o[j].path, e.path@),
            decreases out@.len() - k,
        {
            k = k + 1;
        }
        let ghost ew = e@;
        out.insert(k, e);
        proof {
            let o2 = out@.map_values(|e: ScriptEntry| e@);
            assert(o2 =~= o.insert(k as int, ew));
            if k < o.len() {
                assert(!text_le(o[k as int].path, ew.path));
                lemma_text_le_total(o[k as int].path, ew.path);
            }
            assert forall|a: int, b: int| 0 <= a < b < o2.len() implies text_le(
                o2[a].path,
                o2[b].path,
            ) by {
                if b < k {
                } else if b == k {
                    assert(o2[a] == o[a]);
                } else if a == k {
                    assert(o2[b] == o[b - 1]);
                    if b - 1 > k {
                        lemma_text_le_transitive(ew.path, o[k as int].path, o[b - 1].path);
                    }
                } else if a < k {
                    assert(o2[a] == o[a]);
                    assert(o2[b] == o[b - 1]);
                } else {
                    assert(o2[a] == o[a - 1]);
                    assert(o2[b] == o[b - 1]);
                }
            }
            assert(o2.remove(k as int) =~= o);
            assert(o2[k as int] == ew);
            o2.to_multiset_ensures();
            src.take(i as int).to_multiset_ensures();
            assert(o2.remove(k as int).to_multiset() =~= o2.to_multiset().remove(ew));
            assert(src.take(i + 1) =~= src.take(i as int).push(ew));
            assert(o2.to_multiset().count(ew) > 0) by {
                assert(o2.contains(ew));
            }
            assert(o2.to_multiset() =~= o.to_multiset().insert(ew));
        }
        i = i + 1;
    }
    assert(src.take(n as int) =~= src);
    out
}

/// What the caller does for one loaded entry.
#[derive(Debug)]
pub enum LoadStep {
    /// Report that `path` is not a file.
    NotAFile { path: String },
    /// Carry out `action` (`RunOnce` or `Supervise`) for the service `name` at `path`.
    Launch { name: String, path: String, action: ServiceAction },
}

/// The mathematical form of a `LoadStep`.
pub enum LoadStepView {
    NotAFile { path: Seq<char> },
    Launch { name: Seq<char>, path: Seq<char>, action: ServiceAction },
}

impl View for LoadStep {
    type V = LoadStepView;

    open spec fn view(&self) -> LoadStepView {
        match self {
            LoadStep::NotAFile { path } => LoadStepView::NotAFile { path: path@ },
            LoadStep::Launch { name, path, action } => LoadStepView::Launch {
                name: name@,
                path: path@,
                action: *action,
            },
        }
    }
}

/// Whether a file entry is started when loaded.
pub open spec fn starts(e: EntryView, autostart: bool) -> bool {
    autostart && !disabled_word().is_suffix_of(e.path)
}

/// The table loaded from entries `es`, in order: each file becomes a fresh
/// service, in place of any of the same name.
pub open spec fn loaded_table(es: Seq<EntryView>) -> Seq<ServiceView>
    decreases es.len(),
{
    if es.len() == 0 {
        Seq::empty()
    } else if es.last().is_file {
        upsert(
            loaded_table(es.drop_last()),
            fresh_service(es.last().path, file_name(es.last().path)->0),
        )
    } else {
        loaded_table(es.drop_last())
    }
}

/// The steps of loading entries `es`, in order.
pub open spec fn load_steps(es: Seq<EntryView>, autostart: bool) -> Seq<LoadStepView>
    decreases es.len(),
{
    if es.len() == 0 {
        Seq::empty()
    } else {
        let e = es.last();
        let before = load_steps(es.drop_last(), autostart);
        if !e.is_file {
            before.push(LoadStepView::NotAFile { path: e.path })
        } else if starts(e, autostart) {
            let s = fresh_service(e.path, file_name(e.path)->0);
            before.push(
                LoadStepView::Launch {
                    name: s.name,
                    path: s.path,
                    action: start_outcome(s)->Ok_0,
                },
            )
        } else {
            before
        }
    }
}

/// Every file entry names a file.
pub open spec fn files_named(es: Seq<EntryView>) -> bool {
    forall|i: int| 0 <= i < es.len() && (#[trigger] es[i]).is_file ==> file_name(es[i].path) is Some
}

/// Loads the scripts of a directory from its `entries`: in the order of
/// their paths, each file becomes a service of the table, and each file not
/// disabled is started when `autostart` is set. Answers the table and the
/// steps the caller carries out, in order.
pub fn process_scripts(entries: Vec<ScriptEntry>, autostart: bool) -> (r: (
    ServiceTable,
    Vec<LoadStep>,
))
    requires
        files_named(entries@.map_values(|e: ScriptEntry| e@)),
    ensures
        exists|es: Seq<EntryView>|
            {
                &&& sorted_by_path(es)
                &&& es.to_multiset() == entries@.map_values(|e: ScriptEntry| e@).to_multiset()
                &&& r.0@ == loaded_table(es)
                &&& r.1@.map_values(|s: LoadStep| s@) == load_steps(es, autostart)
            },
        table_wf(r.0@),
{
    broadcast use vstd::seq_lib::group_to_multiset_ensures;

    let ghost input = entries@.map_values(|e: ScriptEntry| e@);
    let sorted = sort_entries(entries);
    let ghost sv = sorted@;
    let ghost es = sorted@.map_values(|e: ScriptEntry| e@);
    proof {
        assert forall|i: int| 0 <= i < es.len() && (#[trigger] es[i]).is_file implies file_name(
            es[i].path,
        ) is Some by {
            assert(es.to_multiset().count(es[i]) > 0) by {
                assert(es.contains(es[i]));
            }
            assert(input.contains(es[i]));
        }
    }
    let mut rest = sorted;
    let n = rest.len();
    let mut table = ServiceTable::new();
    let mut steps: Vec<LoadStep> = Vec::new();
    let mut i: usize = 0;
    proof {
        assert(es.take(0) =~= Seq::<EntryView>::empty());
        assert(steps@.map_values(|s: LoadStep| s@) =~= Seq::<LoadStepView>::empty());
        assert(rest@ =~= sv.subrange(0, n as int));
    }
    while i < n
        invariant
            i <= n,
            n == sv.len(),
            es == sv.map_values(|e: ScriptEntry| e@),
            files_named(es),
            rest@ == sv.subrange(i as int, n as int),
            table@ == loaded_table(es.take(i as int)),
            table_wf(table@),
            steps@.map_values(|s: LoadStep| s@) == load_steps(es.take(i as int), autostart),
        decreases n - i,
    {
        let e = rest.remove(0);
        let ghost ew = e@;
        let ghost s0 = steps@.map_values(|s: LoadStep| s@);
        proof {
            assert(e == sv[i as int]);
            assert(es[i as int] == ew);
            assert(rest@ =~= sv.subrange(i + 1, n as int));
            assert(es.take(i + 1).drop_last() =~= es.take(i as int));
            assert(es.take(i + 1).last() == ew);
        }
        if !e.is_file {
            steps.push(LoadStep::NotAFile { path: e.path });
            assert(steps@.map_values(|s: LoadStep| s@) =~= s0.push(
                LoadStepView::NotAFile { path: ew.path },
            ));
        } else {
            let go = autostart && !has_suffix(e.path.as_str(), "-disabled");
            let mut svc = Service::new(e.path);
            if go {
                let a = svc.start();
                if let Ok(action) = a {
                    steps.push(
                        LoadStep::Launch { name: svc.name().clone(), path: svc.path().clone(), action },
                    );
                    assert(steps@.map_values(|s: LoadStep| s@) =~= s0.push(
                        LoadStepView::Launch { name: svc@.name, path: svc@.path, action },
                    ));
                }
            }
            table.insert(svc);
        }
        i = i + 1;
    }
    assert(es.take(n as int) =~= es);
    (table, steps)
}

/// Loading without starting (as a reload does) asks for no launch: the
/// only steps are reports of entries that are not files.
pub proof fn law_load_without_start(es: Seq<EntryView>)
    ensures
        forall|k: int|
            0 <= k < load_steps(es, false).len() ==> (#[trigger] load_steps(es, false)[k]) is NotAFile,
    decreases es.len(),
{
    if es.len() > 0 {
        law_load_without_start(es.drop_last());
        let before = load_steps(es.drop_last(), false);
        assert forall|k: int| 0 <= k < load_steps(es, false).len() implies (#[trigger] load_steps(
            es,
            false,
        )[k]) is NotAFile by {
            if k < before.len() {
                assert(load_steps(es, false)[k] == before[k]);
            }
        }
    }
}

} // verus!
