//! The in-memory picture of the two durable tables: the tracking registry
//! and the usage counters. Every operation is specified against the
//! mathematical model in [`crate::model`].

use crate::model::{
    accrues, add_model, lemma_reg_idx_of, lemma_tick_step_accrue, lemma_tick_step_skip, paused_of,
    reg_has, reg_names, reg_unique, remove_reg_model, remove_usage_model, set_total_model,
    tick_model, toggle_model, total_of, RegRec, UsageRec,
};
use crate::procs::{contains_name, names_set};
use vstd::prelude::*;

verus! {

/// A registry row: an application the user has opted to track.
pub struct TrackedApps {
    pub id: i64,
    pub name: String,
    pub icon: Option<String>,
}

/// A usage row: the accumulated time units for one application name and
/// whether accrual for it is paused. A name may have usage without being
/// tracked (history survives removal from the registry).
pub struct AppUsage {
    pub name: String,
    pub total_seconds: i64,
    pub paused: bool,
}

/// The view of an optional icon string.
pub open spec fn opt_view(o: Option<String>) -> Option<Seq<char>> {
    match o {
        Option::Some(s) => Option::Some(s@),
        Option::None => Option::None,
    }
}

impl View for TrackedApps {
    type V = RegRec;

    open spec fn view(&self) -> RegRec {
        RegRec { id: self.id as int, name: self.name@, icon: opt_view(self.icon) }
    }
}

impl View for AppUsage {
    type V = UsageRec;

    open spec fn view(&self) -> UsageRec {
        UsageRec { total: self.total_seconds as int, paused: self.paused }
    }
}

impl Clone for AppUsage {
    fn clone(&self) -> (r: Self)
        ensures
            r == *self,
    {
        AppUsage { name: self.name.clone(), total_seconds: self.total_seconds, paused: self.paused }
    }
}

impl Clone for TrackedApps {
    fn clone(&self) -> (r: Self)
        ensures
            r == *self,
    {
        let icon = match &self.icon {
            Some(s) => Some(s.clone()),
            None => None,
        };
        TrackedApps { id: self.id, name: self.name.clone(), icon }
    }
}

/// Usage rows have pairwise distinct names.
pub open spec fn unique_names(s: Seq<AppUsage>) -> bool {
    forall|i: int, j: int| 0 <= i < j < s.len() ==> s[i].name@ != s[j].name@
}

/// Whether some usage row is named `n`.
pub open spec fn uhas(s: Seq<AppUsage>, n: Seq<char>) -> bool {
    exists|i: int| 0 <= i < s.len() && s[i].name@ == n
}

/// The index of the usage row named `n` (meaningful only when `uhas`
/// holds and the names are unique).
pub open spec fn uidx(s: Seq<AppUsage>, n: Seq<char>) -> int {
    choose|i: int| 0 <= i < s.len() && s[i].name@ == n
}

/// The usage table a sequence of rows stands for.
pub open spec fn umap(s: Seq<AppUsage>) -> Map<Seq<char>, UsageRec> {
    Map::new(|n: Seq<char>| uhas(s, n), |n: Seq<char>| s[uidx(s, n)]@)
}

pub proof fn lemma_uidx_of(s: Seq<AppUsage>, i: int)
    requires
        unique_names(s),
        0 <= i < s.len(),
    ensures
        uhas(s, s[i].name@),
        uidx(s, s[i].name@) == i,
{
    assert(uhas(s, s[i].name@));
    let j = uidx(s, s[i].name@);
    assert(0 <= j < s.len() && s[j].name@ == s[i].name@);
}

pub proof fn lemma_umap_at(s: Seq<AppUsage>, i: int)
    requires
        unique_names(s),
        0 <= i < s.len(),
    ensures
        umap(s).dom().contains(s[i].name@),
        umap(s)[s[i].name@] == s[i]@,
{
    lemma_uidx_of(s, i);
}

pub proof fn lemma_umap_update(s: Seq<AppUsage>, i: int, r: AppUsage)
    requires
        unique_names(s),
        0 <= i < s.len(),
        r.name@ == s[i].name@,
    ensures
        unique_names(s.update(i, r)),
        umap(s.update(i, r)) == umap(s).insert(r.name@, r@),
{
    let s2 = s.update(i, r);
    assert forall|k: int| 0 <= k < s2.len() implies s2[k].name@ == s[k].name@ by {}
    let m2 = umap(s).insert(r.name@, r@);
    assert forall|n: Seq<char>| uhas(s2, n) == m2.dom().contains(n) by {
        if uhas(s2, n) {
            let k = choose|k: int| 0 <= k < s2.len() && s2[k].name@ == n;
            assert(s[k].name@ == n);
            assert(uhas(s, n));
        }
        if m2.dom().contains(n) {
            if n == r.name@ {
                assert(s2[i].name@ == n);
            } else {
                let k = choose|k: int| 0 <= k < s.len() && s[k].name@ == n;
                assert(s2[k].name@ == n);
            }
        }
    }
    assert forall|n: Seq<char>| uhas(s2, n) implies umap(s2)[n] == m2[n] by {
        if n == r.name@ {
            lemma_uidx_of(s2, i);
            assert(umap(s2)[n] == s2[i]@);
        } else {
            let k = choose|k: int| 0 <= k < s.len() && s[k].name@ == n;
            assert(s2[k].name@ == n);
            lemma_uidx_of(s2, k);
            lemma_uidx_of(s, k);
            assert(umap(s2)[n] == s2[k]@);
            assert(k != i);
            assert(umap(s)[n] == s[k]@);
        }
    }
    assert(umap(s2) =~= m2);
}

pub proof fn lemma_umap_push(s: Seq<AppUsage>, r: AppUsage)
    requires
        unique_names(s),
        !uhas(s, r.name@),
    ensures
        unique_names(s.push(r)),
        umap(s.push(r)) == umap(s).insert(r.name@, r@),
{
    let s2 = s.push(r);
    assert forall|i: int, j: int| 0 <= i < j < s2.len() implies s2[i].name@ != s2[j].name@ by {
        if j < s.len() {
        } else {
            assert(s2[i].name@ == s[i].name@);
        }
    }
    let m2 = umap(s).insert(r.name@, r@);
    assert forall|n: Seq<char>| uhas(s2, n) == m2.dom().contains(n) by {
        if uhas(s2, n) {
            let k = choose|k: int| 0 <= k < s2.len() && s2[k].name@ == n;
            if k < s.len() {
                assert(uhas(s, n));
            } else {
                assert(n == r.name@);
            }
        }
        if m2.dom().contains(n) {
            if n == r.name@ {
                assert(s2[s.len() as int].name@ == n);
            } else {
                let k = choose|k: int| 0 <= k < s.len() && s[k].name@ == n;
                assert(s2[k].name@ == n);
            }
        }
    }
    assert forall|n: Seq<char>| uhas(s2, n) implies umap(s2)[n] == m2[n] by {
        if n == r.name@ {
            lemma_uidx_of(s2, s.len() as int);
            assert(umap(s2)[n] == s2[s.len() as int]@);
        } else {
            let k = choose|k: int| 0 <= k < s2.len() && s2[k].name@ == n;
            assert(k < s.len());
            assert(s[k].name@ == n);
            lemma_uidx_of(s2, k);
            lemma_uidx_of(s, k);
        }
    }
    assert(umap(s2) =~= m2);
}

pub proof fn lemma_umap_remove(s: Seq<AppUsage>, i: int)
    requires
        unique_names(s),
        0 <= i < s.len(),
    ensures
        unique_names(s.remove(i)),
        umap(s.remove(i)) == umap(s).remove(s[i].name@),
{
    let s2 = s.remove(i);
    assert forall|k: int| 0 <= k < s2.len() implies s2[k].name@ == (if k < i {
        s[k].name@
    } else {
        s[k + 1].name@
    }) by {}
    assert forall|a: int, b: int| 0 <= a < b < s2.len() implies s2[a].name@ != s2[b].name@ by {}
    let m2 = umap(s).remove(s[i].name@);
    assert forall|n: Seq<char>| uhas(s2, n) == m2.dom().contains(n) by {
        if uhas(s2, n) {
            let k = choose|k: int| 0 <= k < s2.len() && s2[k].name@ == n;
            if k < i {
                assert(s[k].name@ == n);
                lemma_uidx_of(s, k);
            } else {
                assert(s[k + 1].name@ == n);
                lemma_uidx_of(s, k + 1);
            }
            assert(uhas(s, n) && n != s[i].name@);
        }
        if m2.dom().contains(n) {
            let k = choose|k: int| 0 <= k < s.len() && s[k].name@ == n;
            assert(k != i);
            if k < i {
                assert(s2[k].name@ == n);
            } else {
                assert(s2[k - 1].name@ == n);
            }
        }
    }
    assert forall|n: Seq<char>| uhas(s2, n) implies umap(s2)[n] == m2[n] by {
        let k = choose|k: int| 0 <= k < s2.len() && s2[k].name@ == n;
        lemma_uidx_of(s2, k);
        if k < i {
            lemma_uidx_of(s, k);
            assert(umap(s2)[n] == s2[k]@);
            assert(umap(s)[n] == s[k]@);
        } else {
            lemma_uidx_of(s, k + 1);
            assert(umap(s2)[n] == s2[k]@);
            assert(umap(s)[n] == s[k + 1]@);
        }
    }
    assert(umap(s2) =~= m2);
}

/// The engine's whole state: the registry rows in insertion order, the
/// usage rows, and the next free surrogate id.
pub struct Store {
    pub registry: Vec<TrackedApps>,
    pub usage: Vec<AppUsage>,
    pub next_id: i64,
}

impl Store {
    /// The registry this store stands for, in insertion order.
    pub open spec fn reg(self) -> Seq<RegRec> {
        self.registry@.map_values(|t: TrackedApps| t@)
    }

    /// The usage table this store stands for.
    pub open spec fn usage_map(self) -> Map<Seq<char>, UsageRec> {
        umap(self.usage@)
    }

    /// Well-formedness: unique names in both tables, non-negative totals,
    /// and registry ids strictly increasing below `next_id`.
    pub open spec fn wf(self) -> bool {
        &&& unique_names(self.usage@)
        &&& reg_unique(self.reg())
        &&& forall|i: int| 0 <= i < self.usage@.len() ==> self.usage@[i].total_seconds >= 0
        &&& forall|i: int, j: int|
            0 <= i < j < self.registry@.len() ==> self.registry@[i].id < self.registry@[j].id
        &&& forall|i: int|
            0 <= i < self.registry@.len() ==> 1 <= #[trigger] self.registry@[i].id < self.next_id
        &&& self.next_id >= 1
    }

    /// An empty store: nothing tracked, no usage.
    pub fn new() -> (s: Store)
        ensures
            s.wf(),
            s.reg() == Seq::<RegRec>::empty(),
            s.usage_map() == Map::<Seq<char>, UsageRec>::empty(),
            s.next_id == 1,
    {
        let s = Store { registry: Vec::new(), usage: Vec::new(), next_id: 1 };
        proof {
            assert(s.reg() =~= Seq::<RegRec>::empty());
            assert(s.usage_map() =~= Map::<Seq<char>, UsageRec>::empty());
        }
        s
    }

    /// The index of the usage row named `name`, if any.
    fn find_usage(&self, name: &String) -> (r: Option<usize>)
        ensures
            match r {
                Some(i) => 0 <= i < self.usage@.len() && self.usage@[i as int].name@ == name@,
                None => !uhas(self.usage@, name@),
            },
    {
        let mut j: usize = 0;
        while j < self.usage.len()
            invariant
                0 <= j <= self.usage@.len(),
                forall|k: int| 0 <= k < j ==> self.usage@[k].name@ != name@,
            decreases self.usage@.len() - j,
        {
            if self.usage[j].name == *name {
                return Some(j);
            }
            j += 1;
        }
        None
    }

    /// The index of the registry row named `name`, if any.
    fn find_tracked(&self, name: &String) -> (r: Option<usize>)
        ensures
            match r {
                Some(i) => 0 <= i < self.reg().len() && self.reg()[i as int].name == name@
                    && reg_has(self.reg(), name@),
                None => !reg_has(self.reg(), name@),
            },
    {
        let mut j: usize = 0;
        while j < self.registry.len()
            invariant
                0 <= j <= self.registry@.len(),
                forall|k: int| 0 <= k < j ==> self.registry@[k].name@ != name@,
            decreases self.registry@.len() - j,
        {
            if self.registry[j].name == *name {
                return Some(j);
            }
            j += 1;
        }
        proof {
            assert forall|k: int| 0 <= k < self.reg().len() implies self.reg()[k].name != name@ by {
                assert(self.reg()[k].name == self.registry@[k].name@);
            }
        }
        None
    }

    /// The pause toggle: read the current flag (a missing row counts as not
    /// paused), flip it, and upsert, creating a zero-total row if absent.
    /// Returns the new pause state. The total is never changed.
    pub fn pause_app(&mut self, name: String) -> (new_paused: bool)
        requires
            old(self).wf(),
        ensures
            final(self).wf(),
            final(self).usage_map() == toggle_model(old(self).usage_map(), name@),
            new_paused == !paused_of(old(self).usage_map(), name@),
            final(self).registry@ == old(self).registry@,
            final(self).next_id == old(self).next_id,
    {
        match self.find_usage(&name) {
            Some(i) => {
                let cur = self.usage[i].paused;
                let tot = self.usage[i].total_seconds;
                let rec = AppUsage { name, total_seconds: tot, paused: !cur };
                proof {
                    lemma_umap_at(self.usage@, i as int);
                    lemma_umap_update(self.usage@, i as int, rec);
                }
                self.usage[i] = rec;
                !cur
            },
            None => {
                let rec = AppUsage { name, total_seconds: 0, paused: true };
                proof {
                    lemma_umap_push(self.usage@, rec);
                }
                self.usage.push(rec);
                true
            },
        }
    }

    /// The administrative overwrite of a total: set it, creating an unpaused
    /// row if absent; the pause flag is left alone.
    pub fn update_app(&mut self, name: String, total_seconds: i64)
        requires
            old(self).wf(),
            total_seconds >= 0,
        ensures
            final(self).wf(),
            final(self).usage_map() == set_total_model(
                old(self).usage_map(),
                name@,
                total_seconds as int,
            ),
            final(self).registry@ == old(self).registry@,
            final(self).next_id == old(self).next_id,
    {
        match self.find_usage(&name) {
            Some(i) => {
                let p = self.usage[i].paused;
                let rec = AppUsage { name, total_seconds, paused: p };
                proof {
                    lemma_umap_at(self.usage@, i as int);
                    lemma_umap_update(self.usage@, i as int, rec);
                }
                self.usage[i] = rec;
            },
            None => {
                let rec = AppUsage { name, total_seconds, paused: false };
                proof {
                    lemma_umap_push(self.usage@, rec);
                }
                self.usage.push(rec);
            },
        }
    }

    /// Insert or update by unique name: a fresh name gets a new row with the
    /// next free id; re-adding an existing name only replaces its icon and
    /// keeps id and position. Usage rows are untouched.
    pub fn add_app(&mut self, name: String, icon: Option<String>)
        requires
            old(self).wf(),
            old(self).next_id < i64::MAX,
        ensures
            final(self).wf(),
            final(self).reg() == add_model(
                old(self).reg(),
                old(self).next_id as int,
                name@,
                opt_view(icon),
            ),
            final(self).usage@ == old(self).usage@,
            final(self).next_id == if reg_has(old(self).reg(), name@) {
                old(self).next_id as int
            } else {
                old(self).next_id + 1
            },
    {
        let ghost reg0 = self.reg();
        match self.find_tracked(&name) {
            Some(i) => {
                let id = self.registry[i].id;
                let rec = TrackedApps { id, name, icon };
                proof {
                    lemma_reg_idx_of(reg0, i as int);
                }
                self.registry[i] = rec;
                proof {
                    assert(self.reg() =~= reg0.update(
                        i as int,
                        RegRec { id: id as int, name: rec.name@, icon: opt_view(rec.icon) },
                    ));
                    assert(self.reg() =~= add_model(
                        reg0,
                        old(self).next_id as int,
                        rec.name@,
                        opt_view(rec.icon),
                    ));
                    assert forall|a: int, b: int|
                        0 <= a < b < self.reg().len() implies self.reg()[a].name
                        != self.reg()[b].name by {}
                }
            },
            None => {
                let rec = TrackedApps { id: self.next_id, name, icon };
                self.registry.push(rec);
                self.next_id = self.next_id + 1;
                proof {
                    assert(self.reg() =~= reg0.push(
                        RegRec {
                            id: old(self).next_id as int,
                            name: rec.name@,
                            icon: opt_view(rec.icon),
                        },
                    ));
                    assert forall|a: int, b: int|
                        0 <= a < b < self.reg().len() implies self.reg()[a].name
                        != self.reg()[b].name by {
                        if b == self.reg().len() - 1 {
                            assert(self.reg()[a].name == reg0[a].name);
                            assert(!reg_has(reg0, rec.name@));
                        }
                    }
                }
            },
        }
    }

    /// Delete an application from the registry; when `delete_usage` holds,
    /// its usage row goes too, else the historical total survives.
    pub fn remove_app(&mut self, name: &String, delete_usage: bool)
        requires
            old(self).wf(),
        ensures
            final(self).wf(),
            final(self).reg() == remove_reg_model(old(self).reg(), name@),
            final(self).usage_map() == if delete_usage {
                remove_usage_model(old(self).usage_map(), name@)
            } else {
                old(self).usage_map()
            },
            final(self).next_id == old(self).next_id,
    {
        let ghost reg0 = self.reg();
        match self.find_tracked(name) {
            Some(i) => {
                proof {
                    lemma_reg_idx_of(reg0, i as int);
                }
                self.registry.remove(i);
                proof {
                    assert(self.reg() =~= reg0.remove(i as int));
                }
            },
            None => {
            },
        }
        if delete_usage {
            match self.find_usage(name) {
                Some(j) => {
                    proof {
                        lemma_uidx_of(self.usage@, j as int);
                        lemma_umap_remove(self.usage@, j as int);
                    }
                    self.usage.remove(j);
                },
                None => {
                    proof {
                        assert(!umap(self.usage@).dom().contains(name@));
                        assert(umap(self.usage@) =~= umap(self.usage@).remove(name@));
                    }
                },
            }
        }
    }
}

/// The names of the registry rows, in order, as strings.
pub open spec fn reg_name_seq(s: Seq<TrackedApps>) -> Seq<String> {
    s.map_values(|t: TrackedApps| t.name)
}

/// The predicate "this tracked name gains a unit this tick", as a function
/// of the usage table, the tracked names and the running names.
pub open spec fn gains_this_tick(
    u: Map<Seq<char>, UsageRec>,
    regs: Set<Seq<char>>,
    run: Set<Seq<char>>,
) -> spec_fn(String) -> bool {
    |nm: String| accrues(u, regs, run, nm@)
}

impl Store {
    /// One tick of the accrual engine: every tracked name that is in
    /// `running` and not paused gains exactly one time unit, by upsert.
    /// Returns the names that gained a unit, in registry order.
    pub fn increment_usage_for_running_apps(&mut self, running: &Vec<String>) -> (accrued: Vec<
        String,
    >)
        requires
            old(self).wf(),
            forall|i: int|
                #![trigger old(self).usage@[i]]
                0 <= i < old(self).usage@.len() ==> (accrues(
                    old(self).usage_map(),
                    reg_names(old(self).reg()),
                    names_set(running@),
                    old(self).usage@[i].name@,
                ) ==> old(self).usage@[i].total_seconds < i64::MAX),
        ensures
            final(self).wf(),
            final(self).usage_map() == tick_model(
                old(self).usage_map(),
                reg_names(old(self).reg()),
                names_set(running@),
            ),
            final(self).registry@ == old(self).registry@,
            final(self).next_id == old(self).next_id,
            accrued@ == reg_name_seq(old(self).registry@).filter(
                gains_this_tick(
                    old(self).usage_map(),
                    reg_names(old(self).reg()),
                    names_set(running@),
                ),
            ),
    {
        let ghost u0 = old(self).usage_map();
        let ghost regseq = old(self).reg();
        let ghost rset = names_set(running@);
        let ghost nameseq = reg_name_seq(old(self).registry@);
        let ghost pred = gains_this_tick(u0, reg_names(regseq), rset);
        let ghost n0 = old(self).usage@.len() as int;
        let mut accrued: Vec<String> = Vec::new();
        let n = self.registry.len();
        let mut i: usize = 0;
        while i < n
            invariant
                0 <= i <= n,
                n == self.registry@.len(),
                self.wf(),
                old(self).wf(),
                self.registry@ == old(self).registry@,
                self.next_id == old(self).next_id,
                n0 == old(self).usage@.len() as int,
                n0 <= self.usage@.len(),
                forall|k: int|
                    #![trigger self.usage@[k]]
                    0 <= k < n0 ==> self.usage@[k].name@ == old(self).usage@[k].name@,
                u0 == old(self).usage_map(),
                regseq == old(self).reg(),
                rset == names_set(running@),
                nameseq == reg_name_seq(old(self).registry@),
                pred == gains_this_tick(u0, reg_names(regseq), rset),
                umap(self.usage@) == tick_model(u0, reg_names(regseq.take(i as int)), rset),
                accrued@ == nameseq.take(i as int).filter(pred),
                forall|k: int|
                    #![trigger old(self).usage@[k]]
                    0 <= k < n0 ==> (accrues(u0, reg_names(regseq), rset, old(self).usage@[k].name@)
                        ==> old(self).usage@[k].total_seconds < i64::MAX),
            decreases n - i,
        {
            let ghost pfx = reg_names(regseq.take(i as int));
            let nm = self.registry[i].name.clone();
            let ghost nv = nm@;
            proof {
                assert(regseq[i as int].name == nv);
                assert(regseq.take(i + 1) =~= regseq.take(i as int).push(regseq[i as int]));
                assert forall|x: Seq<char>|
                    reg_has(regseq.take(i + 1), x) == (pfx.contains(x) || x == nv) by {
                    if reg_has(regseq.take(i + 1), x) {
                        let k = choose|k: int|
                            #![trigger regseq.take(i + 1)[k]]
                            0 <= k < regseq.take(i + 1).len() && regseq.take(i + 1)[k].name == x;
                        if k < i {
                            assert(regseq.take(i as int)[k].name == x);
                            assert(reg_has(regseq.take(i as int), x));
                        } else {
                            assert(x == nv);
                        }
                    }
                    if pfx.contains(x) {
                        let k = choose|k: int|
                            0 <= k < regseq.take(i as int).len() && regseq.take(i as int)[k].name
                                == x;
                        assert(regseq.take(i + 1)[k].name == x);
                    }
                    if x == nv {
                        assert(regseq.take(i + 1)[i as int].name == x);
                    }
                }
                assert(reg_names(regseq.take(i + 1)) =~= pfx.insert(nv));
                assert(!pfx.contains(nv)) by {
                    if reg_has(regseq.take(i as int), nv) {
                        let k = choose|k: int|
                            0 <= k < regseq.take(i as int).len() && regseq.take(i as int)[k].name
                                == nv;
                        assert(regseq[k].name == regseq[i as int].name);
                    }
                }
                assert(reg_names(regseq).contains(nv)) by {
                    assert(regseq[i as int].name == nv);
                }
                assert(nameseq.take(i + 1) =~= nameseq.take(i as int).push(nameseq[i as int]));
                lemma_filter_push(nameseq.take(i as int), nameseq[i as int], pred);
                assert(nameseq[i as int] == old(self).registry@[i as int].name);
                assert(nameseq[i as int]@ == nv);
            }
            let is_running = contains_name(running, &nm);
            if is_running {
                let found = self.find_usage(&nm);
                match found {
                    Some(j) => {
                        proof {
                            assert(self.usage@[j as int].name@ == nv);
                            // The row must be one that was already there at the
                            // start of the tick: a row pushed by this loop has a
                            // name from the prefix, and `nv` is not in the prefix.
                            if j >= n0 {
                                assert(uhas(self.usage@, nv));
                                assert(umap(self.usage@).dom().contains(nv));
                                assert(u0.dom().contains(nv) || accrues(
                                    u0,
                                    pfx,
                                    rset,
                                    nv,
                                ));
                                assert(u0.dom().contains(nv));
                                assert(uhas(old(self).usage@, nv));
                                let k = choose|k: int|
                                    0 <= k < old(self).usage@.len() && old(self).usage@[k].name@
                                        == nv;
                                assert(self.usage@[k].name@ == nv);
                                assert(false);
                            }
                            lemma_umap_at(self.usage@, j as int);
                            assert(!accrues(u0, pfx, rset, nv));
                            assert(umap(self.usage@)[nv] == u0[nv]);
                            assert(u0.dom().contains(nv));
                            lemma_umap_at(old(self).usage@, j as int);
                            assert(u0[nv] == old(self).usage@[j as int]@);
                        }
                        let is_paused = self.usage[j].paused;
                        if !is_paused {
                            let t = self.usage[j].total_seconds;
                            proof {
                                assert(self.usage@[j as int]@ == u0[nv]);
                                assert(!paused_of(u0, nv));
                                assert(accrues(u0, reg_names(regseq), rset, nv));
                                assert(old(self).usage@[j as int].total_seconds < i64::MAX);
                                assert(t < i64::MAX);
                            }
                            let rec = AppUsage { name: nm.clone(), total_seconds: t + 1, paused: false };
                            proof {
                                lemma_umap_update(self.usage@, j as int, rec);
                                assert(rec@ == UsageRec {
                                    total: total_of(u0, nv) + 1,
                                    paused: paused_of(u0, nv),
                                });
                            }
                            self.usage[j] = rec;
                            accrued.push(nm);
                            proof {
                                lemma_tick_step_accrue(u0, pfx, rset, nv);
                                assert(umap(self.usage@) == tick_model(
                                    u0,
                                    reg_names(regseq.take(i + 1)),
                                    rset,
                                ));
                                assert(pred(nameseq[i as int]));
                                assert(accrued@ == nameseq.take(i + 1).filter(pred));
                            }
                        } else {
                            proof {
                                assert(paused_of(u0, nv));
                                lemma_tick_step_skip(u0, pfx, rset, nv);
                                assert(!pred(nameseq[i as int]));
                                assert(accrued@ == nameseq.take(i + 1).filter(pred));
                            }
                        }
                    },
                    None => {
                        proof {
                            assert(!uhas(self.usage@, nv));
                            assert forall|k: int|
                                0 <= k < old(self).usage@.len() implies old(
                                self,
                            ).usage@[k].name@ != nv by {
                                assert(self.usage@[k].name@ == old(self).usage@[k].name@);
                            }
                            assert(!uhas(old(self).usage@, nv));
                            assert(!u0.dom().contains(nv));
                            assert(!paused_of(u0, nv));
                            assert(total_of(u0, nv) == 0);
                        }
                        let rec = AppUsage { name: nm.clone(), total_seconds: 1, paused: false };
                        proof {
                            lemma_umap_push(self.usage@, rec);
                        }
                        self.usage.push(rec);
                        accrued.push(nm);
                        proof {
                            lemma_tick_step_accrue(u0, pfx, rset, nv);
                            assert(umap(self.usage@) == tick_model(
                                u0,
                                reg_names(regseq.take(i + 1)),
                                rset,
                            ));
                            assert(pred(nameseq[i as int]));
                            assert(accrued@ == nameseq.take(i + 1).filter(pred));
                        }
                    },
                }
            } else {
                proof {
                    assert(!rset.contains(nv));
                    lemma_tick_step_skip(u0, pfx, rset, nv);
                    assert(!pred(nameseq[i as int]));
                    assert(accrued@ == nameseq.take(i + 1).filter(pred));
                }
            }
            i += 1;
        }
        proof {
            assert(regseq.take(n as int) =~= regseq);
            assert(nameseq.take(n as int) =~= nameseq);
        }
        accrued
    }

    /// All registry rows, in insertion order.
    pub fn get_tracked_apps(&self) -> (r: Vec<TrackedApps>)
        ensures
            r@ == self.registry@,
    {
        let mut r: Vec<TrackedApps> = Vec::new();
        let mut j: usize = 0;
        while j < self.registry.len()
            invariant
                0 <= j <= self.registry@.len(),
                r@ == self.registry@.take(j as int),
            decreases self.registry@.len() - j,
        {
            r.push(self.registry[j].clone());
            proof {
                assert(self.registry@.take(j + 1) =~= self.registry@.take(j as int).push(
                    self.registry@[j as int],
                ));
            }
            j += 1;
        }
        proof {
            assert(self.registry@.take(self.registry@.len() as int) =~= self.registry@);
        }
        r
    }

    /// All usage rows.
    pub fn get_app_usage(&self) -> (r: Vec<AppUsage>)
        ensures
            r@ == self.usage@,
    {
        let mut r: Vec<AppUsage> = Vec::new();
        let mut j: usize = 0;
        while j < self.usage.len()
            invariant
                0 <= j <= self.usage@.len(),
                r@ == self.usage@.take(j as int),
            decreases self.usage@.len() - j,
        {
            r.push(self.usage[j].clone());
            proof {
                assert(self.usage@.take(j + 1) =~= self.usage@.take(j as int).push(
                    self.usage@[j as int],
                ));
            }
            j += 1;
        }
        proof {
            assert(self.usage@.take(self.usage@.len() as int) =~= self.usage@);
        }
        r
    }

    /// The names of all tracked applications, in insertion order.
    pub fn get_tracked_app_names(&self) -> (r: Vec<String>)
        ensures
            r@ == self.registry@.map_values(|t: TrackedApps| t.name),
    {
        let mut r: Vec<String> = Vec::new();
        let mut j: usize = 0;
        while j < self.registry.len()
            invariant
                0 <= j <= self.registry@.len(),
                r@ == self.registry@.take(j as int).map_values(|t: TrackedApps| t.name),
            decreases self.registry@.len() - j,
        {
            r.push(self.registry[j].name.clone());
            proof {
                assert(self.registry@.take(j + 1) =~= self.registry@.take(j as int).push(
                    self.registry@[j as int],
                ));
                assert(self.registry@.take(j + 1).map_values(|t: TrackedApps| t.name)
                    =~= self.registry@.take(j as int).map_values(|t: TrackedApps| t.name).push(
                    self.registry@[j as int].name,
                ));
            }
            j += 1;
        }
        proof {
            assert(self.registry@.take(self.registry@.len() as int) =~= self.registry@);
        }
        r
    }

    /// The names of all currently paused applications.
    pub fn get_paused_appnames(&self) -> (r: Vec<String>)
        ensures
            r@ == self.usage@.filter(|u: AppUsage| u.paused).map_values(|u: AppUsage| u.name),
    {
        let mut r: Vec<String> = Vec::new();
        let mut j: usize = 0;
        while j < self.usage.len()
            invariant
                0 <= j <= self.usage@.len(),
                r@ == self.usage@.take(j as int).filter(|u: AppUsage| u.paused).map_values(
                    |u: AppUsage| u.name,
                ),
            decreases self.usage@.len() - j,
        {
            proof {
                assert(self.usage@.take(j + 1) =~= self.usage@.take(j as int).push(
                    self.usage@[j as int],
                ));
                lemma_filter_push(
                    self.usage@.take(j as int),
                    self.usage@[j as int],
                    |u: AppUsage| u.paused,
                );
                if self.usage@[j as int].paused {
                    assert(self.usage@.take(j + 1).filter(|u: AppUsage| u.paused).map_values(
                        |u: AppUsage| u.name,
                    ) =~= self.usage@.take(j as int).filter(|u: AppUsage| u.paused).map_values(
                        |u: AppUsage| u.name,
                    ).push(self.usage@[j as int].name));
                }
            }
            if self.usage[j].paused {
                r.push(self.usage[j].name.clone());
            }
            j += 1;
        }
        proof {
            assert(self.usage@.take(self.usage@.len() as int) =~= self.usage@);
        }
        r
    }

    /// Load one usage row as read from durable storage. Refused (and the
    /// store left unchanged) when the name is already present or the total
    /// is negative.
    pub fn insert_usage_row(&mut self, name: String, total_seconds: i64, paused: bool) -> (ok:
        bool)
        requires
            old(self).wf(),
        ensures
            final(self).wf(),
            ok == (!old(self).usage_map().dom().contains(name@) && total_seconds >= 0),
            final(self).usage_map() == if (!old(self).usage_map().dom().contains(name@)
                && total_seconds >= 0) {
                old(self).usage_map().insert(
                    name@,
                    (UsageRec { total: total_seconds as int, paused }),
                )
            } else {
                old(self).usage_map()
            },
            final(self).registry@ == old(self).registry@,
            final(self).next_id == old(self).next_id,
    {
        if total_seconds < 0 {
            return false;
        }
        match self.find_usage(&name) {
            Some(i) => {
                proof {
                    lemma_uidx_of(self.usage@, i as int);
                }
                false
            },
            None => {
                let rec = AppUsage { name, total_seconds, paused };
                proof {
                    lemma_umap_push(self.usage@, rec);
                }
                self.usage.push(rec);
                true
            },
        }
    }

    /// Load one registry row as read from durable storage. Rows must come in
    /// increasing id order with fresh names; anything else is refused and the
    /// store left unchanged.
    pub fn insert_tracked_row(&mut self, id: i64, name: String, icon: Option<String>) -> (ok:
        bool)
        requires
            old(self).wf(),
        ensures
            final(self).wf(),
            ok == (old(self).next_id <= id < i64::MAX && !reg_has(old(self).reg(), name@)),
            final(self).reg() == if (old(self).next_id <= id < i64::MAX && !reg_has(
                old(self).reg(),
                name@,
            )) {
                old(self).reg().push(
                    (RegRec { id: id as int, name: name@, icon: opt_view(icon) }),
                )
            } else {
                old(self).reg()
            },
            final(self).next_id == if (old(self).next_id <= id < i64::MAX && !reg_has(
                old(self).reg(),
                name@,
            )) {
                id + 1
            } else {
                old(self).next_id as int
            },
            final(self).usage@ == old(self).usage@,
    {
        if id < self.next_id || id == i64::MAX {
            return false;
        }
        let ghost reg0 = self.reg();
        match self.find_tracked(&name) {
            Some(_) => false,
            None => {
                let rec = TrackedApps { id, name, icon };
                self.registry.push(rec);
                self.next_id = id + 1;
                proof {
                    assert(self.reg() =~= reg0.push(
                        RegRec { id: id as int, name: rec.name@, icon: opt_view(rec.icon) },
                    ));
                    assert forall|a: int, b: int|
                        0 <= a < b < self.reg().len() implies self.reg()[a].name
                        != self.reg()[b].name by {
                        if b == self.reg().len() - 1 {
                            assert(self.reg()[a].name == reg0[a].name);
                            assert(!reg_has(reg0, rec.name@));
                        }
                    }
                }
                true
            },
        }
    }
}

/// Filtering distributes over appending one element.
pub proof fn lemma_filter_push<A>(s: Seq<A>, x: A, pred: spec_fn(A) -> bool)
    ensures
        s.push(x).filter(pred) == if pred(x) {
            s.filter(pred).push(x)
        } else {
            s.filter(pred)
        },
{
    reveal(Seq::filter);
    assert(s.push(x).drop_last() =~= s);
    assert(s.push(x).last() == x);
}

} // verus!
