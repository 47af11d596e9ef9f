//! Mathematical model of the usage store and the tracking registry.
//!
//! The usage store is modelled as a `Map` from application name to a
//! [`UsageRec`]; the registry as a `Seq` of [`RegRec`] in insertion order.
//! Every executable operation of the crate is specified as one of the
//! `*_model` functions below applied to the views of its arguments.

use vstd::prelude::*;

verus! {

/// One usage counter: the accumulated time units and whether accrual
/// for this application is currently paused.
pub struct UsageRec {
    pub total: int,
    pub paused: bool,
}

/// One registry row: a stable surrogate id, the unique application name,
/// and an optional display icon (already encoded as text).
pub struct RegRec {
    pub id: int,
    pub name: Seq<char>,
    pub icon: Option<Seq<char>>,
}

/// Whether the store holds a row for `n` that is paused.
/// A missing row counts as not paused.
pub open spec fn paused_of(u: Map<Seq<char>, UsageRec>, n: Seq<char>) -> bool {
    u.dom().contains(n) && u[n].paused
}

/// The accumulated total for `n`. A missing row counts as zero usage.
pub open spec fn total_of(u: Map<Seq<char>, UsageRec>, n: Seq<char>) -> int {
    if u.dom().contains(n) {
        u[n].total
    } else {
        0
    }
}

/// Whether one tick adds a time unit for `n`: the name is tracked,
/// currently running, and not paused.
pub open spec fn accrues(
    u: Map<Seq<char>, UsageRec>,
    reg: Set<Seq<char>>,
    running: Set<Seq<char>>,
    n: Seq<char>,
) -> bool {
    reg.contains(n) && running.contains(n) && !paused_of(u, n)
}

/// Upsert-with-increment for one name: create the row with one time unit
/// if absent, else add exactly one unit; the pause flag is left alone.
pub open spec fn accrue_model(u: Map<Seq<char>, UsageRec>, n: Seq<char>) -> Map<
    Seq<char>,
    UsageRec,
> {
    u.insert(n, UsageRec { total: total_of(u, n) + 1, paused: paused_of(u, n) })
}

/// One tick of the accrual engine: every name that is tracked, running and
/// unpaused gains exactly one time unit; every other row is untouched.
pub open spec fn tick_model(
    u: Map<Seq<char>, UsageRec>,
    reg: Set<Seq<char>>,
    running: Set<Seq<char>>,
) -> Map<Seq<char>, UsageRec> {
    Map::new(
        |n: Seq<char>| u.dom().contains(n) || accrues(u, reg, running, n),
        |n: Seq<char>|
            if accrues(u, reg, running, n) {
                UsageRec { total: total_of(u, n) + 1, paused: paused_of(u, n) }
            } else {
                u[n]
            },
    )
}

/// The pause toggle: flip the flag, creating a zero-total row if absent;
/// the total is never changed.
pub open spec fn toggle_model(u: Map<Seq<char>, UsageRec>, n: Seq<char>) -> Map<
    Seq<char>,
    UsageRec,
> {
    u.insert(n, UsageRec { total: total_of(u, n), paused: !paused_of(u, n) })
}

/// The administrative overwrite of a total: set it, creating an unpaused
/// row if absent; the pause flag is left alone.
pub open spec fn set_total_model(u: Map<Seq<char>, UsageRec>, n: Seq<char>, t: int) -> Map<
    Seq<char>,
    UsageRec,
> {
    u.insert(n, UsageRec { total: t, paused: paused_of(u, n) })
}

/// Explicit deletion of a usage row.
pub open spec fn remove_usage_model(u: Map<Seq<char>, UsageRec>, n: Seq<char>) -> Map<
    Seq<char>,
    UsageRec,
> {
    u.remove(n)
}

/// Registry rows have pairwise distinct names.
pub open spec fn reg_unique(reg: Seq<RegRec>) -> bool {
    forall|i: int, j: int| 0 <= i < j < reg.len() ==> reg[i].name != reg[j].name
}

/// Whether the registry holds a row named `n`.
pub open spec fn reg_has(reg: Seq<RegRec>, n: Seq<char>) -> bool {
    exists|i: int| 0 <= i < reg.len() && reg[i].name == n
}

/// The index of the row named `n` (meaningful only when `reg_has` holds
/// and the names are unique).
pub open spec fn reg_idx(reg: Seq<RegRec>, n: Seq<char>) -> int {
    choose|i: int| 0 <= i < reg.len() && reg[i].name == n
}

/// The set of tracked names.
pub open spec fn reg_names(reg: Seq<RegRec>) -> Set<Seq<char>> {
    Set::new(|n: Seq<char>| reg_has(reg, n))
}

/// Adding an application: idempotent on the name. A second add with the
/// same name updates the icon of the existing row and keeps its id; a
/// fresh name gets a new row at the end, carrying the next free id.
pub open spec fn add_model(
    reg: Seq<RegRec>,
    next_id: int,
    n: Seq<char>,
    icon: Option<Seq<char>>,
) -> Seq<RegRec> {
    if reg_has(reg, n) {
        reg.update(reg_idx(reg, n), RegRec { id: reg[reg_idx(reg, n)].id, name: n, icon })
    } else {
        reg.push(RegRec { id: next_id, name: n, icon })
    }
}

/// Removing an application from the registry. The usage row is a separate
/// concern: see `remove_usage_model`.
pub open spec fn remove_reg_model(reg: Seq<RegRec>, n: Seq<char>) -> Seq<RegRec> {
    if reg_has(reg, n) {
        reg.remove(reg_idx(reg, n))
    } else {
        reg
    }
}

pub proof fn lemma_reg_idx_of(reg: Seq<RegRec>, i: int)
    requires
        reg_unique(reg),
        0 <= i < reg.len(),
    ensures
        reg_has(reg, reg[i].name),
        reg_idx(reg, reg[i].name) == i,
{
    assert(reg_has(reg, reg[i].name));
    let j = reg_idx(reg, reg[i].name);
    assert(0 <= j < reg.len() && reg[j].name == reg[i].name);
}

/// Working through the tracked names one at a time builds the tick up:
/// handling one more name `n` that does accrue is exactly the single-name
/// upsert applied to the tick over the names handled before.
pub proof fn lemma_tick_step_accrue(
    u: Map<Seq<char>, UsageRec>,
    p: Set<Seq<char>>,
    r: Set<Seq<char>>,
    n: Seq<char>,
)
    requires
        !p.contains(n),
        r.contains(n),
        !paused_of(u, n),
    ensures
        tick_model(u, p.insert(n), r) == accrue_model(tick_model(u, p, r), n),
{
    let m0 = tick_model(u, p, r);
    let m1 = tick_model(u, p.insert(n), r);
    let m2 = accrue_model(m0, n);
    assert(!accrues(u, p, r, n));
    assert(m0.dom().contains(n) == u.dom().contains(n));
    assert(total_of(m0, n) == total_of(u, n));
    assert(paused_of(m0, n) == paused_of(u, n));
    assert forall|x: Seq<char>| x != n implies accrues(u, p.insert(n), r, x) == accrues(
        u,
        p,
        r,
        x,
    ) by {}
    assert(accrues(u, p.insert(n), r, n));
    assert forall|x: Seq<char>| m1.dom().contains(x) == m2.dom().contains(x) by {}
    assert forall|x: Seq<char>| m1.dom().contains(x) implies m1[x] == m2[x] by {
        if x == n {
            assert(m1[n] == UsageRec { total: total_of(u, n) + 1, paused: paused_of(u, n) });
            assert(m2[n] == UsageRec { total: total_of(m0, n) + 1, paused: paused_of(m0, n) });
        }
    }
    assert(m1 =~= m2);
}

/// Handling one more name that does not accrue (not running, or paused)
/// leaves the tick as it was.
pub proof fn lemma_tick_step_skip(
    u: Map<Seq<char>, UsageRec>,
    p: Set<Seq<char>>,
    r: Set<Seq<char>>,
    n: Seq<char>,
)
    requires
        !(r.contains(n) && !paused_of(u, n)),
    ensures
        tick_model(u, p.insert(n), r) == tick_model(u, p, r),
{
    let m0 = tick_model(u, p, r);
    let m1 = tick_model(u, p.insert(n), r);
    assert forall|x: Seq<char>| accrues(u, p.insert(n), r, x) == accrues(u, p, r, x) by {}
    assert(m1 =~= m0);
}

/// A whole run of the scheduler: one tick per element of `runs`, each
/// against the snapshot of running names taken for that tick.
pub open spec fn run_ticks(
    u: Map<Seq<char>, UsageRec>,
    reg: Set<Seq<char>>,
    runs: Seq<Set<Seq<char>>>,
) -> Map<Seq<char>, UsageRec>
    decreases runs.len(),
{
    if runs.len() == 0 {
        u
    } else {
        run_ticks(tick_model(u, reg, runs[0]), reg, runs.subrange(1, runs.len() as int))
    }
}

} // verus!
