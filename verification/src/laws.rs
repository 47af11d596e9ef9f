//! The guarantees the engine gives, proved once and for all over the
//! mathematical model. Each law is stated over the same model functions
//! that the executable operations are specified with, so it carries over
//! to any sequence of calls on a well-formed store.

use crate::model::{
    accrues, add_model, lemma_reg_idx_of, paused_of, reg_has, reg_idx, reg_unique, run_ticks,
    tick_model, toggle_model, total_of, RegRec, UsageRec,
};
use vstd::prelude::*;

verus! {

/// While an application is tracked, never paused, and running at every
/// tick, a run of N ticks adds exactly N time units to its total — no
/// tick is lost and none is counted twice. The run also leaves it unpaused.
pub proof fn lemma_accrual_counts_every_tick(
    u: Map<Seq<char>, UsageRec>,
    reg: Set<Seq<char>>,
    runs: Seq<Set<Seq<char>>>,
    a: Seq<char>,
)
    requires
        reg.contains(a),
        !paused_of(u, a),
        forall|k: int| 0 <= k < runs.len() ==> #[trigger] runs[k].contains(a),
    ensures
        total_of(run_ticks(u, reg, runs), a) == total_of(u, a) + runs.len(),
        !paused_of(run_ticks(u, reg, runs), a),
    decreases runs.len(),
{
    if runs.len() == 0 {
    } else {
        let u1 = tick_model(u, reg, runs[0]);
        assert(accrues(u, reg, runs[0], a));
        assert(u1[a] == UsageRec { total: total_of(u, a) + 1, paused: paused_of(u, a) });
        assert(total_of(u1, a) == total_of(u, a) + 1);
        assert(!paused_of(u1, a));
        let rest = runs.subrange(1, runs.len() as int);
        assert forall|k: int| 0 <= k < rest.len() implies #[trigger] rest[k].contains(a) by {
            assert(rest[k] == runs[k + 1]);
        }
        lemma_accrual_counts_every_tick(u1, reg, rest, a);
    }
}

/// The data-model invariant of one tick, for every name at once: the total
/// grows by exactly one unit when the name is tracked, running and unpaused,
/// and is untouched otherwise — so a counter never decreases — and no tick
/// ever changes a pause flag.
pub proof fn lemma_tick_exact(
    u: Map<Seq<char>, UsageRec>,
    reg: Set<Seq<char>>,
    running: Set<Seq<char>>,
    n: Seq<char>,
)
    ensures
        total_of(tick_model(u, reg, running), n) == total_of(u, n) + (if accrues(
            u,
            reg,
            running,
            n,
        ) {
            1int
        } else {
            0int
        }),
        paused_of(tick_model(u, reg, running), n) == paused_of(u, n),
{
}

/// A paused application never accrues: one tick leaves its whole row —
/// total and flag — exactly as it was, whatever is tracked or running.
pub proof fn lemma_paused_tick_unchanged(
    u: Map<Seq<char>, UsageRec>,
    reg: Set<Seq<char>>,
    running: Set<Seq<char>>,
    a: Seq<char>,
)
    requires
        paused_of(u, a),
    ensures
        tick_model(u, reg, running)[a] == u[a],
        total_of(tick_model(u, reg, running), a) == total_of(u, a),
        paused_of(tick_model(u, reg, running), a),
{
    assert(!accrues(u, reg, running, a));
}

/// ... and so a whole run of ticks, each with arbitrary tracked and
/// running sets, leaves a paused application's total untouched.
pub proof fn lemma_paused_total_constant(
    u: Map<Seq<char>, UsageRec>,
    reg: Set<Seq<char>>,
    runs: Seq<Set<Seq<char>>>,
    a: Seq<char>,
)
    requires
        paused_of(u, a),
    ensures
        total_of(run_ticks(u, reg, runs), a) == total_of(u, a),
        paused_of(run_ticks(u, reg, runs), a),
    decreases runs.len(),
{
    if runs.len() == 0 {
    } else {
        let u1 = tick_model(u, reg, runs[0]);
        lemma_paused_tick_unchanged(u, reg, runs[0], a);
        lemma_paused_total_constant(u1, reg, runs.subrange(1, runs.len() as int), a);
    }
}

/// The pause flag gates accrual exactly: for a tracked application that is
/// running throughout, a tick before the flag is flipped on accrues one
/// unit, ticks while it is on accrue nothing, and once it is flipped back
/// off accrual resumes — with the total carried through unchanged in between.
pub proof fn lemma_pause_gates_accrual(
    u: Map<Seq<char>, UsageRec>,
    reg: Set<Seq<char>>,
    r1: Set<Seq<char>>,
    r2: Set<Seq<char>>,
    r3: Set<Seq<char>>,
    a: Seq<char>,
)
    requires
        reg.contains(a),
        !paused_of(u, a),
        r1.contains(a),
        r2.contains(a),
        r3.contains(a),
    ensures
        ({
            let u1 = tick_model(u, reg, r1);  // running and unpaused: accrues
            let u2 = toggle_model(u1, a);  // flipped on strictly between ticks
            let u3 = tick_model(u2, reg, r2);  // running but paused: no accrual
            let u4 = toggle_model(u3, a);  // flipped back off
            let u5 = tick_model(u4, reg, r3);  // accrual resumes
            &&& total_of(u1, a) == total_of(u, a) + 1
            &&& total_of(u2, a) == total_of(u1, a) && paused_of(u2, a)
            &&& total_of(u3, a) == total_of(u2, a)
            &&& total_of(u4, a) == total_of(u3, a) && !paused_of(u4, a)
            &&& total_of(u5, a) == total_of(u4, a) + 1
        }),
{
    let u1 = tick_model(u, reg, r1);
    assert(accrues(u, reg, r1, a));
    assert(u1[a] == UsageRec { total: total_of(u, a) + 1, paused: paused_of(u, a) });
    let u2 = toggle_model(u1, a);
    let u3 = tick_model(u2, reg, r2);
    lemma_paused_tick_unchanged(u2, reg, r2, a);
    let u4 = toggle_model(u3, a);
    let u5 = tick_model(u4, reg, r3);
    assert(accrues(u4, reg, r3, a));
    assert(u5[a] == UsageRec { total: total_of(u4, a) + 1, paused: paused_of(u4, a) });
}

/// Adding a name is idempotent on the registry: a second add never creates
/// a second row — whatever id it would hand out — and only rewrites the
/// icon, as if the first add had been made with the later icon.
pub proof fn lemma_add_idempotent(
    reg: Seq<RegRec>,
    id1: int,
    id2: int,
    n: Seq<char>,
    icon1: Option<Seq<char>>,
    icon2: Option<Seq<char>>,
)
    requires
        reg_unique(reg),
    ensures
        add_model(add_model(reg, id1, n, icon1), id2, n, icon2) == add_model(reg, id1, n, icon2),
        add_model(add_model(reg, id1, n, icon1), id2, n, icon2).len() == add_model(
            reg,
            id1,
            n,
            icon1,
        ).len(),
{
    let r1 = add_model(reg, id1, n, icon1);
    if reg_has(reg, n) {
        let i = reg_idx(reg, n);
        assert(0 <= i < reg.len() && reg[i].name == n);
        assert(r1 == reg.update(i, RegRec { id: reg[i].id, name: n, icon: icon1 }));
        assert forall|a: int, b: int| 0 <= a < b < r1.len() implies r1[a].name != r1[b].name by {}
        lemma_reg_idx_of(r1, i);
        assert(add_model(r1, id2, n, icon2) =~= add_model(reg, id1, n, icon2));
    } else {
        assert(r1 == reg.push(RegRec { id: id1, name: n, icon: icon1 }));
        assert forall|a: int, b: int| 0 <= a < b < r1.len() implies r1[a].name != r1[b].name by {
            if b == r1.len() - 1 {
                assert(r1[a].name == reg[a].name);
                assert(!reg_has(reg, n));
            }
        }
        let i = reg.len() as int;
        assert(r1[i].name == n);
        lemma_reg_idx_of(r1, i);
        assert(add_model(r1, id2, n, icon2) =~= add_model(reg, id1, n, icon2));
    }
}

/// Toggling the pause flag of any name twice restores the pause state of
/// every name, and never changes any total — of the toggled name or of
/// any other.
pub proof fn lemma_toggle_round_trip(u: Map<Seq<char>, UsageRec>, a: Seq<char>)
    ensures
        forall|m: Seq<char>|
            total_of(#[trigger] toggle_model(toggle_model(u, a), a), m) == total_of(u, m),
        forall|m: Seq<char>|
            paused_of(#[trigger] toggle_model(toggle_model(u, a), a), m) == paused_of(u, m),
{
    let t1 = toggle_model(u, a);
    let t2 = toggle_model(t1, a);
    assert(total_of(t1, a) == total_of(u, a));
    assert(paused_of(t1, a) == !paused_of(u, a));
    assert forall|m: Seq<char>| total_of(t2, m) == total_of(u, m) by {
        if m != a {
            assert(t2.dom().contains(m) == u.dom().contains(m));
            if u.dom().contains(m) {
                assert(t2[m] == u[m]);
            }
        }
    }
    assert forall|m: Seq<char>| paused_of(t2, m) == paused_of(u, m) by {
        if m != a {
            assert(t2.dom().contains(m) == u.dom().contains(m));
            if u.dom().contains(m) {
                assert(t2[m] == u[m]);
            }
        }
    }
}

} // verus!
