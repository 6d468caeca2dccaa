use vstd::prelude::*;

use crate::event::TimedEvent;
use crate::scheduler::{deadline_after, handed_back, registered};
use crate::trace::{
    clock, clock_from, fires, is_empty, is_run, monotone, step, step_at, untouched_from, valid, Op,
    Snapshot,
};

verus! {

/// From the call after registering `e` at `t0` on, as long as nothing
/// registers `e.umsg` anew or changes it, its registration keeps `e`'s
/// period and payload and is due no earlier than one period after `t0`,
/// provided the clock never reads earlier than `t0`.
proof fn lemma_registration_kept<P>(
    states: Seq<Snapshot<P>>,
    ops: Seq<Op<P>>,
    i: int,
    e: TimedEvent<P>,
    t0: u64,
    k: int,
)
    requires
        is_run(states, ops),
        0 <= i < ops.len(),
        ops[i] == Op::Add(e, t0),
        untouched_from(ops, i + 1, e.umsg),
        i < k <= ops.len(),
    ensures
        states[k].reg.contains_key(e.umsg) ==> states[k].reg[e.umsg].time == e.time
            && states[k].reg[e.umsg].pmsg == e.pmsg,
        clock_from(ops, i + 1, t0) && states[k].reg.contains_key(e.umsg) ==> states[k].reg[e.umsg].deadline
            >= deadline_after(t0, e.time),
    decreases k,
{
    let u = e.umsg;
    if k == i + 1 {
        assert(step_at(states, ops, i));
    } else {
        lemma_registration_kept(states, ops, i, e, t0, k - 1);
        assert(step_at(states, ops, k - 1));
        assert(valid(states[k - 1]));
        assert(!crate::trace::touches(ops[k - 1], u));
        let s = states[k - 1];
        let t = states[k];
        match ops[k - 1] {
            Op::Add(e2, now) => {
                assert(t.reg.contains_key(u) ==> s.reg.contains_key(u) && t.reg[u] == s.reg[u]);
            },
            Op::Poll(now, r) => {
                if clock_from(ops, i + 1, t0) {
                    assert(clock(ops[k - 1]) is Some);
                }
                if s.firing is Some && s.firing->0.umsg != u {
                    assert(t.reg.contains_key(u) ==> s.reg.contains_key(u) && t.reg[u]
                        == s.reg[u]);
                }
            },
            Op::Reschedule(now) => {
                if clock_from(ops, i + 1, t0) {
                    assert(clock(ops[k - 1]) is Some);
                }
                if s.firing is Some && s.firing->0.umsg != u {
                    assert(t.reg.contains_key(u) ==> s.reg.contains_key(u) && t.reg[u]
                        == s.reg[u]);
                }
            },
            Op::Update(id, time, pmsg) => {
                assert(t.reg.contains_key(u) ==> s.reg.contains_key(u) && t.reg[u] == s.reg[u]);
            },
            Op::Release(id) => {},
        }
    }
}

/// A registration governs every firing of its id until the id is registered
/// anew or changed: each event fired under it carries the registered period
/// and payload, and none fires before one period after the registration,
/// as long as the clock does not read earlier than the registration.
pub proof fn law_registration_governs_firings<P>(
    states: Seq<Snapshot<P>>,
    ops: Seq<Op<P>>,
    i: int,
    e: TimedEvent<P>,
    t0: u64,
    j: int,
    now: u64,
    ev: TimedEvent<P>,
)
    requires
        is_run(states, ops),
        0 <= i < j < ops.len(),
        ops[i] == Op::Add(e, t0),
        untouched_from(ops, i + 1, e.umsg),
        ops[j] == Op::Poll(now, Some(ev)),
        ev.umsg == e.umsg,
    ensures
        ev.time == e.time,
        ev.pmsg == e.pmsg,
        ev.deadline <= now,
        clock_from(ops, i + 1, t0) ==> deadline_after(t0, e.time) <= ev.deadline,
{
    assert(step_at(states, ops, j));
    lemma_registration_kept(states, ops, i, e, t0, j + 1);
}

/// After a one-shot registration of `u` has fired at call `j1`, and while
/// nothing registers `u` anew or changes it, `u` is registered only while
/// that firing is still out.
proof fn lemma_one_shot_gone<P>(
    states: Seq<Snapshot<P>>,
    ops: Seq<Op<P>>,
    i: int,
    e: TimedEvent<P>,
    t0: u64,
    j1: int,
    k: int,
)
    requires
        is_run(states, ops),
        0 <= i < j1 < ops.len(),
        ops[i] == Op::Add(e, t0),
        e.time == 0,
        untouched_from(ops, i + 1, e.umsg),
        fires(ops[j1], e.umsg),
        j1 < k <= ops.len(),
    ensures
        states[k].reg.contains_key(e.umsg) ==> states[k].firing == Some(
            states[k].reg[e.umsg],
        ),
    decreases k,
{
    let u = e.umsg;
    if k == j1 + 1 {
        assert(step_at(states, ops, j1));
    } else {
        lemma_one_shot_gone(states, ops, i, e, t0, j1, k - 1);
        lemma_registration_kept(states, ops, i, e, t0, k - 1);
        assert(step_at(states, ops, k - 1));
        assert(valid(states[k - 1]));
        assert(valid(states[k]));
        assert(!crate::trace::touches(ops[k - 1], u));
        let s = states[k - 1];
        let t = states[k];
        match ops[k - 1] {
            Op::Add(e2, now) => {
                assert(t.reg.contains_key(u) ==> s.reg.contains_key(u) && t.reg[u] == s.reg[u]);
            },
            Op::Poll(now, r) => {
                if s.firing is Some && s.firing->0.umsg == u {
                    assert(!t.reg.contains_key(u));
                } else {
                    assert(t.reg.contains_key(u) ==> s.reg.contains_key(u));
                }
            },
            Op::Reschedule(now) => {
                if s.firing is Some && s.firing->0.umsg == u {
                    assert(!t.reg.contains_key(u));
                } else {
                    assert(t.reg.contains_key(u) ==> s.reg.contains_key(u));
                }
            },
            Op::Update(id, time, pmsg) => {
                assert(t.reg.contains_key(u) ==> s.reg.contains_key(u) && t.reg[u] == s.reg[u]);
            },
            Op::Release(id) => {},
        }
    }
}

/// A one-shot event fires at most once: once its registration has fired,
/// no later poll hands out an event under its id until the id is
/// registered anew or changed.
pub proof fn law_one_shot_fires_at_most_once<P>(
    states: Seq<Snapshot<P>>,
    ops: Seq<Op<P>>,
    i: int,
    e: TimedEvent<P>,
    t0: u64,
    j1: int,
    j2: int,
)
    requires
        is_run(states, ops),
        0 <= i < j1 < j2 < ops.len(),
        ops[i] == Op::Add(e, t0),
        e.time == 0,
        untouched_from(ops, i + 1, e.umsg),
        fires(ops[j1], e.umsg),
    ensures
        !fires(ops[j2], e.umsg),
{
    let u = e.umsg;
    lemma_one_shot_gone(states, ops, i, e, t0, j1, j2);
    lemma_registration_kept(states, ops, i, e, t0, j2);
    assert(step_at(states, ops, j2));
    assert(valid(states[j2]));
    let s = states[j2];
    let t = states[j2 + 1];
    if fires(ops[j2], u) {
        assert(t.reg.contains_key(u));
        if s.firing is Some && s.firing->0.umsg == u {
            assert(!t.reg.contains_key(u));
        } else {
            assert(s.reg.contains_key(u));
        }
    }
}

/// After a periodic registration of `u` with period `p` has fired at call
/// `j1`, given clock reading `n1`, and while nothing registers `u` anew or
/// changes it, `u` is either out firing or due no earlier than `p` after
/// `n1`, as long as the clock never runs backwards.
proof fn lemma_period_kept<P>(
    states: Seq<Snapshot<P>>,
    ops: Seq<Op<P>>,
    i: int,
    e: TimedEvent<P>,
    t0: u64,
    j1: int,
    n1: u64,
    ev1: TimedEvent<P>,
    k: int,
)
    requires
        is_run(states, ops),
        monotone(ops),
        0 <= i < j1 < ops.len(),
        ops[i] == Op::Add(e, t0),
        e.time != 0,
        untouched_from(ops, i + 1, e.umsg),
        ops[j1] == Op::Poll(n1, Some(ev1)),
        ev1.umsg == e.umsg,
        j1 < k <= ops.len(),
    ensures
        states[k].reg.contains_key(e.umsg) ==> states[k].firing == Some(states[k].reg[e.umsg])
            || deadline_after(n1, e.time) <= states[k].reg[e.umsg].deadline,
    decreases k,
{
    let u = e.umsg;
    if k == j1 + 1 {
        assert(step_at(states, ops, j1));
    } else {
        lemma_period_kept(states, ops, i, e, t0, j1, n1, ev1, k - 1);
        lemma_registration_kept(states, ops, i, e, t0, k - 1);
        assert(step_at(states, ops, k - 1));
        assert(valid(states[k - 1]));
        assert(!crate::trace::touches(ops[k - 1], u));
        assert(clock(ops[j1]) is Some);
        let s = states[k - 1];
        let t = states[k];
        match ops[k - 1] {
            Op::Add(e2, now) => {
                assert(t.reg.contains_key(u) ==> s.reg.contains_key(u) && t.reg[u] == s.reg[u]);
            },
            Op::Poll(now, r) => {
                assert(clock(ops[k - 1]) is Some);
                assert(n1 <= now);
                if !(s.firing is Some && s.firing->0.umsg == u) {
                    assert(t.reg.contains_key(u) ==> s.reg.contains_key(u) && t.reg[u]
                        == s.reg[u]);
                }
            },
            Op::Reschedule(now) => {
                assert(clock(ops[k - 1]) is Some);
                assert(n1 <= now);
                if !(s.firing is Some && s.firing->0.umsg == u) {
                    assert(t.reg.contains_key(u) ==> s.reg.contains_key(u) && t.reg[u]
                        == s.reg[u]);
                }
            },
            Op::Update(id, time, pmsg) => {
                assert(t.reg.contains_key(u) ==> s.reg.contains_key(u) && t.reg[u] == s.reg[u]);
            },
            Op::Release(id) => {},
        }
    }
}

/// Firings of a periodic event are at least a period apart: two successive
/// polls that hand out its id, while nothing registers the id anew or
/// changes it, are given clock readings at least one period apart, as long
/// as the clock never runs backwards. So the k-th firing after a
/// registration comes no earlier than k periods after it.
pub proof fn law_periodic_firings_are_spaced<P>(
    states: Seq<Snapshot<P>>,
    ops: Seq<Op<P>>,
    i: int,
    e: TimedEvent<P>,
    t0: u64,
    j1: int,
    n1: u64,
    ev1: TimedEvent<P>,
    j2: int,
    n2: u64,
    ev2: TimedEvent<P>,
)
    requires
        is_run(states, ops),
        monotone(ops),
        0 <= i < j1 < j2 < ops.len(),
        ops[i] == Op::Add(e, t0),
        e.time != 0,
        untouched_from(ops, i + 1, e.umsg),
        ops[j1] == Op::Poll(n1, Some(ev1)),
        ev1.umsg == e.umsg,
        ops[j2] == Op::Poll(n2, Some(ev2)),
        ev2.umsg == e.umsg,
    ensures
        deadline_after(n1, e.time) <= n2,
{
    let u = e.umsg;
    lemma_period_kept(states, ops, i, e, t0, j1, n1, ev1, j2);
    lemma_registration_kept(states, ops, i, e, t0, j2);
    assert(step_at(states, ops, j2));
    assert(valid(states[j2]));
    let s = states[j2];
    let t = states[j2 + 1];
    assert(t.reg.contains_key(u) && t.reg[u] == ev2);
    if !(s.firing is Some && s.firing->0.umsg == u) {
        assert(s.reg.contains_key(u) && t.reg[u] == s.reg[u]);
    }
}

/// A scheduler that starts empty and is never given an event fires
/// nothing: every state of the run is empty and every poll returns `None`.
pub proof fn law_nothing_fires_without_registration<P>(
    states: Seq<Snapshot<P>>,
    ops: Seq<Op<P>>,
    j: int,
)
    requires
        is_run(states, ops),
        is_empty(states[0]),
        forall|k: int| 0 <= k < ops.len() ==> !(#[trigger] ops[k] is Add),
        0 <= j < ops.len(),
    ensures
        is_empty(states[j + 1]),
        ops[j] matches Op::Poll(_, r) ==> r is None,
{
    lemma_stays_empty(states, ops, j + 1);
    assert(step_at(states, ops, j));
}

proof fn lemma_stays_empty<P>(states: Seq<Snapshot<P>>, ops: Seq<Op<P>>, k: int)
    requires
        is_run(states, ops),
        is_empty(states[0]),
        forall|k: int| 0 <= k < ops.len() ==> !(#[trigger] ops[k] is Add),
        0 <= k <= ops.len(),
    ensures
        is_empty(states[k]),
    decreases k,
{
    if k > 0 {
        lemma_stays_empty(states, ops, k - 1);
        assert(step_at(states, ops, k - 1));
        assert(!(ops[k - 1] is Add));
        let t = states[k];
        assert(t.reg =~= Map::<u32, TimedEvent<P>>::empty());
        assert(t.held =~= Map::<u32, TimedEvent<P>>::empty());
    }
}

} // verus!
