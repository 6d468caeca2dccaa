use vstd::prelude::*;

use crate::event::TimedEvent;
use crate::scheduler::{
    deadline_after, firing_after_register, firing_after_update, fires_next, handed_back,
    held_after_hand_back, is_due, registered, with_settings,
};

verus! {

/// What a scheduler shows at one moment: its registrations, the fired
/// one-shot events still held, and the event out firing.
pub struct Snapshot<P> {
    pub reg: Map<u32, TimedEvent<P>>,
    pub held: Map<u32, TimedEvent<P>>,
    pub firing: Option<TimedEvent<P>>,
}

/// One call on a scheduler, with the clock reading it was given and, for a
/// poll, what it returned.
pub enum Op<P> {
    Add(TimedEvent<P>, u64),
    Poll(u64, Option<TimedEvent<P>>),
    Reschedule(u64),
    Update(u32, u64, P),
    Release(u32),
}

/// Every event is registered under its own id, and the event out firing is
/// the registration of its id.
pub open spec fn valid<P>(s: Snapshot<P>) -> bool {
    &&& forall|k: u32| #[trigger] s.reg.contains_key(k) ==> s.reg[k].umsg == k
    &&& s.firing matches Some(f) ==> s.reg.contains_key(f.umsg) && s.reg[f.umsg] == f
}

/// `t` is what the call `op` leaves of `s`.
pub open spec fn step<P>(s: Snapshot<P>, op: Op<P>, t: Snapshot<P>) -> bool {
    match op {
        Op::Add(e, now) => {
            &&& t.reg == registered(s.reg, e, now)
            &&& t.held == s.held.remove(e.umsg)
            &&& t.firing == firing_after_register(s.firing, e.umsg)
        },
        Op::Poll(now, r) => {
            &&& t.reg == handed_back(s.reg, s.firing, now)
            &&& t.held == held_after_hand_back(s.held, s.firing)
            &&& t.firing == r
            &&& match r {
                None => !is_due(t.reg, now),
                Some(ev) => fires_next(t.reg, ev, now),
            }
        },
        Op::Reschedule(now) => {
            &&& t.reg == handed_back(s.reg, s.firing, now)
            &&& t.held == held_after_hand_back(s.held, s.firing)
            &&& t.firing is None
        },
        Op::Update(id, time, pmsg) => {
            &&& t.reg == (if s.reg.contains_key(id) {
                s.reg.insert(id, with_settings(s.reg[id], time, pmsg))
            } else {
                s.reg
            })
            &&& t.held == (if !s.reg.contains_key(id) && s.held.contains_key(id) {
                s.held.insert(id, with_settings(s.held[id], time, pmsg))
            } else {
                s.held
            })
            &&& t.firing == firing_after_update(s.firing, id, time, pmsg)
        },
        Op::Release(id) => {
            &&& t.reg == s.reg
            &&& t.held == s.held.remove(id)
            &&& t.firing == s.firing
        },
    }
}

/// Call `i` of the run takes state `i` to state `i + 1`.
pub open spec fn step_at<P>(states: Seq<Snapshot<P>>, ops: Seq<Op<P>>, i: int) -> bool {
    step(states[i], ops[i], states[i + 1])
}

/// `states` are the snapshots of a scheduler before and after each of the
/// calls `ops`, every one of them valid.
pub open spec fn is_run<P>(states: Seq<Snapshot<P>>, ops: Seq<Op<P>>) -> bool {
    &&& states.len() == ops.len() + 1
    &&& forall|i: int| 0 <= i < ops.len() ==> #[trigger] step_at(states, ops, i)
    &&& forall|i: int| 0 <= i < states.len() ==> #[trigger] valid(states[i])
}

/// The clock reading a call was given, if it takes one.
pub open spec fn clock<P>(op: Op<P>) -> Option<u64> {
    match op {
        Op::Add(_, now) => Some(now),
        Op::Poll(now, _) => Some(now),
        Op::Reschedule(now) => Some(now),
        _ => None,
    }
}

/// The clock readings of the calls from `from` on are all at least `t`.
pub open spec fn clock_from<P>(ops: Seq<Op<P>>, from: int, t: u64) -> bool {
    forall|j: int| from <= j < ops.len() && (#[trigger] clock(ops[j])) is Some ==> t <= clock(
        ops[j],
    )->0
}

/// The clock never runs backwards over the calls.
pub open spec fn monotone<P>(ops: Seq<Op<P>>) -> bool {
    forall|a: int, b: int|
        0 <= a < b < ops.len() && (#[trigger] clock(ops[a])) is Some && (#[trigger] clock(
            ops[b],
        )) is Some ==> clock(ops[a])->0 <= clock(ops[b])->0
}

/// The call registers `u` anew or changes it in place.
pub open spec fn touches<P>(op: Op<P>, u: u32) -> bool {
    match op {
        Op::Add(e, _) => e.umsg == u,
        Op::Update(id, _, _) => id == u,
        _ => false,
    }
}

/// No call from `from` on registers `u` anew or changes it in place.
pub open spec fn untouched_from<P>(ops: Seq<Op<P>>, from: int, u: u32) -> bool {
    forall|j: int| from <= j < ops.len() ==> !touches(#[trigger] ops[j], u)
}

/// The call is a poll that handed out an event with id `u`.
pub open spec fn fires<P>(op: Op<P>, u: u32) -> bool {
    op matches Op::Poll(_, Some(ev)) && ev.umsg == u
}

/// Nothing registered, held or out firing.
pub open spec fn is_empty<P>(s: Snapshot<P>) -> bool {
    &&& s.reg == Map::<u32, TimedEvent<P>>::empty()
    &&& s.held == Map::<u32, TimedEvent<P>>::empty()
    &&& s.firing is None
}

} // verus!
