use vstd::prelude::*;

use crate::event::TimedEvent;
use crate::trace::{step, valid, Op, Snapshot};
use crate::scheduler::{
    deadline_after, firing_after_register, fires_next, handed_back, held_after_hand_back, is_due,
    lookup, registered, requeued,
};

verus! {

/// The ids of the registered events due no later than `d`.
pub open spec fn due_by<P>(reg: Map<u32, TimedEvent<P>>, d: u64) -> Set<u32> {
    reg.dom().filter(|j: u32| reg[j].deadline <= d)
}

/// Looking an id up right after registering an event under it gives that
/// event, due one period after the registration; every other id keeps its
/// registration.
pub proof fn law_lookup_after_register<P>(reg: Map<u32, TimedEvent<P>>, e: TimedEvent<P>, now: u64)
    ensures
        registered(reg, e, now).contains_key(e.umsg),
        registered(reg, e, now)[e.umsg] == e.at_deadline(deadline_after(now, e.time)),
        now + e.time <= u64::MAX ==> registered(reg, e, now)[e.umsg].deadline == now + e.time,
        forall|k: u32|
            k != e.umsg ==> (#[trigger] registered(reg, e, now).contains_key(k) == reg.contains_key(k)
                && (reg.contains_key(k) ==> registered(reg, e, now)[k] == reg[k])),
{
}

/// Registering an event under an id that is already taken replaces the
/// earlier registration and leaves no trace of it; if the earlier one was
/// out firing, it does not come back.
pub proof fn law_register_replaces<P>(
    reg: Map<u32, TimedEvent<P>>,
    first: TimedEvent<P>,
    first_now: u64,
    second: TimedEvent<P>,
    second_now: u64,
)
    requires
        first.umsg == second.umsg,
    ensures
        registered(registered(reg, first, first_now), second, second_now) == registered(
            reg,
            second,
            second_now,
        ),
        firing_after_register(Some(first), second.umsg) is None,
{
    assert(registered(registered(reg, first, first_now), second, second_now) =~= registered(
        reg,
        second,
        second_now,
    ));
}

/// A superseded registration never fires: once an id has been registered
/// anew, the only event that can fire under it is the new one.
pub proof fn law_superseded_never_fires<P>(
    reg: Map<u32, TimedEvent<P>>,
    first: TimedEvent<P>,
    first_now: u64,
    second: TimedEvent<P>,
    second_now: u64,
    ev: TimedEvent<P>,
    now: u64,
)
    requires
        first.umsg == second.umsg,
        fires_next(registered(registered(reg, first, first_now), second, second_now), ev, now),
        ev.umsg == first.umsg,
    ensures
        ev == second.at_deadline(deadline_after(second_now, second.time)),
{
}

/// Registering is scheduling: a freshly registered event is due once its
/// period has elapsed, and registering it makes nothing due earlier.
pub proof fn law_registered_event_becomes_due<P>(
    reg: Map<u32, TimedEvent<P>>,
    e: TimedEvent<P>,
    now: u64,
    t: u64,
)
    ensures
        t >= deadline_after(now, e.time) ==> is_due(registered(reg, e, now), t),
        t < deadline_after(now, e.time) && !is_due(reg, t) ==> !is_due(registered(reg, e, now), t),
{
    let r = registered(reg, e, now);
    if t >= deadline_after(now, e.time) {
        assert(r.contains_key(e.umsg) && r[e.umsg].deadline <= t);
    }
    if t < deadline_after(now, e.time) && !is_due(reg, t) {
        assert forall|k: u32| r.contains_key(k) implies !(#[trigger] r[k].deadline <= t) by {
            if k != e.umsg {
                assert(reg.contains_key(k) && reg[k] == r[k]);
            }
        }
    }
}

/// No due event is skipped: whenever a registered event's deadline has
/// passed, something is due, so polling hands an event out.
pub proof fn law_due_event_is_not_skipped<P>(reg: Map<u32, TimedEvent<P>>, id: u32, now: u64)
    requires
        reg.contains_key(id),
        reg[id].deadline <= now,
    ensures
        is_due(reg, now),
{
}

/// Events fire earliest deadline first: the event handed out is the
/// registration of its id, due no later than any registered event, and
/// never before its own deadline.
pub proof fn law_earliest_deadline_first<P>(
    reg: Map<u32, TimedEvent<P>>,
    ev: TimedEvent<P>,
    now: u64,
    other: u32,
)
    requires
        fires_next(reg, ev, now),
        reg.contains_key(other),
    ensures
        reg[ev.umsg] == ev,
        ev.deadline <= now,
        ev.deadline <= reg[other].deadline,
{
}

/// Any two events that could fire next at the same clock reading are due at
/// the same time.
pub proof fn law_next_deadline_is_determined<P>(
    reg: Map<u32, TimedEvent<P>>,
    a: TimedEvent<P>,
    b: TimedEvent<P>,
    now: u64,
)
    requires
        fires_next(reg, a, now),
        fires_next(reg, b, now),
    ensures
        a.deadline == b.deadline,
{
    assert(a.deadline <= reg[b.umsg].deadline);
    assert(b.deadline <= reg[a.umsg].deadline);
}

/// A one-shot event fires once: once it has been handed out and handed
/// back, its id is no longer registered, and nothing else changed.
pub proof fn law_one_shot_fires_once<P>(
    reg: Map<u32, TimedEvent<P>>,
    ev: TimedEvent<P>,
    now: u64,
    later: u64,
)
    requires
        fires_next(reg, ev, now),
        ev.time == 0,
    ensures
        !handed_back(reg, Some(ev), later).contains_key(ev.umsg),
        handed_back(reg, Some(ev), later) == reg.remove(ev.umsg),
{
}

/// A periodic event keeps firing: once it has been handed out and handed
/// back at `later`, the same ids are registered, and the event is due one
/// period after `later`.
pub proof fn law_periodic_event_returns<P>(
    reg: Map<u32, TimedEvent<P>>,
    ev: TimedEvent<P>,
    now: u64,
    later: u64,
)
    requires
        fires_next(reg, ev, now),
        ev.time != 0,
    ensures
        handed_back(reg, Some(ev), later)[ev.umsg] == ev.at_deadline(deadline_after(later, ev.time)),
        handed_back(reg, Some(ev), later).dom() == reg.dom(),
        later + ev.time <= u64::MAX ==> handed_back(reg, Some(ev), later)[ev.umsg].deadline == later
            + ev.time,
{
    assert(reg.insert(ev.umsg, ev.at_deadline(deadline_after(later, ev.time))).dom() =~= reg.dom());
}

/// A dispatch tick never grows the queue: a poll that starts with nothing
/// out removes at least one slot when it hands an event out, and handing
/// that event back adds at most the one slot it removed.
pub proof fn law_tick_never_grows_queue<P>(
    before: nat,
    after_poll: nat,
    after_hand_back: nat,
    fired: Option<TimedEvent<P>>,
)
    requires
        after_poll + (if fired is Some {
            1nat
        } else {
            0nat
        }) <= before + requeued(None::<TimedEvent<P>>),
        after_hand_back == after_poll + requeued(fired),
    ensures
        after_hand_back <= before,
{
}

/// Latency is bounded: while an event is due, each tick that fires another
/// event, handed back no earlier than it was handed out, leaves strictly
/// fewer events due no later than it, and leaves it registered as it was.
/// So it fires within as many ticks as there are events due no later than
/// it.
pub proof fn law_bounded_latency<P>(
    reg: Map<u32, TimedEvent<P>>,
    ev: TimedEvent<P>,
    now: u64,
    later: u64,
    k: u32,
)
    requires
        reg.dom().finite(),
        fires_next(reg, ev, now),
        reg.contains_key(k),
        k != ev.umsg,
        reg[k].deadline <= now <= later,
        reg[k].deadline < u64::MAX,
    ensures
        handed_back(reg, Some(ev), later).contains_key(k),
        handed_back(reg, Some(ev), later)[k] == reg[k],
        due_by(handed_back(reg, Some(ev), later), reg[k].deadline).len() < due_by(
            reg,
            reg[k].deadline,
        ).len(),
{
    let d = reg[k].deadline;
    let after = handed_back(reg, Some(ev), later);
    let a = due_by(reg, d);
    let b = due_by(after, d);
    reg.dom().lemma_len_filter(|j: u32| reg[j].deadline <= d);
    assert(a.contains(ev.umsg));
    assert(b =~= a.remove(ev.umsg));
}

/// Looking an id up right after registering an event under it finds that
/// event, whatever was held under the id before.
pub proof fn law_lookup_finds_new_registration<P>(
    reg: Map<u32, TimedEvent<P>>,
    held: Map<u32, TimedEvent<P>>,
    e: TimedEvent<P>,
    now: u64,
)
    ensures
        lookup(registered(reg, e, now), held.remove(e.umsg), e.umsg) == Some(
            e.at_deadline(deadline_after(now, e.time)),
        ),
{
}

/// Lookup follows liveness: a fired one-shot event is still found after it
/// has been handed back, as long as the caller holds it, and is no longer
/// found once released.
pub proof fn law_fired_one_shot_found_until_released<P>(
    reg: Map<u32, TimedEvent<P>>,
    held: Map<u32, TimedEvent<P>>,
    ev: TimedEvent<P>,
    now: u64,
    later: u64,
)
    requires
        fires_next(reg, ev, now),
        ev.time == 0,
    ensures
        lookup(reg, held, ev.umsg) == Some(ev),
        lookup(handed_back(reg, Some(ev), later), held_after_hand_back(held, Some(ev)), ev.umsg)
            == Some(ev),
        lookup(
            handed_back(reg, Some(ev), later),
            held_after_hand_back(held, Some(ev)).remove(ev.umsg),
            ev.umsg,
        ) is None,
{
}

/// A periodic event stays found across firing: while it is out and after it
/// has been handed back, looking its id up finds it.
pub proof fn law_periodic_event_stays_found<P>(
    reg: Map<u32, TimedEvent<P>>,
    held: Map<u32, TimedEvent<P>>,
    ev: TimedEvent<P>,
    now: u64,
    later: u64,
)
    requires
        fires_next(reg, ev, now),
        ev.time != 0,
    ensures
        lookup(reg, held, ev.umsg) == Some(ev),
        lookup(handed_back(reg, Some(ev), later), held_after_hand_back(held, Some(ev)), ev.umsg)
            == Some(ev.at_deadline(deadline_after(later, ev.time))),
{
}

/// Handing back the event out firing keeps every held one-shot event under
/// any other id, with the same value, and holds no new id but the handed
/// back event's.
pub proof fn law_hand_back_keeps_other_held_events<P>(
    held: Map<u32, TimedEvent<P>>,
    out: Option<TimedEvent<P>>,
    k: u32,
)
    requires
        !(out is Some && out->0.umsg == k),
    ensures
        held_after_hand_back(held, out).contains_key(k) == held.contains_key(k),
        held.contains_key(k) ==> held_after_hand_back(held, out)[k] == held[k],
{
}

/// Handing back a fired one-shot event holds it under its id, as it was
/// fired; handing back a periodic event leaves the held events as they are.
pub proof fn law_hand_back_holds_one_shot_only<P>(held: Map<u32, TimedEvent<P>>, ev: TimedEvent<P>)
    ensures
        ev.time == 0 ==> held_after_hand_back(held, Some(ev)).contains_key(ev.umsg)
            && held_after_hand_back(held, Some(ev))[ev.umsg] == ev,
        ev.time == 0 ==> held_after_hand_back(held, Some(ev)).dom() == held.dom().insert(ev.umsg),
        ev.time != 0 ==> held_after_hand_back(held, Some(ev)) == held,
        held_after_hand_back(held, None::<TimedEvent<P>>) == held,
{
    if ev.time == 0 {
        assert(held_after_hand_back(held, Some(ev)).dom() =~= held.dom().insert(ev.umsg));
    }
}

/// A poll or a reschedule changes what looking up any id finds only for the
/// id of the event it hands back.
pub proof fn law_hand_back_keeps_other_lookups<P>(
    s: Snapshot<P>,
    op: Op<P>,
    t: Snapshot<P>,
    k: u32,
)
    requires
        valid(s),
        op is Poll || op is Reschedule,
        step(s, op, t),
        !(s.firing is Some && s.firing->0.umsg == k),
    ensures
        lookup(t.reg, t.held, k) == lookup(s.reg, s.held, k),
{
}

/// A fired one-shot event is still found once handed back by a poll or a
/// reschedule, as it was fired; a fired periodic event is found due one
/// period after the hand-back, with its id, period and payload.
pub proof fn law_hand_back_keeps_fired_event_found<P>(
    s: Snapshot<P>,
    op: Op<P>,
    t: Snapshot<P>,
    now: u64,
)
    requires
        valid(s),
        s.firing is Some,
        op == Op::<P>::Reschedule(now) || (op is Poll && op->Poll_0 == now),
        step(s, op, t),
    ensures
        s.firing->0.time == 0 ==> lookup(t.reg, t.held, s.firing->0.umsg) == Some(s.firing->0),
        s.firing->0.time != 0 ==> lookup(t.reg, t.held, s.firing->0.umsg) == Some(
            TimedEvent {
                umsg: s.firing->0.umsg,
                time: s.firing->0.time,
                pmsg: s.firing->0.pmsg,
                deadline: deadline_after(now, s.firing->0.time),
            },
        ),
{
}

/// Updating an event that is found sets exactly the given period and
/// payload, whatever they were, and keeps its id and deadline; every other
/// id is found as before; an id that is not found stays not found.
pub proof fn law_update_sets_period_and_payload<P>(
    s: Snapshot<P>,
    t: Snapshot<P>,
    id: u32,
    time: u64,
    pmsg: P,
    k: u32,
)
    requires
        step(s, Op::Update(id, time, pmsg), t),
    ensures
        lookup(s.reg, s.held, id) is Some ==> lookup(t.reg, t.held, id) == Some(
            TimedEvent {
                umsg: lookup(s.reg, s.held, id)->0.umsg,
                time,
                pmsg,
                deadline: lookup(s.reg, s.held, id)->0.deadline,
            },
        ),
        lookup(s.reg, s.held, id) is None ==> lookup(t.reg, t.held, id) is None,
        k != id ==> lookup(t.reg, t.held, k) == lookup(s.reg, s.held, k),
{
}

/// Lookup finds whatever is registered or held under an id, whatever its
/// fields, the registration first; and it finds nothing only when nothing
/// is registered or held under the id.
pub proof fn law_lookup_finds_registered_or_held<P>(
    reg: Map<u32, TimedEvent<P>>,
    held: Map<u32, TimedEvent<P>>,
    id: u32,
)
    ensures
        reg.contains_key(id) ==> lookup(reg, held, id) == Some(reg[id]),
        !reg.contains_key(id) && held.contains_key(id) ==> lookup(reg, held, id) == Some(held[id]),
        lookup(reg, held, id) is None <==> !reg.contains_key(id) && !held.contains_key(id),
{
}

} // verus!
