use vstd::prelude::*;

use std::collections::HashMap;

use crate::event::TimedEvent;
use crate::queue::{DeadlineQueue, Entry};
use crate::trace::{is_empty, step, valid, Op, Snapshot};
use vstd::multiset::Multiset;

verus! {

broadcast use {
    vstd::seq_lib::group_to_multiset_ensures,
    vstd::std_specs::hash::group_hash_axioms,
    vstd::multiset::group_multiset_axioms,
};

/// The clock reading `period` milliseconds after `now`; a reading past the
/// end of the clock is held at its last value.
pub open spec fn deadline_after(now: u64, period: u64) -> u64 {
    if now + period > u64::MAX {
        u64::MAX
    } else {
        (now + period) as u64
    }
}

/// The registry after registering `e` at clock reading `now`: `e` becomes
/// the registration of its id, due one period after `now`.
pub open spec fn registered<P>(
    reg: Map<u32, TimedEvent<P>>,
    e: TimedEvent<P>,
    now: u64,
) -> Map<u32, TimedEvent<P>> {
    reg.insert(e.umsg, e.at_deadline(deadline_after(now, e.time)))
}

/// Some registered event is due at clock reading `now`.
pub open spec fn is_due<P>(reg: Map<u32, TimedEvent<P>>, now: u64) -> bool {
    exists|k: u32| reg.contains_key(k) && #[trigger] reg[k].deadline <= now
}

/// `ev` is a registered event, due at `now`, and no registered event is due
/// before it.
pub open spec fn fires_next<P>(reg: Map<u32, TimedEvent<P>>, ev: TimedEvent<P>, now: u64) -> bool {
    &&& reg.contains_key(ev.umsg)
    &&& reg[ev.umsg] == ev
    &&& ev.deadline <= now
    &&& forall|k: u32| reg.contains_key(k) ==> ev.deadline <= #[trigger] reg[k].deadline
}

/// The registry once the event that is out firing, if any, has been handed
/// back at clock reading `now`: a periodic event stays registered, due one
/// period after `now`; a one-shot event is unregistered.
pub open spec fn handed_back<P>(
    reg: Map<u32, TimedEvent<P>>,
    out: Option<TimedEvent<P>>,
    now: u64,
) -> Map<u32, TimedEvent<P>> {
    match out {
        Some(ev) => if ev.time != 0 {
            reg.insert(ev.umsg, ev.at_deadline(deadline_after(now, ev.time)))
        } else {
            reg.remove(ev.umsg)
        },
        None => reg,
    }
}

/// The fired one-shot events still held by the caller once the event out
/// firing, if any, has been handed back: a one-shot joins them.
pub open spec fn held_after_hand_back<P>(
    held: Map<u32, TimedEvent<P>>,
    out: Option<TimedEvent<P>>,
) -> Map<u32, TimedEvent<P>> {
    match out {
        Some(ev) => if ev.time == 0 {
            held.insert(ev.umsg, ev)
        } else {
            held
        },
        None => held,
    }
}

/// What looking `id` up finds: its registration, else the fired one-shot
/// event held under it, else nothing.
pub open spec fn lookup<P>(
    reg: Map<u32, TimedEvent<P>>,
    held: Map<u32, TimedEvent<P>>,
    id: u32,
) -> Option<TimedEvent<P>> {
    if reg.contains_key(id) {
        Some(reg[id])
    } else if held.contains_key(id) {
        Some(held[id])
    } else {
        None
    }
}

/// The number of queue slots that handing back `out` adds: one for a
/// periodic event, none otherwise.
pub open spec fn requeued<P>(out: Option<TimedEvent<P>>) -> nat {
    match out {
        Some(ev) => if ev.time != 0 {
            1
        } else {
            0
        },
        None => 0,
    }
}

/// The event out firing after `id` is registered anew: an event of that id
/// is superseded and no longer comes back.
pub open spec fn firing_after_register<P>(out: Option<TimedEvent<P>>, id: u32) -> Option<
    TimedEvent<P>,
> {
    match out {
        Some(f) => if f.umsg == id {
            None
        } else {
            out
        },
        None => None,
    }
}

/// `e` with period `time` and payload `pmsg`; its id and deadline stay.
pub open spec fn with_settings<P>(e: TimedEvent<P>, time: u64, pmsg: P) -> TimedEvent<P> {
    TimedEvent { time, pmsg, ..e }
}

/// The event out firing after the registration of `id` has been given
/// period `time` and payload `pmsg`.
pub open spec fn firing_after_update<P>(
    out: Option<TimedEvent<P>>,
    id: u32,
    time: u64,
    pmsg: P,
) -> Option<TimedEvent<P>> {
    match out {
        Some(f) => if f.umsg == id {
            Some(with_settings(f, time, pmsg))
        } else {
            out
        },
        None => None,
    }
}

/// How many times the slot holding the fired event, `out`, holds `x`.
pub open spec fn out_count<P>(out: Option<Entry<P>>, x: Entry<P>) -> nat {
    if out == Some(x) {
        1
    } else {
        0
    }
}

/// An event-driven periodic scheduler.
///
/// It keeps the registered events by id, and their next occurrences in a
/// queue ordered by deadline. The caller owns the clock: it passes the
/// current reading, in milliseconds, to each operation. [`Scheduler::poll`]
/// hands out the next due event for the caller to fire; the event stays
/// registered while it is out, and [`Scheduler::reschedule`] hands it back.
/// A one-shot event that has fired is still found by [`Scheduler::get`]
/// until the caller [releases](Scheduler::release) it.
pub struct Scheduler<P> {
    map: HashMap<u32, TimedEvent<P>>,
    held: HashMap<u32, TimedEvent<P>>,
    queue: DeadlineQueue<P>,
    out: Option<Entry<P>>,
}

impl<P: Copy> View for Scheduler<P> {
    type V = Map<u32, TimedEvent<P>>;

    /// The registered events, by id.
    closed spec fn view(&self) -> Map<u32, TimedEvent<P>> {
        self.map@
    }
}

impl<P: Copy> Scheduler<P> {
    /// The event handed out by the last poll and not yet handed back, unless
    /// its id has been registered anew since.
    pub closed spec fn firing(&self) -> Option<TimedEvent<P>> {
        match self.out {
            Some(en) => if en.live {
                Some(en.event)
            } else {
                None
            },
            None => None,
        }
    }

    /// The number of slots in the queue, superseded ones included.
    pub closed spec fn queued(&self) -> nat {
        self.queue@.len()
    }

    /// The fired one-shot events that the caller still holds, by id.
    pub closed spec fn held(&self) -> Map<u32, TimedEvent<P>> {
        self.held@
    }

    /// The registry and the queue agree, and no held event is registered.
    pub closed spec fn wf(&self) -> bool {
        &&& self.consistent()
        &&& forall|k: u32| #[trigger] self.held@.contains_key(k) ==> !self.map@.contains_key(k)
    }

    /// What the scheduler shows: registrations, held events, event out
    /// firing.
    pub open spec fn snapshot(&self) -> Snapshot<P> {
        Snapshot { reg: self@, held: self.held(), firing: self.firing() }
    }

    /// The event out firing is the registration of its id.
    pub proof fn lemma_firing_is_registered(&self)
        requires
            self.wf(),
        ensures
            self.firing() matches Some(f) ==> self@.contains_key(f.umsg) && self@[f.umsg] == f,
            valid(self.snapshot()),
    {
        assert forall|k: u32| #[trigger] self@.contains_key(k) implies self@[k].umsg == k by {
            assert(self.map@[k].umsg == k);
        }
    }

    /// Each registered event is held exactly once as a live entry, in the
    /// queue or out firing, and every live entry is the registration of its
    /// id.
    spec fn consistent(&self) -> bool {
        &&& self.queue.wf()
        &&& forall|e: Entry<P>|
            #![trigger self.queue.contents().count(e)]
            self.queue.contents().count(e) > 0 && e.live ==> self.map@.contains_key(e.event.umsg)
                && self.map@[e.event.umsg] == e.event
        &&& (self.out is Some && self.out->0.live) ==> self.map@.contains_key(
            self.out->0.event.umsg,
        ) && self.map@[self.out->0.event.umsg] == self.out->0.event
        &&& forall|k: u32|
            #![trigger self.map@[k]]
            self.map@.contains_key(k) ==> self.map@[k].umsg == k && self.queue.contents().count(
                Entry { live: true, event: self.map@[k] },
            ) + out_count(self.out, Entry { live: true, event: self.map@[k] }) == 1
    }

    /// Creates a scheduler with no event registered.
    pub fn new() -> (s: Self)
        ensures
            s.wf(),
            s@ == Map::<u32, TimedEvent<P>>::empty(),
            s.held() == Map::<u32, TimedEvent<P>>::empty(),
            s.firing() is None,
            is_empty(s.snapshot()),
            s.queued() == 0,
    {
        let s = Scheduler {
            map: HashMap::new(),
            held: HashMap::new(),
            queue: DeadlineQueue::new(),
            out: None,
        };
        assert(s.queue.contents() =~= Multiset::empty());
        s
    }

    /// The slot of the live queue entry with id `id`, if there is one.
    fn find_live(&self, id: u32) -> (r: Option<usize>)
        ensures
            match r {
                Some(i) => i < self.queue@.len() && self.queue@[i as int].live
                    && self.queue@[i as int].event.umsg == id,
                None => forall|j: int|
                    0 <= j < self.queue@.len() ==> !(#[trigger] self.queue@[j].live
                        && self.queue@[j].event.umsg == id),
            },
    {
        let n = self.queue.len();
        let mut i: usize = 0;
        while i < n
            invariant
                n == self.queue@.len(),
                0 <= i <= n,
                forall|j: int|
                    0 <= j < i ==> !(#[trigger] self.queue@[j].live && self.queue@[j].event.umsg
                        == id),
            decreases n - i,
        {
            let en = self.queue.entry(i);
            if en.live && en.event.umsg == id {
                return Some(i);
            }
            i += 1;
        }
        None
    }

    /// Looks up the registered event with id `id`.
    ///
    /// Returns `None` if no event with that id was registered, or if it was a
    /// one-shot event that has fired and has since been released.
    pub fn get(&self, id: u32) -> (r: Option<TimedEvent<P>>)
        requires
            self.wf(),
        ensures
            r == lookup(self@, self.held(), id),
            self@.contains_key(id) ==> r == Some(self@[id]),
            !self@.contains_key(id) && self.held().contains_key(id) ==> r == Some(self.held()[id]),
            r is None <==> !self@.contains_key(id) && !self.held().contains_key(id),
    {
        match self.map.get(&id) {
            Some(ev) => Some(*ev),
            None => match self.held.get(&id) {
                Some(ev) => Some(*ev),
                None => None,
            },
        }
    }

    /// Drops the registration of `id`, if any. Its queue entry stays in the
    /// queue, and an occurrence out firing stays out, both marked superseded.
    fn unregister(&mut self, id: u32)
        requires
            old(self).consistent(),
        ensures
            final(self).consistent(),
            final(self).held == old(self).held,
            final(self)@ == old(self)@.remove(id),
            final(self).firing() == firing_after_register(old(self).firing(), id),
            final(self).queued() == old(self).queued(),
    {
        let ghost m0 = self.queue.contents();
        let ghost reg = self.map@;
        let ghost out0 = self.out;
        let ghost x = Entry { live: true, event: reg[id] };
        proof {
            if reg.contains_key(id) {
                assert(m0.count(x) + out_count(out0, x) == 1);
            }
            if out0 is Some && out0->0.live && out0->0.event.umsg == id {
                assert(out0->0 == x);
            }
        }
        match self.find_live(id) {
            Some(i) => {
                let ghost y = self.queue@[i as int];
                proof {
                    assert(m0.count(y) > 0);
                    assert(y == x);
                    crate::queue::lemma_update_to_multiset(
                        self.queue@,
                        i as int,
                        Entry { live: false, event: x.event },
                    );
                }
                self.queue.retire(i);
                assert(self.queue.contents() == m0.remove(x).insert(
                    Entry { live: false, event: x.event },
                ));
            },
            None => {
                proof {
                    if m0.count(x) > 0 {
                        let j = choose|j: int| 0 <= j < self.queue@.len() && self.queue@[j] == x;
                        assert(self.queue@[j].live);
                    }
                }
            },
        }
        if let Some(en) = self.out {
            if en.live && en.event.umsg == id {
                self.out = Some(Entry { live: false, event: en.event });
            }
        }
        self.map.remove(&id);
        proof {
            let m1 = self.queue.contents();
            if reg.contains_key(id) {
                assert(m1.count(x) == 0);
                assert(out_count(self.out, x) == 0);
            }
            assert forall|e: Entry<P>|
                #![trigger m1.count(e)]
                m1.count(e) > 0 && e.live implies self.map@.contains_key(e.event.umsg)
                && self.map@[e.event.umsg] == e.event by {
                assert(m0.count(e) > 0);
                if e.event.umsg == id {
                    assert(reg.contains_key(id));
                    assert(e == x);
                }
            }
            assert forall|k: u32| #[trigger]
                self.map@.contains_key(k) implies self.map@[k].umsg == k && m1.count(
                Entry { live: true, event: self.map@[k] },
            ) + out_count(self.out, Entry { live: true, event: self.map@[k] }) == 1 by {
                assert(reg[k] == self.map@[k]);
            }
        }
    }

    /// Queues `ev`, due at `d`, as the registration of its id, which must be
    /// free.
    fn enqueue(&mut self, ev: TimedEvent<P>, d: u64)
        requires
            old(self).consistent(),
            !old(self)@.contains_key(ev.umsg),
        ensures
            final(self).consistent(),
            final(self).held == old(self).held,
            final(self)@ == old(self)@.insert(ev.umsg, ev.at_deadline(d)),
            final(self).out == old(self).out,
            final(self).queued() == old(self).queued() + 1,
    {
        let ghost m0 = self.queue.contents();
        let ghost reg = self.map@;
        let mut ev = ev;
        ev.set_deadline(d);
        let y = Entry { live: true, event: ev };
        proof {
            assert(m0.count(y) == 0);
            assert(out_count(self.out, y) == 0);
        }
        self.queue.push(y);
        self.map.insert(ev.umsg, ev);
        proof {
            let m1 = self.queue.contents();
            assert forall|e: Entry<P>|
                #![trigger m1.count(e)]
                m1.count(e) > 0 && e.live implies self.map@.contains_key(e.event.umsg)
                && self.map@[e.event.umsg] == e.event by {
                if e != y {
                    assert(m0.count(e) > 0);
                }
            }
            assert forall|k: u32| #[trigger]
                self.map@.contains_key(k) implies self.map@[k].umsg == k && m1.count(
                Entry { live: true, event: self.map@[k] },
            ) + out_count(self.out, Entry { live: true, event: self.map@[k] }) == 1 by {
                if k != ev.umsg {
                    assert(reg[k] == self.map@[k]);
                }
            }
        }
    }

    /// Hands back the event out firing, if any, at clock reading `now`.
    fn hand_back(&mut self, now: u64)
        requires
            old(self).wf(),
        ensures
            final(self).wf(),
            final(self).out is None,
            final(self)@ == handed_back(old(self)@, old(self).firing(), now),
            final(self).held() == held_after_hand_back(old(self).held(), old(self).firing()),
            final(self).queued() == old(self).queued() + requeued(old(self).firing()),
    {
        let ghost m0 = self.queue.contents();
        let ghost reg = self.map@;
        let ghost h0 = self.held@;
        let o = self.out;
        self.out = None;
        match o {
            Some(en) => {
                if en.live {
                    let u = en.event.umsg;
                    proof {
                        assert(m0.count(en) + 1 == 1);
                    }
                    self.map.remove(&u);
                    proof {
                        assert forall|e: Entry<P>|
                            #![trigger m0.count(e)]
                            m0.count(e) > 0 && e.live implies self.map@.contains_key(e.event.umsg)
                            && self.map@[e.event.umsg] == e.event by {
                            if e.event.umsg == u {
                                assert(e == en);
                            }
                        }
                        assert forall|k: u32| #[trigger]
                            self.map@.contains_key(k) implies self.map@[k].umsg == k && m0.count(
                            Entry { live: true, event: self.map@[k] },
                        ) + out_count(self.out, Entry { live: true, event: self.map@[k] }) == 1 by {
                            assert(reg[k] == self.map@[k]);
                        }
                    }
                    if en.event.time != 0 {
                        self.enqueue(en.event, now.saturating_add(en.event.time));
                        assert(self@ =~= handed_back(reg, Some(en.event), now));
                    } else {
                        self.held.insert(u, en.event);
                    }
                } else {
                    assert forall|k: u32| #[trigger]
                        self.map@.contains_key(k) implies self.map@[k].umsg == k && m0.count(
                        Entry { live: true, event: self.map@[k] },
                    ) + out_count(self.out, Entry { live: true, event: self.map@[k] }) == 1 by {
                        assert(out_count(o, Entry { live: true, event: self.map@[k] }) == 0);
                    }
                }
            },
            None => {},
        }
    }

    /// Registers (or re-registers) `e` at clock reading `now`: its first
    /// deadline is one period after `now`.
    ///
    /// If an event with the same id is already registered, it is replaced:
    /// its queued occurrence is discarded, without firing, when it comes up,
    /// and if it is out firing it does not come back. A fired one-shot
    /// event held under that id is no longer found.
    pub fn add_event(&mut self, e: &TimedEvent<P>, now: u64)
        requires
            old(self).wf(),
        ensures
            step(old(self).snapshot(), Op::Add(*e, now), final(self).snapshot()),
            final(self).wf(),
            final(self)@ == registered(old(self)@, *e, now),
            final(self).held() == old(self).held().remove(e.umsg),
            final(self).firing() == firing_after_register(old(self).firing(), e.umsg),
            final(self).queued() == old(self).queued() + 1,
    {
        self.held.remove(&e.umsg);
        self.unregister(e.umsg);
        self.enqueue(*e, now.saturating_add(e.time));
        assert(self@ =~= registered(old(self)@, *e, now));
    }

    /// Hands back the event out firing, if any, then hands out the next
    /// event due at clock reading `now`, or returns `None` when nothing is
    /// due.
    ///
    /// At most one event fires per call; superseded queue entries met on the
    /// way are discarded. The event handed out stays registered while it is
    /// out.
    pub fn poll(&mut self, now: u64) -> (r: Option<TimedEvent<P>>)
        requires
            old(self).wf(),
        ensures
            step(old(self).snapshot(), Op::Poll(now, r), final(self).snapshot()),
            final(self).wf(),
            final(self)@ == handed_back(old(self)@, old(self).firing(), now),
            final(self).held() == held_after_hand_back(old(self).held(), old(self).firing()),
            forall|k: u32|
                !(old(self).firing() is Some && old(self).firing()->0.umsg == k) ==> (
                #[trigger] final(self).held().contains_key(k) == old(self).held().contains_key(k)
                    && (old(self).held().contains_key(k)
                    ==> final(self).held()[k] == old(self).held()[k])),
            old(self).firing() is Some && old(self).firing()->0.time == 0
                ==> final(self).held().contains_key(old(self).firing()->0.umsg)
                && final(self).held()[old(self).firing()->0.umsg] == old(self).firing()->0,
            old(self).firing() is Some && old(self).firing()->0.time != 0 ==> final(self).held()
                == old(self).held(),
            final(self).firing() == r,
            match r {
                None => !is_due(final(self)@, now),
                Some(ev) => fires_next(final(self)@, ev, now),
            },
            final(self).queued() + (if r is Some {
                1nat
            } else {
                0nat
            }) <= old(self).queued() + requeued(old(self).firing()),
    {
        self.hand_back(now);
        let ghost reg = self.map@;
        let ghost h1 = self.held@;
        let ghost q0 = self.queue@.len();
        loop
            invariant
                self.wf(),
                self.map@ == reg,
                self.held@ == h1,
                h1 == held_after_hand_back(old(self).held(), old(self).firing()),
                reg == handed_back(old(self)@, old(self).firing(), now),
                self.out is None,
                self.queue@.len() <= q0,
                q0 == old(self).queued() + requeued(old(self).firing()),
            decreases self.queue@.len(),
        {
            let ghost m0 = self.queue.contents();
            if self.queue.len() == 0 {
                proof {
                    assert forall|k: u32| reg.contains_key(k) implies !(#[trigger] reg[k].deadline
                        <= now) by {
                        assert(m0.count(Entry { live: true, event: reg[k] }) == 1);
                        assert(m0.contains(Entry { live: true, event: reg[k] }));
                    }
                }
                return None;
            }
            let d = self.queue.min_deadline();
            if d > now {
                proof {
                    assert forall|k: u32| reg.contains_key(k) implies !(#[trigger] reg[k].deadline
                        <= now) by {
                        assert(m0.count(Entry { live: true, event: reg[k] }) == 1);
                        assert(m0.contains(Entry { live: true, event: reg[k] }));
                    }
                }
                return None;
            }
            let en = self.queue.pop_min();
            let ghost m1 = self.queue.contents();
            if en.live {
                self.out = Some(en);
                proof {
                    assert(m0.count(en) > 0);
                    assert(reg[en.event.umsg] == en.event);
                    assert(m0.count(en) == 1);
                    assert forall|e: Entry<P>|
                        #![trigger m1.count(e)]
                        m1.count(e) > 0 && e.live implies self.map@.contains_key(e.event.umsg)
                        && self.map@[e.event.umsg] == e.event by {
                        assert(m0.count(e) > 0);
                    }
                    assert forall|k: u32| #[trigger]
                        self.map@.contains_key(k) implies self.map@[k].umsg == k && m1.count(
                        Entry { live: true, event: self.map@[k] },
                    ) + out_count(self.out, Entry { live: true, event: self.map@[k] }) == 1 by {
                        if k != en.event.umsg {
                            assert(Entry { live: true, event: reg[k] } != en);
                        }
                    }
                    assert forall|k: u32| reg.contains_key(k) implies en.event.deadline
                        <= #[trigger] reg[k].deadline by {
                        assert(m0.count(Entry { live: true, event: reg[k] }) == 1);
                        assert(m0.contains(Entry { live: true, event: reg[k] }));
                    }
                }
                return Some(en.event);
            }
            proof {
                assert forall|e: Entry<P>|
                    #![trigger m1.count(e)]
                    m1.count(e) > 0 && e.live implies self.map@.contains_key(e.event.umsg)
                    && self.map@[e.event.umsg] == e.event by {
                    assert(m0.count(e) > 0);
                }
                assert forall|k: u32| #[trigger]
                    self.map@.contains_key(k) implies self.map@[k].umsg == k && m1.count(
                    Entry { live: true, event: self.map@[k] },
                ) + out_count(self.out, Entry { live: true, event: self.map@[k] }) == 1 by {
                    assert(Entry { live: true, event: reg[k] } != en);
                }
            }
        }
    }

    /// Hands back, at clock reading `now`, the event that the last poll
    /// handed out, once it has been fired.
    ///
    /// A periodic event (`time != 0`) stays registered, due one period after
    /// `now`; a one-shot event is unregistered and held until released. An
    /// event whose id was
    /// registered anew while it was out is left alone, as is a call with
    /// nothing out.
    pub fn reschedule(&mut self, now: u64)
        requires
            old(self).wf(),
        ensures
            step(old(self).snapshot(), Op::Reschedule(now), final(self).snapshot()),
            final(self).wf(),
            final(self)@ == handed_back(old(self)@, old(self).firing(), now),
            final(self).held() == held_after_hand_back(old(self).held(), old(self).firing()),
            forall|k: u32|
                !(old(self).firing() is Some && old(self).firing()->0.umsg == k) ==> (
                #[trigger] final(self).held().contains_key(k) == old(self).held().contains_key(k)
                    && (old(self).held().contains_key(k)
                    ==> final(self).held()[k] == old(self).held()[k])),
            old(self).firing() is Some && old(self).firing()->0.time == 0
                ==> final(self).held().contains_key(old(self).firing()->0.umsg)
                && final(self).held()[old(self).firing()->0.umsg] == old(self).firing()->0,
            old(self).firing() is Some && old(self).firing()->0.time != 0 ==> final(self).held()
                == old(self).held(),
            final(self).firing() is None,
            final(self).queued() == old(self).queued() + requeued(old(self).firing()),
    {
        self.hand_back(now);
    }

    /// Changes the period and the payload of the event with id `id`,
    /// wherever it is: queued, out firing, or fired and held; its deadline
    /// stays. Returns whether there is such an event.
    pub fn update(&mut self, id: u32, time: u64, pmsg: P) -> (found: bool)
        requires
            old(self).wf(),
        ensures
            step(old(self).snapshot(), Op::Update(id, time, pmsg), final(self).snapshot()),
            final(self).wf(),
            found == (old(self)@.contains_key(id) || old(self).held().contains_key(id)),
            final(self)@ == (if old(self)@.contains_key(id) {
                old(self)@.insert(id, with_settings(old(self)@[id], time, pmsg))
            } else {
                old(self)@
            }),
            final(self).held() == (if !old(self)@.contains_key(id) && old(self).held().contains_key(
                id,
            ) {
                old(self).held().insert(id, with_settings(old(self).held()[id], time, pmsg))
            } else {
                old(self).held()
            }),
            match lookup(old(self)@, old(self).held(), id) {
                Some(o) => lookup(final(self)@, final(self).held(), id) == Some(
                    TimedEvent { umsg: o.umsg, time, pmsg, deadline: o.deadline },
                ),
                None => !found,
            },
            forall|k: u32|
                k != id ==> #[trigger] lookup(final(self)@, final(self).held(), k) == lookup(
                    old(self)@,
                    old(self).held(),
                    k,
                ),
            final(self).firing() == firing_after_update(old(self).firing(), id, time, pmsg),
            final(self).queued() == old(self).queued(),
    {
        let cur = match self.map.get(&id) {
            Some(ev) => *ev,
            None => {
                proof {
                    if self.out is Some && self.out->0.live && self.out->0.event.umsg == id {
                        assert(self.map@.contains_key(id));
                    }
                }
                let h = match self.held.get(&id) {
                    Some(ev) => *ev,
                    None => {
                        return false;
                    },
                };
                self.held.insert(id, TimedEvent { umsg: h.umsg, time, pmsg, deadline: h.deadline });
                return true;
            },
        };
        let ghost m0 = self.queue.contents();
        let ghost reg = self.map@;
        let ghost out0 = self.out;
        let new = TimedEvent { umsg: cur.umsg, time, pmsg, deadline: cur.deadline };
        let ghost x = Entry { live: true, event: cur };
        let ghost y = Entry { live: true, event: new };
        proof {
            assert(m0.count(x) + out_count(out0, x) == 1);
            assert(cur.umsg == id);
            if m0.count(y) > 0 {
                assert(y == x);
            }
            if out0 is Some && out0->0.live && out0->0.event.umsg == id {
                assert(out0->0 == x);
            }
        }
        match self.find_live(id) {
            Some(i) => {
                proof {
                    assert(m0.count(self.queue@[i as int]) > 0);
                    assert(self.queue@[i as int] == x);
                    crate::queue::lemma_update_to_multiset(self.queue@, i as int, y);
                }
                self.queue.replace_event(i, new);
                assert(self.queue.contents() == m0.remove(x).insert(y));
            },
            None => {
                proof {
                    if m0.count(x) > 0 {
                        let j = choose|j: int| 0 <= j < self.queue@.len() && self.queue@[j] == x;
                        assert(self.queue@[j].live);
                    }
                }
            },
        }
        if let Some(en) = self.out {
            if en.live && en.event.umsg == id {
                self.out = Some(Entry { live: true, event: new });
            }
        }
        self.map.insert(id, new);
        proof {
            let m1 = self.queue.contents();
            assert(m1.count(y) + out_count(self.out, y) == 1);
            assert forall|e: Entry<P>|
                #![trigger m1.count(e)]
                m1.count(e) > 0 && e.live implies self.map@.contains_key(e.event.umsg)
                && self.map@[e.event.umsg] == e.event by {
                if e != y {
                    assert(m0.count(e) > 0);
                    if e.event.umsg == id {
                        assert(e == x);
                    }
                }
            }
            assert forall|k: u32| #[trigger]
                self.map@.contains_key(k) implies self.map@[k].umsg == k && m1.count(
                Entry { live: true, event: self.map@[k] },
            ) + out_count(self.out, Entry { live: true, event: self.map@[k] }) == 1 by {
                if k != id {
                    assert(reg[k] == self.map@[k]);
                    assert(Entry { live: true, event: reg[k] } != x);
                }
            }
            assert(self.map@ =~= reg.insert(id, with_settings(reg[id], time, pmsg)));
        }
        true
    }

    /// Forgets the fired one-shot event held under `id`, once the caller no
    /// longer holds it: from then on it is not found. Registered events are
    /// not affected.
    pub fn release(&mut self, id: u32)
        requires
            old(self).wf(),
        ensures
            step(old(self).snapshot(), Op::Release(id), final(self).snapshot()),
            final(self).wf(),
            final(self)@ == old(self)@,
            final(self).held() == old(self).held().remove(id),
            final(self).firing() == old(self).firing(),
            final(self).queued() == old(self).queued(),
    {
        self.held.remove(&id);
    }
}

} // verus!
