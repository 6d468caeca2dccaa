use vstd::prelude::*;

verus! {

/// A timed, optionally periodic event.
///
/// `umsg` names the event (it is the registry key), `time` is its repeat
/// period in milliseconds (`0` makes it a one-shot event) and `pmsg` is a
/// payload that the scheduler hands back untouched.
#[derive(Clone, Copy)]
pub struct TimedEvent<P> {
    /// Application-level event identifier.
    pub umsg: u32,
    /// Repeat period in milliseconds; `0` for a one-shot event.
    pub time: u64,
    /// User payload, carried along and never inspected.
    pub pmsg: P,
    /// Clock reading, in milliseconds, at which the event fires next.
    /// The scheduler sets it when the event is registered or rescheduled.
    pub deadline: u64,
}

impl<P> TimedEvent<P> {
    /// The same event, due at `d`.
    pub open spec fn at_deadline(self, d: u64) -> TimedEvent<P> {
        TimedEvent { deadline: d, ..self }
    }
}

impl<P: Copy> TimedEvent<P> {
    /// Builds an event. Its deadline stays at `0` until the event is
    /// registered with a scheduler, which sets it.
    pub fn new(umsg: u32, time: u64, pmsg: P) -> (e: Self)
        ensures
            e == (TimedEvent { umsg, time, pmsg, deadline: 0 }),
    {
        TimedEvent { umsg, time, pmsg, deadline: 0 }
    }

    /// Moves the event's next firing to clock reading `d`.
    pub(crate) fn set_deadline(&mut self, d: u64)
        ensures
            *final(self) == old(self).at_deadline(d),
    {
        self.deadline = d;
    }
}

} // verus!
