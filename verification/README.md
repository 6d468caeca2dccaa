# nge_scheduler

An event-driven periodic scheduler whose core is verified with Verus.

- `src/event.rs`: `TimedEvent`, an event with an id, a period (0 = one-shot),
  a payload and its next deadline.
- `src/queue.rs`: `DeadlineQueue`, a binary min-heap of entries ordered by
  deadline, kept in a vector; push and pop are proved to keep the heap order
  and to add or remove exactly one entry of the multiset.
- `src/scheduler.rs`: `Scheduler`, the registry of events by id (a
  `HashMap`) on top of the queue, plus the slot for the event out firing and the fired one-shot events the
  caller still holds.
  Its view is a map from id to event; `add_event`, `get`, `update`, `poll`,
  `reschedule` and `release` are specified over that map, over the event out firing
  and over the number of queued slots.
- `src/laws.rs`: properties of the scheduler as a whole (lookup after
  registration, replacement, earliest deadline first, one-shot and periodic
  behaviour, queue growth per tick, bounded latency), proved over the same specification functions.
- `src/trace.rs`: a model of a run: snapshots of what a scheduler shows and
  the step each operation takes (every operation's contract states its
  step).
- `src/history.rs`: laws over whole runs, proved by induction: a
  registration governs every later firing of its id, a one-shot event fires
  at most once, periodic firings are a period apart, and an empty scheduler
  fires nothing.
- `app/lib.rs`: the threaded front end (a 1 ms dispatch thread, the clock and
  the user callback), which drives the verified scheduler.
