use nge_scheduler::{Scheduler, TimedEvent};

#[test]
fn new_event_has_given_fields_and_no_deadline() {
    let e = TimedEvent::new(7, 250, 42i32);
    assert_eq!(e.umsg, 7);
    assert_eq!(e.time, 250);
    assert_eq!(e.pmsg, 42);
    assert_eq!(e.deadline, 0);
}

#[test]
fn empty_scheduler_knows_no_event() {
    let s: Scheduler<i32> = Scheduler::new();
    assert!(s.get(1).is_none());
    assert!(s.get(0).is_none());
}

#[test]
fn empty_scheduler_fires_nothing() {
    let mut s: Scheduler<i32> = Scheduler::new();
    assert!(s.poll(0).is_none());
    assert!(s.poll(u64::MAX).is_none());
}

#[test]
fn lookup_after_register_gives_event_due_one_period_later() {
    let mut s = Scheduler::new();
    s.add_event(&TimedEvent::new(1, 500, 11i32), 1000);
    let g = s.get(1).unwrap();
    assert_eq!(g.umsg, 1);
    assert_eq!(g.time, 500);
    assert_eq!(g.pmsg, 11);
    assert_eq!(g.deadline, 1500);
}

#[test]
fn register_leaves_other_ids_alone() {
    let mut s = Scheduler::new();
    s.add_event(&TimedEvent::new(1, 500, 0i32), 0);
    s.add_event(&TimedEvent::new(2, 50, 0i32), 10);
    assert_eq!(s.get(1).unwrap().deadline, 500);
    assert_eq!(s.get(2).unwrap().deadline, 60);
    assert!(s.get(3).is_none());
}

#[test]
fn register_sets_deadline_even_if_event_carried_one() {
    let mut s = Scheduler::new();
    let mut e = TimedEvent::new(4, 10, 0i32);
    e.deadline = 99999;
    s.add_event(&e, 5);
    assert_eq!(s.get(4).unwrap().deadline, 15);
}

#[test]
fn event_does_not_fire_before_its_deadline() {
    let mut s = Scheduler::new();
    s.add_event(&TimedEvent::new(1, 500, 0i32), 100);
    assert!(s.poll(0).is_none());
    assert!(s.poll(599).is_none());
    let ev = s.poll(600).unwrap();
    assert_eq!(ev.umsg, 1);
    assert_eq!(ev.deadline, 600);
}

#[test]
fn overdue_event_fires_at_later_poll() {
    let mut s = Scheduler::new();
    s.add_event(&TimedEvent::new(3, 20, 0i32), 0);
    let ev = s.poll(10_000).unwrap();
    assert_eq!(ev.umsg, 3);
    assert_eq!(ev.deadline, 20);
}

#[test]
fn events_fire_earliest_deadline_first_one_per_poll() {
    let mut s = Scheduler::new();
    s.add_event(&TimedEvent::new(1, 300, 0i32), 0);
    s.add_event(&TimedEvent::new(2, 100, 0i32), 0);
    s.add_event(&TimedEvent::new(3, 200, 0i32), 0);
    s.add_event(&TimedEvent::new(4, 50, 0i32), 0);
    s.add_event(&TimedEvent::new(5, 250, 0i32), 0);
    let order: Vec<u32> = (0..5).map(|_| s.poll(1000).unwrap().umsg).collect();
    assert_eq!(order, vec![4, 2, 3, 5, 1]);
    assert!(s.poll(1000).is_none());
}

#[test]
fn many_events_come_out_sorted_by_deadline() {
    let mut s = Scheduler::new();
    let periods: Vec<u64> = vec![70, 10, 90, 30, 50, 20, 80, 60, 40, 100, 15, 85, 5];
    for (i, p) in periods.iter().enumerate() {
        s.add_event(&TimedEvent::new(i as u32, *p, 0i32), 0);
    }
    let mut last = 0u64;
    let mut count = 0;
    while let Some(ev) = s.poll(1000) {
        assert!(ev.deadline >= last);
        last = ev.deadline;
        count += 1;
    }
    assert_eq!(count, periods.len());
}

#[test]
fn events_with_equal_deadlines_both_fire() {
    let mut s = Scheduler::new();
    s.add_event(&TimedEvent::new(1, 100, 0i32), 0);
    s.add_event(&TimedEvent::new(2, 100, 0i32), 0);
    let a = s.poll(100).unwrap();
    let b = s.poll(100).unwrap();
    assert_eq!(a.deadline, b.deadline);
    let mut ids = vec![a.umsg, b.umsg];
    ids.sort();
    assert_eq!(ids, vec![1, 2]);
}

#[test]
fn one_shot_event_fires_once() {
    let mut s = Scheduler::new();
    s.add_event(&TimedEvent::new(2, 0, 0i32), 1000);
    let ev = s.poll(1000).unwrap();
    assert_eq!(ev.umsg, 2);
    assert_eq!(s.get(2).unwrap().umsg, 2);
    s.reschedule(1001);
    assert!(s.poll(5000).is_none());
    let held = s.get(2).unwrap();
    assert_eq!((held.umsg, held.deadline), (2, 1000));
    s.release(2);
    assert!(s.get(2).is_none());
    assert!(s.poll(u64::MAX).is_none());
}

#[test]
fn release_leaves_registered_events_alone() {
    let mut s = Scheduler::new();
    s.add_event(&TimedEvent::new(1, 10, 0i32), 0);
    s.release(1);
    s.release(7);
    assert_eq!(s.get(1).unwrap().deadline, 10);
    assert_eq!(s.poll(10).unwrap().umsg, 1);
}

#[test]
fn re_registering_a_held_one_shot_schedules_it_again() {
    let mut s = Scheduler::new();
    s.add_event(&TimedEvent::new(2, 0, 1i32), 0);
    let _ = s.poll(0).unwrap();
    s.reschedule(1);
    s.add_event(&TimedEvent::new(2, 5, 3i32), 10);
    let g = s.get(2).unwrap();
    assert_eq!((g.pmsg, g.deadline), (3, 15));
    assert_eq!(s.poll(15).unwrap().pmsg, 3);
}

#[test]
fn periodic_event_comes_back_one_period_after_handling() {
    let mut s = Scheduler::new();
    s.add_event(&TimedEvent::new(1, 500, 3i32), 0);
    let ev = s.poll(502).unwrap();
    assert_eq!(ev.deadline, 500);
    assert_eq!(s.get(1).unwrap().deadline, 500);
    s.reschedule(505);
    let g = s.get(1).unwrap();
    assert_eq!(g.deadline, 1005);
    assert_eq!(g.pmsg, 3);
    assert!(s.poll(1004).is_none());
    let again = s.poll(1005).unwrap();
    assert_eq!(again.umsg, 1);
    assert_eq!(again.time, 500);
}

#[test]
fn re_registering_replaces_and_old_occurrence_never_fires() {
    let mut s = Scheduler::new();
    s.add_event(&TimedEvent::new(1, 100, 10i32), 0);
    s.add_event(&TimedEvent::new(1, 1000, 20i32), 0);
    let g = s.get(1).unwrap();
    assert_eq!(g.time, 1000);
    assert_eq!(g.pmsg, 20);
    assert!(s.poll(500).is_none());
    assert_eq!(s.get(1).unwrap().pmsg, 20);
    let ev = s.poll(1000).unwrap();
    assert_eq!(ev.pmsg, 20);
    assert!(s.poll(100_000).is_none());
}

#[test]
fn re_registering_an_earlier_deadline_fires_once() {
    let mut s = Scheduler::new();
    s.add_event(&TimedEvent::new(1, 1000, 0i32), 0);
    s.add_event(&TimedEvent::new(1, 10, 0i32), 0);
    let ev = s.poll(2000).unwrap();
    assert_eq!(ev.deadline, 10);
    assert!(s.poll(2000).is_none());
}

#[test]
fn reschedule_yields_to_new_registration_made_while_out() {
    let mut s = Scheduler::new();
    s.add_event(&TimedEvent::new(1, 100, 1i32), 0);
    let ev = s.poll(100).unwrap();
    assert_eq!(ev.pmsg, 1);
    s.add_event(&TimedEvent::new(1, 700, 2i32), 150);
    s.reschedule(160);
    let g = s.get(1).unwrap();
    assert_eq!(g.pmsg, 2);
    assert_eq!(g.deadline, 850);
}

#[test]
fn fired_event_stays_registered_while_out() {
    let mut s = Scheduler::new();
    s.add_event(&TimedEvent::new(9, 5, 4i32), 0);
    let ev = s.poll(5).unwrap();
    let g = s.get(9).unwrap();
    assert_eq!(g.pmsg, 4);
    assert_eq!(g.deadline, ev.deadline);
}

#[test]
fn poll_hands_back_the_event_still_out() {
    let mut s = Scheduler::new();
    s.add_event(&TimedEvent::new(1, 30, 0i32), 0);
    s.add_event(&TimedEvent::new(2, 0, 0i32), 0);
    assert_eq!(s.poll(0).unwrap().umsg, 2);
    assert_eq!(s.poll(40).unwrap().umsg, 1);
    assert_eq!(s.get(2).unwrap().deadline, 0);
    s.release(2);
    assert!(s.get(2).is_none());
    assert!(s.poll(40).is_none());
    assert_eq!(s.get(1).unwrap().deadline, 70);
}

#[test]
fn reschedule_with_nothing_out_changes_nothing() {
    let mut s = Scheduler::new();
    s.add_event(&TimedEvent::new(1, 30, 0i32), 0);
    s.reschedule(1000);
    assert_eq!(s.get(1).unwrap().deadline, 30);
    assert!(s.poll(29).is_none());
    assert_eq!(s.poll(30).unwrap().umsg, 1);
}

#[test]
fn deadline_is_held_at_end_of_clock() {
    let mut s = Scheduler::new();
    s.add_event(&TimedEvent::new(1, 1000, 0i32), u64::MAX - 5);
    assert_eq!(s.get(1).unwrap().deadline, u64::MAX);
    s.add_event(&TimedEvent::new(2, u64::MAX, 0i32), 3);
    assert_eq!(s.get(2).unwrap().deadline, u64::MAX);
}

#[test]
fn periodic_event_handed_back_at_end_of_clock() {
    let mut s = Scheduler::new();
    s.add_event(&TimedEvent::new(1, 10, 0i32), 0);
    let _ = s.poll(10).unwrap();
    s.reschedule(u64::MAX - 3);
    assert_eq!(s.get(1).unwrap().deadline, u64::MAX);
}

#[test]
fn deadline_may_reach_clock_limit() {
    let mut s = Scheduler::new();
    s.add_event(&TimedEvent::new(1, 10, 0i32), u64::MAX - 10);
    assert_eq!(s.get(1).unwrap().deadline, u64::MAX);
    assert!(s.poll(u64::MAX - 1).is_none());
    assert_eq!(s.poll(u64::MAX).unwrap().umsg, 1);
}

#[test]
fn zero_period_event_is_due_at_registration() {
    let mut s = Scheduler::new();
    s.add_event(&TimedEvent::new(5, 0, 0i32), 42);
    assert!(s.poll(41).is_none());
    assert_eq!(s.poll(42).unwrap().deadline, 42);
}

#[test]
fn update_of_unknown_id_reports_false_and_changes_nothing() {
    let mut s = Scheduler::new();
    s.add_event(&TimedEvent::new(1, 10, 0i32), 0);
    assert!(!s.update(2, 99, 5));
    assert!(s.get(2).is_none());
    let g = s.get(1).unwrap();
    assert_eq!(g.time, 10);
    assert_eq!(g.pmsg, 0);
}

#[test]
fn update_keeps_deadline_and_changes_period_and_payload() {
    let mut s = Scheduler::new();
    s.add_event(&TimedEvent::new(1, 100, 0i32), 0);
    assert!(s.update(1, 40, 8));
    let g = s.get(1).unwrap();
    assert_eq!((g.umsg, g.time, g.pmsg, g.deadline), (1, 40, 8, 100));
    assert!(s.poll(99).is_none());
    let ev = s.poll(100).unwrap();
    assert_eq!(ev.pmsg, 8);
    s.reschedule(100);
    assert_eq!(s.get(1).unwrap().deadline, 140);
}

#[test]
fn update_reaches_the_event_out_firing() {
    let mut s = Scheduler::new();
    s.add_event(&TimedEvent::new(3, 100, 1i32), 0);
    let _ = s.poll(100).unwrap();
    assert!(s.update(3, 0, 2));
    s.reschedule(110);
    assert!(s.poll(1_000_000).is_none());
    let g = s.get(3).unwrap();
    assert_eq!((g.time, g.pmsg, g.deadline), (0, 2, 100));
    assert!(s.update(3, 0, 5));
    assert_eq!(s.get(3).unwrap().pmsg, 5);
    s.release(3);
    assert!(!s.update(3, 0, 6));
}

#[test]
fn update_to_a_period_keeps_a_one_shot_alive() {
    let mut s = Scheduler::new();
    s.add_event(&TimedEvent::new(3, 0, 1i32), 0);
    let _ = s.poll(0).unwrap();
    assert!(s.update(3, 25, 1));
    s.reschedule(5);
    assert_eq!(s.get(3).unwrap().deadline, 30);
}

#[test]
fn periodic_firings_are_a_period_apart() {
    let mut s = Scheduler::new();
    s.add_event(&TimedEvent::new(1, 100, 0i32), 0);
    let mut fired_at = Vec::new();
    for now in (0..=1000u64).step_by(7) {
        if s.poll(now).is_some() {
            fired_at.push(now);
        }
        s.reschedule(now);
    }
    assert!(fired_at.len() >= 8);
    assert!(fired_at[0] >= 100);
    for w in fired_at.windows(2) {
        assert!(w[1] >= w[0] + 100);
    }
}
