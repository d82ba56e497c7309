use rxcore::factory::{create, subject};
use rxcore::filter_map::filter_map;
use rxcore::map_error::map_err;
use rxcore::merge::{Completions, Source};
use rxcore::registry::Registry;
use rxcore::scheduler::Scheduler;
use rxcore::signal::Signal;
use rxcore::skip::skip_admit;
use rxcore::subject::Subject;
use rxcore::subscription::Subscription;
use rxcore::take::take_admit;
use rxcore::tap::tap;
use rxcore::thread::PendingSubscription;
use rxcore::timer::Interval;
use std::cell::Cell;

#[test]
fn subscription_runs_its_teardown() {
    let runs = Cell::new(0);
    let sub = Subscription::new(|| runs.set(runs.get() + 1));
    sub.unsubscribe();
    assert_eq!(runs.get(), 1);
}

#[test]
fn scheduler_hands_the_work_to_its_executor() {
    let ran = Cell::new(0);
    let scheduler = Scheduler::new(|work: Box<dyn FnOnce() -> i32>| ran.set(work()));
    scheduler.run(Box::new(|| 5));
    assert_eq!(ran.get(), 5);
}

#[test]
fn created_observable_starts_on_its_consumer() {
    let obs = create(|sink: &mut Vec<i32>| sink.push(7));
    let mut sink = Vec::new();
    obs.start(&mut sink);
    assert_eq!(sink, vec![7]);
}

#[test]
fn subject_replaces_silently_and_ignores_stale_cancellation() {
    let mut slot: Subject<&str> = subject();
    assert_eq!(slot.current(), None);
    assert_eq!(slot.subscribe(1, "first"), None);
    assert_eq!(slot.subscribe(2, "second"), Some("first"));
    assert_eq!(slot.unsubscribe(1), None);
    assert_eq!(slot.current(), Some(&"second"));
    assert_eq!(slot.unsubscribe(2), Some("second"));
    assert_eq!(slot.current(), None);
}

#[test]
fn subject_terminal_takes_the_occupant() {
    let mut slot: Subject<&str> = Subject::new();
    slot.subscribe(4, "only");
    assert_eq!(slot.take(), Some("only"));
    assert_eq!(slot.take(), None);
}

#[test]
fn counters_of_take_and_skip() {
    let mut left = 1;
    assert!(take_admit(&mut left));
    assert_eq!(left, 0);
    assert!(!take_admit(&mut left));
    let mut drop = 1;
    assert!(!skip_admit(&mut drop));
    assert_eq!(drop, 0);
    assert!(skip_admit(&mut drop));
}

#[test]
fn completions_fire_once_both_sides_are_done() {
    let mut done = Completions::new();
    assert!(!done.complete(Source::Second));
    assert!(!done.complete(Source::Second));
    assert!(done.complete(Source::First));
    assert!(!done.complete(Source::First));
}

#[test]
fn pending_subscription_cancel_before_fill_is_a_no_op() {
    let mut pending: PendingSubscription<u8> = PendingSubscription::new();
    assert_eq!(pending.cancel(), None);
    pending.fill(3);
    assert_eq!(pending.cancel(), Some(3));
    assert_eq!(pending.cancel(), None);
}

#[test]
fn registry_hands_out_fresh_identifiers() {
    let mut reg: Registry<char> = Registry::new();
    let a = reg.insert('a');
    let b = reg.insert('b');
    let c = reg.insert('c');
    assert_eq!((a, b, c), (0, 1, 2));
    assert_eq!(reg.remove(b), Some('b'));
    assert_eq!(reg.remove(b), None);
    assert_eq!(reg.replace(c, 'z'), None);
    assert_eq!(reg.replace(b, 'y'), Some('y'));
    assert_eq!(reg.values(), &vec!['a', 'z']);
    assert_eq!(reg.insert('d'), 3);
    assert_eq!(reg.take_all(), vec!['a', 'z', 'd']);
    assert!(reg.is_empty());
}

#[test]
fn filter_map_and_map_err_transform() {
    let out = filter_map(|x: i32| if x % 3 == 0 { Some(x / 3) } else { None }, vec![
        Signal::<i32, u8>::Next(3),
        Signal::Next(4),
        Signal::Next(9),
        Signal::Error(1),
    ]);
    assert_eq!(out, vec![Signal::Next(1), Signal::Next(3), Signal::Error(1)]);
    let out = map_err(|e: u8| e + 1, vec![Signal::<i32, u8>::Next(1), Signal::Error(4)]);
    assert_eq!(out, vec![Signal::Next(1), Signal::Error(5)]);
    let out = rxcore::map::map(|x: i32| x - 1, vec![Signal::<i32, u8>::Next(1), Signal::Completed, Signal::Next(5)]);
    assert_eq!(out, vec![Signal::Next(0), Signal::Completed]);
}

#[test]
fn tap_sees_each_item_and_forwards_it() {
    let seen = Cell::new(0);
    let out = tap(|x: &i32| seen.set(seen.get() + *x), vec![Signal::<i32, ()>::Next(2), Signal::Next(5)]);
    assert_eq!(seen.get(), 7);
    assert_eq!(out, vec![Signal::Next(2), Signal::Next(5)]);
}

#[test]
fn interval_keeps_its_period() {
    assert_eq!(Interval::new(250).time(), 250);
}
