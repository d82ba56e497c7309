use rxcore::combine::{combine, Arrival};
use rxcore::factory::{empty, from_iter, from_option, from_result, from_value, never, throw};
use rxcore::filter::filter;
use rxcore::flat_map::InnerSubscriptions;
use rxcore::fold::fold;
use rxcore::merge::{merge, Source};
use rxcore::multicast::Multicast;
use rxcore::observer::BaseObserver;
use rxcore::signal::Signal;
use rxcore::skip::skip;
use rxcore::take::take;

fn items(xs: &[i32]) -> Vec<Signal<i32, &'static str>> {
    xs.iter().map(|x| Signal::Next(*x)).collect()
}

fn items_then_completed(xs: &[i32]) -> Vec<Signal<i32, &'static str>> {
    let mut v = items(xs);
    v.push(Signal::Completed);
    v
}

#[test]
fn guard_passes_nothing_after_a_terminal_signal() {
    let source = vec![
        Signal::Next(1),
        Signal::Error("boom"),
        Signal::Next(2),
        Signal::Completed,
        Signal::Error("late"),
    ];
    let mut guard = BaseObserver::new(7, ());
    let mut out = Vec::new();
    for s in source {
        guard.deliver(s, &mut out);
    }
    assert_eq!(out, vec![Signal::Next(1), Signal::Error("boom")]);
    assert!(!guard.is_live());
    assert_eq!(guard.id(), 7);
}

#[test]
fn guard_hands_out_the_consumer_once() {
    let mut guard = BaseObserver::new(1, "sink");
    assert_eq!(guard.on_next(), Some(&"sink"));
    assert_eq!(guard.on_completed(), Some("sink"));
    assert_eq!(guard.on_error(), None);
    assert_eq!(guard.on_completed(), None);
    assert_eq!(guard.on_next(), None);
}

#[test]
fn dispose_drops_the_consumer_unsignalled() {
    let mut guard = BaseObserver::new(3, "sink");
    guard.dispose();
    assert!(!guard.is_live());
    assert_eq!(guard.on_completed(), None);
}

#[test]
fn filter_forwards_the_matching_subsequence_in_order() {
    let out = filter(|x: &i32| x % 2 == 0, items_then_completed(&[5, 2, 8, 3, 4]));
    assert_eq!(out, items_then_completed(&[2, 8, 4]));
}

#[test]
fn filter_passes_errors() {
    let out = filter(|x: &i32| *x > 10, vec![Signal::Next(1), Signal::Error("e")]);
    assert_eq!(out, vec![Signal::Error("e")]);
}

#[test]
fn take_forwards_the_first_items_then_completes() {
    let out = take(2, items_then_completed(&[1, 2, 3, 4]));
    assert_eq!(out, items_then_completed(&[1, 2]));
}

#[test]
fn take_of_a_short_source_forwards_everything() {
    let out = take(5, items_then_completed(&[1, 2, 3]));
    assert_eq!(out, items_then_completed(&[1, 2, 3]));
}

#[test]
fn take_zero_completes_on_the_first_item() {
    let out = take(0, items(&[9, 8]));
    assert_eq!(out, vec![Signal::Completed]);
}

#[test]
fn take_exact_length_completes_with_the_source() {
    let out = take(3, items_then_completed(&[1, 2, 3]));
    assert_eq!(out, items_then_completed(&[1, 2, 3]));
}

#[test]
fn skip_forwards_the_items_after_the_count() {
    let out = skip(2, items_then_completed(&[1, 2, 3, 4, 5]));
    assert_eq!(out, items_then_completed(&[3, 4, 5]));
}

#[test]
fn skip_of_a_short_source_forwards_only_the_completion() {
    let out = skip(4, items_then_completed(&[1, 2, 3]));
    assert_eq!(out, vec![Signal::Completed]);
    let out = skip(0, items_then_completed(&[1, 2]));
    assert_eq!(out, items_then_completed(&[1, 2]));
}

#[test]
fn fold_yields_the_running_sums() {
    let out = fold(0, |acc: i32, x: i32| acc + x, items_then_completed(&[1, 2, 3]));
    assert_eq!(out, items_then_completed(&[1, 3, 6]));
}

#[test]
fn merge_interleaves_in_arrival_order_and_completes_after_both() {
    let arrivals: Vec<(Source, Signal<i32, ()>)> = vec![
        (Source::First, Signal::Next(1)),
        (Source::Second, Signal::Next(2)),
        (Source::First, Signal::Next(3)),
        (Source::Second, Signal::Next(1)),
        (Source::First, Signal::Next(2)),
        (Source::Second, Signal::Next(3)),
        (Source::First, Signal::Completed),
    ];
    let out = merge(arrivals.clone());
    assert_eq!(
        out,
        vec![
            Signal::Next(1),
            Signal::Next(2),
            Signal::Next(3),
            Signal::Next(1),
            Signal::Next(2),
            Signal::Next(3)
        ]
    );
    let mut both = arrivals;
    both.push((Source::Second, Signal::Completed));
    let out = merge(both);
    assert_eq!(out.last(), Some(&Signal::Completed));
    assert_eq!(out.len(), 7);
}

#[test]
fn merge_forwards_the_first_error_only() {
    let arrivals: Vec<(Source, Signal<i32, &str>)> = vec![
        (Source::First, Signal::Next(1)),
        (Source::Second, Signal::Error("a")),
        (Source::First, Signal::Error("b")),
        (Source::First, Signal::Next(2)),
    ];
    assert_eq!(merge(arrivals), vec![Signal::Next(1), Signal::Error("a")]);
}

#[test]
fn combine_pairs_latest_items_and_completes_after_both() {
    let arrivals: Vec<Arrival<i32, i32, ()>> = vec![
        Arrival::First(Signal::Next(1)),
        Arrival::Second(Signal::Next(2)),
        Arrival::First(Signal::Next(3)),
        Arrival::Second(Signal::Next(1)),
        Arrival::First(Signal::Next(2)),
        Arrival::Second(Signal::Completed),
    ];
    let out = combine(arrivals);
    assert_eq!(
        out,
        vec![
            Signal::Next((1, 2)),
            Signal::Next((3, 2)),
            Signal::Next((3, 1)),
            Signal::Next((2, 1))
        ]
    );
}

#[test]
fn combine_drops_items_before_the_other_side_has_one() {
    let arrivals: Vec<Arrival<i32, char, ()>> = vec![
        Arrival::First(Signal::Next(1)),
        Arrival::First(Signal::Next(2)),
        Arrival::Second(Signal::Next('a')),
        Arrival::First(Signal::Completed),
        Arrival::Second(Signal::Completed),
    ];
    assert_eq!(combine(arrivals), vec![Signal::Next((2, 'a')), Signal::Completed]);
}

#[test]
fn share_subscribes_once_and_cancels_once_when_the_last_leaves() {
    let mut cancels = 0;
    let mut registry: Multicast<&str, u32> = Multicast::new();
    assert_eq!(registry.attach_upstream(41), None);
    assert_eq!(registry.attach_upstream(42), Some(42));
    let a = registry.subscribe("a");
    let b = registry.subscribe("b");
    let c = registry.subscribe("c");
    assert_eq!(registry.observers(), &vec!["a", "b", "c"]);
    for id in [b, a, c] {
        if let Some(sub) = registry.unsubscribe(id) {
            assert_eq!(sub, 41);
            cancels += 1;
        }
    }
    assert_eq!(cancels, 1);
    let d = registry.subscribe("d");
    assert_eq!(registry.unsubscribe(d), None);
    assert_eq!(registry.attach_upstream(43), Some(43));
}

#[test]
fn share_drain_lets_every_consumer_go() {
    let mut registry: Multicast<&str, u32> = Multicast::new();
    registry.attach_upstream(5);
    registry.subscribe("a");
    registry.subscribe("b");
    assert_eq!(registry.drain(), vec!["a", "b"]);
    assert!(registry.observers().is_empty());
}

#[test]
fn flat_map_completes_after_outer_and_every_inner() {
    let mut book: InnerSubscriptions<&str> = InnerSubscriptions::new();
    let first = book.spawn();
    let second = book.spawn();
    assert_ne!(first, second);
    assert_eq!(book.attach(first, "sub-1"), None);
    assert_eq!(book.attach(second, "sub-2"), None);
    assert!(!book.inner_completed(second));
    assert!(!book.outer_completed());
    assert!(book.inner_completed(first));
}

#[test]
fn flat_map_completes_on_outer_when_no_inner_runs() {
    let mut book: InnerSubscriptions<&str> = InnerSubscriptions::new();
    let only = book.spawn();
    assert!(!book.inner_completed(only));
    assert_eq!(book.attach(only, "late"), Some("late"));
    assert!(book.outer_completed());
}

#[test]
fn flat_map_cancel_hands_back_running_subscriptions() {
    let mut book: InnerSubscriptions<&str> = InnerSubscriptions::new();
    let a = book.spawn();
    let _b = book.spawn();
    let c = book.spawn();
    book.attach(a, "a");
    book.attach(c, "c");
    assert_eq!(book.cancel(), vec!["a", "c"]);
    assert!(book.outer_completed());
}

#[test]
fn factories_give_their_signals() {
    assert_eq!(empty::<i32, ()>(), vec![Signal::Completed]);
    assert_eq!(never::<i32, ()>(), vec![]);
    assert_eq!(throw::<i32, &str>("x"), vec![Signal::Error("x")]);
    assert_eq!(from_value::<i32, ()>(4), vec![Signal::Next(4), Signal::Completed]);
    assert_eq!(from_iter::<i32, ()>(vec![1, 2]), vec![Signal::Next(1), Signal::Next(2), Signal::Completed]);
    assert_eq!(from_result::<i32, &str>(Ok(3)), vec![Signal::Next(3), Signal::Completed]);
    assert_eq!(from_result::<i32, &str>(Err("no")), vec![Signal::Error("no")]);
    assert_eq!(from_option::<i32, ()>(Some(8)), vec![Signal::Next(8), Signal::Completed]);
    assert_eq!(from_option::<i32, ()>(None), vec![Signal::Completed]);
}

#[test]
fn flat_map_waits_for_an_unfinished_inner() {
    let input: Vec<Signal<i32, &str>> = vec![Signal::Next(1), Signal::Next(2), Signal::Completed];
    let out = rxcore::flat_map::flat_map(
        |x: i32| {
            if x == 2 {
                vec![Signal::Next(20)]
            } else {
                vec![Signal::Next(10), Signal::Completed]
            }
        },
        input,
    );
    assert_eq!(out, vec![Signal::Next(10), Signal::Next(20)]);
}

#[test]
fn flat_map_forwards_an_inner_error_at_once() {
    let input: Vec<Signal<i32, &str>> = vec![Signal::Next(1), Signal::Next(2), Signal::Completed];
    let out = rxcore::flat_map::flat_map(
        |x: i32| vec![Signal::Next(x), Signal::Error("inner"), Signal::Next(99)],
        input,
    );
    assert_eq!(out, vec![Signal::Next(1), Signal::Error("inner")]);
}

#[test]
fn guard_replay_passes_the_prefix_up_to_the_first_terminal() {
    let mut guard = BaseObserver::new(2, ());
    let out = guard.replay(vec![Signal::Next(1), Signal::Completed, Signal::Next(2), Signal::Error("x")]);
    assert_eq!(out, vec![Signal::Next(1), Signal::Completed]);
    assert!(!guard.is_live());
    assert_eq!(guard.replay(vec![Signal::<i32, &str>::Next(3)]), vec![]);
}

#[test]
fn tap_calls_its_function_on_each_item_in_order() {
    let seen = std::cell::RefCell::new(Vec::new());
    let out = rxcore::tap::tap(
        |x: &i32| seen.borrow_mut().push(*x),
        vec![Signal::<i32, &str>::Next(4), Signal::Next(5), Signal::Next(6), Signal::Error("e")],
    );
    assert_eq!(*seen.borrow(), vec![4, 5, 6]);
    assert_eq!(out, vec![Signal::Next(4), Signal::Next(5), Signal::Next(6), Signal::Error("e")]);
}

#[test]
fn flat_map_bookkeeping_cancels_only_open_inners() {
    let mut book: InnerSubscriptions<&str> = InnerSubscriptions::new();
    let a = book.spawn();
    let b = book.spawn();
    let c = book.spawn();
    assert_eq!(book.attach(a, "a"), None);
    assert_eq!(book.attach(b, "b"), None);
    assert_eq!(book.attach(c, "c"), None);
    assert!(!book.inner_completed(b));
    assert_eq!(book.cancel(), vec!["a", "c"]);
}

#[test]
fn take_completes_on_the_next_item_whatever_follows() {
    let mut source = items(&[1, 2, 3]);
    source.push(Signal::Error("late"));
    assert_eq!(take(2, source), items_then_completed(&[1, 2]));
}

#[test]
fn skip_and_filter_pass_any_terminal() {
    let mut source = items(&[1, 2, 3]);
    source.push(Signal::Error("e"));
    assert_eq!(skip(1, source.clone()), vec![Signal::Next(2), Signal::Next(3), Signal::Error("e")]);
    assert_eq!(filter(|x: &i32| *x != 2, source), vec![Signal::Next(1), Signal::Next(3), Signal::Error("e")]);
}
