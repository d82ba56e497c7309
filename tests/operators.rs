use rxcore::combine::{combine, Arrival};
use rxcore::filter::filter;
use rxcore::filter_map::filter_map;
use rxcore::fold::fold;
use rxcore::map_error::map_err;
use rxcore::merge::{merge, Source};
use rxcore::multicast::Multicast;
use rxcore::observable::BaseObservable;
use rxcore::signal::Signal;
use rxcore::skip::skip;
use rxcore::take::take;
use rxcore::tap::tap;
use std::cell::RefCell;

fn next<E>(x: i32) -> Signal<i32, E> {
    Signal::Next(x)
}

/// What a plain callback consumer keeps: the items.
fn received<I: Clone, E>(out: &[Signal<I, E>]) -> Vec<I> {
    let mut data = Vec::new();
    for s in out {
        if let Signal::Next(x) = s {
            data.push(x.clone());
        }
    }
    data
}

#[test]
fn sync() {
    let obs = BaseObservable::new(|sub: &mut Vec<Signal<i32, ()>>| {
        sub.push(Signal::Next(1));
        sub.push(Signal::Next(2));
        sub.push(Signal::Next(3));
    });
    let mut data = Vec::new();
    obs.start(&mut data);
    assert_eq!(&vec![1, 2, 3], &received(&data));
}

#[test]
fn map_it_works() {
    let source: Vec<Signal<i32, ()>> = vec![next(1), next(2), next(3)];
    let out = rxcore::map::map(|x: i32| x * 2, source);
    assert_eq!(&vec![2, 4, 6], &received(&out));
}

#[test]
fn filter_it_works() {
    let source: Vec<Signal<i32, ()>> = vec![next(1), next(2), next(3)];
    let out = filter(|x: &i32| *x > 1, source);
    assert_eq!(&vec![2, 3], &received(&out));
}

#[test]
fn filter_map_it_works() {
    let source: Vec<Signal<i32, ()>> = vec![next(1), next(1), next(2), next(3)];
    let out = filter_map(|x: i32| if x > 1 { Some(x * 2) } else { None }, source);
    assert_eq!(&vec![4, 6], &received(&out));
}

#[test]
fn fold_it_works() {
    let source: Vec<Signal<i32, ()>> = vec![next(1), next(2), next(3)];
    let out = fold(0, |sum: i32, x: i32| sum + x, source);
    assert_eq!(&vec![1, 3, 6], &received(&out));
}

#[test]
fn skip_it_works() {
    let source: Vec<Signal<i32, ()>> = vec![next(1), next(2), next(3), next(4), Signal::Completed];
    let out = skip(2, source);
    assert_eq!(&received(&out), &vec![3, 4]);
}

#[test]
fn take_it_works() {
    let source: Vec<Signal<i32, ()>> = vec![next(1), next(2), next(3)];
    let out = take(2, source);
    assert_eq!(&received(&out), &vec![1, 2]);
}

#[test]
fn map_error_it_works() {
    let source: Vec<Signal<i32, ()>> = vec![next(1), next(2), next(3), Signal::Error(())];
    let out = map_err(|_e: ()| "error", source);
    let mut data = Vec::new();
    for s in &out {
        match s {
            Signal::Next(x) => data.push(*x),
            Signal::Error(e) => {
                assert_eq!("error", *e);
                data.push(10);
            }
            Signal::Completed => {}
        }
    }
    assert_eq!(&vec![1, 2, 3, 10], &data);
}

#[test]
fn merge_it_works() {
    let arrivals: Vec<(Source, Signal<i64, ()>)> = vec![
        (Source::First, Signal::Next(1)),
        (Source::Second, Signal::Next(2)),
        (Source::First, Signal::Next(3)),
        (Source::Second, Signal::Next(1)),
        (Source::First, Signal::Next(2)),
        (Source::First, Signal::Completed),
        (Source::Second, Signal::Next(3)),
        (Source::Second, Signal::Completed),
    ];
    let out = merge(arrivals);
    let mut data = Vec::new();
    for s in &out {
        match s {
            Signal::Next(x) => data.push(*x),
            Signal::Error(_) => {}
            Signal::Completed => data.push(10),
        }
    }
    assert_eq!(&vec![1, 2, 3, 1, 2, 3, 10], &data);
}

#[test]
fn combine_it_works() {
    let arrivals: Vec<Arrival<i64, i64, ()>> = vec![
        Arrival::First(Signal::Next(1)),
        Arrival::Second(Signal::Next(2)),
        Arrival::First(Signal::Next(3)),
        Arrival::Second(Signal::Next(1)),
        Arrival::First(Signal::Next(2)),
        Arrival::First(Signal::Completed),
        Arrival::Second(Signal::Completed),
    ];
    let out = combine(arrivals);
    let mut data = Vec::new();
    for s in &out {
        match s {
            Signal::Next((x1, x2)) => data.push((*x1, *x2)),
            Signal::Error(_) => {}
            Signal::Completed => data.push((10, 10)),
        }
    }
    assert_eq!(&vec![(1, 2), (3, 2), (3, 1), (2, 1), (10, 10)], &data);
}

#[test]
fn lib_it_works() {
    let input: Vec<Signal<i32, ()>> = vec![next(1), next(2), next(3), next(4)];
    let once = RefCell::new(Vec::new());
    let tapped = tap(|x: &i32| once.borrow_mut().push(*x), input);

    // one upstream shared by two registered consumers
    let mut shared: Multicast<usize, ()> = Multicast::new();
    assert_eq!(shared.attach_upstream(()), None);
    let first = shared.subscribe(0);
    let second = shared.subscribe(1);
    assert_ne!(first, second);
    let mut branches: Vec<Vec<Signal<i32, ()>>> = vec![Vec::new(), Vec::new()];
    for signal in &tapped {
        for consumer in shared.observers() {
            branches[*consumer].push(signal.clone());
        }
    }
    let second_branch = branches.pop().unwrap();
    let first_branch = branches.pop().unwrap();

    let data1 = received(&rxcore::map::map(|x: i32| x * 2, filter(|x: &i32| *x > 1, first_branch)));
    let data2 = received(&fold(0, |sum: i32, x: i32| sum + x, filter(|x: &i32| *x < 4, second_branch)));

    assert_eq!(&vec![1, 2, 3, 4], &*once.borrow());
    assert_eq!(&vec![4, 6, 8], &data1);
    assert_eq!(&vec![1, 3, 6], &data2);
}

#[test]
fn flat_map_it_works() {
    let input: Vec<Signal<i64, &'static str>> =
        vec![Signal::Next(1), Signal::Next(2), Signal::Next(3), Signal::Completed];
    let out = rxcore::flat_map::flat_map(
        |x: i64| vec![Signal::Next(x + 1), Signal::Next(x + 2), Signal::Completed],
        input,
    );
    let mut data = Vec::new();
    for s in &out {
        match s {
            Signal::Next(x) => data.push(*x),
            Signal::Error(_) => assert_eq!("this", "never happen"),
            Signal::Completed => data.push(10),
        }
    }
    assert_eq!(&vec![2, 3, 3, 4, 4, 5, 10], &data);
}
