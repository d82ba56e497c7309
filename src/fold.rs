use vstd::prelude::*;

use crate::functions::{apply2, call2, is_function2};
use crate::observer::BaseObserver;
use crate::signal::{guarded, items, lemma_guarded_live, lemma_guarded_push, lemma_live_items, live, Signal};

verus! {

/// An upstream turned into the running accumulation of its items: each item
/// forwards `fold(accumulator, item)`, which becomes the new accumulator.
pub struct FoldObservable<A, F, O> {
    pub fold: F,
    pub original: O,
    pub init: A,
}

impl<A, F, O> FoldObservable<A, F, O> {
    pub fn new(original: O, init: A, fold: F) -> (r: Self)
        ensures
            r.original == original,
            r.init == init,
            r.fold == fold,
    {
        FoldObservable { fold, original, init }
    }

    /// Folds `item` into the accumulator and hands back a copy of the new
    /// accumulator for forwarding.
    pub fn accumulate<I>(&self, acc: &mut A, item: I) -> (r: A)
        where
            A: Copy,
            F: Fn(A, I) -> A,
        requires
            is_function2(self.fold),
        ensures
            r == apply2(self.fold, *old(acc), item),
            *final(acc) == r,
    {
        let next = call2(&self.fold, *acc, item);
        *acc = next;
        next
    }
}

/// The accumulator of `fold(init, f)` after the upstream signals `s`.
pub open spec fn fold_acc<A, I, E, F: Fn(A, I) -> A>(f: F, init: A, s: Seq<Signal<I, E>>) -> A
    decreases s.len(),
{
    if s.len() == 0 {
        init
    } else {
        let a = fold_acc(f, init, s.drop_last());
        match s.last() {
            Signal::Next(v) => apply2(f, a, v),
            _ => a,
        }
    }
}

/// What `fold(init, f)` sends downstream for the upstream signals `s`, before
/// the downstream guard: for each item the new accumulator, and every
/// terminal signal.
pub open spec fn fold_raw<A, I, E, F: Fn(A, I) -> A>(f: F, init: A, s: Seq<Signal<I, E>>) -> Seq<
    Signal<A, E>,
>
    decreases s.len(),
{
    if s.len() == 0 {
        Seq::empty()
    } else {
        let p = fold_raw(f, init, s.drop_last());
        match s.last() {
            Signal::Next(v) => p.push(Signal::Next(fold_acc(f, init, s))),
            Signal::Error(e) => p.push(Signal::Error(e)),
            Signal::Completed => p.push(Signal::Completed),
        }
    }
}

/// What a subscriber of `fold(init, f)` receives when the upstream pushes
/// the signals of `source`, in order: one accumulator per item.
pub fn fold<A: Copy, I, E, F: Fn(A, I) -> A>(init: A, f: F, source: Vec<Signal<I, E>>) -> (r: Vec<
    Signal<A, E>,
>)
    requires
        is_function2(f),
    ensures
        r@ == guarded(fold_raw(f, init, source@)),
{
    let ghost src = source@;
    let op = FoldObservable::new((), init, f);
    let mut acc: A = init;
    let mut guard = BaseObserver::new(0, ());
    let mut out: Vec<Signal<A, E>> = Vec::new();
    for x in it: source.into_iter()
        invariant
            it.seq() == src,
            op.fold == f,
            is_function2(f),
            acc == fold_acc(f, init, src.take(it.index() as int)),
            guard.slot().is_some() == live(fold_raw(f, init, src.take(it.index() as int))),
            out@ == guarded(fold_raw(f, init, src.take(it.index() as int))),
    {
        let ghost p = src.take(it.index() as int);
        proof {
            assert(src.take(it.index() + 1).drop_last() =~= p);
        }
        let y = match x {
            Signal::Next(v) => Signal::Next(op.accumulate(&mut acc, v)),
            Signal::Error(e) => Signal::Error(e),
            Signal::Completed => Signal::Completed,
        };
        proof {
            lemma_guarded_push(fold_raw(f, init, p), y);
        }
        guard.deliver(y, &mut out);
    }
    proof {
        assert(src.take(src.len() as int) =~= src);
    }
    out
}

proof fn lemma_fold_raw_items<A, I, E, F: Fn(A, I) -> A>(f: F, init: A, xs: Seq<I>)
    ensures
        fold_raw(f, init, items::<I, E>(xs)).len() == xs.len(),
        fold_acc(f, init, items::<I, E>(xs)) == xs.fold_left(init, |a: A, x: I| apply2(f, a, x)),
        forall|k: int|
            0 <= k < xs.len() ==> #[trigger] fold_raw(f, init, items::<I, E>(xs))[k] == Signal::<
                A,
                E,
            >::Next(xs.take(k + 1).fold_left(init, |a: A, x: I| apply2(f, a, x))),
    decreases xs.len(),
{
    let s = items::<I, E>(xs);
    if xs.len() > 0 {
        let p = xs.drop_last();
        lemma_fold_raw_items::<A, I, E, F>(f, init, p);
        assert(s.drop_last() =~= items::<I, E>(p));
        assert(xs.take(xs.len() as int) =~= xs);
        assert forall|k: int| 0 <= k < p.len() implies #[trigger] xs.take(k + 1) == p.take(k + 1) by {
            assert(xs.take(k + 1) =~= p.take(k + 1));
        }
    } else {
        assert(s =~= Seq::<Signal<I, E>>::empty());
    }
}

/// `fold(init, f)` over the items `xs` forwards one accumulator per item:
/// the `k`-th is `f` folded over the first `k + 1` items, from `init`.
pub proof fn lemma_fold_running_accumulation<A, I, E, F: Fn(A, I) -> A>(f: F, init: A, xs: Seq<I>)
    ensures
        guarded(fold_raw(f, init, items::<I, E>(xs))).len() == xs.len(),
        forall|k: int|
            0 <= k < xs.len() ==> #[trigger] guarded(fold_raw(f, init, items::<I, E>(xs)))[k]
                == Signal::<A, E>::Next(xs.take(k + 1).fold_left(init, |a: A, x: I| apply2(f, a, x))),
{
    lemma_fold_raw_items::<A, I, E, F>(f, init, xs);
    let out = fold_raw(f, init, items::<I, E>(xs));
    let accs = Seq::new(xs.len(), |k: int| xs.take(k + 1).fold_left(init, |a: A, x: I| apply2(f, a, x)));
    assert(out =~= items::<A, E>(accs));
    lemma_live_items::<A, E>(accs);
    lemma_guarded_live(out);
}

} // verus!
