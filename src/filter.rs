use vstd::prelude::*;

use crate::functions::{apply, call, is_function};
use crate::observer::BaseObserver;
use crate::signal::{guarded, items, live, lemma_guarded_live, lemma_guarded_push, lemma_live_items, Signal};

verus! {

/// An upstream whose items pass only where `filter` holds of them.
pub struct FilterObservable<F, O> {
    pub filter: F,
    pub original: O,
}

impl<F, O> FilterObservable<F, O> {
    pub fn new(original: O, filter: F) -> (r: Self)
        ensures
            r.original == original,
            r.filter == filter,
    {
        FilterObservable { filter, original }
    }

    /// Decides one upstream item: `true` forwards it.
    pub fn admits<I>(&self, item: &I) -> (r: bool)
        where
            F: Fn(&I) -> bool,
        requires
            is_function(self.filter),
        ensures
            r == apply(self.filter, item),
    {
        call(&self.filter, item)
    }
}

/// What `filter(pred)` sends downstream for the upstream signals `s`, before
/// the downstream guard: the items on which `pred` holds, and every terminal
/// signal.
pub open spec fn filter_raw<I, E, F: Fn(&I) -> bool>(pred: F, s: Seq<Signal<I, E>>) -> Seq<
    Signal<I, E>,
>
    decreases s.len(),
{
    if s.len() == 0 {
        Seq::empty()
    } else {
        let p = filter_raw(pred, s.drop_last());
        match s.last() {
            Signal::Next(v) => if apply(pred, &v) {
                p.push(s.last())
            } else {
                p
            },
            _ => p.push(s.last()),
        }
    }
}

/// What a subscriber of `filter(pred)` receives when the upstream pushes the
/// signals of `source`, in order.
pub fn filter<I, E, F: Fn(&I) -> bool>(pred: F, source: Vec<Signal<I, E>>) -> (r: Vec<Signal<I, E>>)
    requires
        is_function(pred),
    ensures
        r@ == guarded(filter_raw(pred, source@)),
{
    let ghost src = source@;
    let op = FilterObservable::new((), pred);
    let mut guard = BaseObserver::new(0, ());
    let mut out: Vec<Signal<I, E>> = Vec::new();
    for x in it: source.into_iter()
        invariant
            it.seq() == src,
            op.filter == pred,
            is_function(pred),
            guard.slot().is_some() == live(filter_raw(pred, src.take(it.index() as int))),
            out@ == guarded(filter_raw(pred, src.take(it.index() as int))),
    {
        let ghost p = src.take(it.index() as int);
        proof {
            assert(src.take(it.index() + 1).drop_last() =~= p);
        }
        let forward = match &x {
            Signal::Next(v) => op.admits(v),
            _ => true,
        };
        if forward {
            proof {
                lemma_guarded_push(filter_raw(pred, p), x);
            }
            guard.deliver(x, &mut out);
        }
    }
    proof {
        assert(src.take(src.len() as int) =~= src);
    }
    out
}

/// `filter(pred)` over any sequence of items `xs` forwards exactly the items
/// of `xs` on which `pred` holds, in their order.
pub proof fn lemma_filter_forwards_subsequence<I, E, F: Fn(&I) -> bool>(pred: F, xs: Seq<I>)
    ensures
        guarded(filter_raw(pred, items::<I, E>(xs))) == items::<I, E>(
            xs.filter(|x: I| apply(pred, &x)),
        ),
{
    let kept = xs.filter(|x: I| apply(pred, &x));
    lemma_filter_raw_items::<I, E, F>(pred, xs);
    lemma_live_items::<I, E>(kept);
    lemma_guarded_live(items::<I, E>(kept));
}

proof fn lemma_filter_raw_items<I, E, F: Fn(&I) -> bool>(pred: F, xs: Seq<I>)
    ensures
        filter_raw(pred, items::<I, E>(xs)) == items::<I, E>(xs.filter(|x: I| apply(pred, &x))),
    decreases xs.len(),
{
    reveal(Seq::filter);
    let s = items::<I, E>(xs);
    if xs.len() > 0 {
        lemma_filter_raw_items::<I, E, F>(pred, xs.drop_last());
        assert(s.drop_last() =~= items::<I, E>(xs.drop_last()));
        if apply(pred, &xs.last()) {
            assert(items::<I, E>(xs.drop_last().filter(|x: I| apply(pred, &x))).push(
                Signal::Next(xs.last()),
            ) =~= items::<I, E>(xs.filter(|x: I| apply(pred, &x))));
        }
    } else {
        assert(s =~= Seq::<Signal<I, E>>::empty());
        assert(xs.filter(|x: I| apply(pred, &x)) =~= Seq::<I>::empty());
    }
}

/// `filter(pred)` over the items `xs` followed by a terminal signal `t`
/// forwards the items of `xs` on which `pred` holds, in order, then `t`.
pub proof fn lemma_filter_then_terminal<I, E, F: Fn(&I) -> bool>(
    pred: F,
    xs: Seq<I>,
    t: Signal<I, E>,
)
    requires
        t.is_terminal(),
    ensures
        guarded(filter_raw(pred, items::<I, E>(xs).push(t))) == items::<I, E>(
            xs.filter(|x: I| apply(pred, &x)),
        ).push(t),
{
    let kept = xs.filter(|x: I| apply(pred, &x));
    lemma_filter_raw_items::<I, E, F>(pred, xs);
    assert(items::<I, E>(xs).push(t).drop_last() =~= items::<I, E>(xs));
    lemma_live_items::<I, E>(kept);
    lemma_guarded_live(items::<I, E>(kept));
    lemma_guarded_push(items::<I, E>(kept), t);
}

} // verus!
