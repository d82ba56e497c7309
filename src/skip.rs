use vstd::prelude::*;

use crate::observer::BaseObserver;
use crate::signal::{guarded, items, live, lemma_guarded_live, lemma_guarded_push, lemma_live_items, Signal};

verus! {

/// An upstream whose first `count` items are dropped.
pub struct SkipObservable<O> {
    pub original: O,
    pub count: u64,
}

impl<O> SkipObservable<O> {
    pub fn new(original: O, count: u64) -> (r: Self)
        ensures
            r.original == original,
            r.count == count,
    {
        SkipObservable { original, count }
    }
}

/// How many items `skip(n)` still drops after `s` came from upstream.
pub open spec fn skip_left<I, E>(n: nat, s: Seq<Signal<I, E>>) -> nat
    decreases s.len(),
{
    if s.len() == 0 {
        n
    } else {
        let m = skip_left(n, s.drop_last());
        if s.last() is Next && m > 0 {
            (m - 1) as nat
        } else {
            m
        }
    }
}

/// What `skip(n)` sends downstream for the upstream signals `s`, before the
/// downstream guard: the items once the count is spent, and every terminal
/// signal as it comes.
pub open spec fn skip_raw<I, E>(n: nat, s: Seq<Signal<I, E>>) -> Seq<Signal<I, E>>
    decreases s.len(),
{
    if s.len() == 0 {
        Seq::empty()
    } else {
        let p = s.drop_last();
        if s.last() is Next && skip_left(n, p) > 0 {
            skip_raw(n, p)
        } else {
            skip_raw(n, p).push(s.last())
        }
    }
}

/// Decides one upstream item of `skip`, given the count still to drop:
/// `true` forwards it, `false` drops it and counts it.
pub fn skip_admit(remaining: &mut u64) -> (forward: bool)
    ensures
        forward == (*old(remaining) == 0),
        *final(remaining) == if forward {
            *old(remaining)
        } else {
            (*old(remaining) - 1) as u64
        },
{
    if *remaining == 0 {
        true
    } else {
        *remaining = *remaining - 1;
        false
    }
}

/// What a subscriber of `skip(count)` receives when the upstream pushes the
/// signals of `source`, in order.
pub fn skip<I, E>(count: u64, source: Vec<Signal<I, E>>) -> (r: Vec<Signal<I, E>>)
    ensures
        r@ == guarded(skip_raw(count as nat, source@)),
{
    let ghost src = source@;
    let mut remaining: u64 = count;
    let mut guard = BaseObserver::new(0, ());
    let mut out: Vec<Signal<I, E>> = Vec::new();
    for x in it: source.into_iter()
        invariant
            it.seq() == src,
            remaining as nat == skip_left(count as nat, src.take(it.index() as int)),
            guard.slot().is_some() == live(skip_raw(count as nat, src.take(it.index() as int))),
            out@ == guarded(skip_raw(count as nat, src.take(it.index() as int))),
    {
        let ghost p = src.take(it.index() as int);
        proof {
            assert(src.take(it.index() + 1).drop_last() =~= p);
        }
        let forward = if x.is_next() {
            skip_admit(&mut remaining)
        } else {
            true
        };
        if forward {
            proof {
                lemma_guarded_push(skip_raw(count as nat, p), x);
            }
            guard.deliver(x, &mut out);
        }
    }
    proof {
        assert(src.take(src.len() as int) =~= src);
    }
    out
}

proof fn lemma_skip_prefix<I, E>(n: nat, xs: Seq<I>, k: nat)
    requires
        k <= xs.len(),
    ensures
        k <= n ==> skip_left(n, items::<I, E>(xs.take(k as int))) == n - k,
        k <= n ==> skip_raw(n, items::<I, E>(xs.take(k as int))) == Seq::<Signal<I, E>>::empty(),
        k > n ==> skip_left(n, items::<I, E>(xs.take(k as int))) == 0,
        k > n ==> skip_raw(n, items::<I, E>(xs.take(k as int))) == items::<I, E>(
            xs.subrange(n as int, k as int),
        ),
    decreases k,
{
    let s = items::<I, E>(xs.take(k as int));
    if k > 0 {
        let k1 = (k - 1) as nat;
        lemma_skip_prefix::<I, E>(n, xs, k1);
        let p = items::<I, E>(xs.take(k1 as int));
        assert(s.drop_last() =~= p);
        assert(s.last() == Signal::<I, E>::Next(xs[k1 as int]));
        if k > n {
            assert(items::<I, E>(xs.subrange(n as int, k1 as int)).push(Signal::Next(xs[k1 as int]))
                =~= items::<I, E>(xs.subrange(n as int, k as int)));
        }
    } else {
        assert(s =~= Seq::<Signal<I, E>>::empty());
    }
}

/// `skip(n)` over the items `xs` followed by a completion forwards the items
/// after position `n`, none when `xs` holds `n` items or fewer, and then the
/// completion.
pub proof fn lemma_skip_forwards_suffix<I, E>(n: nat, xs: Seq<I>)
    ensures
        guarded(skip_raw(n, items::<I, E>(xs).push(Signal::Completed))) == if xs.len() > n {
            items::<I, E>(xs.skip(n as int)).push(Signal::Completed)
        } else {
            Seq::<Signal<I, E>>::empty().push(Signal::Completed)
        },
{
    let s = items::<I, E>(xs).push(Signal::Completed);
    let k = xs.len();
    lemma_skip_prefix::<I, E>(n, xs, k);
    assert(xs.take(k as int) =~= xs);
    assert(s.drop_last() =~= items::<I, E>(xs));
    let raw = skip_raw(n, items::<I, E>(xs));
    lemma_guarded_push(raw, Signal::<I, E>::Completed);
    if k > n {
        assert(xs.subrange(n as int, k as int) =~= xs.skip(n as int));
        lemma_live_items::<I, E>(xs.skip(n as int));
    }
    lemma_guarded_live(raw);
}

/// `skip(n)` over the items `xs` followed by a terminal signal `t` forwards
/// the items after position `n`, none when `xs` holds `n` items or fewer,
/// and then `t`.
pub proof fn lemma_skip_then_terminal<I, E>(n: nat, xs: Seq<I>, t: Signal<I, E>)
    requires
        t.is_terminal(),
    ensures
        guarded(skip_raw(n, items::<I, E>(xs).push(t))) == if xs.len() > n {
            items::<I, E>(xs.skip(n as int)).push(t)
        } else {
            Seq::<Signal<I, E>>::empty().push(t)
        },
{
    let s = items::<I, E>(xs).push(t);
    let k = xs.len();
    lemma_skip_prefix::<I, E>(n, xs, k);
    assert(xs.take(k as int) =~= xs);
    assert(s.drop_last() =~= items::<I, E>(xs));
    let raw = skip_raw(n, items::<I, E>(xs));
    lemma_guarded_push(raw, t);
    if k > n {
        assert(xs.subrange(n as int, k as int) =~= xs.skip(n as int));
        lemma_live_items::<I, E>(xs.skip(n as int));
    }
    lemma_guarded_live(raw);
}

} // verus!
