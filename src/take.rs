use vstd::prelude::*;

use crate::observer::BaseObserver;
use crate::signal::{guarded, items, live, lemma_guarded_live, lemma_guarded_push, lemma_live_items, Signal};

verus! {

/// An upstream limited to its first `count` items.
pub struct TakeObservable<O> {
    pub original: O,
    pub count: u64,
}

impl<O> TakeObservable<O> {
    pub fn new(original: O, count: u64) -> (r: Self)
        ensures
            r.original == original,
            r.count == count,
    {
        TakeObservable { original, count }
    }
}

/// How many items `take(n)` still forwards after `s` came from upstream.
pub open spec fn take_left<I, E>(n: nat, s: Seq<Signal<I, E>>) -> nat
    decreases s.len(),
{
    if s.len() == 0 {
        n
    } else {
        let m = take_left(n, s.drop_last());
        if s.last() is Next && m > 0 {
            (m - 1) as nat
        } else {
            m
        }
    }
}

/// What `take(n)` sends downstream for the upstream signals `s`, before the
/// downstream guard: an item while the count lasts, a completion in place of
/// each item after that, and every terminal signal as it comes.
pub open spec fn take_raw<I, E>(n: nat, s: Seq<Signal<I, E>>) -> Seq<Signal<I, E>>
    decreases s.len(),
{
    if s.len() == 0 {
        Seq::empty()
    } else {
        let p = s.drop_last();
        if s.last() is Next && take_left(n, p) == 0 {
            take_raw(n, p).push(Signal::Completed)
        } else {
            take_raw(n, p).push(s.last())
        }
    }
}

/// Decides one upstream item of `take`, given the count still to forward:
/// `true` forwards it and counts it, `false` completes downstream instead.
pub fn take_admit(remaining: &mut u64) -> (forward: bool)
    ensures
        forward == (*old(remaining) > 0),
        *final(remaining) == if forward {
            (*old(remaining) - 1) as u64
        } else {
            *old(remaining)
        },
{
    if *remaining == 0 {
        false
    } else {
        *remaining = *remaining - 1;
        true
    }
}

/// What a subscriber of `take(count)` receives when the upstream pushes the
/// signals of `source`, in order.
pub fn take<I, E>(count: u64, source: Vec<Signal<I, E>>) -> (r: Vec<Signal<I, E>>)
    ensures
        r@ == guarded(take_raw(count as nat, source@)),
{
    let ghost src = source@;
    let mut remaining: u64 = count;
    let mut guard = BaseObserver::new(0, ());
    let mut out: Vec<Signal<I, E>> = Vec::new();
    for x in it: source.into_iter()
        invariant
            it.seq() == src,
            remaining as nat == take_left(count as nat, src.take(it.index() as int)),
            guard.slot().is_some() == live(take_raw(count as nat, src.take(it.index() as int))),
            out@ == guarded(take_raw(count as nat, src.take(it.index() as int))),
    {
        let ghost p = src.take(it.index() as int);
        proof {
            assert(src.take(it.index() + 1).drop_last() =~= p);
        }
        let y = if x.is_next() {
            if take_admit(&mut remaining) {
                x
            } else {
                Signal::Completed
            }
        } else {
            x
        };
        proof {
            lemma_guarded_push(take_raw(count as nat, p), y);
        }
        guard.deliver(y, &mut out);
    }
    proof {
        assert(src.take(src.len() as int) =~= src);
    }
    out
}

proof fn lemma_take_prefix<I, E>(n: nat, xs: Seq<I>, k: nat)
    requires
        k <= xs.len(),
    ensures
        k <= n ==> take_left(n, items::<I, E>(xs.take(k as int))) == n - k,
        k <= n ==> take_raw(n, items::<I, E>(xs.take(k as int))) == items::<I, E>(xs.take(k as int)),
        k > n ==> take_left(n, items::<I, E>(xs.take(k as int))) == 0,
        k > n ==> !live(take_raw(n, items::<I, E>(xs.take(k as int)))),
        k > n ==> guarded(take_raw(n, items::<I, E>(xs.take(k as int)))) == items::<I, E>(
            xs.take(n as int),
        ).push(Signal::Completed),
    decreases k,
{
    let s = items::<I, E>(xs.take(k as int));
    if k > 0 {
        let k1 = (k - 1) as nat;
        lemma_take_prefix::<I, E>(n, xs, k1);
        let p = items::<I, E>(xs.take(k1 as int));
        assert(s.drop_last() =~= p);
        assert(s.last() == Signal::<I, E>::Next(xs[k1 as int]));
        if k <= n {
            assert(p.push(Signal::Next(xs[k1 as int])) =~= s);
        } else if k1 == n {
            lemma_live_items::<I, E>(xs.take(k1 as int));
            lemma_guarded_live(p);
            lemma_guarded_push(p, Signal::<I, E>::Completed);
        } else {
            lemma_guarded_push(take_raw(n, p), Signal::<I, E>::Completed);
        }
    } else {
        assert(s =~= Seq::<Signal<I, E>>::empty());
    }
}

/// `take(n)` over the items `xs` followed by a completion forwards the first
/// `n` items and then completes when `xs` holds at least `n` items, and
/// forwards all of `xs` and the completion when it holds fewer.
pub proof fn lemma_take_forwards_prefix<I, E>(n: nat, xs: Seq<I>)
    ensures
        guarded(take_raw(n, items::<I, E>(xs).push(Signal::Completed))) == if xs.len() >= n {
            items::<I, E>(xs.take(n as int)).push(Signal::Completed)
        } else {
            items::<I, E>(xs).push(Signal::Completed)
        },
{
    let s = items::<I, E>(xs).push(Signal::Completed);
    let k = xs.len();
    lemma_take_prefix::<I, E>(n, xs, k);
    assert(xs.take(k as int) =~= xs);
    assert(s.drop_last() =~= items::<I, E>(xs));
    let raw = take_raw(n, items::<I, E>(xs));
    lemma_guarded_push(raw, Signal::<I, E>::Completed);
    if k <= n {
        lemma_live_items::<I, E>(xs);
        lemma_guarded_live(raw);
        if k == n {
            assert(xs.take(n as int) =~= xs);
        }
    }
}

proof fn lemma_take_stopped<I, E>(n: nat, a: Seq<Signal<I, E>>, rest: Seq<Signal<I, E>>)
    requires
        !live(take_raw(n, a)),
    ensures
        !live(take_raw(n, a + rest)),
        guarded(take_raw(n, a + rest)) == guarded(take_raw(n, a)),
    decreases rest.len(),
{
    if rest.len() == 0 {
        assert(a + rest =~= a);
    } else {
        let r0 = rest.drop_last();
        lemma_take_stopped(n, a, r0);
        assert((a + rest).drop_last() =~= a + r0);
        let raw0 = take_raw(n, a + r0);
        if (a + rest).last() is Next && take_left(n, a + r0) == 0 {
            lemma_guarded_push(raw0, Signal::<I, E>::Completed);
        } else {
            lemma_guarded_push(raw0, (a + rest).last());
        }
    }
}

/// `take(n)` over more than `n` items `xs`, whatever follows them, forwards
/// the first `n` items and then one completion, in place of the next item.
pub proof fn lemma_take_completes_on_next_item<I, E>(n: nat, xs: Seq<I>, rest: Seq<Signal<I, E>>)
    requires
        xs.len() > n,
    ensures
        guarded(take_raw(n, items::<I, E>(xs) + rest)) == items::<I, E>(xs.take(n as int)).push(
            Signal::Completed,
        ),
{
    lemma_take_prefix::<I, E>(n, xs, xs.len());
    assert(xs.take(xs.len() as int) =~= xs);
    lemma_take_stopped(n, items::<I, E>(xs), rest);
}

/// `take(n)` over at most `n` items `xs` followed by a terminal signal `t`
/// forwards all of `xs`, then `t`.
pub proof fn lemma_take_short_then_terminal<I, E>(n: nat, xs: Seq<I>, t: Signal<I, E>)
    requires
        xs.len() <= n,
        t.is_terminal(),
    ensures
        guarded(take_raw(n, items::<I, E>(xs).push(t))) == items::<I, E>(xs).push(t),
{
    let k = xs.len();
    lemma_take_prefix::<I, E>(n, xs, k);
    assert(xs.take(k as int) =~= xs);
    assert(items::<I, E>(xs).push(t).drop_last() =~= items::<I, E>(xs));
    lemma_live_items::<I, E>(xs);
    lemma_guarded_live(items::<I, E>(xs));
    lemma_guarded_push(items::<I, E>(xs), t);
}

} // verus!
