use vstd::prelude::*;

use crate::observer::BaseObserver;
use crate::signal::{guarded, lemma_guarded_live, lemma_guarded_prefix, lemma_guarded_push, live, Signal};

verus! {

/// Which of two upstreams a signal came from.
#[derive(PartialEq, Eq, Structural, Clone, Copy, Debug)]
pub enum Source {
    First,
    Second,
}

/// The completions seen so far from the two upstreams of a fan-in.
pub struct Completions {
    pub first: bool,
    pub second: bool,
}

impl Completions {
    pub fn new() -> (r: Self)
        ensures
            !r.first,
            !r.second,
    {
        Completions { first: false, second: false }
    }

    /// Records the completion of `side`; `true` when downstream completes
    /// now, that is when both upstreams have completed and one of them only
    /// just did.
    pub fn complete(&mut self, side: Source) -> (r: bool)
        ensures
            final(self).first == (old(self).first || side == Source::First),
            final(self).second == (old(self).second || side == Source::Second),
            r == (final(self).first && final(self).second && !(old(self).first
                && old(self).second)),
    {
        let before = self.first && self.second;
        match side {
            Source::First => self.first = true,
            Source::Second => self.second = true,
        }
        self.first && self.second && !before
    }
}

/// An upstream merged with another of the same item and error types.
pub struct MergeObservable<O, OO> {
    pub original: O,
    pub other: OO,
}

impl<O, OO> MergeObservable<O, OO> {
    pub fn new(original: O, other: OO) -> (r: Self)
        ensures
            r.original == original,
            r.other == other,
    {
        MergeObservable { original, other }
    }
}

/// Whether `side` has completed within the arrivals `s`.
pub open spec fn has_completed<I, E>(side: Source, s: Seq<(Source, Signal<I, E>)>) -> bool {
    exists|i: int| 0 <= i < s.len() && #[trigger] s[i] == (side, Signal::<I, E>::Completed)
}

/// What a merge sends downstream for the arrivals `s`, before the downstream
/// guard: every item and error as it comes, and one completion once both
/// upstreams have completed.
pub open spec fn merge_raw<I, E>(s: Seq<(Source, Signal<I, E>)>) -> Seq<Signal<I, E>>
    decreases s.len(),
{
    if s.len() == 0 {
        Seq::empty()
    } else {
        let p = s.drop_last();
        let (side, x) = s.last();
        match x {
            Signal::Completed => if has_completed(side.other(), p) && !has_completed(side, p) {
                merge_raw(p).push(Signal::Completed)
            } else {
                merge_raw(p)
            },
            _ => merge_raw(p).push(x),
        }
    }
}

impl Source {
    pub open spec fn other(self) -> Source {
        match self {
            Source::First => Source::Second,
            Source::Second => Source::First,
        }
    }
}

proof fn lemma_has_completed_push<I, E>(
    p: Seq<(Source, Signal<I, E>)>,
    e: (Source, Signal<I, E>),
    side: Source,
)
    ensures
        has_completed(side, p.push(e)) == (has_completed(side, p) || e == (
            side,
            Signal::<I, E>::Completed,
        )),
{
    let s = p.push(e);
    if has_completed(side, p) {
        let i = choose|i: int| 0 <= i < p.len() && #[trigger] p[i] == (side, Signal::<I, E>::Completed);
        assert(s[i] == p[i]);
    }
    if e == (side, Signal::<I, E>::Completed) {
        assert(s[p.len() as int] == e);
    }
    if has_completed(side, s) {
        let i = choose|i: int| 0 <= i < s.len() && #[trigger] s[i] == (side, Signal::<I, E>::Completed);
        if i < p.len() {
            assert(p[i] == s[i]);
        }
    }
}

/// What a subscriber of the merge receives when the two upstreams push the
/// arrivals of `source`, in order of arrival.
pub fn merge<I, E>(source: Vec<(Source, Signal<I, E>)>) -> (r: Vec<Signal<I, E>>)
    ensures
        r@ == guarded(merge_raw(source@)),
{
    let ghost src = source@;
    let mut done = Completions::new();
    let mut guard = BaseObserver::new(0, ());
    let mut out: Vec<Signal<I, E>> = Vec::new();
    for e in it: source.into_iter()
        invariant
            it.seq() == src,
            done.first == has_completed(Source::First, src.take(it.index() as int)),
            done.second == has_completed(Source::Second, src.take(it.index() as int)),
            guard.slot().is_some() == live(merge_raw(src.take(it.index() as int))),
            out@ == guarded(merge_raw(src.take(it.index() as int))),
    {
        let ghost p = src.take(it.index() as int);
        let ghost e0 = e;
        proof {
            assert(src.take(it.index() + 1) =~= p.push(e0));
            assert(p.push(e0).drop_last() =~= p);
            lemma_has_completed_push(p, e0, Source::First);
            lemma_has_completed_push(p, e0, Source::Second);
        }
        let (side, x) = e;
        let y = match x {
            Signal::Completed => if done.complete(side) {
                Some(Signal::Completed)
            } else {
                None
            },
            other => Some(other),
        };
        if let Some(y) = y {
            proof {
                lemma_guarded_push(merge_raw(p), y);
            }
            guard.deliver(y, &mut out);
        }
    }
    proof {
        assert(src.take(src.len() as int) =~= src);
    }
    out
}

proof fn lemma_merge_completes_late<I, E>(s: Seq<(Source, Signal<I, E>)>)
    ensures
        forall|k: int|
            0 <= k < merge_raw(s).len() && #[trigger] merge_raw(s)[k] == Signal::<I, E>::Completed
                ==> has_completed(Source::First, s) && has_completed(Source::Second, s),
    decreases s.len(),
{
    if s.len() > 0 {
        let p = s.drop_last();
        lemma_merge_completes_late(p);
        assert(p.push(s.last()) =~= s);
        lemma_has_completed_push(p, s.last(), Source::First);
        lemma_has_completed_push(p, s.last(), Source::Second);
    }
}

/// A merge completes downstream only after both upstreams have completed.
pub proof fn lemma_merge_completes_after_both<I, E>(s: Seq<(Source, Signal<I, E>)>)
    ensures
        guarded(merge_raw(s)).contains(Signal::Completed) ==> has_completed(Source::First, s)
            && has_completed(Source::Second, s),
{
    lemma_merge_completes_late(s);
    lemma_guarded_prefix(merge_raw(s));
}

proof fn lemma_merge_raw_items<I, E>(s: Seq<(Source, Signal<I, E>)>)
    requires
        forall|i: int| 0 <= i < s.len() ==> (#[trigger] s[i]).1 is Next,
    ensures
        merge_raw(s) == s.map_values(|e: (Source, Signal<I, E>)| e.1),
        live(merge_raw(s)),
    decreases s.len(),
{
    if s.len() > 0 {
        let p = s.drop_last();
        lemma_merge_raw_items(p);
        assert(p.map_values(|e: (Source, Signal<I, E>)| e.1).push(s.last().1) =~= s.map_values(
            |e: (Source, Signal<I, E>)| e.1,
        ));
        lemma_guarded_push(merge_raw(p), s.last().1);
    } else {
        assert(s.map_values(|e: (Source, Signal<I, E>)| e.1) =~= Seq::<Signal<I, E>>::empty());
    }
}

/// A merge forwards every item of either upstream exactly once, in order of
/// arrival.
pub proof fn lemma_merge_keeps_every_item<I, E>(s: Seq<(Source, Signal<I, E>)>)
    requires
        forall|i: int| 0 <= i < s.len() ==> (#[trigger] s[i]).1 is Next,
    ensures
        guarded(merge_raw(s)) == s.map_values(|e: (Source, Signal<I, E>)| e.1),
{
    lemma_merge_raw_items(s);
    lemma_guarded_live(merge_raw(s));
}

} // verus!
