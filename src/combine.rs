use vstd::prelude::*;

use crate::merge::Completions;
use crate::merge::Source;
use crate::observer::BaseObserver;
use crate::signal::{guarded, lemma_guarded_prefix, lemma_guarded_push, live, Signal};

verus! {

/// An upstream combined with another of the same error type into pairs of
/// their latest items.
pub struct CombineObservable<O, OO> {
    pub original: O,
    pub other: OO,
}

impl<O, OO> CombineObservable<O, OO> {
    pub fn new(original: O, other: OO) -> (r: Self)
        ensures
            r.original == original,
            r.other == other,
    {
        CombineObservable { original, other }
    }
}

/// The latest item of each side of a combine, once it has one.
pub struct Latest<L, R> {
    pub first: Option<L>,
    pub second: Option<R>,
}

impl<L: Copy, R: Copy> Latest<L, R> {
    pub fn new() -> (r: Self)
        ensures
            r.first.is_none(),
            r.second.is_none(),
    {
        Latest { first: None, second: None }
    }

    /// Records an item of the first side; the pair to forward, if the second
    /// side has had an item.
    pub fn on_first(&mut self, item: L) -> (r: Option<(L, R)>)
        ensures
            final(self).first == Some(item),
            final(self).second == old(self).second,
            r == match old(self).second {
                Some(v) => Some((item, v)),
                None => None::<(L, R)>,
            },
    {
        self.first = Some(item);
        match self.second {
            Some(v) => Some((item, v)),
            None => None,
        }
    }

    /// Records an item of the second side; the pair to forward, if the first
    /// side has had an item.
    pub fn on_second(&mut self, item: R) -> (r: Option<(L, R)>)
        ensures
            final(self).second == Some(item),
            final(self).first == old(self).first,
            r == match old(self).first {
                Some(v) => Some((v, item)),
                None => None::<(L, R)>,
            },
    {
        self.second = Some(item);
        match self.first {
            Some(v) => Some((v, item)),
            None => None,
        }
    }
}

/// A signal of one side of a combine, tagged with its side.
pub enum Arrival<L, R, E> {
    First(Signal<L, E>),
    Second(Signal<R, E>),
}

impl<L, R, E> Arrival<L, R, E> {
    pub open spec fn is_completion_of(self, side: Source) -> bool {
        match self {
            Arrival::First(Signal::Completed) => side == Source::First,
            Arrival::Second(Signal::Completed) => side == Source::Second,
            _ => false,
        }
    }
}

/// Whether `side` has completed within the arrivals `s`.
pub open spec fn side_completed<L, R, E>(side: Source, s: Seq<Arrival<L, R, E>>) -> bool {
    exists|i: int| 0 <= i < s.len() && (#[trigger] s[i]).is_completion_of(side)
}

/// The latest item of the first side within the arrivals `s`.
pub open spec fn latest_first<L, R, E>(s: Seq<Arrival<L, R, E>>) -> Option<L>
    decreases s.len(),
{
    if s.len() == 0 {
        None
    } else {
        match s.last() {
            Arrival::First(Signal::Next(v)) => Some(v),
            _ => latest_first(s.drop_last()),
        }
    }
}

/// The latest item of the second side within the arrivals `s`.
pub open spec fn latest_second<L, R, E>(s: Seq<Arrival<L, R, E>>) -> Option<R>
    decreases s.len(),
{
    if s.len() == 0 {
        None
    } else {
        match s.last() {
            Arrival::Second(Signal::Next(v)) => Some(v),
            _ => latest_second(s.drop_last()),
        }
    }
}

/// What a combine sends downstream for the arrivals `s`, before the
/// downstream guard: on each item, the pair of it and the other side's latest
/// item if there is one; every error; one completion once both sides have
/// completed.
pub open spec fn combine_raw<L, R, E>(s: Seq<Arrival<L, R, E>>) -> Seq<Signal<(L, R), E>>
    decreases s.len(),
{
    if s.len() == 0 {
        Seq::empty()
    } else {
        let p = s.drop_last();
        let out = combine_raw(p);
        match s.last() {
            Arrival::First(Signal::Next(v)) => match latest_second(p) {
                Some(w) => out.push(Signal::Next((v, w))),
                None => out,
            },
            Arrival::Second(Signal::Next(w)) => match latest_first(p) {
                Some(v) => out.push(Signal::Next((v, w))),
                None => out,
            },
            Arrival::First(Signal::Error(e)) => out.push(Signal::Error(e)),
            Arrival::Second(Signal::Error(e)) => out.push(Signal::Error(e)),
            Arrival::First(Signal::Completed) => if side_completed(Source::Second, p)
                && !side_completed(Source::First, p) {
                out.push(Signal::Completed)
            } else {
                out
            },
            Arrival::Second(Signal::Completed) => if side_completed(Source::First, p)
                && !side_completed(Source::Second, p) {
                out.push(Signal::Completed)
            } else {
                out
            },
        }
    }
}

proof fn lemma_side_completed_push<L, R, E>(
    p: Seq<Arrival<L, R, E>>,
    e: Arrival<L, R, E>,
    side: Source,
)
    ensures
        side_completed(side, p.push(e)) == (side_completed(side, p) || e.is_completion_of(side)),
{
    let s = p.push(e);
    if side_completed(side, p) {
        let i = choose|i: int| 0 <= i < p.len() && (#[trigger] p[i]).is_completion_of(side);
        assert(s[i] == p[i]);
    }
    if e.is_completion_of(side) {
        assert(s[p.len() as int] == e);
    }
    if side_completed(side, s) {
        let i = choose|i: int| 0 <= i < s.len() && (#[trigger] s[i]).is_completion_of(side);
        if i < p.len() {
            assert(p[i] == s[i]);
        }
    }
}

/// What a subscriber of the combine receives when the two upstreams push
/// the arrivals of `source`, in order of arrival.
pub fn combine<L: Copy, R: Copy, E>(source: Vec<Arrival<L, R, E>>) -> (r: Vec<Signal<(L, R), E>>)
    ensures
        r@ == guarded(combine_raw(source@)),
{
    let ghost src = source@;
    let mut latest: Latest<L, R> = Latest::new();
    let mut done = Completions::new();
    let mut guard = BaseObserver::new(0, ());
    let mut out: Vec<Signal<(L, R), E>> = Vec::new();
    for e in it: source.into_iter()
        invariant
            it.seq() == src,
            latest.first == latest_first(src.take(it.index() as int)),
            latest.second == latest_second(src.take(it.index() as int)),
            done.first == side_completed(Source::First, src.take(it.index() as int)),
            done.second == side_completed(Source::Second, src.take(it.index() as int)),
            guard.slot().is_some() == live(combine_raw(src.take(it.index() as int))),
            out@ == guarded(combine_raw(src.take(it.index() as int))),
    {
        let ghost p = src.take(it.index() as int);
        let ghost e0 = e;
        proof {
            assert(src.take(it.index() + 1) =~= p.push(e0));
            assert(p.push(e0).drop_last() =~= p);
            lemma_side_completed_push(p, e0, Source::First);
            lemma_side_completed_push(p, e0, Source::Second);
        }
        let y = match e {
            Arrival::First(Signal::Next(v)) => match latest.on_first(v) {
                Some(pair) => Some(Signal::Next(pair)),
                None => None,
            },
            Arrival::Second(Signal::Next(w)) => match latest.on_second(w) {
                Some(pair) => Some(Signal::Next(pair)),
                None => None,
            },
            Arrival::First(Signal::Error(err)) => Some(Signal::Error(err)),
            Arrival::Second(Signal::Error(err)) => Some(Signal::Error(err)),
            Arrival::First(Signal::Completed) => if done.complete(Source::First) {
                Some(Signal::Completed)
            } else {
                None
            },
            Arrival::Second(Signal::Completed) => if done.complete(Source::Second) {
                Some(Signal::Completed)
            } else {
                None
            },
        };
        if let Some(y) = y {
            proof {
                lemma_guarded_push(combine_raw(p), y);
            }
            guard.deliver(y, &mut out);
        }
    }
    proof {
        assert(src.take(src.len() as int) =~= src);
    }
    out
}

proof fn lemma_combine_completes_late<L, R, E>(s: Seq<Arrival<L, R, E>>)
    ensures
        forall|k: int|
            0 <= k < combine_raw(s).len() && #[trigger] combine_raw(s)[k] == Signal::<
                (L, R),
                E,
            >::Completed ==> side_completed(Source::First, s) && side_completed(Source::Second, s),
    decreases s.len(),
{
    if s.len() > 0 {
        let p = s.drop_last();
        lemma_combine_completes_late(p);
        assert(p.push(s.last()) =~= s);
        lemma_side_completed_push(p, s.last(), Source::First);
        lemma_side_completed_push(p, s.last(), Source::Second);
    }
}

/// A combine completes downstream only after both sides have completed.
pub proof fn lemma_combine_completes_after_both<L, R, E>(s: Seq<Arrival<L, R, E>>)
    ensures
        guarded(combine_raw(s)).contains(Signal::Completed) ==> side_completed(Source::First, s)
            && side_completed(Source::Second, s),
{
    lemma_combine_completes_late(s);
    lemma_guarded_prefix(combine_raw(s));
}

} // verus!
