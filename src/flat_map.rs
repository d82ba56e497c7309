use vstd::prelude::*;

use crate::functions::{apply, call, is_function};
use crate::observer::BaseObserver;
use crate::registry::Registry;
use crate::signal::{guarded, lemma_at_most_one_terminal, lemma_guarded_push, live, Signal};

verus! {

/// An upstream each of whose items starts the inner upstream that
/// `and_then` makes of it; the items of all inner upstreams are forwarded.
pub struct FlatMapObservable<FM, O> {
    pub and_then: FM,
    pub original: O,
}

impl<FM, O> FlatMapObservable<FM, O> {
    pub fn new(original: O, and_then: FM) -> (r: Self)
        ensures
            r.original == original,
            r.and_then == and_then,
    {
        FlatMapObservable { and_then, original }
    }
}

/// What happens to the bookkeeping of a flat-map.
pub enum InnerEvent {
    /// An outer item starts an inner upstream, under the next identifier.
    Spawn,
    /// The inner upstream with this identifier completes.
    InnerCompleted(nat),
    /// The outer upstream completes.
    OuterCompleted,
}

/// The bookkeeping of a flat-map in the abstract: the identifiers of the
/// inner upstreams still running, how many were started, and whether the
/// outer upstream has completed.
pub type InnerState = (Set<nat>, nat, bool);

/// One event on the bookkeeping: the new state, and whether downstream
/// completes on it.
pub open spec fn inner_step(st: InnerState, ev: InnerEvent) -> (InnerState, bool) {
    let (pending, issued, outer) = st;
    match ev {
        InnerEvent::Spawn => ((pending.insert(issued), issued + 1, outer), false),
        InnerEvent::InnerCompleted(id) => (
            (pending.remove(id), issued, outer),
            outer && pending.contains(id) && pending.remove(id).is_empty(),
        ),
        InnerEvent::OuterCompleted => ((pending, issued, true), !outer && pending.is_empty()),
    }
}

/// The bookkeeping after the events `evs`, from the start.
pub open spec fn inner_state(evs: Seq<InnerEvent>) -> InnerState
    decreases evs.len(),
{
    if evs.len() == 0 {
        (Set::empty(), 0, false)
    } else {
        inner_step(inner_state(evs.drop_last()), evs.last()).0
    }
}

/// Whether downstream completes on the last of the events `evs`.
pub open spec fn completes_on_last(evs: Seq<InnerEvent>) -> bool {
    evs.len() > 0 && inner_step(inner_state(evs.drop_last()), evs.last()).1
}

/// The live bookkeeping of one flat-map subscription: the inner
/// subscriptions still running, each under a fresh identifier, and whether
/// the outer upstream has completed.
pub struct InnerSubscriptions<S> {
    subs: Registry<Option<S>>,
    outer_completed: bool,
}

impl<S> InnerSubscriptions<S> {
    pub closed spec fn wf(&self) -> bool {
        self.subs.wf()
    }

    pub closed spec fn state(&self) -> InnerState {
        (self.subs.keys(), self.subs.issued(), self.outer_completed)
    }

    /// The inner subscriptions handed over so far, in the order of their
    /// identifiers; `None` where one is still being set up.
    pub closed spec fn attached(&self) -> Seq<Option<S>> {
        self.subs.entries()
    }

    /// The identifiers of the inner upstreams still running, in order; the
    /// entry of `attached` at the same position belongs to each.
    pub closed spec fn running_ids(&self) -> Seq<u64> {
        self.subs.id_seq()
    }

    pub proof fn lemma_wf(&self)
        requires
            self.wf(),
        ensures
            self.attached().len() == self.running_ids().len(),
            self.running_ids().no_duplicates(),
            forall|x: u64| #[trigger] self.running_ids().contains(x) <==> self.state().0.contains(x as nat),
    {
        self.subs.lemma_wf();
    }

    pub fn new() -> (r: Self)
        ensures
            r.wf(),
            r.state() == inner_state(Seq::empty()),
            r.attached().len() == 0,
            r.running_ids().len() == 0,
    {
        InnerSubscriptions { subs: Registry::new(), outer_completed: false }
    }

    /// Whether another inner upstream can start.
    pub fn has_room(&self) -> (r: bool)
        ensures
            r == (self.state().1 < u64::MAX),
    {
        self.subs.has_room()
    }

    /// Reserves a fresh identifier for an inner upstream about to start.
    pub fn spawn(&mut self) -> (id: u64)
        requires
            old(self).wf(),
            old(self).state().1 < u64::MAX,
        ensures
            final(self).wf(),
            id == old(self).state().1,
            !old(self).state().0.contains(id as nat),
            (final(self).state(), false) == inner_step(old(self).state(), InnerEvent::Spawn),
            final(self).running_ids() == old(self).running_ids().push(id),
            final(self).attached() == old(self).attached().push(None),
    {
        self.subs.insert(None)
    }

    /// Hands over the subscription of the inner upstream `id`. It is kept if
    /// that upstream is still running; otherwise it is handed back.
    pub fn attach(&mut self, id: u64, sub: S) -> (r: Option<S>)
        requires
            old(self).wf(),
        ensures
            final(self).wf(),
            final(self).state() == old(self).state(),
            r == if old(self).state().0.contains(id as nat) {
                None
            } else {
                Some(sub)
            },
            final(self).running_ids() == old(self).running_ids(),
            r.is_none() ==> exists|i: int|
                0 <= i < old(self).running_ids().len()
                && old(self).running_ids()[i] == id
                && final(self).attached() == old(self).attached().update(i, Some(sub)),
            r.is_some() ==> final(self).attached() == old(self).attached(),
    {
        match self.subs.replace(id, Some(sub)) {
            Some(back) => back,
            None => None,
        }
    }

    /// Records the completion of the inner upstream `id`; `true` when
    /// downstream completes now.
    pub fn inner_completed(&mut self, id: u64) -> (r: bool)
        requires
            old(self).wf(),
        ensures
            final(self).wf(),
            (final(self).state(), r) == inner_step(
                old(self).state(),
                InnerEvent::InnerCompleted(id as nat),
            ),
            old(self).state().0.contains(id as nat) ==> exists|i: int|
                0 <= i < old(self).running_ids().len()
                && old(self).running_ids()[i] == id
                && final(self).attached() == old(self).attached().remove(i)
                && final(self).running_ids() == old(self).running_ids().remove(i),
            !old(self).state().0.contains(id as nat) ==> final(self).attached() == old(
                self,
            ).attached() && final(self).running_ids() == old(self).running_ids(),
    {
        let removed = self.subs.remove(id);
        proof {
            if removed.is_some() {
                let i = choose|i: int|
                    0 <= i < old(self).subs.id_seq().len()
                    && old(self).subs.id_seq()[i] == id
                    && removed == Some(old(self).subs.entries()[i])
                    && self.subs.entries() == old(self).subs.entries().remove(i)
                    && self.subs.id_seq() == old(self).subs.id_seq().remove(i);
                assert(old(self).running_ids()[i] == id);
            }
        }
        let empty = self.subs.is_empty();
        removed.is_some() && self.outer_completed && empty
    }

    /// Records the completion of the outer upstream; `true` when downstream
    /// completes now.
    pub fn outer_completed(&mut self) -> (r: bool)
        requires
            old(self).wf(),
        ensures
            final(self).wf(),
            (final(self).state(), r) == inner_step(old(self).state(), InnerEvent::OuterCompleted),
            final(self).attached() == old(self).attached(),
            final(self).running_ids() == old(self).running_ids(),
    {
        let first = !self.outer_completed;
        self.outer_completed = true;
        first && self.subs.is_empty()
    }

    /// Takes out every inner subscription handed over, for cancelling; no
    /// inner upstream counts as running afterwards.
    pub fn cancel(&mut self) -> (r: Vec<S>)
        requires
            old(self).wf(),
        ensures
            final(self).wf(),
            final(self).state() == (
                Set::<nat>::empty(),
                old(self).state().1,
                old(self).state().2,
            ),
            r@ == old(self).attached().filter_map(|o: Option<S>| o),
            final(self).attached().len() == 0,
            final(self).running_ids().len() == 0,
    {
        let all_subs = self.subs.take_all();
        let ghost all = all_subs@;
        let mut out: Vec<S> = Vec::new();
        for o in it: all_subs.into_iter()
            invariant
                it.seq() == all,
                out@ == all.take(it.index() as int).filter_map(|o: Option<S>| o),
        {
            proof {
                assert(all.take(it.index() + 1).drop_last() =~= all.take(it.index() as int));
            }
            if let Some(s) = o {
                out.push(s);
            }
            proof {
                assert(out@ =~= all.take(it.index() + 1).filter_map(|o: Option<S>| o));
            }
        }
        proof {
            assert(all.take(all.len() as int) =~= all);
        }
        out
    }
}

/// Whether the signals `g` that an inner consumer received end with its
/// completion.
pub open spec fn ends_completed<J, E>(g: Seq<Signal<J, E>>) -> bool {
    g.len() > 0 && g.last() is Completed
}

/// What an inner upstream whose consumer received `g` sends on: its items
/// and error, and its completion only where that completes downstream.
pub open spec fn inner_emission<J, E>(g: Seq<Signal<J, E>>, fires: bool) -> Seq<Signal<J, E>> {
    if ends_completed(g) && !fires {
        g.drop_last()
    } else {
        g
    }
}

/// The bookkeeping events of a flat-map whose upstream pushes `s`, each item
/// starting the inner upstream `f` makes of it, which pushes its signals at
/// once.
pub open spec fn flat_events<I, J, E, F: Fn(I) -> Vec<Signal<J, E>>>(
    f: F,
    s: Seq<Signal<I, E>>,
) -> Seq<InnerEvent>
    decreases s.len(),
{
    if s.len() == 0 {
        Seq::empty()
    } else {
        let p = flat_events(f, s.drop_last());
        match s.last() {
            Signal::Next(v) => if ends_completed(guarded(apply(f, v)@)) {
                p.push(InnerEvent::Spawn).push(InnerEvent::InnerCompleted(inner_state(p).1))
            } else {
                p.push(InnerEvent::Spawn)
            },
            Signal::Error(_) => p,
            Signal::Completed => p.push(InnerEvent::OuterCompleted),
        }
    }
}

/// What such a flat-map sends downstream, before the downstream guard.
pub open spec fn flat_raw<I, J, E, F: Fn(I) -> Vec<Signal<J, E>>>(
    f: F,
    s: Seq<Signal<I, E>>,
) -> Seq<Signal<J, E>>
    decreases s.len(),
{
    if s.len() == 0 {
        Seq::empty()
    } else {
        let p = s.drop_last();
        let out = flat_raw(f, p);
        let st = inner_state(flat_events(f, p));
        match s.last() {
            Signal::Next(v) => {
                let g = guarded(apply(f, v)@);
                let fires = inner_step(
                    inner_step(st, InnerEvent::Spawn).0,
                    InnerEvent::InnerCompleted(st.1),
                ).1;
                out + inner_emission(g, fires)
            },
            Signal::Error(e) => out.push(Signal::Error(e)),
            Signal::Completed => if inner_step(st, InnerEvent::OuterCompleted).1 {
                out.push(Signal::Completed)
            } else {
                out
            },
        }
    }
}

/// What a subscriber of `and_then(f)` receives when the upstream pushes the
/// signals of `source` and each inner upstream pushes all its signals as soon
/// as it is subscribed.
pub fn flat_map<I, J, E, F: Fn(I) -> Vec<Signal<J, E>>>(f: F, source: Vec<Signal<I, E>>) -> (r: Vec<
    Signal<J, E>,
>)
    requires
        is_function(f),
        source@.len() < u64::MAX,
    ensures
        r@ == guarded(flat_raw(f, source@)),
{
    let ghost src = source@;
    let mut book: InnerSubscriptions<()> = InnerSubscriptions::new();
    let mut guard = BaseObserver::new(0, ());
    let mut out: Vec<Signal<J, E>> = Vec::new();
    for x in it: source.into_iter()
        invariant
            it.seq() == src,
            src.len() < u64::MAX,
            is_function(f),
            book.wf(),
            book.state() == inner_state(flat_events(f, src.take(it.index() as int))),
            book.state().1 <= it.index(),
            guard.slot().is_some() == live(flat_raw(f, src.take(it.index() as int))),
            out@ == guarded(flat_raw(f, src.take(it.index() as int))),
    {
        let ghost p = src.take(it.index() as int);
        let ghost evs = flat_events(f, p);
        let ghost before = out@;
        let ghost raw = flat_raw(f, p);
        proof {
            assert(src.take(it.index() + 1) =~= p.push(x));
            assert(p.push(x).drop_last() =~= p);
        }
        match x {
            Signal::Next(v) => {
                let ghost v0 = v;
                let id = book.spawn();
                let inner = call(&f, v);
                let mut inner_guard = BaseObserver::new(id, ());
                let g = inner_guard.replay(inner);
                let ghost gs = g@;
                let ghost st = inner_state(evs);
                let ghost fires = inner_step(
                    inner_step(st, InnerEvent::Spawn).0,
                    InnerEvent::InnerCompleted(st.1),
                ).1;
                proof {
                    lemma_at_most_one_terminal(apply(f, v0)@);
                    assert(inner_state(evs.push(InnerEvent::Spawn)) == inner_step(st, InnerEvent::Spawn).0) by {
                        assert(evs.push(InnerEvent::Spawn).drop_last() =~= evs);
                    }
                    assert(gs.take(0) =~= Seq::<Signal<J, E>>::empty());
                    assert(raw + inner_emission(gs.take(0), fires) =~= raw);
                }
                for y in it2: g.into_iter()
                    invariant
                        it2.seq() == gs,
                        gs == guarded(apply(f, v0)@),
                        crate::signal::well_terminated(gs),
                        book.wf(),
                        id == st.1,
                        fires == inner_step(
                            inner_step(st, InnerEvent::Spawn).0,
                            InnerEvent::InnerCompleted(st.1),
                        ).1,
                        book.state() == if ends_completed(gs.take(it2.index() as int)) {
                            inner_step(inner_step(st, InnerEvent::Spawn).0, InnerEvent::InnerCompleted(st.1)).0
                        } else {
                            inner_step(st, InnerEvent::Spawn).0
                        },
                        guard.slot().is_some() == live(raw + inner_emission(gs.take(it2.index() as int), fires)),
                        out@ == guarded(raw + inner_emission(gs.take(it2.index() as int), fires)),
                {
                    let ghost j = it2.index() as int;
                    proof {
                        assert(gs.take(j + 1) =~= gs.take(j).push(y));
                        assert(gs.take(j + 1).drop_last() =~= gs.take(j));
                        if j > 0 {
                            assert(gs.take(j).last() == gs[j - 1]);
                            assert(!gs[j - 1].is_terminal());
                        }
                        assert(!ends_completed(gs.take(j)));
                        assert(inner_emission(gs.take(j), fires) == gs.take(j));
                        assert(gs.take(j + 1).last() == y);
                    }
                    match y {
                        Signal::Completed => {
                            let now = book.inner_completed(id);
                            proof {
                                assert(raw + inner_emission(gs.take(j + 1), fires) =~= if fires {
                                    (raw + inner_emission(gs.take(j), fires)).push(Signal::Completed)
                                } else {
                                    raw + inner_emission(gs.take(j), fires)
                                });
                                lemma_guarded_push(raw + inner_emission(gs.take(j), fires), Signal::<J, E>::Completed);
                            }
                            if now {
                                guard.deliver(Signal::Completed, &mut out);
                            }
                        },
                        other => {
                            let ghost y0 = other;
                            proof {
                                assert(raw + inner_emission(gs.take(j + 1), fires) =~= (raw + inner_emission(gs.take(j), fires)).push(y0));
                                lemma_guarded_push(raw + inner_emission(gs.take(j), fires), y0);
                            }
                            guard.deliver(other, &mut out);
                        },
                    }
                }
                proof {
                    assert(gs.take(gs.len() as int) =~= gs);
                    let e1 = evs.push(InnerEvent::Spawn);
                    assert(e1.drop_last() =~= evs);
                    if ends_completed(gs) {
                        let e2 = e1.push(InnerEvent::InnerCompleted(st.1));
                        assert(e2.drop_last() =~= e1);
                    }
                }
            },
            Signal::Error(e) => {
                proof {
                    lemma_guarded_push(raw, Signal::<J, E>::Error(e));
                }
                guard.deliver(Signal::Error(e), &mut out);
            },
            Signal::Completed => {
                let now = book.outer_completed();
                proof {
                    lemma_guarded_push(raw, Signal::<J, E>::Completed);
                    assert(evs.push(InnerEvent::OuterCompleted).drop_last() =~= evs);
                }
                if now {
                    guard.deliver(Signal::Completed, &mut out);
                }
            },
        }
    }
    proof {
        assert(src.take(src.len() as int) =~= src);
    }
    out
}

/// Every inner completion in `evs` is of an inner upstream started before it.
pub open spec fn spawn_ordered(evs: Seq<InnerEvent>) -> bool
    decreases evs.len(),
{
    evs.len() == 0 || (spawn_ordered(evs.drop_last()) && match evs.last() {
        InnerEvent::InnerCompleted(x) => x < inner_state(evs.drop_last()).1,
        _ => true,
    })
}

proof fn lemma_contains_push(p: Seq<InnerEvent>, e: InnerEvent, f: InnerEvent)
    ensures
        p.push(e).contains(f) == (p.contains(f) || f == e),
{
    let s = p.push(e);
    if p.contains(f) {
        let i = p.index_of(f);
        assert(s[i] == f);
    }
    if f == e {
        assert(s[p.len() as int] == f);
    }
    if s.contains(f) {
        let i = s.index_of(f);
        if i < p.len() {
            assert(p[i] == f);
        }
    }
}

proof fn lemma_inner_state(evs: Seq<InnerEvent>)
    requires
        spawn_ordered(evs),
    ensures
        inner_state(evs).2 == evs.contains(InnerEvent::OuterCompleted),
        forall|x: nat|
            #[trigger] inner_state(evs).0.contains(x) <==> (x < inner_state(evs).1
                && !evs.contains(InnerEvent::InnerCompleted(x))),
    decreases evs.len(),
{
    if evs.len() > 0 {
        let p = evs.drop_last();
        let e = evs.last();
        lemma_inner_state(p);
        assert(p.push(e) =~= evs);
        lemma_contains_push(p, e, InnerEvent::OuterCompleted);
        assert forall|x: nat|
            #[trigger] inner_state(evs).0.contains(x) <==> (x < inner_state(evs).1
                && !evs.contains(InnerEvent::InnerCompleted(x))) by {
            lemma_contains_push(p, e, InnerEvent::InnerCompleted(x));
            if e == InnerEvent::Spawn {
                if x == inner_state(p).1 && p.contains(InnerEvent::InnerCompleted(x)) {
                    lemma_completed_before_spawn(p, x);
                }
            }
        }
    }
}

proof fn lemma_completed_before_spawn(evs: Seq<InnerEvent>, x: nat)
    requires
        spawn_ordered(evs),
        evs.contains(InnerEvent::InnerCompleted(x)),
    ensures
        x < inner_state(evs).1,
    decreases evs.len(),
{
    let p = evs.drop_last();
    let e = evs.last();
    assert(p.push(e) =~= evs);
    lemma_contains_push(p, e, InnerEvent::InnerCompleted(x));
    if p.contains(InnerEvent::InnerCompleted(x)) {
        lemma_completed_before_spawn(p, x);
    }
}

/// Downstream of a flat-map completes only once the outer upstream has
/// completed and every inner upstream started has completed, in whatever
/// order these completions come.
pub proof fn lemma_flat_map_completes_last(evs: Seq<InnerEvent>)
    requires
        spawn_ordered(evs),
    ensures
        completes_on_last(evs) ==> evs.contains(InnerEvent::OuterCompleted) && forall|x: nat|
            x < inner_state(evs).1 ==> #[trigger] evs.contains(InnerEvent::InnerCompleted(x)),
{
    if completes_on_last(evs) {
        lemma_inner_state(evs);
        let p = evs.drop_last();
        assert(p.push(evs.last()) =~= evs);
        assert(inner_state(evs).0.is_empty());
        assert forall|x: nat| x < inner_state(evs).1 implies #[trigger] evs.contains(
            InnerEvent::InnerCompleted(x),
        ) by {
            assert(!inner_state(evs).0.contains(x));
        }
    }
}

} // verus!
