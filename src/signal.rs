use vstd::prelude::*;

verus! {

/// One event that a producer pushes to a consumer: an item, a terminal error,
/// or the terminal completion.
#[derive(Clone, Debug, PartialEq, Eq)]
pub enum Signal<I, E> {
    Next(I),
    Error(E),
    Completed,
}

impl<I, E> Signal<I, E> {
    pub open spec fn is_terminal(self) -> bool {
        !(self is Next)
    }

    pub fn is_next(&self) -> (r: bool)
        ensures
            r == (*self is Next),
    {
        match self {
            Signal::Next(_) => true,
            _ => false,
        }
    }
}

/// The signals `xs` pushed as items, in order.
pub open spec fn items<I, E>(xs: Seq<I>) -> Seq<Signal<I, E>> {
    xs.map_values(|x: I| Signal::<I, E>::Next(x))
}

/// No terminal signal occurs in `s`: a guarded consumer that has seen `s`
/// still accepts signals.
pub open spec fn live<I, E>(s: Seq<Signal<I, E>>) -> bool
    decreases s.len(),
{
    if s.len() == 0 {
        true
    } else {
        live(s.drop_last()) && !s.last().is_terminal()
    }
}

/// What a guarded consumer passes on when `s` is offered to it: every signal
/// up to and including the first terminal one.
pub open spec fn guarded<I, E>(s: Seq<Signal<I, E>>) -> Seq<Signal<I, E>>
    decreases s.len(),
{
    if s.len() == 0 {
        Seq::empty()
    } else if live(s.drop_last()) {
        guarded(s.drop_last()).push(s.last())
    } else {
        guarded(s.drop_last())
    }
}

/// At most one terminal signal occurs in `s`, and only as its last signal.
pub open spec fn well_terminated<I, E>(s: Seq<Signal<I, E>>) -> bool {
    forall|i: int| 0 <= i < s.len() - 1 ==> !(#[trigger] s[i]).is_terminal()
}

/// Stepping lemma used by every loop that replays signals through a guard.
pub proof fn lemma_guarded_push<I, E>(s: Seq<Signal<I, E>>, x: Signal<I, E>)
    ensures
        live(s.push(x)) == (live(s) && !x.is_terminal()),
        guarded(s.push(x)) == (if live(s) {
            guarded(s).push(x)
        } else {
            guarded(s)
        }),
{
    assert(s.push(x).drop_last() =~= s);
}

/// The guard passes on every signal of a sequence that holds no terminal one.
pub proof fn lemma_guarded_live<I, E>(s: Seq<Signal<I, E>>)
    requires
        live(s),
    ensures
        guarded(s) == s,
    decreases s.len(),
{
    if s.len() > 0 {
        lemma_guarded_live(s.drop_last());
        assert(s.drop_last().push(s.last()) =~= s);
    }
}

/// Whatever is offered to a guarded consumer, what it passes on holds at most
/// one terminal signal, and that one last: once an error or a completion has
/// gone through, nothing else follows it.
pub proof fn lemma_at_most_one_terminal<I, E>(s: Seq<Signal<I, E>>)
    ensures
        well_terminated(guarded(s)),
        live(s) ==> live(guarded(s)),
        !live(s) ==> guarded(s).len() > 0 && guarded(s).last().is_terminal(),
    decreases s.len(),
{
    if s.len() > 0 {
        let p = s.drop_last();
        lemma_at_most_one_terminal(p);
        lemma_guarded_push(p, s.last());
        assert(p.push(s.last()) =~= s);
        if live(p) {
            let g = guarded(p);
            assert forall|i: int| 0 <= i < g.len() implies !(#[trigger] g[i]).is_terminal() by {
                lemma_live_index(g, i);
            }
        }
    }
    if live(s) {
        lemma_guarded_live(s);
    }
}

proof fn lemma_live_index<I, E>(s: Seq<Signal<I, E>>, i: int)
    requires
        live(s),
        0 <= i < s.len(),
    ensures
        !s[i].is_terminal(),
    decreases s.len(),
{
    if i < s.len() - 1 {
        lemma_live_index(s.drop_last(), i);
    }
}

/// A sequence of items holds no terminal signal.
pub proof fn lemma_live_items<I, E>(xs: Seq<I>)
    ensures
        live(items::<I, E>(xs)),
    decreases xs.len(),
{
    if xs.len() > 0 {
        lemma_live_items::<I, E>(xs.drop_last());
        assert(items::<I, E>(xs).drop_last() =~= items::<I, E>(xs.drop_last()));
    }
}

/// What the guard passes on is a prefix of what it was offered.
pub proof fn lemma_guarded_prefix<I, E>(s: Seq<Signal<I, E>>)
    ensures
        guarded(s).len() <= s.len(),
        forall|k: int| 0 <= k < guarded(s).len() ==> #[trigger] guarded(s)[k] == s[k],
    decreases s.len(),
{
    if s.len() > 0 {
        lemma_guarded_prefix(s.drop_last());
        if live(s.drop_last()) {
            lemma_guarded_live(s.drop_last());
        }
    }
}

} // verus!
