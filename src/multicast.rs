use vstd::prelude::*;

use crate::registry::Registry;

verus! {

/// What happens to a shared upstream's registry.
pub enum ShareEvent {
    /// A downstream consumer registers, under the next identifier.
    Subscribe,
    /// The consumer registered under this identifier leaves.
    Unsubscribe(nat),
    /// The upstream terminates: every consumer is signalled and let go.
    UpstreamTerminated,
}

/// The registry in the abstract: the identifiers registered, how many were
/// handed out, and whether the upstream subscription is still to be
/// cancelled.
pub type ShareState = (Set<nat>, nat, bool);

/// One event on the registry: the new state, and whether the upstream
/// subscription is cancelled on it.
pub open spec fn share_step(st: ShareState, ev: ShareEvent) -> (ShareState, bool) {
    let (reg, issued, held) = st;
    match ev {
        ShareEvent::Subscribe => ((reg.insert(issued), issued + 1, held), false),
        ShareEvent::Unsubscribe(id) => {
            let fire = held && reg.contains(id) && reg.remove(id).is_empty();
            ((reg.remove(id), issued, held && !fire), fire)
        },
        ShareEvent::UpstreamTerminated => ((Set::empty(), issued, held), false),
    }
}

/// The registry after the events `evs`, from the start.
pub open spec fn share_state(evs: Seq<ShareEvent>) -> ShareState
    decreases evs.len(),
{
    if evs.len() == 0 {
        (Set::empty(), 0, true)
    } else {
        share_step(share_state(evs.drop_last()), evs.last()).0
    }
}

/// Whether the upstream subscription is cancelled on the last of `evs`.
pub open spec fn cancels_on_last(evs: Seq<ShareEvent>) -> bool {
    evs.len() > 0 && share_step(share_state(evs.drop_last()), evs.last()).1
}

/// A shared upstream: subscribed once, its signals go to every registered
/// consumer `G`, and its subscription `S` is cancelled once, when the last
/// consumer leaves.
pub struct Multicast<G, S> {
    observers: Registry<G>,
    subscription: Option<S>,
    cancelled: bool,
}

impl<G, S> Multicast<G, S> {
    pub closed spec fn wf(&self) -> bool {
        &&& self.observers.wf()
        &&& self.cancelled ==> self.subscription.is_none()
    }

    pub closed spec fn state(&self) -> ShareState {
        (self.observers.keys(), self.observers.issued(), !self.cancelled)
    }

    /// The registered consumers, in the order they registered.
    pub closed spec fn consumers(&self) -> Seq<G> {
        self.observers.entries()
    }

    /// The upstream subscription held for cancelling, if any.
    pub closed spec fn upstream(&self) -> Option<S> {
        self.subscription
    }

    /// An empty registry, before the upstream subscription is handed over.
    pub fn new() -> (r: Self)
        ensures
            r.wf(),
            r.state() == share_state(Seq::empty()),
            r.consumers().len() == 0,
            r.upstream().is_none(),
    {
        Multicast { observers: Registry::new(), subscription: None, cancelled: false }
    }

    /// Hands over the one upstream subscription. It is kept unless one is
    /// kept already or the last consumer has left already; then it is handed
    /// back, to be cancelled.
    pub fn attach_upstream(&mut self, sub: S) -> (r: Option<S>)
        requires
            old(self).wf(),
        ensures
            final(self).wf(),
            final(self).state() == old(self).state(),
            final(self).consumers() == old(self).consumers(),
            r == if old(self).state().2 && old(self).upstream().is_none() {
                None
            } else {
                Some(sub)
            },
            final(self).upstream() == if r.is_none() {
                Some(sub)
            } else {
                old(self).upstream()
            },
    {
        if self.cancelled || self.subscription.is_some() {
            Some(sub)
        } else {
            self.subscription = Some(sub);
            None
        }
    }

    /// Whether another consumer can register.
    pub fn has_room(&self) -> (r: bool)
        ensures
            r == (self.state().1 < u64::MAX),
    {
        self.observers.has_room()
    }

    /// Registers a consumer; its identifier is returned.
    pub fn subscribe(&mut self, observer: G) -> (id: u64)
        requires
            old(self).wf(),
            old(self).state().1 < u64::MAX,
        ensures
            final(self).wf(),
            id == old(self).state().1,
            !old(self).state().0.contains(id as nat),
            (final(self).state(), false) == share_step(old(self).state(), ShareEvent::Subscribe),
            final(self).consumers() == old(self).consumers().push(observer),
            final(self).upstream() == old(self).upstream(),
    {
        self.observers.insert(observer)
    }

    /// Lets the consumer `id` go. When it was the last one, the upstream
    /// subscription is returned, to be cancelled.
    pub fn unsubscribe(&mut self, id: u64) -> (r: Option<S>)
        requires
            old(self).wf(),
        ensures
            final(self).wf(),
            final(self).state() == share_step(old(self).state(), ShareEvent::Unsubscribe(id as nat)).0,
            r == if share_step(old(self).state(), ShareEvent::Unsubscribe(id as nat)).1 {
                old(self).upstream()
            } else {
                None
            },
            share_step(old(self).state(), ShareEvent::Unsubscribe(id as nat)).1 ==> final(self).upstream().is_none(),
            !share_step(old(self).state(), ShareEvent::Unsubscribe(id as nat)).1 ==> final(self).upstream() == old(self).upstream(),
    {
        let removed = self.observers.remove(id);
        if removed.is_some() && !self.cancelled && self.observers.is_empty() {
            self.cancelled = true;
            self.subscription.take()
        } else {
            None
        }
    }

    /// The consumers that an upstream item goes to.
    pub fn observers(&self) -> (r: &Vec<G>)
        ensures
            r@ == self.consumers(),
    {
        self.observers.values()
    }

    /// Lets every consumer go when the upstream terminates; they are returned
    /// in order, to be signalled.
    pub fn drain(&mut self) -> (r: Vec<G>)
        requires
            old(self).wf(),
        ensures
            final(self).wf(),
            final(self).state() == share_step(old(self).state(), ShareEvent::UpstreamTerminated).0,
            final(self).upstream() == old(self).upstream(),
            final(self).consumers().len() == 0,
            r@ == old(self).consumers(),
    {
        self.observers.take_all()
    }
}

proof fn lemma_held_stays_dropped(evs: Seq<ShareEvent>, i: int)
    requires
        0 <= i <= evs.len(),
        !share_state(evs.take(i)).2,
    ensures
        !share_state(evs).2,
    decreases evs.len() - i,
{
    if i < evs.len() {
        assert(evs.take(i + 1).drop_last() =~= evs.take(i));
        lemma_held_stays_dropped(evs, i + 1);
    } else {
        assert(evs.take(i) =~= evs);
    }
}

/// A shared upstream's subscription is cancelled at most once, whatever the
/// consumers do: after the last consumer has left once, no later event
/// cancels it again.
pub proof fn lemma_share_cancels_once(evs: Seq<ShareEvent>, i: int, j: int)
    requires
        0 < i < j <= evs.len(),
        cancels_on_last(evs.take(i)),
    ensures
        !cancels_on_last(evs.take(j)),
{
    assert(evs.take(i).drop_last() =~= evs.take(i - 1));
    assert(evs.take(j).drop_last() =~= evs.take(j - 1));
    assert(evs.take(j).take(i) =~= evs.take(i));
    assert(evs.take(j - 1).take(i) =~= evs.take(i));
    lemma_held_stays_dropped(evs.take(j - 1), i);
}

/// The upstream subscription is cancelled exactly on the event that lets the
/// last registered consumer go, while it is still held.
pub proof fn lemma_share_cancels_on_last_leave(evs: Seq<ShareEvent>, id: nat)
    ensures
        cancels_on_last(evs.push(ShareEvent::Unsubscribe(id))) == (share_state(evs).2
            && share_state(evs).0 == Set::<nat>::empty().insert(id)),
{
    let s = evs.push(ShareEvent::Unsubscribe(id));
    assert(s.drop_last() =~= evs);
    let reg = share_state(evs).0;
    if reg.contains(id) && reg.remove(id).is_empty() {
        assert(reg =~= Set::<nat>::empty().insert(id));
    }
    if reg == Set::<nat>::empty().insert(id) {
        assert(reg.remove(id) =~= Set::<nat>::empty());
    }
}

} // verus!
