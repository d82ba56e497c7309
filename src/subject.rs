use vstd::prelude::*;

use crate::observer::ObserverId;

verus! {

/// The single slot of a hot relay: the current consumer `G`, under its
/// identifier. A new subscription replaces the occupant without signalling
/// it.
pub struct Subject<G> {
    subscriber: Option<(ObserverId, G)>,
}

impl<G> Subject<G> {
    pub closed spec fn slot(&self) -> Option<(ObserverId, G)> {
        self.subscriber
    }

    pub fn new() -> (r: Self)
        ensures
            r.slot().is_none(),
    {
        Subject { subscriber: None }
    }

    /// Installs `observer` as the occupant; the one it displaces, if any, is
    /// returned, unsignalled.
    pub fn subscribe(&mut self, id: ObserverId, observer: G) -> (r: Option<G>)
        ensures
            final(self).slot() == Some((id, observer)),
            r == match old(self).slot() {
                Some(p) => Some(p.1),
                None => None::<G>,
            },
    {
        let displaced = self.subscriber.take();
        self.subscriber = Some((id, observer));
        match displaced {
            Some(p) => Some(p.1),
            None => None,
        }
    }

    /// The occupant that an item goes to, if any.
    pub fn current(&self) -> (r: Option<&G>)
        ensures
            r.is_some() == self.slot().is_some(),
            r.is_some() ==> *r.unwrap() == self.slot().unwrap().1,
    {
        match &self.subscriber {
            Some(p) => Some(&p.1),
            None => None,
        }
    }

    /// Takes the occupant out for a terminal signal.
    pub fn take(&mut self) -> (r: Option<G>)
        ensures
            final(self).slot().is_none(),
            r == match old(self).slot() {
                Some(p) => Some(p.1),
                None => None::<G>,
            },
    {
        match self.subscriber.take() {
            Some(p) => Some(p.1),
            None => None,
        }
    }

    /// Ends the subscription `id`: the occupant is removed and returned only
    /// if it is still the one subscribed under `id`, so that a stale
    /// cancellation leaves a later subscriber in place.
    pub fn unsubscribe(&mut self, id: ObserverId) -> (r: Option<G>)
        ensures
            match old(self).slot() {
                Some(p) => if p.0 == id {
                    final(self).slot().is_none() && r == Some(p.1)
                } else {
                    final(self).slot() == old(self).slot() && r.is_none()
                },
                None => final(self).slot().is_none() && r.is_none(),
            },
    {
        let current = match &self.subscriber {
            Some(p) => p.0 == id,
            None => false,
        };
        if current {
            self.take()
        } else {
            None
        }
    }
}

} // verus!
