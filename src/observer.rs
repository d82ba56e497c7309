use vstd::prelude::*;

use crate::signal::{guarded, lemma_guarded_push, live, Signal};

verus! {

/// Identifier of a guarded consumer.
pub type ObserverId = u64;

/// The termination guard around a consumer `O`.
///
/// The slot holds the consumer until the first terminal signal or disposal
/// takes it out; nothing puts it back. Items reach the consumer only while it
/// is in the slot, and the terminal signal reaches it at most once, through
/// whichever call takes it out first. The caller runs the consumer's callback
/// with what a method hands back, after releasing whatever lock it holds.
pub struct BaseObserver<O> {
    id: ObserverId,
    observer: Option<O>,
}

impl<O> BaseObserver<O> {
    pub closed spec fn spec_id(&self) -> ObserverId {
        self.id
    }

    /// The consumer still in the slot, if any.
    pub closed spec fn slot(&self) -> Option<O> {
        self.observer
    }

    pub fn new(id: ObserverId, observer: O) -> (r: Self)
        ensures
            r.spec_id() == id,
            r.slot() == Some(observer),
    {
        BaseObserver { id, observer: Some(observer) }
    }

    pub fn id(&self) -> (r: ObserverId)
        ensures
            r == self.spec_id(),
    {
        self.id
    }

    /// Whether the consumer is still in the slot.
    pub fn is_live(&self) -> (r: bool)
        ensures
            r == self.slot().is_some(),
    {
        self.observer.is_some()
    }

    /// The consumer that an item goes to: the one in the slot, or none once
    /// the slot is emptied (the item is then dropped).
    pub fn on_next(&self) -> (r: Option<&O>)
        ensures
            r.is_some() == self.slot().is_some(),
            r.is_some() ==> *r.unwrap() == self.slot().unwrap(),
    {
        self.observer.as_ref()
    }

    /// Takes the consumer out for an error: it is handed back by the first
    /// terminal call only.
    pub fn on_error(&mut self) -> (r: Option<O>)
        ensures
            r == old(self).slot(),
            final(self).slot().is_none(),
            final(self).spec_id() == old(self).spec_id(),
    {
        self.observer.take()
    }

    /// Takes the consumer out for a completion: it is handed back by the
    /// first terminal call only.
    pub fn on_completed(&mut self) -> (r: Option<O>)
        ensures
            r == old(self).slot(),
            final(self).slot().is_none(),
            final(self).spec_id() == old(self).spec_id(),
    {
        self.observer.take()
    }

    /// Drops the consumer without signalling it.
    pub fn dispose(&mut self)
        ensures
            final(self).slot().is_none(),
            final(self).spec_id() == old(self).spec_id(),
    {
        self.observer = None;
    }

    /// Offers `signal` to the guard and appends it to `out` if the consumer
    /// receives it: an item while the consumer is in the slot, a terminal
    /// signal only through the call that takes the consumer out.
    pub fn deliver<I, E>(&mut self, signal: Signal<I, E>, out: &mut Vec<Signal<I, E>>)
        ensures
            final(out)@ == if old(self).slot().is_some() {
                old(out)@.push(signal)
            } else {
                old(out)@
            },
            final(self).slot() == if !signal.is_terminal() {
                old(self).slot()
            } else {
                None
            },
            final(self).spec_id() == old(self).spec_id(),
    {
        match signal {
            Signal::Next(v) => {
                if self.on_next().is_some() {
                    out.push(Signal::Next(v));
                }
            },
            Signal::Error(e) => {
                if self.on_error().is_some() {
                    out.push(Signal::Error(e));
                }
            },
            Signal::Completed => {
                if self.on_completed().is_some() {
                    out.push(Signal::Completed);
                }
            },
        }
    }

    /// Offers the signals of `signals` to the guard in order, and returns
    /// those that the consumer receives: on a guard still holding its
    /// consumer, every signal up to and including the first terminal one.
    pub fn replay<I, E>(&mut self, signals: Vec<Signal<I, E>>) -> (r: Vec<Signal<I, E>>)
        ensures
            r@ == if old(self).slot().is_some() {
                guarded(signals@)
            } else {
                Seq::empty()
            },
            final(self).slot() == if live(signals@) {
                old(self).slot()
            } else {
                None
            },
            final(self).spec_id() == old(self).spec_id(),
    {
        let ghost src = signals@;
        let ghost was_live = self.slot().is_some();
        let mut out: Vec<Signal<I, E>> = Vec::new();
        for x in it: signals.into_iter()
            invariant
                it.seq() == src,
                self.spec_id() == old(self).spec_id(),
                was_live == old(self).slot().is_some(),
                self.slot() == if live(src.take(it.index() as int)) {
                    old(self).slot()
                } else {
                    None
                },
                out@ == if was_live {
                    guarded(src.take(it.index() as int))
                } else {
                    Seq::empty()
                },
        {
            proof {
                assert(src.take(it.index() + 1) =~= src.take(it.index() as int).push(x));
                lemma_guarded_push(src.take(it.index() as int), x);
            }
            self.deliver(x, &mut out);
        }
        proof {
            assert(src.take(src.len() as int) =~= src);
        }
        out
    }
}

} // verus!
