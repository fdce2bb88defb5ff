//! A queue of events that carry their own viability rule.
//!
//! Validators mark an event non-viable instead of removing it; a reader then
//! takes the events that survived every rule and commits them.

use vstd::prelude::*;
use std::collections::VecDeque;

verus! {

/// An event that knows whether it is still worth acting on.
pub trait RuledEvent: Sized {
    /// The event's viability, as contracts speak of it.
    spec fn spec_viable(&self) -> bool;

    /// Reports [`Self::spec_viable`].
    fn is_viable(&self) -> (r: bool)
        ensures
            r == self.spec_viable(),
    ;
}

/// The events of a sequence that are still viable, in order.
pub open spec fn viable_events<T: RuledEvent>(s: Seq<T>) -> Seq<T> {
    s.filter(|e: T| e.spec_viable())
}

/// A FIFO queue of [`RuledEvent`]s.
pub struct RuledEventQueue<T: RuledEvent> {
    events: VecDeque<T>,
}

impl<T: RuledEvent> View for RuledEventQueue<T> {
    type V = Seq<T>;

    closed spec fn view(&self) -> Seq<T> {
        self.events@
    }
}

impl<T: RuledEvent> RuledEventQueue<T> {
    /// An empty queue.
    pub fn new() -> (q: Self)
        ensures
            q@ == Seq::<T>::empty(),
    {
        Self { events: VecDeque::new() }
    }

    /// Appends an event at the back.
    pub fn add_event(&mut self, event: T)
        ensures
            final(self)@ == old(self)@.push(event),
    {
        self.events.push_back(event);
    }

    /// Takes every queued event, returning those that are still viable, in
    /// their queue order; the queue is left empty. Handing the survivors
    /// out by value folds the separate queue-cleanup step into the read, so
    /// consumed events are never retained.
    #[verifier::loop_isolation(false)]
    pub fn read_events(&mut self) -> (viable: Vec<T>)
        ensures
            viable@ == viable_events(old(self)@),
            final(self)@ == Seq::<T>::empty(),
    {
        let ghost total = self.events@;
        let mut result: Vec<T> = Vec::new();
        while self.events.len() != 0
            invariant
                self.events@.len() <= total.len(),
                self.events@ == total.subrange(
                    total.len() - self.events@.len(),
                    total.len() as int,
                ),
                result@ == viable_events(total.subrange(0, total.len() - self.events@.len())),
            decreases self.events@.len(),
        {
            let ghost k = total.len() - self.events@.len();
            let ghost prefix = total.subrange(0, k as int);
            let e = match self.events.pop_front() {
                Some(e) => e,
                None => {
                    proof {
                        assert(false);
                    }
                    unreached()
                },
            };
            proof {
                reveal(Seq::filter);
                assert(k < total.len());
                assert(e == total[k as int]);
                let prefix1 = total.subrange(0, k + 1);
                assert(prefix1.len() == k + 1);
                assert(prefix1.drop_last() =~= prefix);
                assert(prefix1.last() == total[k as int]);
                assert(viable_events(prefix1) == (if total[k as int].spec_viable() {
                    viable_events(prefix).push(total[k as int])
                } else {
                    viable_events(prefix)
                }));
                assert(self.events@ =~= total.subrange(k + 1, total.len() as int));
            }
            if e.is_viable() {
                result.push(e);
            }
        }
        proof {
            assert(total.subrange(0, total.len() as int) =~= total);
            assert(self.events@ =~= Seq::<T>::empty());
        }
        result
    }
}

} // verus!
