//! A bidirectional event queue for 1:1 communication between a primary and
//! a secondary endpoint.
//!
//! The queue owns two FIFO buffers, one per direction of travel.  Each
//! endpoint sees one buffer as its inbox (drained by it) and the other as
//! its outbox (filled by it).  Exactly one endpoint value is live at any
//! instant: turning the primary endpoint into the secondary one (and back)
//! moves the store, so mutation of a buffer is exclusive by construction
//! and neither endpoint can outlive the store.

use crate::traits::{Emitter, EmitResult, Listen, QueueInterfaceCommon};
use std::collections::VecDeque;
use vstd::prelude::*;

verus! {

/// The primary endpoint of a bidirectional event queue; it owns the store.
///
/// The first type parameter describes the events the primary endpoint
/// receives, the second the events the secondary endpoint receives.
pub struct Queue<Tp, Ts> {
    /// Events travelling towards the primary endpoint, oldest first.
    to_primary: VecDeque<Tp>,
    /// Events travelling towards the secondary endpoint, oldest first.
    to_secondary: VecDeque<Ts>,
}

/// The "other" end of the bidirectional [`Queue`].
///
/// It holds the same store the primary endpoint owned, with the two
/// buffers' roles swapped: its inbox is the primary endpoint's outbox and
/// vice versa.  There is exactly one secondary endpoint per queue; it is
/// obtained from [`Queue::secondary`] and turned back with
/// [`Secondary::primary`].
pub struct Secondary<Tp, Ts> {
    /// The store, unchanged; only the roles of its buffers differ.
    queue: Queue<Tp, Ts>,
}

/// The events a bounce transform kept, in order: the payload of every
/// `Some` result, with the `None` results discarded without record.
pub open spec fn kept_events<T>(results: Seq<Option<T>>) -> Seq<T>
    decreases results.len(),
{
    if results.len() == 0 {
        Seq::empty()
    } else {
        match results.last() {
            Some(e) => kept_events(results.drop_last()).push(e),
            None => kept_events(results.drop_last()),
        }
    }
}

impl<Tp, Ts> Default for Queue<Tp, Ts> {
    /// Creates a queue whose two buffers are empty.
    fn default() -> (q: Self)
        ensures
            q.inbox() == Seq::<Tp>::empty(),
            q.outbox() == Seq::<Ts>::empty(),
    {
        Queue { to_primary: VecDeque::new(), to_secondary: VecDeque::new() }
    }
}

impl<Tp, Ts> Queue<Tp, Ts> {
    /// Creates a queue whose two buffers are empty.
    pub fn new() -> (q: Self)
        ensures
            q.inbox() == Seq::<Tp>::empty(),
            q.outbox() == Seq::<Ts>::empty(),
    {
        Default::default()
    }

    /// Hands the store over to the "other" end of the queue.  The two
    /// buffers keep their contents; only their roles are swapped.
    pub fn secondary(self) -> (s: Secondary<Tp, Ts>)
        ensures
            s.inbox() == self.outbox(),
            s.outbox() == self.inbox(),
    {
        Secondary { queue: self }
    }

    /// Drains this endpoint's inbox, applies `f` to each drained event in
    /// arrival order, and appends every kept (`Some`) result, in that
    /// order, at the end of this endpoint's own outbox.  Events `f` drops
    /// (`None`) leave no record.  The inbox is emptied exactly once per
    /// call, however many results `f` keeps, and no intermediate state is
    /// ever observable.
    pub fn bounce<F: Fn(Tp) -> Option<Ts>>(&mut self, f: F)
        requires
            forall|i: int|
                0 <= i < old(self).inbox().len() ==> call_requires(f, (old(self).inbox()[i],)),
        ensures
            final(self).inbox() == Seq::<Tp>::empty(),
            exists|results: Seq<Option<Ts>>|
                #![trigger kept_events(results)]
                {
                    &&& results.len() == old(self).inbox().len()
                    &&& forall|i: int|
                        0 <= i < results.len() ==> call_ensures(
                            f,
                            (old(self).inbox()[i],),
                            #[trigger] results[i],
                        )
                    &&& final(self).outbox() == old(self).outbox() + kept_events(results)
                },
    {
        let ghost all: Seq<Tp> = self.to_primary@;
        let ghost out0: Seq<Ts> = self.to_secondary@;
        let ghost mut results: Seq<Option<Ts>> = Seq::empty();
        proof {
            assert(self.to_secondary@ =~= out0 + kept_events(results));
            assert(self.to_primary@ =~= all.skip(0));
            assert forall|i: int| 0 <= i < all.len() implies call_requires(f, (all[i],)) by {
                assert(call_requires(f, (old(self).inbox()[i],)));
            };
        }
        while self.to_primary.len() > 0
            invariant
                results.len() + self.to_primary@.len() == all.len(),
                self.to_primary@ == all.skip(results.len() as int),
                forall|i: int| 0 <= i < all.len() ==> call_requires(f, (all[i],)),
                forall|i: int|
                    0 <= i < results.len() ==> call_ensures(f, (all[i],), #[trigger] results[i]),
                self.to_secondary@ == out0 + kept_events(results),
            decreases self.to_primary@.len(),
        {
            let ghost k = results.len() as int;
            proof {
                assert(all.skip(k)[0] == all[k]);
                assert(call_requires(f, (all[k],)));
            }
            match self.to_primary.pop_front() {
                Some(x) => {
                    match f(x) {
                        Some(e) => {
                            self.to_secondary.push_back(e);
                            proof {
                                let prev = results;
                                results = results.push(Some(e));
                                assert(results.drop_last() =~= prev);
                                assert(kept_events(results) == kept_events(prev).push(e));
                                assert(self.to_secondary@ =~= out0 + kept_events(results));
                            }
                        },
                        None => {
                            proof {
                                let prev = results;
                                results = results.push(None);
                                assert(results.drop_last() =~= prev);
                                assert(kept_events(results) == kept_events(prev));
                            }
                        },
                    }
                },
                None => {
                    proof {
                        assert(false);
                    }
                },
            }
            proof {
                assert(self.to_primary@ =~= all.skip(results.len() as int));
            }
        }
        proof {
            assert(results.len() == all.len());
        }
    }
}

impl<Tp, Ts> Secondary<Tp, Ts> {
    /// Hands the store back to the primary end of the queue.  The two
    /// buffers keep their contents; only their roles are swapped.
    pub fn primary(self) -> (q: Queue<Tp, Ts>)
        ensures
            q.inbox() == self.outbox(),
            q.outbox() == self.inbox(),
    {
        self.queue
    }

    /// Drains this endpoint's inbox, applies `f` to each drained event in
    /// arrival order, and appends every kept (`Some`) result, in that
    /// order, at the end of this endpoint's own outbox.  Events `f` drops
    /// (`None`) leave no record.  The inbox is emptied exactly once per
    /// call, however many results `f` keeps, and no intermediate state is
    /// ever observable.
    pub fn bounce<F: Fn(Ts) -> Option<Tp>>(&mut self, f: F)
        requires
            forall|i: int|
                0 <= i < old(self).inbox().len() ==> call_requires(f, (old(self).inbox()[i],)),
        ensures
            final(self).inbox() == Seq::<Ts>::empty(),
            exists|results: Seq<Option<Tp>>|
                #![trigger kept_events(results)]
                {
                    &&& results.len() == old(self).inbox().len()
                    &&& forall|i: int|
                        0 <= i < results.len() ==> call_ensures(
                            f,
                            (old(self).inbox()[i],),
                            #[trigger] results[i],
                        )
                    &&& final(self).outbox() == old(self).outbox() + kept_events(results)
                },
    {
        let ghost all: Seq<Ts> = self.queue.to_secondary@;
        let ghost out0: Seq<Tp> = self.queue.to_primary@;
        let ghost mut results: Seq<Option<Tp>> = Seq::empty();
        proof {
            assert(self.queue.to_primary@ =~= out0 + kept_events(results));
            assert(self.queue.to_secondary@ =~= all.skip(0));
            assert forall|i: int| 0 <= i < all.len() implies call_requires(f, (all[i],)) by {
                assert(call_requires(f, (old(self).inbox()[i],)));
            };
        }
        while self.queue.to_secondary.len() > 0
            invariant
                results.len() + self.queue.to_secondary@.len() == all.len(),
                self.queue.to_secondary@ == all.skip(results.len() as int),
                forall|i: int| 0 <= i < all.len() ==> call_requires(f, (all[i],)),
                forall|i: int|
                    0 <= i < results.len() ==> call_ensures(f, (all[i],), #[trigger] results[i]),
                self.queue.to_primary@ == out0 + kept_events(results),
            decreases self.queue.to_secondary@.len(),
        {
            let ghost k = results.len() as int;
            proof {
                assert(all.skip(k)[0] == all[k]);
                assert(call_requires(f, (all[k],)));
            }
            match self.queue.to_secondary.pop_front() {
                Some(x) => {
                    match f(x) {
                        Some(e) => {
                            self.queue.to_primary.push_back(e);
                            proof {
                                let prev = results;
                                results = results.push(Some(e));
                                assert(results.drop_last() =~= prev);
                                assert(kept_events(results) == kept_events(prev).push(e));
                                assert(self.queue.to_primary@ =~= out0 + kept_events(results));
                            }
                        },
                        None => {
                            proof {
                                let prev = results;
                                results = results.push(None);
                                assert(results.drop_last() =~= prev);
                                assert(kept_events(results) == kept_events(prev));
                            }
                        },
                    }
                },
                None => {
                    proof {
                        assert(false);
                    }
                },
            }
            proof {
                assert(self.queue.to_secondary@ =~= all.skip(results.len() as int));
            }
        }
        proof {
            assert(results.len() == all.len());
        }
    }
}

impl<Tp, Ts: Clone> Queue<Tp, Ts> {
    /// Appends a copy of the borrowed `event` at the end of this
    /// endpoint's outbox; the caller's original is left intact.
    pub fn emit_borrowed(&mut self, event: &Ts) -> (r: EmitResult<Ts>)
        ensures
            exists|c: Ts|
                #[trigger] cloned(*event, c) && final(self).outbox() == old(
                    self,
                ).outbox().push(c),
            final(self).outbox().len() == old(self).outbox().len() + 1,
            final(self).inbox() == old(self).inbox(),
            r is Delivered,
    {
        let c = event.clone();
        proof {
            assert(cloned(*event, c));
        }
        self.to_secondary.push_back(c);
        EmitResult::Delivered
    }
}

impl<Tp: Clone, Ts> Secondary<Tp, Ts> {
    /// Appends a copy of the borrowed `event` at the end of this
    /// endpoint's outbox; the caller's original is left intact.
    pub fn emit_borrowed(&mut self, event: &Tp) -> (r: EmitResult<Tp>)
        ensures
            exists|c: Tp|
                #[trigger] cloned(*event, c) && final(self).outbox() == old(
                    self,
                ).outbox().push(c),
            final(self).outbox().len() == old(self).outbox().len() + 1,
            final(self).inbox() == old(self).inbox(),
            r is Delivered,
    {
        let c = event.clone();
        proof {
            assert(cloned(*event, c));
        }
        self.queue.to_primary.push_back(c);
        EmitResult::Delivered
    }
}

impl<Tp, Ts> QueueInterfaceCommon for Queue<Tp, Ts> {
    type Item = Ts;

    closed spec fn outbox(&self) -> Seq<Ts> {
        self.to_secondary@
    }

    fn buffer_is_empty(&self) -> (r: bool) {
        self.to_secondary.len() == 0
    }
}

impl<Tp, Ts> QueueInterfaceCommon for Secondary<Tp, Ts> {
    type Item = Tp;

    closed spec fn outbox(&self) -> Seq<Tp> {
        self.queue.to_primary@
    }

    fn buffer_is_empty(&self) -> (r: bool) {
        self.queue.to_primary.len() == 0
    }
}

impl<Tp, Ts> Emitter for Queue<Tp, Ts> {
    fn emit_owned(&mut self, event: Ts) -> (r: EmitResult<Ts>)
        ensures
            final(self).inbox() == old(self).inbox(),
            r is Delivered,
    {
        self.to_secondary.push_back(event);
        EmitResult::Delivered
    }
}

impl<Tp, Ts> Emitter for Secondary<Tp, Ts> {
    fn emit_owned(&mut self, event: Tp) -> (r: EmitResult<Tp>)
        ensures
            final(self).inbox() == old(self).inbox(),
            r is Delivered,
    {
        self.queue.to_primary.push_back(event);
        EmitResult::Delivered
    }
}

impl<Tp, Ts> Listen for Queue<Tp, Ts> {
    type Item = Tp;

    closed spec fn inbox(&self) -> Seq<Tp> {
        self.to_primary@
    }

    fn peek(&mut self) -> (r: Vec<Tp>)
        ensures
            final(self).outbox() == old(self).outbox(),
    {
        let mut r: Vec<Tp> = Vec::new();
        while self.to_primary.len() > 0
            invariant
                r@ + self.to_primary@ == old(self).inbox(),
                self.to_secondary@ == old(self).outbox(),
            decreases self.to_primary@.len(),
        {
            let ghost prev_r = r@;
            let ghost prev_d = self.to_primary@;
            match self.to_primary.pop_front() {
                Some(x) => {
                    r.push(x);
                    proof {
                        assert(prev_r.push(x) + self.to_primary@ =~= prev_r + prev_d);
                    }
                },
                None => {
                    proof {
                        assert(false);
                    }
                },
            }
        }
        proof {
            assert(r@ =~= old(self).inbox());
        }
        r
    }

    fn map<R, F: Fn(&Tp) -> R>(&mut self, f: F) -> (r: Vec<R>)
        ensures
            final(self).outbox() == old(self).outbox(),
    {
        let ghost all: Seq<Tp> = self.to_primary@;
        let mut out: Vec<R> = Vec::new();
        while self.to_primary.len() > 0
            invariant
                out@.len() + self.to_primary@.len() == all.len(),
                self.to_primary@ == all.skip(out@.len() as int),
                self.to_secondary@ == old(self).outbox(),
                all == old(self).inbox(),
                forall|i: int|
                    0 <= i < all.len() ==> call_requires(f, (&old(self).inbox()[i],)),
                forall|i: int|
                    0 <= i < out@.len() ==> call_ensures(
                        f,
                        (&old(self).inbox()[i],),
                        #[trigger] out@[i],
                    ),
            decreases self.to_primary@.len(),
        {
            let ghost k = out@.len() as int;
            proof {
                assert(all.skip(k)[0] == all[k]);
                assert(call_requires(f, (&old(self).inbox()[k],)));
            }
            match self.to_primary.pop_front() {
                Some(x) => {
                    let y = f(&x);
                    out.push(y);
                    proof {
                        assert(self.to_primary@ =~= all.skip(out@.len() as int));
                    }
                },
                None => {
                    proof {
                        assert(false);
                    }
                },
            }
        }
        out
    }

    fn with<R, F: FnOnce(&[Tp]) -> R>(&mut self, f: F) -> (r: R)
        ensures
            final(self).outbox() == old(self).outbox(),
    {
        let drained = self.peek();
        f(drained.as_slice())
    }
}

impl<Tp, Ts> Listen for Secondary<Tp, Ts> {
    type Item = Ts;

    closed spec fn inbox(&self) -> Seq<Ts> {
        self.queue.to_secondary@
    }

    fn peek(&mut self) -> (r: Vec<Ts>)
        ensures
            final(self).outbox() == old(self).outbox(),
    {
        let mut r: Vec<Ts> = Vec::new();
        while self.queue.to_secondary.len() > 0
            invariant
                r@ + self.queue.to_secondary@ == old(self).inbox(),
                self.queue.to_primary@ == old(self).outbox(),
            decreases self.queue.to_secondary@.len(),
        {
            let ghost prev_r = r@;
            let ghost prev_d = self.queue.to_secondary@;
            match self.queue.to_secondary.pop_front() {
                Some(x) => {
                    r.push(x);
                    proof {
                        assert(prev_r.push(x) + self.queue.to_secondary@ =~= prev_r + prev_d);
                    }
                },
                None => {
                    proof {
                        assert(false);
                    }
                },
            }
        }
        proof {
            assert(r@ =~= old(self).inbox());
        }
        r
    }

    fn map<R, F: Fn(&Ts) -> R>(&mut self, f: F) -> (r: Vec<R>)
        ensures
            final(self).outbox() == old(self).outbox(),
    {
        let ghost all: Seq<Ts> = self.queue.to_secondary@;
        let mut out: Vec<R> = Vec::new();
        while self.queue.to_secondary.len() > 0
            invariant
                out@.len() + self.queue.to_secondary@.len() == all.len(),
                self.queue.to_secondary@ == all.skip(out@.len() as int),
                self.queue.to_primary@ == old(self).outbox(),
                all == old(self).inbox(),
                forall|i: int|
                    0 <= i < all.len() ==> call_requires(f, (&old(self).inbox()[i],)),
                forall|i: int|
                    0 <= i < out@.len() ==> call_ensures(
                        f,
                        (&old(self).inbox()[i],),
                        #[trigger] out@[i],
                    ),
            decreases self.queue.to_secondary@.len(),
        {
            let ghost k = out@.len() as int;
            proof {
                assert(all.skip(k)[0] == all[k]);
                assert(call_requires(f, (&old(self).inbox()[k],)));
            }
            match self.queue.to_secondary.pop_front() {
                Some(x) => {
                    let y = f(&x);
                    out.push(y);
                    proof {
                        assert(self.queue.to_secondary@ =~= all.skip(out@.len() as int));
                    }
                },
                None => {
                    proof {
                        assert(false);
                    }
                },
            }
        }
        out
    }

    fn with<R, F: FnOnce(&[Ts]) -> R>(&mut self, f: F) -> (r: R)
        ensures
            final(self).outbox() == old(self).outbox(),
    {
        let drained = self.peek();
        f(drained.as_slice())
    }
}

} // verus!
