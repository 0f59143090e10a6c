//! The capability traits every queue variant offers: emitting events,
//! listening for events, and querying the delivery buffer.

use vstd::prelude::*;

verus! {

/// The outcome reported for one emitted event.
///
/// A 1:1 queue always answers [`EmitResult::Delivered`], since its single
/// consumer exists for the queue's whole lifetime.  The type is shared with
/// queue variants that can lose their consumers; such a variant hands the
/// event back through [`EmitResult::Undelivered`].
pub enum EmitResult<T> {
    /// The event now sits where its consumer will drain it.
    Delivered,
    /// No consumer remains; the event is returned to the caller.
    Undelivered(T),
}

/// Capability shared by every queue variant: querying whether the
/// endpoint's outbox still holds undelivered events.
pub trait QueueInterfaceCommon {
    /// The element type of this endpoint's outbox.
    type Item;

    /// The events sitting in this endpoint's outbox, oldest first, which the
    /// counterpart has not yet drained.
    spec fn outbox(&self) -> Seq<Self::Item>;

    /// Reports whether the outbox holds no undelivered event.
    /// Side-effect-free: the state is only read.
    fn buffer_is_empty(&self) -> (r: bool)
        ensures
            r == (self.outbox().len() == 0),
    ;
}

/// Capability of pushing one event towards the counterpart endpoint.
pub trait Emitter: QueueInterfaceCommon {
    /// Appends `event` at the end of this endpoint's outbox and reports
    /// whether a consumer will see it.
    fn emit_owned(&mut self, event: Self::Item) -> (r: EmitResult<Self::Item>)
        ensures
            final(self).outbox() == old(self).outbox().push(event),
    ;
}

/// Capability of draining the events the counterpart endpoint has emitted.
/// Every operation empties the inbox; none of them blocks or waits.
pub trait Listen {
    /// The element type of this endpoint's inbox.
    type Item;

    /// The events waiting for this endpoint to drain them, oldest first.
    spec fn inbox(&self) -> Seq<Self::Item>;

    /// Drains the inbox entirely and returns its events in arrival order.
    ///
    /// Despite its name this operation is destructive: a second call with
    /// no intervening emission from the counterpart returns an empty
    /// vector.  That contract is deliberate and must be preserved by every
    /// implementation.
    fn peek(&mut self) -> (r: Vec<Self::Item>)
        ensures
            r@ == old(self).inbox(),
            final(self).inbox() == Seq::<Self::Item>::empty(),
    ;

    /// Drains the inbox and applies `f` to each event in arrival order,
    /// returning the transformed events.  Equivalent to [`Listen::peek`]
    /// followed by a transformation of each element.
    fn map<R, F: Fn(&Self::Item) -> R>(&mut self, f: F) -> (r: Vec<R>)
        requires
            forall|i: int|
                0 <= i < old(self).inbox().len() ==> call_requires(
                    f,
                    (&old(self).inbox()[i],),
                ),
        ensures
            final(self).inbox() == Seq::<Self::Item>::empty(),
            r@.len() == old(self).inbox().len(),
            forall|i: int|
                0 <= i < r@.len() ==> call_ensures(f, (&old(self).inbox()[i],), #[trigger] r@[i]),
    ;

    /// Drains the inbox and invokes `f` once with the drained events
    /// exposed as a single read-only slice, returning `f`'s result.
    fn with<R, F: FnOnce(&[Self::Item]) -> R>(&mut self, f: F) -> (r: R)
        requires
            forall|s: &[Self::Item]|
                s@ == old(self).inbox() ==> #[trigger] call_requires(f, (s,)),
        ensures
            final(self).inbox() == Seq::<Self::Item>::empty(),
            exists|s: &[Self::Item]| s@ == old(self).inbox() && call_ensures(f, (s,), r),
    ;
}

} // verus!
