//! The laws the queue obeys, each stated over the same spec functions its
//! operations' contracts use, and proved once and for all.

use crate::bidir::kept_events;
use crate::traits::{Listen, QueueInterfaceCommon};
use vstd::prelude::*;

verus! {

/// The outbox as it stands after `events` have been emitted onto it one
/// after another, oldest first: each emission pushes its event at the end,
/// exactly as the emit operations' contracts state.
pub open spec fn after_emitting<T>(outbox: Seq<T>, events: Seq<T>) -> Seq<T>
    decreases events.len(),
{
    if events.len() == 0 {
        outbox
    } else {
        after_emitting(outbox.push(events[0]), events.drop_first())
    }
}

/// FIFO law: emitting a batch of events one by one appends the batch, in
/// emission order, at the end of the outbox.  A drain on the other
/// endpoint returns that buffer as it stands, so the drained order equals
/// the emission order.
pub proof fn lemma_fifo_order<T>(outbox: Seq<T>, events: Seq<T>)
    ensures
        after_emitting(outbox, events) == outbox + events,
    decreases events.len(),
{
    if events.len() == 0 {
        assert(after_emitting(outbox, events) =~= outbox + events);
    } else {
        lemma_fifo_order(outbox.push(events[0]), events.drop_first());
        assert(outbox.push(events[0]) + events.drop_first() =~= outbox + events);
    }
}

/// Draining law: `peek` and `map` empty the inbox they read.  Of two
/// consecutive drains with nothing emitted in between, the first returns
/// every waiting event — a non-empty batch whenever the inbox held any —
/// and the second returns nothing.  The four premises are the drain
/// contract of the two calls: each returns the inbox it found and leaves
/// the inbox empty.
pub proof fn lemma_drain_is_destructive<L: Listen>(
    before: L,
    between: L,
    first: Seq<L::Item>,
    after: L,
    second: Seq<L::Item>,
)
    requires
        first == before.inbox(),
        between.inbox() == Seq::<L::Item>::empty(),
        second == between.inbox(),
        after.inbox() == Seq::<L::Item>::empty(),
    ensures
        before.inbox().len() > 0 ==> first.len() > 0,
        second == Seq::<L::Item>::empty(),
{
}

/// Bounce law, identity transform: when every result the transform can
/// return wraps its argument unchanged in `Some`, a bounce is equivalent
/// to draining the inbox and appending it unchanged at the end of the
/// outbox.
pub proof fn lemma_bounce_identity<T, F: Fn(T) -> Option<T>>(
    f: F,
    inbox: Seq<T>,
    outbox: Seq<T>,
    results: Seq<Option<T>>,
)
    requires
        forall|x: T, r: Option<T>| #[trigger] call_ensures(f, (x,), r) ==> r == Some(x),
        results.len() == inbox.len(),
        forall|i: int| 0 <= i < results.len() ==> call_ensures(f, (inbox[i],), #[trigger] results[i]),
    ensures
        kept_events(results) == inbox,
        outbox + kept_events(results) == outbox + inbox,
    decreases results.len(),
{
    if results.len() == 0 {
        assert(kept_events(results) =~= inbox);
    } else {
        let n = results.len() - 1;
        assert(call_ensures(f, (inbox[n as int],), results[n as int]));
        assert forall|i: int|
            0 <= i < results.drop_last().len() implies call_ensures(
            f,
            (inbox.drop_last()[i],),
            #[trigger] results.drop_last()[i],
        ) by {
            assert(call_ensures(f, (inbox[i],), results[i]));
        };
        lemma_bounce_identity(f, inbox.drop_last(), outbox, results.drop_last());
        assert(kept_events(results) =~= inbox);
    }
}

/// Bounce law, dropping transform: when every result the transform can
/// return is `None`, a bounce empties the inbox and appends nothing to
/// the outbox.
pub proof fn lemma_bounce_drops_all<T, U, F: Fn(T) -> Option<U>>(
    f: F,
    inbox: Seq<T>,
    outbox: Seq<U>,
    results: Seq<Option<U>>,
)
    requires
        forall|x: T, r: Option<U>| #[trigger] call_ensures(f, (x,), r) ==> r is None,
        results.len() == inbox.len(),
        forall|i: int| 0 <= i < results.len() ==> call_ensures(f, (inbox[i],), #[trigger] results[i]),
    ensures
        kept_events(results) == Seq::<U>::empty(),
        outbox + kept_events(results) == outbox,
    decreases results.len(),
{
    if results.len() == 0 {
        assert(kept_events(results) =~= Seq::<U>::empty());
    } else {
        let n = results.len() - 1;
        assert(call_ensures(f, (inbox[n as int],), results[n as int]));
        assert forall|i: int|
            0 <= i < results.drop_last().len() implies call_ensures(
            f,
            (inbox.drop_last()[i],),
            #[trigger] results.drop_last()[i],
        ) by {
            assert(call_ensures(f, (inbox[i],), results[i]));
        };
        lemma_bounce_drops_all(f, inbox.drop_last(), outbox, results.drop_last());
    }
    assert(outbox + kept_events(results) =~= outbox);
}

/// Purity law: an emptiness query is a function of the endpoint's state
/// alone and mutates nothing, so repeated queries with no intervening
/// emission or drain return the same answer.  The premises are the query
/// contract of two calls on one and the same state.
pub proof fn lemma_buffer_is_empty_stable<Q: QueueInterfaceCommon>(
    endpoint: Q,
    first: bool,
    second: bool,
)
    requires
        first == (endpoint.outbox().len() == 0),
        second == (endpoint.outbox().len() == 0),
    ensures
        first == second,
{
}

} // verus!
