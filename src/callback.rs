//! The slot behind a one-shot result handler: whichever caller reaches it
//! first takes the handler, every later caller finds it empty.
use vstd::prelude::*;

verus! {

/// Holds a one-shot handler until the first delivery takes it.
pub struct OnceSlot<F> {
    handler: Option<F>,
}

/// One delivery attempt on a slot holding `slot`, with the result `rv`:
/// the slot that remains, and the handler paired with the result when this
/// attempt is the one that invokes it.
pub open spec fn deliver_step<F, R>(slot: Option<F>, rv: R) -> (Option<F>, Option<(F, R)>) {
    match slot {
        Some(f) => (None, Some((f, rv))),
        None => (None, None),
    }
}

/// The handler invocations that a series of delivery attempts produces, in
/// order, starting from a slot holding `slot`.
pub open spec fn invocations<F, R>(slot: Option<F>, calls: Seq<R>) -> Seq<(F, R)>
    decreases calls.len(),
{
    if calls.len() == 0 {
        Seq::empty()
    } else {
        let (rest, fired) = deliver_step(slot, calls[0]);
        let tail = invocations(rest, calls.drop_first());
        match fired {
            Some(p) => seq![p] + tail,
            None => tail,
        }
    }
}

impl<F> OnceSlot<F> {
    pub closed spec fn view(&self) -> Option<F> {
        self.handler
    }

    /// A slot holding `handler`.
    pub fn new(handler: F) -> (r: Self)
        ensures
            r@ == Some(handler),
    {
        OnceSlot { handler: Some(handler) }
    }

    /// Whether the handler has not been taken yet.
    pub fn is_pending(&self) -> (r: bool)
        ensures
            r == self@ is Some,
    {
        self.handler.is_some()
    }

    /// One delivery attempt with the result `rv`: on the first attempt the
    /// handler leaves the slot and comes back with `rv`, to be invoked on it;
    /// on any later attempt nothing comes back.
    pub fn deliver<R>(&mut self, rv: R) -> (r: Option<(F, R)>)
        ensures
            (final(self)@, r) == deliver_step(old(self)@, rv),
    {
        match self.handler.take() {
            Some(f) => Some((f, rv)),
            None => None,
        }
    }
}

/// A slot that is empty never invokes anything again, whatever is delivered.
pub proof fn lemma_empty_slot_stays_silent<F, R>(calls: Seq<R>)
    ensures
        invocations(None::<F>, calls) == Seq::<(F, R)>::empty(),
    decreases calls.len(),
{
    if calls.len() > 0 {
        lemma_empty_slot_stays_silent::<F, R>(calls.drop_first());
    }
}

/// Exactly-once delivery: whatever series of results is delivered to a slot
/// holding `handler`, the handler is invoked once, with the first result.
pub proof fn lemma_exactly_once<F, R>(handler: F, calls: Seq<R>)
    requires
        calls.len() > 0,
    ensures
        invocations(Some(handler), calls) == seq![(handler, calls[0])],
{
    lemma_empty_slot_stays_silent::<F, R>(calls.drop_first());
    assert(seq![(handler, calls[0])] + Seq::<(F, R)>::empty() =~= seq![(handler, calls[0])]);
}

} // verus!
