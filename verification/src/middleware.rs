//! The middleware capability: a stage of the processing chain that may
//! transform an event, act on it, and ask the processor to enqueue new
//! events.
//!
//! Every implementation carries three ghost histories — the events it
//! observed, the events it produced, and the events it emitted — so that
//! the processor can state, and prove, that each middleware sees every
//! consumed event exactly once, in consumption order, and that middleware
//! `i + 1` sees exactly what middleware `i` produced.

use crate::event::Event;
use vstd::prelude::*;

verus! {

pub trait Middleware: Sized {
    /// Internal well-formedness; established at construction and preserved
    /// by every step.
    spec fn inv(&self) -> bool;

    /// The events this middleware has received, in order.
    spec fn observed(&self) -> Seq<Event>;

    /// The events this middleware has returned, in order, one per
    /// observation.
    spec fn produced(&self) -> Seq<Event>;

    /// The events this middleware has asked the processor to dispatch, in
    /// order. A dispatched event carries whatever source id its creator
    /// gave it — usually the id of the event that caused it, so that a
    /// completion can be correlated with its request.
    spec fn emitted(&self) -> Seq<Event>;

    /// The full transition relation of one step; `self` is the state after
    /// the step. Implementations refine this to their exact semantics.
    spec fn stepped(&self, pre: Self, event: Event, out: Event, emitted: Seq<Event>) -> bool;

    /// A short name identifying the middleware.
    fn name(&self) -> &'static str;

    /// Handle one event: return the (possibly replaced) event to hand to
    /// the next middleware of the chain, together with new events to
    /// enqueue behind the current one.
    fn next(&mut self, event: Event) -> (out: (Event, Vec<Event>))
        requires
            old(self).inv(),
        ensures
            final(self).inv(),
            final(self).observed() == old(self).observed().push(event),
            final(self).produced() == old(self).produced().push(out.0),
            final(self).emitted() == old(self).emitted() + out.1@,
            final(self).stepped(*old(self), event, out.0, out.1@),
    ;
}

} // verus!
