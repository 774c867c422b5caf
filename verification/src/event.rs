//! The event model of the pipeline.
//!
//! Every event carries a `SourceId`, an unsigned integer assigned at event
//! creation and monotonically increasing for the lifetime of the process.
//! The total order over `SourceId` is the only ordering guarantee the
//! pipeline provides.

use vstd::prelude::*;

verus! {

/// Identifies an event's creation order; the pipeline's sole ordering
/// primitive.
pub type SourceId = u64;

/// Payload of a request to render textual replacement content.
pub struct RenderingRequestedEvent {
    /// The textual trigger that caused the request, when known.
    pub trigger: Option<String>,
}

/// Payload of a request to produce image content.
pub struct ImageRequestedEvent {
    /// The textual trigger that caused the request, when known.
    pub trigger: Option<String>,
}

/// Invalidate all pending state for events with
/// `source_id < minimum_source_id`.
pub struct DiscardPreviousEvent {
    pub minimum_source_id: SourceId,
}

/// Invalidate pending state for events with
/// `start_id <= source_id < end_id`.
pub struct DiscardBetweenEvent {
    pub start_id: SourceId,
    pub end_id: SourceId,
}

/// The variants the core pipeline interprets. Everything else in the full
/// system is an opaque pass-through payload, modelled by `Passthrough`.
pub enum EventType {
    RenderingRequested(RenderingRequestedEvent),
    ImageRequested(ImageRequestedEvent),
    DiscardPrevious(DiscardPreviousEvent),
    DiscardBetween(DiscardBetweenEvent),
    MatchInjected,
    Passthrough,
}

/// An event of the pipeline: immutable once created; a middleware replaces
/// it wholesale rather than mutating it in place.
pub struct Event {
    pub source_id: SourceId,
    pub etype: EventType,
}

} // verus!
