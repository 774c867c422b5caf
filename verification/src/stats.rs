//! The attribution middleware: correlates a request event carrying a
//! trigger with the later completion event of the same source id, and hands
//! exactly one record per successful pairing to a recorder capability.
//!
//! The pending state is bounded: when it outgrows `PENDING_EVENTS_CAP`, it
//! is cleared wholesale before the next entry is accepted, trading the
//! attribution of in-flight entries for a hard memory bound.

use crate::event::{Event, EventType, RenderingRequestedEvent};
use crate::middleware::Middleware;
use crate::pending::PendingMap;
use vstd::prelude::*;

verus! {

/// Bound on the number of pending attribution entries.
pub const PENDING_EVENTS_CAP: usize = 4096;

/// One attribution record: the trigger whose expansion was injected.
#[derive(Clone, Debug)]
pub struct StatsRecord {
    pub trigger: String,
}

/// A sink for attribution records. `record` must not fail or block the
/// caller; the ghost `recorded` history lists every record accepted so far.
pub trait StatsRecorder: Sized {
    /// The triggers recorded so far, in order.
    spec fn recorded(&self) -> Seq<Seq<char>>;

    /// Accept one record.
    fn record(&mut self, record: StatsRecord)
        ensures
            final(self).recorded() == old(self).recorded().push(record.trigger@),
    ;
}

/// A recorder that drops every record; used when no real sink was
/// registered.
pub struct NoOpRecorder {
    history: Ghost<Seq<Seq<char>>>,
}

impl NoOpRecorder {
    pub fn new() -> (r: Self)
        ensures
            r.recorded() == Seq::<Seq<char>>::empty(),
    {
        NoOpRecorder { history: Ghost(Seq::empty()) }
    }
}

impl StatsRecorder for NoOpRecorder {
    closed spec fn recorded(&self) -> Seq<Seq<char>> {
        self.history@
    }

    fn record(&mut self, record: StatsRecord) {
        self.history = Ghost(self.history@.push(record.trigger@));
    }
}

/// A recorder that keeps every record in memory; the deterministic sink
/// used by tests and by callers that flush records elsewhere themselves.
pub struct CollectingRecorder {
    pub records: Vec<StatsRecord>,
}

impl CollectingRecorder {
    pub fn new() -> (r: Self)
        ensures
            r.recorded() == Seq::<Seq<char>>::empty(),
            r.records@.len() == 0,
    {
        CollectingRecorder { records: Vec::new() }
    }
}

impl StatsRecorder for CollectingRecorder {
    open spec fn recorded(&self) -> Seq<Seq<char>> {
        self.records@.map(|i: int, r: StatsRecord| r.trigger@)
    }

    fn record(&mut self, record: StatsRecord) {
        let ghost oldr = self.records@;
        self.records.push(record);
        proof {
            assert(self.recorded() =~= oldr.map(|i: int, r: StatsRecord| r.trigger@).push(
                record.trigger@));
        }
    }
}

/// Register a recorder in a write-once slot: the first registration wins
/// and later attempts are ignored.
pub fn set_global_recorder<R: StatsRecorder>(slot: &mut Option<R>, recorder: R)
    ensures
        *final(slot) == (if (*old(slot)) is None {
            Some(recorder)
        } else {
            *old(slot)
        }),
{
    if slot.is_none() {
        *slot = Some(recorder);
    }
}

/// The pending map after a discard-previous event: exactly the entries
/// with `source_id >= m` survive.
pub open spec fn discard_previous(p: Map<u64, Seq<char>>, m: u64) -> Map<u64, Seq<char>> {
    Map::new(|k: u64| p.dom().contains(k) && k >= m, |k: u64| p[k])
}

/// The pending map after a discard-between event: exactly the entries
/// with `source_id` outside `[s, e)` survive.
pub open spec fn discard_between(p: Map<u64, Seq<char>>, s: u64, e: u64) -> Map<u64, Seq<char>> {
    Map::new(|k: u64| p.dom().contains(k) && (k < s || k >= e), |k: u64| p[k])
}

/// Insertion under the capacity bound: a map that has outgrown the cap is
/// cleared wholesale before the new entry is accepted.
pub open spec fn insert_bounded(p: Map<u64, Seq<char>>, sid: u64, t: Seq<char>) -> Map<
    u64,
    Seq<char>,
> {
    if p.dom().len() > PENDING_EVENTS_CAP {
        Map::empty().insert(sid, t)
    } else {
        p.insert(sid, t)
    }
}

/// The pending map after one event.
pub open spec fn pending_after(p: Map<u64, Seq<char>>, e: Event) -> Map<u64, Seq<char>> {
    match e.etype {
        EventType::RenderingRequested(r) => match r.trigger {
            Some(t) => insert_bounded(p, e.source_id, t@),
            None => p,
        },
        EventType::ImageRequested(r) => match r.trigger {
            Some(t) => insert_bounded(p, e.source_id, t@),
            None => p,
        },
        EventType::DiscardPrevious(d) => discard_previous(p, d.minimum_source_id),
        EventType::DiscardBetween(d) => discard_between(p, d.start_id, d.end_id),
        EventType::MatchInjected => p.remove(e.source_id),
        EventType::Passthrough => p,
    }
}

/// The record emitted by one event: exactly a completion whose source id
/// is pending yields a record, carrying the pending trigger.
pub open spec fn record_after(p: Map<u64, Seq<char>>, e: Event) -> Option<Seq<char>> {
    match e.etype {
        EventType::MatchInjected => if p.dom().contains(e.source_id) {
            Some(p[e.source_id])
        } else {
            None
        },
        _ => None,
    }
}

/// A discard-previous event removes exactly the pending entries with
/// `source_id < m`: entries at or above `m` survive untouched, entries
/// below `m` are gone, and nothing appears from nowhere.
pub proof fn lemma_discard_previous_exact(p: Map<u64, Seq<char>>, m: u64)
    ensures
        forall|k: u64| #![trigger p.dom().contains(k)]
            p.dom().contains(k) && k >= m ==> discard_previous(p, m).dom().contains(k)
                && discard_previous(p, m)[k] == p[k],
        forall|k: u64| #![trigger p.dom().contains(k)]
            p.dom().contains(k) && k < m ==> !discard_previous(p, m).dom().contains(k),
        forall|k: u64| #![trigger discard_previous(p, m).dom().contains(k)]
            discard_previous(p, m).dom().contains(k) ==> p.dom().contains(k) && k >= m,
{
}

/// A discard-between event with `s <= e` removes exactly the pending
/// entries with `s <= source_id < e`; the others survive untouched.
pub proof fn lemma_discard_between_exact(p: Map<u64, Seq<char>>, s: u64, e: u64)
    requires
        s <= e,
    ensures
        forall|k: u64| #![trigger p.dom().contains(k)]
            p.dom().contains(k) && (k < s || k >= e) ==> discard_between(p, s, e).dom().contains(k)
                && discard_between(p, s, e)[k] == p[k],
        forall|k: u64| #![trigger p.dom().contains(k)]
            p.dom().contains(k) && s <= k < e ==> !discard_between(p, s, e).dom().contains(k),
        forall|k: u64| #![trigger discard_between(p, s, e).dom().contains(k)]
            discard_between(p, s, e).dom().contains(k) ==> p.dom().contains(k)
                && (k < s || k >= e),
{
}

/// A discard-between event whose range is empty removes nothing.
pub proof fn lemma_discard_between_empty_range(p: Map<u64, Seq<char>>, s: u64)
    ensures
        discard_between(p, s, s) == p,
{
    assert(discard_between(p, s, s) =~= p);
}

/// A completion event whose source id has no pending entry changes nothing
/// and produces no record.
pub proof fn lemma_injected_without_pending(p: Map<u64, Seq<char>>, sid: u64)
    requires
        !p.dom().contains(sid),
    ensures
        pending_after(p, Event { source_id: sid, etype: EventType::MatchInjected }) == p,
        record_after(p, Event { source_id: sid, etype: EventType::MatchInjected }) is None,
{
    assert(p.remove(sid) =~= p);
}

/// A request carrying a trigger, followed by the completion of the same
/// source id, yields exactly one record carrying that trigger; a second
/// completion of the same id yields none.
pub proof fn lemma_request_then_injected(p: Map<u64, Seq<char>>, sid: u64, trigger: String)
    ensures
        ({
            let req = Event {
                source_id: sid,
                etype: EventType::RenderingRequested(
                    RenderingRequestedEvent { trigger: Some(trigger) },
                ),
            };
            let inj = Event { source_id: sid, etype: EventType::MatchInjected };
            let p1 = pending_after(p, req);
            let p2 = pending_after(p1, inj);
            &&& record_after(p1, inj) == Some(trigger@)
            &&& p2 == p1.remove(sid)
            &&& record_after(p2, inj) is None
        }),
{
}

/// Inserting beyond the capacity bound resets the map to empty before the
/// new entry is accepted, and a completion for any entry pending before
/// the reset then produces no record.
pub proof fn lemma_insert_beyond_cap_clears(
    p: Map<u64, Seq<char>>,
    sid: u64,
    trigger: String,
    earlier: u64,
)
    requires
        p.dom().len() > PENDING_EVENTS_CAP,
        earlier != sid,
    ensures
        ({
            let req = Event {
                source_id: sid,
                etype: EventType::RenderingRequested(
                    RenderingRequestedEvent { trigger: Some(trigger) },
                ),
            };
            let p1 = pending_after(p, req);
            &&& p1 == Map::<u64, Seq<char>>::empty().insert(sid, trigger@)
            &&& record_after(p1, Event { source_id: earlier, etype: EventType::MatchInjected })
                is None
        }),
{
}

/// The attribution middleware. The recorder capability is injected at
/// construction; nothing else ever reaches it.
pub struct StatsMiddleware<R: StatsRecorder> {
    pending: PendingMap,
    recorder: R,
    observed_log: Ghost<Seq<Event>>,
    produced_log: Ghost<Seq<Event>>,
}

impl<R: StatsRecorder> StatsMiddleware<R> {
    /// The pending attribution entries, as a map from source id to trigger.
    pub closed spec fn pending_map(&self) -> Map<u64, Seq<char>> {
        self.pending@
    }

    /// The triggers the recorder has accepted so far.
    pub closed spec fn recorded(&self) -> Seq<Seq<char>> {
        self.recorder.recorded()
    }

    /// A fresh middleware around the given recorder.
    pub fn new(recorder: R) -> (r: Self)
        ensures
            r.inv(),
            r.pending_map() == Map::<u64, Seq<char>>::empty(),
            r.recorded() == recorder.recorded(),
            r.observed() == Seq::<Event>::empty(),
            r.produced() == Seq::<Event>::empty(),
            r.emitted() == Seq::<Event>::empty(),
    {
        StatsMiddleware {
            pending: PendingMap::new(),
            recorder,
            observed_log: Ghost(Seq::empty()),
            produced_log: Ghost(Seq::empty()),
        }
    }

    /// Read access to the recorder, for callers that own the sink's data.
    pub fn recorder(&self) -> (r: &R)
        ensures
            r.recorded() == self.recorded(),
    {
        &self.recorder
    }

    /// Record the trigger of a request event, clearing the map first if it
    /// has outgrown the capacity bound.
    fn note_request(&mut self, source_id: u64, trigger: &String)
        requires
            old(self).inv(),
        ensures
            final(self).inv(),
            final(self).pending_map() == insert_bounded(
                old(self).pending_map(),
                source_id,
                trigger@,
            ),
            final(self).recorder == old(self).recorder,
            final(self).observed_log == old(self).observed_log,
            final(self).produced_log == old(self).produced_log,
    {
        proof {
            self.pending.lemma_count_is_dom_len();
        }
        if self.pending.len() > PENDING_EVENTS_CAP {
            self.pending.clear();
        }
        self.pending.insert(source_id, trigger.clone());
    }
}

impl<R: StatsRecorder> Middleware for StatsMiddleware<R> {
    closed spec fn inv(&self) -> bool {
        self.pending.wf()
    }

    closed spec fn observed(&self) -> Seq<Event> {
        self.observed_log@
    }

    closed spec fn produced(&self) -> Seq<Event> {
        self.produced_log@
    }

    closed spec fn emitted(&self) -> Seq<Event> {
        Seq::empty()
    }

    /// One step: the event passes through unchanged, nothing is enqueued,
    /// the pending map moves by `pending_after` and the recorder receives
    /// exactly the record given by `record_after`.
    open spec fn stepped(&self, pre: Self, event: Event, out: Event, emitted: Seq<Event>)
        -> bool {
        &&& out == event
        &&& emitted == Seq::<Event>::empty()
        &&& self.pending_map() == pending_after(pre.pending_map(), event)
        &&& self.recorded() == (match record_after(pre.pending_map(), event) {
            Some(t) => pre.recorded().push(t),
            None => pre.recorded(),
        })
    }

    fn name(&self) -> &'static str {
        "stats"
    }

    fn next(&mut self, event: Event) -> (out: (Event, Vec<Event>)) {
        match &event.etype {
            EventType::RenderingRequested(r) => {
                match &r.trigger {
                    Some(t) => {
                        self.note_request(event.source_id, t);
                    },
                    None => {},
                }
            },
            EventType::ImageRequested(r) => {
                match &r.trigger {
                    Some(t) => {
                        self.note_request(event.source_id, t);
                    },
                    None => {},
                }
            },
            EventType::DiscardPrevious(d) => {
                self.pending.retain_at_least(d.minimum_source_id);
            },
            EventType::DiscardBetween(d) => {
                self.pending.retain_outside(d.start_id, d.end_id);
            },
            EventType::MatchInjected => {
                match self.pending.remove(event.source_id) {
                    Some(trigger) => {
                        self.recorder.record(StatsRecord { trigger });
                    },
                    None => {},
                }
            },
            EventType::Passthrough => {},
        }
        self.observed_log = Ghost(self.observed_log@.push(event));
        self.produced_log = Ghost(self.produced_log@.push(event));
        let dispatched: Vec<Event> = Vec::new();
        proof {
            assert(Seq::<Event>::empty() + dispatched@ =~= Seq::<Event>::empty());
        }
        (event, dispatched)
    }
}

} // verus!
