use espanso_core::event::{
    DiscardBetweenEvent, DiscardPreviousEvent, Event, EventType, RenderingRequestedEvent,
};
use espanso_core::middleware::Middleware;
use espanso_core::processor::Processor;
use espanso_core::stats::{
    set_global_recorder, CollectingRecorder, NoOpRecorder, StatsMiddleware, StatsRecord,
    StatsRecorder,
};

fn request(source_id: u64, trigger: &str) -> Event {
    Event {
        source_id,
        etype: EventType::RenderingRequested(RenderingRequestedEvent {
            trigger: Some(trigger.to_string()),
        }),
    }
}

fn injected(source_id: u64) -> Event {
    Event {
        source_id,
        etype: EventType::MatchInjected,
    }
}

fn recorded(mw: &StatsMiddleware<CollectingRecorder>) -> Vec<String> {
    mw.recorder().records.iter().map(|r| r.trigger.clone()).collect()
}

#[test]
fn request_then_injected_records_exactly_once() {
    let mut mw = StatsMiddleware::new(CollectingRecorder::new());
    mw.next(request(7, "foo"));
    assert_eq!(recorded(&mw), Vec::<String>::new());
    mw.next(injected(7));
    assert_eq!(recorded(&mw), vec!["foo"]);
    // a second completion of the same id is a silent no-op
    mw.next(injected(7));
    assert_eq!(recorded(&mw), vec!["foo"]);
}

#[test]
fn injected_without_pending_records_nothing() {
    let mut mw = StatsMiddleware::new(CollectingRecorder::new());
    mw.next(injected(42));
    assert_eq!(recorded(&mw), Vec::<String>::new());
}

#[test]
fn request_without_trigger_is_not_tracked() {
    let mut mw = StatsMiddleware::new(CollectingRecorder::new());
    mw.next(Event {
        source_id: 3,
        etype: EventType::RenderingRequested(RenderingRequestedEvent { trigger: None }),
    });
    mw.next(injected(3));
    assert_eq!(recorded(&mw), Vec::<String>::new());
}

#[test]
fn discard_previous_drops_exactly_lower_ids() {
    let mut mw = StatsMiddleware::new(CollectingRecorder::new());
    mw.next(request(1, "one"));
    mw.next(request(2, "two"));
    mw.next(request(3, "three"));
    mw.next(Event {
        source_id: 9,
        etype: EventType::DiscardPrevious(DiscardPreviousEvent { minimum_source_id: 3 }),
    });
    mw.next(injected(1));
    mw.next(injected(2));
    mw.next(injected(3));
    assert_eq!(recorded(&mw), vec!["three"]);
}

#[test]
fn discard_between_drops_exactly_the_range() {
    let mut mw = StatsMiddleware::new(CollectingRecorder::new());
    for (id, t) in [(1u64, "one"), (2, "two"), (3, "three"), (4, "four")] {
        mw.next(request(id, t));
    }
    mw.next(Event {
        source_id: 9,
        etype: EventType::DiscardBetween(DiscardBetweenEvent { start_id: 2, end_id: 4 }),
    });
    for id in [1u64, 2, 3, 4] {
        mw.next(injected(id));
    }
    assert_eq!(recorded(&mw), vec!["one", "four"]);
}

#[test]
fn discard_between_empty_range_is_a_no_op() {
    let mut mw = StatsMiddleware::new(CollectingRecorder::new());
    mw.next(request(5, "five"));
    mw.next(Event {
        source_id: 9,
        etype: EventType::DiscardBetween(DiscardBetweenEvent { start_id: 5, end_id: 5 }),
    });
    mw.next(injected(5));
    assert_eq!(recorded(&mw), vec!["five"]);
}

#[test]
fn overflowing_the_pending_cap_clears_older_entries() {
    // Fill the map beyond its bound; the insert that exceeds the bound
    // resets the map, so earlier completions no longer produce records.
    let mut mw = StatsMiddleware::new(CollectingRecorder::new());
    for id in 0u64..4097 {
        mw.next(request(id, "early"));
    }
    // the map now holds 4097 entries; this insert clears it first
    mw.next(request(5000, "late"));
    mw.next(injected(0));
    mw.next(injected(4096));
    assert_eq!(recorded(&mw), Vec::<String>::new());
    mw.next(injected(5000));
    assert_eq!(recorded(&mw), vec!["late"]);
}

#[test]
fn processor_assigns_monotonic_source_ids() {
    let mw = StatsMiddleware::new(CollectingRecorder::new());
    let mut processor = Processor::new(vec![mw]);
    let a = processor.submit(EventType::RenderingRequested(RenderingRequestedEvent {
        trigger: Some("foo".to_string()),
    }));
    let b = processor.submit(EventType::Passthrough);
    let c = processor.submit(EventType::MatchInjected);
    assert_eq!((a, b, c), (0, 1, 2));
    // the completion was submitted afresh, so its id differs from the
    // request's and nothing is attributed
    assert!(processor.chain_ref()[0].recorder().records.is_empty());
}

#[test]
fn recorder_registration_is_write_once() {
    let mut slot: Option<CollectingRecorder> = None;
    set_global_recorder(&mut slot, CollectingRecorder::new());
    slot.as_mut().unwrap().record(StatsRecord {
        trigger: "first".to_string(),
    });
    // a second registration is ignored: the recorded data survives
    set_global_recorder(&mut slot, CollectingRecorder::new());
    assert_eq!(slot.as_ref().unwrap().records.len(), 1);
    assert_eq!(slot.as_ref().unwrap().records[0].trigger, "first");
}

#[test]
fn noop_recorder_accepts_records() {
    let mut recorder = NoOpRecorder::new();
    recorder.record(StatsRecord {
        trigger: "dropped".to_string(),
    });
}

#[test]
fn middleware_reports_its_name() {
    let mw = StatsMiddleware::new(NoOpRecorder::new());
    assert_eq!(mw.name(), "stats");
}
