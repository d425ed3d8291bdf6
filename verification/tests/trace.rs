use butterfly::member::{Health, MemberId};
use butterfly::probe::{advance, Action, Event, Phase, Timing};
use butterfly::trace::{Sink, TraceEvent};

const M: MemberId = MemberId(7);

#[test]
fn a_sink_that_is_off_keeps_nothing() {
    let mut sink = Sink::new(false);
    assert!(!sink.enabled());
    sink.record(TraceEvent::Piggyback { to: M, rumors: 3, at: 1 });
    sink.record_step(Phase::Idle, Phase::AwaitingAck { target: M, started: 5 }, Action::SendPing(M), 5);
    assert!(sink.drain().is_empty());
}

#[test]
fn events_come_out_in_order_and_once() {
    let mut sink = Sink::new(true);
    assert!(sink.enabled());
    let first = TraceEvent::RumorApplied {
        about: M,
        before: None,
        after: Some(Health::Alive),
        at: 1,
    };
    let second = TraceEvent::Piggyback { to: M, rumors: 2, at: 2 };
    sink.record(first);
    sink.record(second);
    assert_eq!(sink.drain(), vec![first, second]);
    assert!(sink.drain().is_empty());
    assert!(sink.enabled());
}

#[test]
fn a_probe_cycle_is_traced_from_begin_to_end() {
    let timing = Timing::standard();
    let mut sink = Sink::new(true);
    let mut phase = Phase::Idle;
    let events = [
        (Event::Tick { now: 0 }, 0),
        (Event::Begin { target: M, now: 10 }, 10),
        (Event::Tick { now: 200 }, 200),
        (Event::Tick { now: 310 }, 310),
        (Event::Tick { now: 1010 }, 1010),
        (Event::Begin { target: M, now: 1010 }, 1010),
        (Event::Ack { from: M }, 1100),
        (Event::Tick { now: 2010 }, 2010),
    ];
    for (event, now) in events {
        let (next, action) = advance(phase, event, &timing);
        sink.record_step(phase, next, action, now);
        phase = next;
    }
    assert_eq!(
        sink.drain(),
        vec![
            TraceEvent::ProbeBegin { target: M, at: 10 },
            TraceEvent::ProbeEnd { target: M, at: 1010, suspected: true },
            TraceEvent::ProbeBegin { target: M, at: 1010 },
            TraceEvent::ProbeEnd { target: M, at: 2010, suspected: false },
        ]
    );
}
