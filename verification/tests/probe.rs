use butterfly::member::MemberId;
use butterfly::probe::{advance, Action, Event, Phase, Timing};

const M: MemberId = MemberId(7);
const N: MemberId = MemberId(8);

#[test]
fn standard_times() {
    let t = Timing::standard();
    assert_eq!(t.period, 1000);
    assert_eq!(t.ack_timeout, 300);
    assert_eq!(t.fanout, 5);
    assert_eq!(t.suspicion, 5 * t.period);
    assert_eq!(t.expire_every, 100);
}

#[test]
fn a_cycle_begins_with_a_ping() {
    let t = Timing::standard();
    assert_eq!(
        advance(Phase::Idle, Event::Begin { target: M, now: 50 }, &t),
        (Phase::AwaitingAck { target: M, started: 50 }, Action::SendPing(M))
    );
    let busy = Phase::AwaitingAck { target: N, started: 10 };
    assert_eq!(advance(busy, Event::Begin { target: M, now: 50 }, &t), (busy, Action::Wait));
}

#[test]
fn silence_leads_to_requests_and_then_suspicion() {
    let t = Timing::standard();
    let waiting = Phase::AwaitingAck { target: M, started: 1000 };
    assert_eq!(advance(waiting, Event::Tick { now: 1299 }, &t), (waiting, Action::Wait));
    let relayed = Phase::AwaitingRelay { target: M, started: 1000 };
    assert_eq!(
        advance(waiting, Event::Tick { now: 1300 }, &t),
        (relayed, Action::SendPingReq(M))
    );
    assert_eq!(advance(relayed, Event::Tick { now: 1999 }, &t), (relayed, Action::Wait));
    assert_eq!(
        advance(relayed, Event::Tick { now: 2000 }, &t),
        (Phase::Idle, Action::Suspect(M))
    );
    assert_eq!(
        advance(waiting, Event::Tick { now: 2500 }, &t),
        (Phase::Idle, Action::Suspect(M))
    );
}

#[test]
fn an_answer_puts_the_cycle_to_rest() {
    let t = Timing::standard();
    let rest = Phase::Resting { target: M, started: 1000 };
    for phase in [
        Phase::AwaitingAck { target: M, started: 1000 },
        Phase::AwaitingRelay { target: M, started: 1000 },
    ] {
        assert_eq!(advance(phase, Event::Ack { from: M }, &t), (rest, Action::Wait));
        assert_eq!(advance(phase, Event::Ack { from: N }, &t), (phase, Action::Wait));
    }
    let mut phase = rest;
    for now in [1100, 1300, 1999, 2000, 2500, 9000] {
        let (next, action) = advance(phase, Event::Tick { now }, &t);
        assert_eq!(action, Action::Wait);
        phase = next;
    }
    assert_eq!(phase, Phase::Idle);
    assert_eq!(advance(rest, Event::Tick { now: 1999 }, &t).0, rest);
    assert_eq!(advance(rest, Event::Tick { now: 2000 }, &t).0, Phase::Idle);
}

#[test]
fn a_clock_that_runs_back_counts_as_no_time() {
    let t = Timing::standard();
    let waiting = Phase::AwaitingAck { target: M, started: 1000 };
    assert_eq!(advance(waiting, Event::Tick { now: 0 }, &t), (waiting, Action::Wait));
}

#[test]
fn idle_ignores_answers_and_time() {
    let t = Timing::standard();
    assert_eq!(advance(Phase::Idle, Event::Ack { from: M }, &t), (Phase::Idle, Action::Wait));
    assert_eq!(advance(Phase::Idle, Event::Tick { now: 5 }, &t), (Phase::Idle, Action::Wait));
}
