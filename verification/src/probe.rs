//! The probe cycle of the failure detector: one member is pinged, then
//! pinged through others, and is suspected if nothing answers for it before
//! the period ends.

use crate::member::MemberId;
use vstd::prelude::*;

verus! {

/// The times of the protocol, in milliseconds, and the fan-out of its
/// indirect probes.
#[derive(Clone, Copy, Debug, PartialEq, Eq, Structural)]
pub struct Timing {
    /// The length of one probe cycle.
    pub period: u64,
    /// How long a direct answer is waited for.
    pub ack_timeout: u64,
    /// How many other members are asked to probe on the node's behalf.
    pub fanout: usize,
    /// How long a member stays Suspect before it is Confirmed.
    pub suspicion: u64,
    /// How often the suspicions are looked through.
    pub expire_every: u64,
}

impl Timing {
    /// The usual times: a period of one second, 300 ms for the direct answer,
    /// five helpers, five periods of suspicion, a look at them every 100 ms.
    pub fn standard() -> (timing: Timing)
        ensures
            timing == (Timing {
                period: 1000,
                ack_timeout: 300,
                fanout: 5,
                suspicion: 5000,
                expire_every: 100,
            }),
    {
        Timing { period: 1000, ack_timeout: 300, fanout: 5, suspicion: 5000, expire_every: 100 }
    }
}

/// Where a probe cycle stands.
#[derive(Clone, Copy, Debug, PartialEq, Eq, Structural)]
pub enum Phase {
    /// No cycle is under way.
    Idle,
    /// The target was pinged at the given time and has not answered.
    AwaitingAck { target: MemberId, started: u64 },
    /// Others were asked to ping the target; nothing has answered for it.
    AwaitingRelay { target: MemberId, started: u64 },
    /// An answer for the target has come; the rest of the period passes.
    Resting { target: MemberId, started: u64 },
}

/// What happens to a probe cycle.
#[derive(Clone, Copy, Debug, PartialEq, Eq, Structural)]
pub enum Event {
    /// A new cycle is to begin with this target.
    Begin { target: MemberId, now: u64 },
    /// An answer of this member has come in, directly or through another.
    Ack { from: MemberId },
    /// Time has passed.
    Tick { now: u64 },
}

/// What the node is to do after an event.
#[derive(Clone, Copy, Debug, PartialEq, Eq, Structural)]
pub enum Action {
    /// Nothing is to be done.
    Wait,
    /// The member is to be pinged.
    SendPing(MemberId),
    /// Other members are to be asked to ping the member.
    SendPingReq(MemberId),
    /// The member is to be marked Suspect.
    Suspect(MemberId),
}

/// The time that has passed since a start; none where the clock stands before
/// the start.
pub open spec fn elapsed(started: u64, now: u64) -> u64 {
    if now >= started {
        (now - started) as u64
    } else {
        0
    }
}

/// The probe cycle as a machine: the phase and the action that follow a phase
/// and an event.
///
/// A cycle begins only from Idle, with a ping. An answer of the target, in
/// either phase of waiting, puts the cycle to rest. Without one, the ping
/// timeout turns the direct wait into the indirect one, with a request to
/// others, and the end of the period turns the indirect wait into a suspicion.
/// The end of the period ends a cycle at rest without more. Anything else
/// changes nothing.
pub open spec fn step(phase: Phase, event: Event, timing: Timing) -> (Phase, Action) {
    match (phase, event) {
        (Phase::Idle, Event::Begin { target, now }) => (
            Phase::AwaitingAck { target, started: now },
            Action::SendPing(target),
        ),
        (Phase::AwaitingAck { target, started }, Event::Ack { from }) => if from == target {
            (Phase::Resting { target, started }, Action::Wait)
        } else {
            (phase, Action::Wait)
        },
        (Phase::AwaitingRelay { target, started }, Event::Ack { from }) => if from == target {
            (Phase::Resting { target, started }, Action::Wait)
        } else {
            (phase, Action::Wait)
        },
        (Phase::AwaitingAck { target, started }, Event::Tick { now }) => if elapsed(started, now)
            >= timing.period {
            (Phase::Idle, Action::Suspect(target))
        } else if elapsed(started, now) >= timing.ack_timeout {
            (Phase::AwaitingRelay { target, started }, Action::SendPingReq(target))
        } else {
            (phase, Action::Wait)
        },
        (Phase::AwaitingRelay { target, started }, Event::Tick { now }) => if elapsed(
            started,
            now,
        ) >= timing.period {
            (Phase::Idle, Action::Suspect(target))
        } else {
            (phase, Action::Wait)
        },
        (Phase::Resting { target, started }, Event::Tick { now }) => if elapsed(started, now)
            >= timing.period {
            (Phase::Idle, Action::Wait)
        } else {
            (phase, Action::Wait)
        },
        _ => (phase, Action::Wait),
    }
}

/// The member that the cycle of a phase probes, if a cycle is under way.
pub open spec fn target_of(phase: Phase) -> Option<MemberId> {
    match phase {
        Phase::Idle => None,
        Phase::AwaitingAck { target, .. } => Some(target),
        Phase::AwaitingRelay { target, .. } => Some(target),
        Phase::Resting { target, .. } => Some(target),
    }
}

/// Some event of the sequence, met while the cycle of the first phase is
/// still under way, brings the suspicion of the member.
pub open spec fn suspects_in_cycle(phase: Phase, events: Seq<Event>, timing: Timing, member: MemberId)
    -> bool
    decreases events.len(),
{
    if events.len() == 0 || phase == Phase::Idle {
        false
    } else {
        let (next, action) = step(phase, events.first(), timing);
        action == Action::Suspect(member) || suspects_in_cycle(
            next,
            events.drop_first(),
            timing,
            member,
        )
    }
}

/// Once the target has answered, the cycle is at rest: whatever happens
/// after, this cycle does not bring the suspicion of the target.
pub proof fn lemma_ack_prevents_suspicion(
    phase: Phase,
    target: MemberId,
    later: Seq<Event>,
    timing: Timing,
)
    requires
        target_of(phase) == Some(target),
    ensures
        step(phase, Event::Ack { from: target }, timing).1 == Action::Wait,
        step(phase, Event::Ack { from: target }, timing).0 is Resting,
        !suspects_in_cycle(
            step(phase, Event::Ack { from: target }, timing).0,
            later,
            timing,
            target,
        ),
{
    let rest = step(phase, Event::Ack { from: target }, timing).0;
    lemma_rest_never_suspects(rest, later, timing, target);
}

/// A cycle at rest suspects nobody.
pub proof fn lemma_rest_never_suspects(
    phase: Phase,
    events: Seq<Event>,
    timing: Timing,
    member: MemberId,
)
    requires
        phase is Resting || phase is Idle,
    ensures
        !suspects_in_cycle(phase, events, timing, member),
    decreases events.len(),
{
    if events.len() > 0 && phase != Phase::Idle {
        let (next, action) = step(phase, events.first(), timing);
        lemma_rest_never_suspects(next, events.drop_first(), timing, member);
    }
}

/// A member is suspected only at the end of a period in which no answer for
/// it came, and only the member that the cycle probed.
pub proof fn lemma_suspicion_needs_silence(phase: Phase, event: Event, timing: Timing, member: MemberId)
    requires
        step(phase, event, timing).1 == Action::Suspect(member),
    ensures
        phase is AwaitingAck || phase is AwaitingRelay,
        target_of(phase) == Some(member),
        event is Tick,
        step(phase, event, timing).0 == Phase::Idle,
{
}

/// Takes the probe cycle one event further.
pub fn advance(phase: Phase, event: Event, timing: &Timing) -> (r: (Phase, Action))
    ensures
        r == step(phase, event, *timing),
{
    match event {
        Event::Begin { target, now } => match phase {
            Phase::Idle => (Phase::AwaitingAck { target, started: now }, Action::SendPing(target)),
            _ => (phase, Action::Wait),
        },
        Event::Ack { from } => match phase {
            Phase::AwaitingAck { target, started } | Phase::AwaitingRelay { target, started } => {
                if from == target {
                    (Phase::Resting { target, started }, Action::Wait)
                } else {
                    (phase, Action::Wait)
                }
            },
            _ => (phase, Action::Wait),
        },
        Event::Tick { now } => match phase {
            Phase::Idle => (phase, Action::Wait),
            Phase::AwaitingAck { target, started } => {
                let waited = if now >= started { now - started } else { 0 };
                if waited >= timing.period {
                    (Phase::Idle, Action::Suspect(target))
                } else if waited >= timing.ack_timeout {
                    (Phase::AwaitingRelay { target, started }, Action::SendPingReq(target))
                } else {
                    (phase, Action::Wait)
                }
            },
            Phase::AwaitingRelay { target, started } => {
                let waited = if now >= started { now - started } else { 0 };
                if waited >= timing.period {
                    (Phase::Idle, Action::Suspect(target))
                } else {
                    (phase, Action::Wait)
                }
            },
            Phase::Resting { target, started } => {
                let waited = if now >= started { now - started } else { 0 };
                if waited >= timing.period {
                    (Phase::Idle, Action::Wait)
                } else {
                    (phase, Action::Wait)
                }
            },
        },
    }
}

} // verus!
