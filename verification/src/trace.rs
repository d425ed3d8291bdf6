//! The trace of the protocol: what was probed and how it ended, what every
//! applied rumor changed, and what rode along on every datagram. A sink that
//! is switched off keeps nothing.

use crate::member::{Health, MemberId};
use crate::probe::{target_of, Action, Phase};
use vstd::prelude::*;

verus! {

/// One thing that happened in the protocol.
#[derive(Clone, Copy, Debug, PartialEq, Eq, Structural)]
pub enum TraceEvent {
    /// A probe cycle began with this target.
    ProbeBegin { target: MemberId, at: u64 },
    /// The probe cycle of this target ended, with or without its suspicion.
    ProbeEnd { target: MemberId, at: u64, suspected: bool },
    /// A rumor about a member was applied; the health that was believed of
    /// the member before, and the one believed after.
    RumorApplied { about: MemberId, before: Option<Health>, after: Option<Health>, at: u64 },
    /// So many rumors rode along on a datagram to a member.
    Piggyback { to: MemberId, rumors: usize, at: u64 },
}

/// Where the events are kept until they are written out.
pub struct Sink {
    enabled: bool,
    events: Vec<TraceEvent>,
}

/// What a sink holds.
pub struct SinkView {
    pub enabled: bool,
    pub events: Seq<TraceEvent>,
}

impl View for Sink {
    type V = SinkView;

    closed spec fn view(&self) -> SinkView {
        SinkView { enabled: self.enabled, events: self.events@ }
    }
}

/// The events of one step of the probe cycle at a time: the beginning of a
/// cycle where the step leaves Idle, its end where the step returns to Idle,
/// suspected where the step brings the suspicion of the target; nothing for
/// any other step.
pub open spec fn step_events(before: Phase, after: Phase, action: Action, now: u64) -> Seq<
    TraceEvent,
> {
    match (target_of(before), target_of(after)) {
        (None, Some(target)) => seq![TraceEvent::ProbeBegin { target, at: now }],
        (Some(target), None) => seq![
            TraceEvent::ProbeEnd { target, at: now, suspected: action == Action::Suspect(target) },
        ],
        _ => Seq::empty(),
    }
}

/// The events with more events after them, where the sink is switched on.
pub open spec fn recorded(v: SinkView, events: Seq<TraceEvent>) -> SinkView {
    if v.enabled {
        SinkView { enabled: true, events: v.events + events }
    } else {
        v
    }
}

/// The member that the cycle of a phase probes, if a cycle is under way.
fn probed(phase: Phase) -> (target: Option<MemberId>)
    ensures
        target == target_of(phase),
{
    match phase {
        Phase::Idle => None,
        Phase::AwaitingAck { target, .. } => Some(target),
        Phase::AwaitingRelay { target, .. } => Some(target),
        Phase::Resting { target, .. } => Some(target),
    }
}

impl Sink {
    /// A sink with nothing in it, switched on or off.
    pub fn new(enabled: bool) -> (sink: Sink)
        ensures
            sink@.enabled == enabled,
            sink@.events.len() == 0,
    {
        Sink { enabled, events: Vec::new() }
    }

    /// Whether the sink is switched on.
    pub fn enabled(&self) -> (enabled: bool)
        ensures
            enabled == self@.enabled,
    {
        self.enabled
    }

    /// Keeps an event, where the sink is switched on.
    pub fn record(&mut self, event: TraceEvent)
        ensures
            final(self)@ == recorded(old(self)@, seq![event]),
    {
        if self.enabled {
            self.events.push(event);
            assert(self@.events =~= old(self)@.events + seq![event]);
        }
    }

    /// Keeps the events of one step of the probe cycle, where the sink is
    /// switched on.
    pub fn record_step(&mut self, before: Phase, after: Phase, action: Action, now: u64)
        ensures
            final(self)@ == recorded(old(self)@, step_events(before, after, action, now)),
    {
        if !self.enabled {
            return ;
        }
        match (probed(before), probed(after)) {
            (None, Some(target)) => {
                self.events.push(TraceEvent::ProbeBegin { target, at: now });
            },
            (Some(target), None) => {
                let suspected = match action {
                    Action::Suspect(who) => who == target,
                    _ => false,
                };
                self.events.push(TraceEvent::ProbeEnd { target, at: now, suspected });
            },
            _ => {},
        }
        assert(self@.events =~= old(self)@.events + step_events(before, after, action, now));
    }

    /// Hands out the events kept so far, the oldest first, and keeps none of
    /// them.
    pub fn drain(&mut self) -> (events: Vec<TraceEvent>)
        ensures
            events@ == old(self)@.events,
            final(self)@.enabled == old(self)@.enabled,
            final(self)@.events.len() == 0,
    {
        let mut events: Vec<TraceEvent> = Vec::new();
        events.append(&mut self.events);
        assert(events@ =~= old(self)@.events);
        events
    }
}

} // verus!
