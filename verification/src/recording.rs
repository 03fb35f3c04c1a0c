//! The recording lifecycle of one Take as a state machine:
//!
//! ```text
//!   Idle --start--> Recording <--resume-- Paused
//!                    |   |                  ^
//!                    |   +------pause-------+
//!                    v stop (from Recording or Paused)
//!             AwaitingDecision --keep--> Persisted
//!                    |
//!                    +--discard (also from Recording or Paused)--> Discarded
//! ```
//!
//! `Persisted` and `Discarded` are terminal: a session is single-use.

use vstd::prelude::*;
use crate::capture::{CaptureRequest, EndedReason, SegmentSidecar};
use crate::error::CoreError;
use crate::ids::{is_uuid_v4_text, new_id};

verus! {

#[derive(Debug, Clone, Copy, PartialEq, Eq, Structural)]
pub enum SessionState {
    Idle,
    Recording,
    Paused,
    AwaitingDecision,
    Persisted,
    Discarded,
}

pub open spec fn state_label(s: SessionState) -> Seq<char> {
    match s {
        SessionState::Idle => "idle"@,
        SessionState::Recording => "recording"@,
        SessionState::Paused => "paused"@,
        SessionState::AwaitingDecision => "awaitingDecision"@,
        SessionState::Persisted => "persisted"@,
        SessionState::Discarded => "discarded"@,
    }
}

impl SessionState {
    /// The camel-case name of the state, as the frontend spells it.
    pub fn label(self) -> (l: &'static str)
        ensures
            l@ == state_label(self),
    {
        match self {
            SessionState::Idle => "idle",
            SessionState::Recording => "recording",
            SessionState::Paused => "paused",
            SessionState::AwaitingDecision => "awaitingDecision",
            SessionState::Persisted => "persisted",
            SessionState::Discarded => "discarded",
        }
    }
}

/// The user actions that drive a session.
#[derive(Debug, Clone, Copy, PartialEq, Eq, Structural)]
pub enum SessionEvent {
    Start,
    Pause,
    Resume,
    Stop,
    Keep,
    Discard,
}

pub open spec fn event_name(e: SessionEvent) -> Seq<char> {
    match e {
        SessionEvent::Start => "start"@,
        SessionEvent::Pause => "pause"@,
        SessionEvent::Resume => "resume"@,
        SessionEvent::Stop => "stop"@,
        SessionEvent::Keep => "keep"@,
        SessionEvent::Discard => "discard"@,
    }
}

/// The transition table: the state an event leads to, or `None` when the
/// event is not allowed in that state.
pub open spec fn step(s: SessionState, e: SessionEvent) -> Option<SessionState> {
    match (e, s) {
        (SessionEvent::Start, SessionState::Idle) => Some(SessionState::Recording),
        (SessionEvent::Pause, SessionState::Recording) => Some(SessionState::Paused),
        (SessionEvent::Resume, SessionState::Paused) => Some(SessionState::Recording),
        (SessionEvent::Stop, SessionState::Recording) => Some(SessionState::AwaitingDecision),
        (SessionEvent::Stop, SessionState::Paused) => Some(SessionState::AwaitingDecision),
        (SessionEvent::Keep, SessionState::AwaitingDecision) => Some(SessionState::Persisted),
        (SessionEvent::Discard, SessionState::AwaitingDecision) => Some(SessionState::Discarded),
        (SessionEvent::Discard, SessionState::Recording) => Some(SessionState::Discarded),
        (SessionEvent::Discard, SessionState::Paused) => Some(SessionState::Discarded),
        _ => None,
    }
}

pub open spec fn is_active_state(s: SessionState) -> bool {
    s is Recording || s is Paused
}

pub open spec fn is_terminal_state(s: SessionState) -> bool {
    s is Persisted || s is Discarded
}

/// One Take against one Video, with the capture requests `D`-parameterised
/// by their composition defaults.
#[derive(Debug, Clone)]
pub struct RecordingSession<D> {
    pub id: String,
    pub video_id: String,
    pub segment_id: String,
    pub partial_path: String,
    pub take_id: String,
    pub requests: Vec<CaptureRequest<D>>,
    /// ISO-8601 UTC timestamp the Take started.
    pub recorded_at: String,
    pub state: SessionState,
}

/// The result a transition attempt owes: the next state, or the error naming
/// the action and the current state, with the session unchanged.
pub open spec fn transition_result<D>(
    before: RecordingSession<D>,
    after: RecordingSession<D>,
    e: SessionEvent,
    r: Result<(), CoreError>,
) -> bool {
    match step(before.state, e) {
        Some(next) => r is Ok && after == (RecordingSession { state: next, ..before }),
        None => after == before && (r matches Err(
            CoreError::InvalidSessionTransition { action, state },
        ) && action@ == event_name(e) && state@ == state_label(before.state)),
    }
}

impl<D> RecordingSession<D> {
    /// A new session in the `Idle` state with a new random session id.
    pub fn new(
        video_id: String,
        segment_id: String,
        partial_path: String,
        take_id: String,
        requests: Vec<CaptureRequest<D>>,
        recorded_at: String,
    ) -> (s: Self)
        ensures
            is_uuid_v4_text(s.id@),
            s.video_id == video_id,
            s.segment_id == segment_id,
            s.partial_path == partial_path,
            s.take_id == take_id,
            s.requests == requests,
            s.recorded_at == recorded_at,
            s.state is Idle,
    {
        RecordingSession {
            id: new_id(),
            video_id,
            segment_id,
            partial_path,
            take_id,
            requests,
            recorded_at,
            state: SessionState::Idle,
        }
    }

    fn event_label(e: SessionEvent) -> (l: &'static str)
        ensures
            l@ == event_name(e),
    {
        match e {
            SessionEvent::Start => "start",
            SessionEvent::Pause => "pause",
            SessionEvent::Resume => "resume",
            SessionEvent::Stop => "stop",
            SessionEvent::Keep => "keep",
            SessionEvent::Discard => "discard",
        }
    }

    /// Applies an event, or reports it as invalid in the current state.
    pub fn transition(&mut self, e: SessionEvent) -> (r: Result<(), CoreError>)
        ensures
            transition_result(*old(self), *final(self), e, r),
    {
        let next = match (e, self.state) {
            (SessionEvent::Start, SessionState::Idle) => Some(SessionState::Recording),
            (SessionEvent::Pause, SessionState::Recording) => Some(SessionState::Paused),
            (SessionEvent::Resume, SessionState::Paused) => Some(SessionState::Recording),
            (SessionEvent::Stop, SessionState::Recording) => Some(SessionState::AwaitingDecision),
            (SessionEvent::Stop, SessionState::Paused) => Some(SessionState::AwaitingDecision),
            (SessionEvent::Keep, SessionState::AwaitingDecision) => Some(SessionState::Persisted),
            (SessionEvent::Discard, SessionState::AwaitingDecision) => Some(SessionState::Discarded),
            (SessionEvent::Discard, SessionState::Recording) => Some(SessionState::Discarded),
            (SessionEvent::Discard, SessionState::Paused) => Some(SessionState::Discarded),
            _ => None,
        };
        match next {
            Some(n) => {
                self.state = n;
                Ok(())
            },
            None => Err(
                CoreError::InvalidSessionTransition {
                    action: Self::event_label(e).to_owned(),
                    state: self.state.label().to_owned(),
                },
            ),
        }
    }

    pub fn start(&mut self) -> (r: Result<(), CoreError>)
        ensures
            transition_result(*old(self), *final(self), SessionEvent::Start, r),
    {
        self.transition(SessionEvent::Start)
    }

    pub fn pause(&mut self) -> (r: Result<(), CoreError>)
        ensures
            transition_result(*old(self), *final(self), SessionEvent::Pause, r),
    {
        self.transition(SessionEvent::Pause)
    }

    pub fn resume(&mut self) -> (r: Result<(), CoreError>)
        ensures
            transition_result(*old(self), *final(self), SessionEvent::Resume, r),
    {
        self.transition(SessionEvent::Resume)
    }

    pub fn stop(&mut self) -> (r: Result<(), CoreError>)
        ensures
            transition_result(*old(self), *final(self), SessionEvent::Stop, r),
    {
        self.transition(SessionEvent::Stop)
    }

    /// "Keep": the awaiting Take is persisted.
    pub fn mark_persisted(&mut self) -> (r: Result<(), CoreError>)
        ensures
            transition_result(*old(self), *final(self), SessionEvent::Keep, r),
    {
        self.transition(SessionEvent::Keep)
    }

    /// "Discard": allowed while awaiting the decision and also mid-recording.
    pub fn mark_discarded(&mut self) -> (r: Result<(), CoreError>)
        ensures
            transition_result(*old(self), *final(self), SessionEvent::Discard, r),
    {
        self.transition(SessionEvent::Discard)
    }

    pub fn is_active(&self) -> (b: bool)
        ensures
            b == is_active_state(self.state),
    {
        match self.state {
            SessionState::Recording | SessionState::Paused => true,
            _ => false,
        }
    }

    pub fn is_terminal(&self) -> (b: bool)
        ensures
            b == is_terminal_state(self.state),
    {
        match self.state {
            SessionState::Persisted | SessionState::Discarded => true,
            _ => false,
        }
    }
}

/// Terminal states are final: no event leaves them.
pub proof fn lemma_terminal_states_absorb(s: SessionState, e: SessionEvent)
    requires
        is_terminal_state(s),
    ensures
        step(s, e) is None,
{
}

/// A session is never both active and terminal, and every successful event
/// leads to a state that is either active, awaiting the decision, or terminal.
pub proof fn lemma_state_classes(s: SessionState, e: SessionEvent)
    ensures
        !(is_active_state(s) && is_terminal_state(s)),
        step(s, e) matches Some(n) ==> (is_active_state(n) || n is AwaitingDecision
            || is_terminal_state(n)),
{
}

/// Pausing then resuming returns to Recording, and stopping from either
/// active state awaits the decision.
pub proof fn lemma_pause_resume_round_trip(s: SessionState)
    requires
        s is Recording,
    ensures
        step(s, SessionEvent::Pause) == Some(SessionState::Paused),
        step(SessionState::Paused, SessionEvent::Resume) == Some(s),
        step(s, SessionEvent::Stop) == Some(SessionState::AwaitingDecision),
        step(SessionState::Paused, SessionEvent::Stop) == Some(SessionState::AwaitingDecision),
{
}

/// A session is single-use: Start is accepted only from Idle, and no event
/// leads back to Idle. Each other event has its own sources: Pause only
/// while recording, Resume only while paused, Stop only while recording or
/// paused, Keep only once the recording awaits the decision; a Take that
/// awaits the decision accepts nothing but Keep and Discard. Each accepted
/// event has one outcome (Start and Resume record, Pause pauses, Stop
/// awaits the decision, Keep persists, Discard discards), and a Take can be
/// discarded at any point before it is kept.
pub proof fn lemma_events_accepted_only_from(s: SessionState, e: SessionEvent)
    ensures
        step(s, e) is Some && e is Start ==> s is Idle,
        step(s, e) is Some && e is Pause ==> s is Recording,
        step(s, e) is Some && e is Resume ==> s is Paused,
        step(s, e) is Some && e is Stop ==> s is Recording || s is Paused,
        step(s, e) is Some && e is Keep ==> s is AwaitingDecision,
        step(s, e) is Some && e is Discard ==> !(s is Idle) && !is_terminal_state(s),
        s is AwaitingDecision && step(s, e) is Some ==> e is Keep || e is Discard,
        step(s, e) matches Some(n) ==> !(n is Idle),
        step(s, e) matches Some(n) ==> n == match e {
            SessionEvent::Start => SessionState::Recording,
            SessionEvent::Pause => SessionState::Paused,
            SessionEvent::Resume => SessionState::Recording,
            SessionEvent::Stop => SessionState::AwaitingDecision,
            SessionEvent::Keep => SessionState::Persisted,
            SessionEvent::Discard => SessionState::Discarded,
        },
        s is Idle ==> step(s, SessionEvent::Start) is Some,
        s is AwaitingDecision ==> step(s, SessionEvent::Keep) is Some,
        (s is Recording || s is Paused || s is AwaitingDecision) ==> step(
            s,
            SessionEvent::Discard,
        ) is Some,
{
}

/// Only Keep persists a Take, and only from AwaitingDecision.
pub proof fn lemma_only_keep_persists(s: SessionState, e: SessionEvent)
    requires
        step(s, e) == Some(SessionState::Persisted),
    ensures
        e is Keep,
        s is AwaitingDecision,
{
}

/// The sidecar of a session's Segment, built from the session's first
/// capture request: its role, device and composition defaults, with the
/// session's Take id and start time.
pub fn sidecar_from_session<D: Copy>(session: &RecordingSession<D>, ended_reason: EndedReason) -> (r:
    Result<SegmentSidecar<D>, CoreError>)
    ensures
        session.requests@.len() == 0 ==> (r matches Err(CoreError::Recorder(m)) && m@
            == "cannot finalise a session with no requests"@),
        session.requests@.len() > 0 ==> ({
            let first = session.requests@[0];
            r matches Ok(s) && s == SegmentSidecar::<D> {
                schema_version: crate::capture::SIDECAR_SCHEMA_VERSION,
                take_id: session.take_id,
                source_role: first.role,
                device: s.device,
                recorded_at: session.recorded_at,
                defaults: first.defaults,
                ended_reason,
                is_transcript_source: false,
                ended_at: None,
            } && s.device@ == first.device@
        }),
{
    if session.requests.len() == 0 {
        return Err(CoreError::Recorder("cannot finalise a session with no requests".to_owned()));
    }
    let first = &session.requests[0];
    Ok(
        SegmentSidecar::new(
            session.take_id.clone(),
            first.role,
            first.device.duplicate(),
            session.recorded_at.clone(),
            first.defaults,
            ended_reason,
        ),
    )
}

} // verus!
