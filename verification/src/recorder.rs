//! What a recording backend is asked for and reports back: a Take names
//! one or more sources, each with the Segment id and partial path it
//! records to; on Stop each source reports how it ended.

use vstd::prelude::*;
use crate::capture::{CaptureRequest, EndedReason, SourceRole};
use crate::error::CoreError;
use crate::text::{concat, decimal, u64_to_decimal};

verus! {

/// How one source of a Take ended, reported by the backend on Stop (or when
/// the source failed mid-Take while the others kept going). `ended_at` is
/// set only for a `SourceFailed` source.
#[derive(Debug, Clone, PartialEq, Eq)]
pub struct SourceOutcome {
    pub segment_id: String,
    pub ended_reason: EndedReason,
    pub ended_at: Option<String>,
}

/// How a source ended when its Take stopped: `SourceFailed` at
/// `failed_at` when it failed along the way, else `Normal` with no end time.
pub fn source_outcome(segment_id: String, failed_at: Option<String>) -> (o: SourceOutcome)
    ensures
        o.segment_id == segment_id,
        failed_at is None ==> o.ended_reason == EndedReason::Normal && o.ended_at is None,
        failed_at is Some ==> o.ended_reason == EndedReason::SourceFailed && o.ended_at == failed_at,
{
    match failed_at {
        None => SourceOutcome { segment_id, ended_reason: EndedReason::Normal, ended_at: None },
        Some(t) => SourceOutcome { segment_id, ended_reason: EndedReason::SourceFailed, ended_at: Some(t) },
    }
}

/// One source of a Take: what to capture, and the Segment id and partial
/// file it records to.
#[derive(Debug, Clone)]
pub struct TakeSource<D> {
    pub request: CaptureRequest<D>,
    pub segment_id: String,
    pub partial_path: String,
}

/// A Take: its grouping id and its sources.
#[derive(Debug, Clone)]
pub struct TakeRequest<D> {
    pub take_id: String,
    pub sources: Vec<TakeSource<D>>,
}

/// How many of the roles are `role`.
pub open spec fn role_count(roles: Seq<SourceRole>, role: SourceRole) -> nat
    decreases roles.len(),
{
    if roles.len() == 0 {
        0
    } else {
        role_count(roles.drop_last(), role) + if roles.last() == role {
            1nat
        } else {
            0nat
        }
    }
}

pub open spec fn source_roles<D>(sources: Seq<TakeSource<D>>) -> Seq<SourceRole> {
    sources.map_values(|s: TakeSource<D>| s.request.role)
}

/// The reason a Take's sources cannot be recorded together, if any: there
/// must be at least one source and at most one Microphone.
pub open spec fn take_sources_problem(roles: Seq<SourceRole>) -> Option<Seq<char>> {
    if roles.len() == 0 {
        Some("no capture sources requested — Start needs at least one"@)
    } else if role_count(roles, SourceRole::Microphone) > 1 {
        Some(
            "Phase 2 recorder supports at most one Microphone source per Take (got "@ + decimal(
                role_count(roles, SourceRole::Microphone),
            ) + ")"@,
        )
    } else {
        None
    }
}

/// Checks that a Take can be started: at least one source, and at most one
/// Microphone.
pub fn validate_phase2_requests<D>(sources: &Vec<TakeSource<D>>) -> (r: Result<(), CoreError>)
    ensures
        take_sources_problem(source_roles(sources@)) is None ==> r is Ok,
        take_sources_problem(source_roles(sources@)) matches Some(m) ==> (r matches Err(
            CoreError::Recorder(s),
        ) && s@ == m),
{
    let ghost roles = source_roles(sources@);
    if sources.len() == 0 {
        return Err(CoreError::Recorder("no capture sources requested — Start needs at least one".to_owned()));
    }
    let mut mics: u64 = 0;
    let mut i: usize = 0;
    assert(roles.take(0) =~= Seq::<SourceRole>::empty());
    while i < sources.len()
        invariant
            i <= sources.len(),
            roles == source_roles(sources@),
            mics == role_count(roles.take(i as int), SourceRole::Microphone),
            mics <= i,
        decreases sources.len() - i,
    {
        assert(roles.take(i + 1).drop_last() =~= roles.take(i as int));
        assert(roles.take(i + 1).last() == sources@[i as int].request.role);
        if sources[i].request.role == SourceRole::Microphone {
            mics = mics + 1;
        }
        i = i + 1;
    }
    assert(roles.take(sources.len() as int) =~= roles);
    if mics > 1 {
        let a = concat(
            "Phase 2 recorder supports at most one Microphone source per Take (got ",
            u64_to_decimal(mics).as_str(),
        );
        return Err(CoreError::Recorder(concat(a.as_str(), ")")));
    }
    Ok(())
}

} // verus!
