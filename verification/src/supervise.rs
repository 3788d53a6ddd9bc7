//! Start/stop control protocol: backend selection, interpretation of the
//! service manager's load/unload results (with idempotence on "already in the
//! desired state" failures), and the direct-kill outcome rule.

use vstd::prelude::*;
use crate::text::contains_seq;
use crate::text::str_contains;

verus! {

/// Mathematical model of a supervision error.
pub ghost enum SupervisionErrorView {
    BinaryMissing,
    BackendFailed(Seq<char>),
    NotRunning,
}

/// A recoverable failure of a start or stop operation.
#[derive(Debug)]
pub enum SupervisionError {
    /// Direct start was chosen but the resolved binary does not exist.
    BinaryMissing,
    /// The service manager refused a load or unload; carries its message.
    BackendFailed(String),
    /// Direct stop found no matching process to signal.
    NotRunning,
}

impl View for SupervisionError {
    type V = SupervisionErrorView;

    open spec fn view(&self) -> SupervisionErrorView {
        match self {
            SupervisionError::BinaryMissing => SupervisionErrorView::BinaryMissing,
            SupervisionError::BackendFailed(m) => SupervisionErrorView::BackendFailed(m@),
            SupervisionError::NotRunning => SupervisionErrorView::NotRunning,
        }
    }
}

/// Model of a start/stop result.
pub open spec fn outcome_view(r: Result<(), SupervisionError>) -> Result<(), SupervisionErrorView> {
    match r {
        Ok(()) => Ok(()),
        Err(e) => Err(e@),
    }
}

/// The backend a start operation goes through.
#[derive(PartialEq, Eq, Structural, Clone, Copy, Debug)]
pub enum StartPlan {
    /// A service descriptor is registered: issue a load command.
    ServiceLoad,
    /// No descriptor: spawn the resolved binary directly.
    DirectSpawn,
}

/// The backend a stop operation goes through.
#[derive(PartialEq, Eq, Structural, Clone, Copy, Debug)]
pub enum StopPlan {
    /// A service descriptor is registered: issue an unload command.
    ServiceUnload,
    /// No descriptor: signal matching processes directly.
    DirectKill,
}

/// Select the start backend from the current filesystem state, re-evaluated
/// on every call: a registered descriptor routes through the service
/// manager; otherwise a direct spawn is planned, which demands an existing
/// binary.
pub fn plan_start(descriptor_exists: bool, binary_exists: bool) -> (r: Result<
    StartPlan,
    SupervisionError,
>)
    ensures
        descriptor_exists ==> r == Ok::<StartPlan, SupervisionError>(StartPlan::ServiceLoad),
        !descriptor_exists && binary_exists ==> r == Ok::<StartPlan, SupervisionError>(
            StartPlan::DirectSpawn,
        ),
        !descriptor_exists && !binary_exists ==> (r matches Err(e) && e@
            == SupervisionErrorView::BinaryMissing),
{
    if descriptor_exists {
        Ok(StartPlan::ServiceLoad)
    } else if binary_exists {
        Ok(StartPlan::DirectSpawn)
    } else {
        Err(SupervisionError::BinaryMissing)
    }
}

/// Select the stop backend from the current filesystem state.
pub fn plan_stop(descriptor_exists: bool) -> (r: StopPlan)
    ensures
        r == (if descriptor_exists {
            StopPlan::ServiceUnload
        } else {
            StopPlan::DirectKill
        }),
{
    if descriptor_exists {
        StopPlan::ServiceUnload
    } else {
        StopPlan::DirectKill
    }
}

/// A load failure whose message only says the service is already loaded.
pub open spec fn benign_load_failure(stderr: Seq<char>) -> bool {
    contains_seq(stderr, "Already loaded"@) || contains_seq(stderr, "service already loaded"@)
}

/// An unload failure whose message only says the service is not loaded.
pub open spec fn benign_unload_failure(stderr: Seq<char>) -> bool {
    contains_seq(stderr, "Could not find"@) || contains_seq(stderr, "not loaded"@)
}

/// What a load command's exit means: success, or a failure that merely
/// reports the desired state, is success; anything else surfaces the
/// message.
pub open spec fn load_outcome(status_ok: bool, stderr: Seq<char>) -> Result<
    (),
    SupervisionErrorView,
> {
    if status_ok || benign_load_failure(stderr) {
        Ok(())
    } else {
        Err(SupervisionErrorView::BackendFailed(stderr))
    }
}

/// What an unload command's exit means, mirroring `load_outcome`.
pub open spec fn unload_outcome(status_ok: bool, stderr: Seq<char>) -> Result<
    (),
    SupervisionErrorView,
> {
    if status_ok || benign_unload_failure(stderr) {
        Ok(())
    } else {
        Err(SupervisionErrorView::BackendFailed(stderr))
    }
}

/// Interpret the service manager's reply to a load command.
pub fn interpret_load_result(status_ok: bool, stderr: &str) -> (r: Result<(), SupervisionError>)
    ensures
        outcome_view(r) == load_outcome(status_ok, stderr@),
{
    if status_ok {
        Ok(())
    } else if str_contains(stderr, "Already loaded") || str_contains(
        stderr,
        "service already loaded",
    ) {
        Ok(())
    } else {
        Err(SupervisionError::BackendFailed(stderr.to_owned()))
    }
}

/// Interpret the service manager's reply to an unload command.
pub fn interpret_unload_result(status_ok: bool, stderr: &str) -> (r: Result<(), SupervisionError>)
    ensures
        outcome_view(r) == unload_outcome(status_ok, stderr@),
{
    if status_ok {
        Ok(())
    } else if str_contains(stderr, "Could not find") || str_contains(stderr, "not loaded") {
        Ok(())
    } else {
        Err(SupervisionError::BackendFailed(stderr.to_owned()))
    }
}

/// What a round of termination signals means: success if at least one
/// signal was delivered, otherwise the process was not running.
pub open spec fn kill_round_outcome(delivered: Seq<bool>) -> Result<(), SupervisionErrorView> {
    if exists|i: int| 0 <= i < delivered.len() && delivered[i] {
        Ok(())
    } else {
        Err(SupervisionErrorView::NotRunning)
    }
}

/// Fold the per-process signal results of a direct stop into its outcome.
pub fn interpret_kill_round(delivered: &Vec<bool>) -> (r: Result<(), SupervisionError>)
    ensures
        outcome_view(r) == kill_round_outcome(delivered@),
{
    let mut i: usize = 0;
    while i < delivered.len()
        invariant
            i <= delivered@.len(),
            forall|t: int| 0 <= t < i ==> !delivered@[t],
        decreases delivered@.len() - i,
    {
        if delivered[i] {
            return Ok(());
        }
        i += 1;
    }
    Err(SupervisionError::NotRunning)
}

/// Idempotent start: when the daemon is already running under the service
/// manager, the load command fails with an "already loaded" message, and
/// that reply counts as success.
pub proof fn lemma_idempotent_start(status_ok: bool, stderr: Seq<char>)
    requires
        benign_load_failure(stderr),
    ensures
        load_outcome(status_ok, stderr) == Ok::<(), SupervisionErrorView>(()),
{
}

/// Idempotent stop: when the daemon is already stopped under the service
/// manager, the unload command fails with a "not loaded" message, and that
/// reply counts as success.
pub proof fn lemma_idempotent_stop(status_ok: bool, stderr: Seq<char>)
    requires
        benign_unload_failure(stderr),
    ensures
        unload_outcome(status_ok, stderr) == Ok::<(), SupervisionErrorView>(()),
{
}

} // verus!
