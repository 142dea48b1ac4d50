//! The coroutine protocol of the runtime's native trampoline: which
//! coroutines may be resumed, how caller and target statuses change while a
//! resume is active and after it ends, and the yield-permission counter.

use vstd::prelude::*;
use super::lifecycle::ExecResult;

verus! {

/// Status of a coroutine thread.
#[derive(Clone, Copy, Debug, PartialEq, Eq, Structural)]
pub enum CoroutineStatus {
    Suspended,
    Running,
    Normal,
    Dead,
}

/// Why a resume request was refused.
#[derive(Clone, Copy, Debug, PartialEq, Eq, Structural)]
pub enum ActivationRefusal {
    /// The target is the running coroutine.
    TargetRunning,
    /// The target has finished.
    TargetDead,
}

/// Statuses recorded when a resume starts, to be restored when it ends.
#[derive(Clone, Copy, Debug, PartialEq, Eq, Structural)]
pub struct ActivationLinks {
    /// The caller's status before the resume (none for the main state).
    pub previous_caller_status: Option<CoroutineStatus>,
    /// The target's status before the resume.
    pub previous_target_status: CoroutineStatus,
}

/// The statuses while a resume is active: the caller (if it is a coroutine)
/// waits in the normal status and the target runs.
#[derive(Clone, Copy, Debug, PartialEq, Eq, Structural)]
pub struct ActiveStatuses {
    pub caller: Option<CoroutineStatus>,
    pub target: CoroutineStatus,
}

/// How one turn of a coroutine ended.
#[derive(Clone, Copy, Debug, PartialEq, Eq, Structural)]
pub enum TurnOutcome {
    Completed(ExecResult),
    Failed,
}

/// The status of a coroutine caller while the coroutine it resumed runs.
pub open spec fn waiting_caller(caller: Option<CoroutineStatus>) -> Option<CoroutineStatus> {
    match caller {
        Some(_) => Some(CoroutineStatus::Normal),
        None => None,
    }
}

/// Start resuming `target` from `caller`: refused when the target is running
/// or dead; otherwise the caller becomes normal and the target running, and
/// the previous statuses are recorded.
pub fn begin_activation(caller: Option<CoroutineStatus>, target: CoroutineStatus) -> (r: Result<
    (ActivationLinks, ActiveStatuses),
    ActivationRefusal,
>)
    ensures
        target == CoroutineStatus::Running ==> r == Err::<(ActivationLinks, ActiveStatuses), ActivationRefusal>(
            ActivationRefusal::TargetRunning,
        ),
        target == CoroutineStatus::Dead ==> r == Err::<(ActivationLinks, ActiveStatuses), ActivationRefusal>(
            ActivationRefusal::TargetDead,
        ),
        target != CoroutineStatus::Running && target != CoroutineStatus::Dead ==> (r matches Ok((links, active))
            && links.previous_caller_status == caller && links.previous_target_status == target
            && active.target == CoroutineStatus::Running && active.caller == waiting_caller(caller)),
{
    match target {
        CoroutineStatus::Running => Err(ActivationRefusal::TargetRunning),
        CoroutineStatus::Dead => Err(ActivationRefusal::TargetDead),
        _ => {
            let links = ActivationLinks { previous_caller_status: caller, previous_target_status: target };
            let active_caller = match caller {
                Some(_) => Some(CoroutineStatus::Normal),
                None => None,
            };
            Ok((links, ActiveStatuses { caller: active_caller, target: CoroutineStatus::Running }))
        },
    }
}

/// The target's status after a turn: suspended when it yielded, dead when it
/// returned or failed.
pub open spec fn status_after_turn(outcome: TurnOutcome) -> CoroutineStatus {
    match outcome {
        TurnOutcome::Completed(ExecResult::Yielded) => CoroutineStatus::Suspended,
        _ => CoroutineStatus::Dead,
    }
}

/// The target's status after a turn.
pub fn finish_turn(outcome: TurnOutcome) -> (r: CoroutineStatus)
    ensures
        r == status_after_turn(outcome),
{
    match outcome {
        TurnOutcome::Completed(ExecResult::Yielded) => CoroutineStatus::Suspended,
        _ => CoroutineStatus::Dead,
    }
}

/// The caller's status once the resume is delivered: its recorded status,
/// unless it died meanwhile.
pub fn restored_caller_status(links: &ActivationLinks, current: Option<CoroutineStatus>) -> (r: Option<
    CoroutineStatus,
>)
    ensures
        r == match (current, links.previous_caller_status) {
            (Some(CoroutineStatus::Dead), _) => Some(CoroutineStatus::Dead),
            (Some(_), Some(previous)) => Some(previous),
            _ => current,
        },
{
    match (current, links.previous_caller_status) {
        (Some(CoroutineStatus::Dead), _) => Some(CoroutineStatus::Dead),
        (Some(_), Some(previous)) => Some(previous),
        _ => current,
    }
}

/// Whether a coroutine in `status` may be resumed by the trampoline.
pub open spec fn resumable(status: CoroutineStatus) -> bool {
    status != CoroutineStatus::Running && status != CoroutineStatus::Dead
}

/// A coroutine that yielded may be resumed again; one that returned or failed
/// never can.
pub proof fn lemma_resume_after_turn(outcome: TurnOutcome)
    ensures
        resumable(status_after_turn(outcome)) <==> outcome == TurnOutcome::Completed(
            ExecResult::Yielded,
        ),
{
}

/// Why the yield-permission counter could not change.
#[derive(Clone, Copy, Debug, PartialEq, Eq, Structural)]
pub enum YieldPermissionError {
    Overflow,
    Underflow,
}

/// Grant one more yield permission.
pub fn acquire_yield_permission(allow_yield: u16) -> (r: Result<u16, YieldPermissionError>)
    ensures
        allow_yield < u16::MAX ==> r == Ok::<u16, YieldPermissionError>((allow_yield + 1) as u16),
        allow_yield == u16::MAX ==> r == Err::<u16, YieldPermissionError>(YieldPermissionError::Overflow),
{
    match allow_yield.checked_add(1) {
        Some(v) => Ok(v),
        None => Err(YieldPermissionError::Overflow),
    }
}

/// Give one yield permission back.
pub fn release_yield_permission(allow_yield: u16) -> (r: Result<u16, YieldPermissionError>)
    ensures
        allow_yield > 0 ==> r == Ok::<u16, YieldPermissionError>((allow_yield - 1) as u16),
        allow_yield == 0 ==> r == Err::<u16, YieldPermissionError>(YieldPermissionError::Underflow),
{
    match allow_yield.checked_sub(1) {
        Some(v) => Ok(v),
        None => Err(YieldPermissionError::Underflow),
    }
}

/// Acquiring a permission and giving it back restores the counter.
pub proof fn lemma_yield_permission_round_trip(allow_yield: u16)
    requires
        allow_yield < u16::MAX,
    ensures
        ((allow_yield + 1) as u16) > 0,
        (((allow_yield + 1) as u16) - 1) as u16 == allow_yield,
{
}

} // verus!
