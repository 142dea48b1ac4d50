use lua_rust::runtime::coroutine::{
    acquire_yield_permission, begin_activation, finish_turn, release_yield_permission,
    restored_caller_status, ActivationRefusal, CoroutineStatus, TurnOutcome, YieldPermissionError,
};
use lua_rust::runtime::lifecycle::ExecResult;

#[test]
fn running_and_dead_coroutines_cannot_be_resumed() {
    assert_eq!(begin_activation(None, CoroutineStatus::Running), Err(ActivationRefusal::TargetRunning));
    assert_eq!(begin_activation(Some(CoroutineStatus::Running), CoroutineStatus::Dead), Err(ActivationRefusal::TargetDead));
}

#[test]
fn resuming_marks_caller_normal_and_target_running() {
    let (links, active) = begin_activation(Some(CoroutineStatus::Running), CoroutineStatus::Suspended).expect("resumable");
    assert_eq!(links.previous_caller_status, Some(CoroutineStatus::Running));
    assert_eq!(links.previous_target_status, CoroutineStatus::Suspended);
    assert_eq!(active.caller, Some(CoroutineStatus::Normal));
    assert_eq!(active.target, CoroutineStatus::Running);
    let (_, from_main) = begin_activation(None, CoroutineStatus::Suspended).expect("resumable");
    assert_eq!(from_main.caller, None);
    assert_eq!(restored_caller_status(&links, Some(CoroutineStatus::Normal)), Some(CoroutineStatus::Running));
    assert_eq!(restored_caller_status(&links, Some(CoroutineStatus::Dead)), Some(CoroutineStatus::Dead));
}

#[test]
fn yield_suspends_and_return_or_error_kills() {
    assert_eq!(finish_turn(TurnOutcome::Completed(ExecResult::Yielded)), CoroutineStatus::Suspended);
    assert_eq!(finish_turn(TurnOutcome::Completed(ExecResult::Returned)), CoroutineStatus::Dead);
    assert_eq!(finish_turn(TurnOutcome::Failed), CoroutineStatus::Dead);
    let after_yield = finish_turn(TurnOutcome::Completed(ExecResult::Yielded));
    assert!(begin_activation(None, after_yield).is_ok());
}

#[test]
fn yield_permissions_are_checked() {
    assert_eq!(acquire_yield_permission(0), Ok(1));
    assert_eq!(acquire_yield_permission(u16::MAX), Err(YieldPermissionError::Overflow));
    assert_eq!(release_yield_permission(1), Ok(0));
    assert_eq!(release_yield_permission(0), Err(YieldPermissionError::Underflow));
}

