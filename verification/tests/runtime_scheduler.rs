use lua_rust::runtime::coroutine::{ActivationRefusal, CoroutineStatus};
use lua_rust::runtime::lifecycle::{ExecResult, NativeRequestId};
use lua_rust::runtime::mailbox::{DeferredCall, DeferredVmContinuation, NativeRequestMailbox, ResumeEnvelope};
use lua_rust::runtime::scheduler::{
    classify_native_turn, ActivationScheduler, CallerThread, ClassifyError, DriverAction,
    ProtocolError, ResponseSource, TurnClass, TurnDecision, TurnEvent, VmExit,
};
use lua_rust::state_arena::StateHandle;

fn handle(slot: usize) -> StateHandle {
    StateHandle::new(1, slot, 1)
}

fn request(id: u64, target: StateHandle, thread: u64, caller: Option<CallerThread>, status: CoroutineStatus) -> TurnEvent {
    TurnEvent::Request {
        request_id: NativeRequestId::new(id),
        target,
        thread,
        caller,
        has_deferred_call: true,
        target_status: status,
        target_caller: None,
    }
}

#[test]
fn a_resume_runs_the_target_and_delivers_back_to_the_caller() {
    let main = handle(0);
    let co = handle(1);
    let mut s = ActivationScheduler::new(main);
    assert_eq!(s.action(), DriverAction::StartProto);

    let started = s.after_turn(request(1, co, 100, None, CoroutineStatus::Suspended)).expect("resumable");
    assert_eq!(started.completed, None);
    match started.decision {
        TurnDecision::StartTarget { frame, active, normal_deferred } => {
            assert_eq!(frame.caller, main);
            assert_eq!(frame.target, co);
            assert_eq!(frame.links.previous_target_status, CoroutineStatus::Suspended);
            assert_eq!(active.caller, None);
            assert_eq!(active.target, CoroutineStatus::Running);
            assert_eq!(normal_deferred, None);
        }
        other => panic!("unexpected decision {other:?}"),
    }
    assert_eq!(s.current(), co);
    assert_eq!(s.frames().len(), 1);

    let stopped = s
        .after_turn(TurnEvent::Coroutine { thread: 100, caller_status: None })
        .expect("the top frame resumed this thread");
    match stopped.decision {
        TurnDecision::DeliverToCaller { frame, restored_caller_status, replay_dead_ancestor } => {
            assert_eq!(frame.caller, main);
            assert_eq!(restored_caller_status, None);
            assert!(!replay_dead_ancestor);
        }
        other => panic!("unexpected decision {other:?}"),
    }
    assert_eq!(s.current(), main);

    let finished = s.after_turn(TurnEvent::Main).expect("no activation remains");
    assert_eq!(finished.decision, TurnDecision::Finished);
    assert_eq!(finished.completed.map(|f| f.request_id), Some(NativeRequestId::new(1)));
    assert!(s.frames().is_empty());
}

#[test]
fn a_caller_that_died_meanwhile_gets_its_resume_replayed_as_failed() {
    let main = handle(0);
    let a = handle(1);
    let b = handle(2);
    let mut s = ActivationScheduler::new(main);
    s.after_turn(request(1, a, 100, None, CoroutineStatus::Suspended)).expect("a resumable");
    let caller = CallerThread { thread: 100, status: CoroutineStatus::Running };
    s.after_turn(request(2, b, 200, Some(caller), CoroutineStatus::Suspended)).expect("b resumable");
    let stopped = s
        .after_turn(TurnEvent::Coroutine { thread: 200, caller_status: Some(CoroutineStatus::Dead) })
        .expect("b stops");
    match stopped.decision {
        TurnDecision::DeliverToCaller { frame, restored_caller_status, replay_dead_ancestor } => {
            assert_eq!(frame.caller, a);
            assert_eq!(restored_caller_status, Some(CoroutineStatus::Dead));
            assert!(replay_dead_ancestor);
        }
        other => panic!("unexpected decision {other:?}"),
    }
    let a_stops = s
        .after_turn(TurnEvent::Coroutine { thread: 100, caller_status: None })
        .expect("a stops after the delivery");
    assert!(a_stops.dead_caller_response);
    assert_eq!(a_stops.completed.map(|f| f.request_id), Some(NativeRequestId::new(2)));
    assert_eq!(s.current(), main);
}

#[test]
fn a_live_caller_gets_its_previous_status_back() {
    let main = handle(0);
    let a = handle(1);
    let b = handle(2);
    let mut s = ActivationScheduler::new(main);
    s.after_turn(request(1, a, 100, None, CoroutineStatus::Suspended)).expect("a resumable");
    let caller = CallerThread { thread: 100, status: CoroutineStatus::Running };
    s.after_turn(request(2, b, 200, Some(caller), CoroutineStatus::Suspended)).expect("b resumable");
    let stopped = s
        .after_turn(TurnEvent::Coroutine { thread: 200, caller_status: Some(CoroutineStatus::Normal) })
        .expect("b stops");
    assert!(matches!(
        stopped.decision,
        TurnDecision::DeliverToCaller {
            restored_caller_status: Some(CoroutineStatus::Running),
            replay_dead_ancestor: false,
            ..
        }
    ));
}

#[test]
fn an_upvalue_access_returns_to_its_requester_and_keeps_a_pending_delivery() {
    let main = handle(0);
    let co = handle(1);
    let mut s = ActivationScheduler::new(main);
    s.after_turn(request(1, co, 100, None, CoroutineStatus::Suspended)).expect("resumable");
    s.after_turn(TurnEvent::Coroutine { thread: 100, caller_status: None }).expect("stops");
    assert!(matches!(s.action(), DriverAction::Deliver(_)));

    let access = s
        .after_turn(TurnEvent::UpvalueAccess { requester: main, owner: co })
        .expect("main asks for an upvalue of the coroutine");
    assert_eq!(access.decision, TurnDecision::AccessUpvalue { owner: co });
    assert_eq!(access.completed, None);
    assert_eq!(s.frames().len(), 1);
    assert_eq!(s.action(), DriverAction::DeliverUpvalue);

    let finished = s.after_turn(TurnEvent::Main).expect("the held delivery completes");
    assert_eq!(finished.completed.map(|f| f.request_id), Some(NativeRequestId::new(1)));
    assert_eq!(finished.decision, TurnDecision::Finished);
}

#[test]
fn a_normal_target_continues_the_deferred_call_of_its_own_resume() {
    let main = handle(0);
    let a = handle(1);
    let b = handle(2);
    let mut s = ActivationScheduler::new(main);
    s.after_turn(request(1, a, 100, None, CoroutineStatus::Suspended)).expect("a resumable");
    let caller = CallerThread { thread: 100, status: CoroutineStatus::Running };
    s.after_turn(request(2, b, 200, Some(caller), CoroutineStatus::Suspended)).expect("b resumable");
    let again = s
        .after_turn(request(3, a, 100, Some(CallerThread { thread: 200, status: CoroutineStatus::Running }), CoroutineStatus::Normal))
        .expect("a is normal and called b");
    match again.decision {
        TurnDecision::StartTarget { normal_deferred, .. } => assert_eq!(normal_deferred, Some(1)),
        other => panic!("unexpected decision {other:?}"),
    }
}

#[test]
fn protocol_violations_end_the_session() {
    let main = handle(0);
    let co = handle(1);

    let mut s = ActivationScheduler::new(main);
    let mut missing = request(1, co, 100, None, CoroutineStatus::Suspended);
    if let TurnEvent::Request { ref mut has_deferred_call, .. } = missing {
        *has_deferred_call = false;
    }
    assert_eq!(s.after_turn(missing), Err(ProtocolError::MissingDeferredCall));

    let mut s = ActivationScheduler::new(main);
    assert_eq!(
        s.after_turn(request(1, co, 100, None, CoroutineStatus::Dead)),
        Err(ProtocolError::TargetNotResumable(ActivationRefusal::TargetDead))
    );
    assert_eq!(
        s.after_turn(request(1, co, 100, None, CoroutineStatus::Running)),
        Err(ProtocolError::TargetNotResumable(ActivationRefusal::TargetRunning))
    );
    assert_eq!(
        s.after_turn(request(1, co, 100, None, CoroutineStatus::Normal)),
        Err(ProtocolError::NormalTargetWithoutAncestor)
    );
    assert_eq!(
        s.after_turn(TurnEvent::UpvalueAccess { requester: co, owner: main }),
        Err(ProtocolError::UpvalueRequesterMismatch)
    );
    assert_eq!(
        s.after_turn(TurnEvent::UpvalueAccess { requester: main, owner: main }),
        Err(ProtocolError::LocalUpvalueEscaped)
    );
    assert_eq!(
        s.after_turn(TurnEvent::Coroutine { thread: 100, caller_status: None }),
        Err(ProtocolError::StoppedWithoutActivation)
    );

    let mut s = ActivationScheduler::new(main);
    s.after_turn(request(1, co, 100, None, CoroutineStatus::Suspended)).expect("resumable");
    assert_eq!(
        s.after_turn(TurnEvent::Coroutine { thread: 999, caller_status: None }),
        Err(ProtocolError::StoppedThreadMismatch)
    );
    assert_eq!(s.after_turn(TurnEvent::Main), Err(ProtocolError::MainStoppedWithActivations));
    assert_eq!(s.restart(main), Err(ProtocolError::ActivationsAtEntry));
    let unwound = s.unwind();
    assert_eq!(unwound.len(), 1);
    assert_eq!(unwound[0].target, co);
    assert_eq!(s.restart(main), Ok(()));
    assert_eq!(s.action(), DriverAction::StartProto);
}

#[test]
fn unwinding_pops_the_newest_frame_first() {
    let main = handle(0);
    let a = handle(1);
    let b = handle(2);
    let mut s = ActivationScheduler::new(main);
    s.after_turn(request(1, a, 100, None, CoroutineStatus::Suspended)).expect("a resumable");
    let caller = CallerThread { thread: 100, status: CoroutineStatus::Running };
    s.after_turn(request(2, b, 200, Some(caller), CoroutineStatus::Suspended)).expect("b resumable");
    let frames = s.unwind();
    assert_eq!(frames.iter().map(|f| f.thread).collect::<Vec<_>>(), vec![200, 100]);
    assert!(s.frames().is_empty());
}

#[test]
fn classifying_a_request_exit_takes_the_sealed_request() {
    let mut mailbox: NativeRequestMailbox<&str, u8> = NativeRequestMailbox::new();
    let mut allow_yield: u16 = 1;
    mailbox.open_scope().expect("scope opens");
    let id = mailbox.publish("target", ResumeEnvelope::Resume).expect("published");
    assert!(matches!(
        classify_native_turn(&mut mailbox, VmExit::NativeRequest(id), true, &mut allow_yield),
        Err(ClassifyError::MissingNativeRequest)
    ));
    assert!(mailbox.seal(id, DeferredCall { request_id: id, continuation: DeferredVmContinuation::Call, data: 7 }));
    match classify_native_turn(&mut mailbox, VmExit::NativeRequest(id), true, &mut allow_yield) {
        Ok(TurnClass::Request(request)) => {
            assert_eq!(request.id, id);
            assert_eq!(request.payload, "target");
        }
        _ => panic!("the sealed request is taken"),
    }
    assert!(mailbox.pending.is_none());
    assert_eq!(allow_yield, 1);
}

#[test]
fn classifying_completions_distinguishes_main_and_coroutines() {
    let mut mailbox: NativeRequestMailbox<&str, u8> = NativeRequestMailbox::new();
    let mut allow_yield: u16 = 2;
    assert!(matches!(
        classify_native_turn(&mut mailbox, VmExit::Complete(ExecResult::Returned), false, &mut allow_yield),
        Ok(TurnClass::Main(Some(ExecResult::Returned)))
    ));
    assert!(matches!(
        classify_native_turn(&mut mailbox, VmExit::Failed, false, &mut allow_yield),
        Ok(TurnClass::Main(None))
    ));
    assert_eq!(allow_yield, 2);
    assert!(matches!(
        classify_native_turn(&mut mailbox, VmExit::Complete(ExecResult::Yielded), true, &mut allow_yield),
        Ok(TurnClass::Coroutine { status: CoroutineStatus::Suspended, response: ResponseSource::YieldedValues })
    ));
    assert_eq!(allow_yield, 1);
    assert!(matches!(
        classify_native_turn(&mut mailbox, VmExit::Complete(ExecResult::Returned), true, &mut allow_yield),
        Ok(TurnClass::Coroutine { status: CoroutineStatus::Dead, response: ResponseSource::StackValues })
    ));
    assert_eq!(allow_yield, 0);
    assert!(matches!(
        classify_native_turn(&mut mailbox, VmExit::Failed, true, &mut allow_yield),
        Err(ClassifyError::YieldPermissionUnderflow)
    ));
    allow_yield = 1;
    assert!(matches!(
        classify_native_turn(&mut mailbox, VmExit::Failed, true, &mut allow_yield),
        Ok(TurnClass::Coroutine { status: CoroutineStatus::Dead, response: ResponseSource::Error })
    ));
    assert!(matches!(
        classify_native_turn(&mut mailbox, VmExit::UpvalueAccess, true, &mut allow_yield),
        Ok(TurnClass::UpvalueAccess)
    ));
}
