use lua_rust::runtime::driver::{
    deliver_upvalue_response, prepare_target_turn, DriverRefusal, UpvalueAccessOperation,
    UpvalueAccessResponse,
};
use lua_rust::state::stack::Stack;
use lua_rust::state_arena::StateHandle;

#[test]
fn a_target_must_own_the_resumed_thread_before_it_may_yield() {
    assert_eq!(prepare_target_turn(Some(7), 7, 0), Ok(1));
    assert_eq!(prepare_target_turn(Some(8), 7, 0), Err(DriverRefusal::TargetDoesNotOwnThread));
    assert_eq!(prepare_target_turn(None, 7, 0), Err(DriverRefusal::TargetDoesNotOwnThread));
    assert_eq!(prepare_target_turn(Some(7), 7, u16::MAX), Err(DriverRefusal::YieldPermissionOverflow));
    assert_eq!(
        DriverRefusal::TargetDoesNotOwnThread.message(),
        "Runtime-native target state does not own the requested Thread"
    );
}

#[test]
fn upvalue_responses_reach_their_requester_and_answer_the_operation() {
    let requester = StateHandle::new(1, 0, 1);
    let other = StateHandle::new(1, 1, 1);
    let mut stack: Stack<i64> = Stack::new(4, 0);
    stack.push(10);
    stack.push(20);

    let read = UpvalueAccessOperation::Read { destination: 1 };
    assert_eq!(
        deliver_upvalue_response(&mut stack, Some(other), requester, read, Some(UpvalueAccessResponse::Read(5))),
        Err(DriverRefusal::UpvalueRequesterMismatch)
    );
    assert_eq!(
        deliver_upvalue_response(&mut stack, Some(requester), requester, read, None),
        Err(DriverRefusal::UpvalueResponseMissing)
    );
    assert_eq!(
        deliver_upvalue_response(&mut stack, Some(requester), requester, read, Some(UpvalueAccessResponse::Written)),
        Err(DriverRefusal::UpvalueResponseMismatch)
    );
    assert_eq!(
        deliver_upvalue_response(
            &mut stack,
            Some(requester),
            requester,
            UpvalueAccessOperation::Write,
            Some(UpvalueAccessResponse::Read(5))
        ),
        Err(DriverRefusal::UpvalueResponseMismatch)
    );
    assert_eq!(
        deliver_upvalue_response(
            &mut stack,
            Some(requester),
            requester,
            UpvalueAccessOperation::Read { destination: 9 },
            Some(UpvalueAccessResponse::Read(5))
        ),
        Err(DriverRefusal::UpvalueDestinationOutOfRange)
    );
    assert_eq!(stack.at(1), Some(&20));
    assert_eq!(
        deliver_upvalue_response(&mut stack, Some(requester), requester, read, Some(UpvalueAccessResponse::Read(5))),
        Ok(())
    );
    assert_eq!(stack.at(1), Some(&5));
    assert_eq!(stack.size(), 2);
    assert_eq!(
        deliver_upvalue_response(
            &mut stack,
            Some(requester),
            requester,
            UpvalueAccessOperation::Write,
            Some(UpvalueAccessResponse::Written)
        ),
        Ok(())
    );
}
