//! The checks that the native driver makes on plain values before it hands a
//! turn to the VM: that a resumed target owns the requested coroutine, and
//! that an open-upvalue response reaches its requester and answers the
//! operation it asked for.

use vstd::prelude::*;
use crate::state::stack::Stack;
use crate::state_arena::StateHandle;

verus! {

/// Why the driver refused a turn.
#[derive(Clone, Copy, Debug, PartialEq, Eq, Structural)]
pub enum DriverRefusal {
    /// The target state is not running the coroutine that was resumed.
    TargetDoesNotOwnThread,
    /// The target's yield-permission counter is at its maximum.
    YieldPermissionOverflow,
    /// An upvalue response was delivered to another state than the requester.
    UpvalueRequesterMismatch,
    /// The owner state produced no response.
    UpvalueResponseMissing,
    /// The response does not answer the requested operation.
    UpvalueResponseMismatch,
    /// A read's destination lies outside the requester's stack.
    UpvalueDestinationOutOfRange,
}

impl DriverRefusal {
    /// The error text that the driver raises for this refusal.
    pub open spec fn text(self) -> Seq<char> {
        match self {
            DriverRefusal::TargetDoesNotOwnThread =>
                "Runtime-native target state does not own the requested Thread"@,
            DriverRefusal::YieldPermissionOverflow => "coroutine yield permission overflow"@,
            DriverRefusal::UpvalueRequesterMismatch =>
                "open Upvalue response reached a different requester state"@,
            DriverRefusal::UpvalueResponseMissing =>
                "open Upvalue transfer has no owner-state response"@,
            DriverRefusal::UpvalueResponseMismatch =>
                "open Upvalue response did not match its requested operation"@,
            DriverRefusal::UpvalueDestinationOutOfRange =>
                "open Upvalue read destination is outside the requester stack"@,
        }
    }

    /// The error text that the driver raises for this refusal.
    pub fn message(&self) -> (r: &'static str)
        ensures
            r@ == self.text(),
    {
        match self {
            DriverRefusal::TargetDoesNotOwnThread =>
                "Runtime-native target state does not own the requested Thread",
            DriverRefusal::YieldPermissionOverflow => "coroutine yield permission overflow",
            DriverRefusal::UpvalueRequesterMismatch =>
                "open Upvalue response reached a different requester state",
            DriverRefusal::UpvalueResponseMissing => "open Upvalue transfer has no owner-state response",
            DriverRefusal::UpvalueResponseMismatch =>
                "open Upvalue response did not match its requested operation",
            DriverRefusal::UpvalueDestinationOutOfRange =>
                "open Upvalue read destination is outside the requester stack",
        }
    }
}

/// What a requester asked of an open upvalue that another state owns.
#[derive(Clone, Copy, Debug, PartialEq, Eq, Structural)]
pub enum UpvalueAccessOperation {
    /// Read the upvalue into the requester's stack slot `destination`.
    Read { destination: usize },
    /// Write the upvalue.
    Write,
}

/// What the owner state answered.
#[derive(Clone, Copy, Debug, PartialEq, Eq)]
pub enum UpvalueAccessResponse<V> {
    /// The value that was read.
    Read(V),
    /// The write was done.
    Written,
}

/// Before a resumed target runs: it must be running the requested coroutine
/// (`current_thread`), and then it is granted one more yield permission.
/// Returns the new permission count.
pub fn prepare_target_turn(current_thread: Option<u64>, requested_thread: u64, allow_yield: u16) -> (r:
    Result<u16, DriverRefusal>)
    ensures
        current_thread != Some(requested_thread) ==> r == Err::<u16, DriverRefusal>(
            DriverRefusal::TargetDoesNotOwnThread,
        ),
        current_thread == Some(requested_thread) && allow_yield == u16::MAX ==> r == Err::<
            u16,
            DriverRefusal,
        >(DriverRefusal::YieldPermissionOverflow),
        current_thread == Some(requested_thread) && allow_yield < u16::MAX ==> r == Ok::<
            u16,
            DriverRefusal,
        >((allow_yield + 1) as u16),
{
    let owns = match current_thread {
        Some(t) => t == requested_thread,
        None => false,
    };
    if !owns {
        return Err(DriverRefusal::TargetDoesNotOwnThread);
    }
    match allow_yield.checked_add(1) {
        Some(v) => Ok(v),
        None => Err(DriverRefusal::YieldPermissionOverflow),
    }
}

/// The outcome of delivering `response` to the requester state whose handle
/// is `state_handle`, for `operation` asked by `requester`, on a stack of
/// `slot_count` slots.
pub open spec fn delivery_outcome<V>(
    state_handle: Option<StateHandle>,
    requester: StateHandle,
    operation: UpvalueAccessOperation,
    response: Option<UpvalueAccessResponse<V>>,
    slot_count: nat,
) -> Result<(), DriverRefusal> {
    if state_handle != Some(requester) {
        Err(DriverRefusal::UpvalueRequesterMismatch)
    } else {
        match response {
            None => Err(DriverRefusal::UpvalueResponseMissing),
            Some(UpvalueAccessResponse::Read(_)) => match operation {
                UpvalueAccessOperation::Read { destination } => if destination < slot_count {
                    Ok(())
                } else {
                    Err(DriverRefusal::UpvalueDestinationOutOfRange)
                },
                UpvalueAccessOperation::Write => Err(DriverRefusal::UpvalueResponseMismatch),
            },
            Some(UpvalueAccessResponse::Written) => match operation {
                UpvalueAccessOperation::Write => Ok(()),
                UpvalueAccessOperation::Read { .. } => Err(DriverRefusal::UpvalueResponseMismatch),
            },
        }
    }
}

/// Deliver an open-upvalue response to its requester: refused when it
/// reached another state, when the owner gave no response, or when the
/// response does not answer the operation; a read stores the value in its
/// destination slot, which must be initialized. The stack changes only on a
/// delivered read.
pub fn deliver_upvalue_response<V: Copy>(
    stack: &mut Stack<V>,
    state_handle: Option<StateHandle>,
    requester: StateHandle,
    operation: UpvalueAccessOperation,
    response: Option<UpvalueAccessResponse<V>>,
) -> (r: Result<(), DriverRefusal>)
    ensures
        r == delivery_outcome(state_handle, requester, operation, response, old(stack).slots().len()),
        final(stack).top_index() == old(stack).top_index(),
        final(stack).nil_value() == old(stack).nil_value(),
        match (r, operation, response) {
            (Ok(()), UpvalueAccessOperation::Read { destination }, Some(UpvalueAccessResponse::Read(v))) =>
                final(stack).slots() == old(stack).slots().update(destination as int, v),
            _ => final(stack).slots() == old(stack).slots(),
        },
{
    let reached = match state_handle {
        Some(h) => h.same_as(&requester),
        None => false,
    };
    if !reached {
        return Err(DriverRefusal::UpvalueRequesterMismatch);
    }
    let answered = match response {
        Some(a) => a,
        None => {
            return Err(DriverRefusal::UpvalueResponseMissing);
        },
    };
    match (operation, answered) {
        (UpvalueAccessOperation::Read { destination }, UpvalueAccessResponse::Read(value)) => {
            match stack.at_mut(destination) {
                Some(slot) => {
                    *slot = value;
                    Ok(())
                },
                None => Err(DriverRefusal::UpvalueDestinationOutOfRange),
            }
        },
        (UpvalueAccessOperation::Write, UpvalueAccessResponse::Written) => Ok(()),
        _ => Err(DriverRefusal::UpvalueResponseMismatch),
    }
}

} // verus!
