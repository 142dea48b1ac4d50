//! Driving a session as a sequence of non-overlapping state turns.
//!
//! A session is admitted once and counts as one active execution however
//! many turns it spans. Each turn borrows exactly one state from the arena;
//! the borrow ends before the next turn's state is borrowed, so a turn may
//! hand over to any state, including the one that just ran. A refused borrow
//! ends the session.

use vstd::prelude::*;
use crate::state_arena::{ArenaModel, StateArena, StateHandle, StateResolveError};
use super::lifecycle::{session_outcome, AccessRefusal, RuntimeGate};

verus! {

/// Why a driven session could not go on.
#[derive(Clone, Copy, Debug, PartialEq, Eq)]
pub enum TurnAccessError {
    /// The runtime refused the session.
    Access(AccessRefusal),
    /// The arena refused the turn's state.
    StateArena(StateResolveError),
}

/// Whether the arena lends `h` for a turn: `h` validates, no turn is active
/// and no slot is borrowed.
pub open spec fn lends_turn(a: ArenaModel, h: StateHandle) -> bool {
    &&& a.validate(h) is Ok
    &&& a.turn is None
    &&& forall|j: int| 0 <= j < a.slots.len() ==> !(#[trigger] a.slots[j]).borrowed
}

/// The arena after lending `h` for a turn.
pub open spec fn lent(a: ArenaModel, h: StateHandle) -> ArenaModel {
    ArenaModel {
        turn: Some(h),
        slots: a.slots.update(h.slot as int, crate::state_arena::StateSlot { borrowed: true, ..a.slots[h.slot as int] }),
        ..a
    }
}

/// Admit a session from the owner thread or not, and borrow `initial` for
/// its first turn; the state's key is returned. A refused borrow ends the
/// session again, leaving the runtime and the arena as they were.
pub fn begin_turns(
    gate: &mut RuntimeGate,
    on_owner_thread: bool,
    arena: &mut StateArena,
    initial: StateHandle,
) -> (r: Result<u64, TurnAccessError>)
    requires
        old(gate).wf(),
    ensures
        final(gate).wf(),
        session_outcome(*old(gate), on_owner_thread) matches Err(e) ==> r == Err::<u64, TurnAccessError>(
            TurnAccessError::Access(e),
        ),
        session_outcome(*old(gate), on_owner_thread) is Ok ==> (r is Ok <==> lends_turn(
            old(arena)@,
            initial,
        )),
        r matches Err(TurnAccessError::StateArena(e)) ==> (old(arena)@.validate(initial) matches Err(v)
            ==> e == v),
        r is Err ==> *final(gate) == *old(gate) && final(arena)@ == old(arena)@,
        r matches Ok(st) ==> {
            &&& *final(gate) == (RuntimeGate { active_executions: 1, ..*old(gate) })
            &&& old(arena)@.validate(initial) == Ok::<(usize, u64), StateResolveError>((initial.slot, st))
            &&& final(arena)@ == lent(old(arena)@, initial)
        },
{
    match gate.begin_session(on_owner_thread) {
        Err(e) => {
            return Err(TurnAccessError::Access(e));
        },
        Ok(()) => {},
    }
    match arena.begin_turn_borrow(initial) {
        Ok(state) => {
            proof {
                assert(arena@ =~= lent(old(arena)@, initial));
            }
            Ok(state)
        },
        Err(e) => {
            gate.end_execution();
            Err(TurnAccessError::StateArena(e))
        },
    }
}

/// End the turn on `current` and borrow `next` for the following turn, or,
/// when there is no next state, end the session. A refused borrow ends the
/// session too. Whenever the session ends, no state is left borrowed.
pub fn switch_turn(
    gate: &mut RuntimeGate,
    arena: &mut StateArena,
    current: StateHandle,
    next: Option<StateHandle>,
) -> (r: Result<Option<u64>, TurnAccessError>)
    requires
        old(gate).wf(),
        old(gate).active_executions > 0,
        old(arena)@.consistent(),
        old(arena)@.turn == Some(current),
    ensures
        final(gate).wf(),
        r is Err || next is None ==> final(arena)@.turn is None && forall|j: int|
            0 <= j < final(arena)@.slots.len() ==> !(#[trigger] final(arena)@.slots[j]).borrowed,
        ({
            let released = ArenaModel {
                turn: None,
                slots: old(arena)@.slots.update(
                    current.slot as int,
                    crate::state_arena::StateSlot { borrowed: false, ..old(arena)@.slots[current.slot as int] },
                ),
                ..old(arena)@
            };
            let ended = RuntimeGate {
                active_executions: (old(gate).active_executions - 1) as usize,
                ..*old(gate)
            };
            match next {
                None => r == Ok::<Option<u64>, TurnAccessError>(None) && *final(gate) == ended
                    && final(arena)@ == released,
                Some(n) => {
                    &&& (r is Ok <==> released.validate(n) is Ok)
                    &&& r matches Err(TurnAccessError::StateArena(e)) ==> (released.validate(n) matches Err(v)
                        ==> e == v)
                    &&& r is Err ==> *final(gate) == ended && final(arena)@ == released
                    &&& r matches Ok(Some(st)) ==> *final(gate) == *old(gate) && released.validate(n)
                        == Ok::<(usize, u64), StateResolveError>((n.slot, st)) && final(arena)@ == lent(
                        released,
                        n,
                    )
                    &&& !(r matches Ok(None))
                },
            }
        }),
{
    let ghost before = arena@;
    arena.release_turn(current);
    proof {
        assert(arena@.slots =~= before.slots.update(
            current.slot as int,
            crate::state_arena::StateSlot { borrowed: false, ..before.slots[current.slot as int] },
        ));
    }
    match next {
        None => {
            gate.end_execution();
            Ok(None)
        },
        Some(n) => match arena.begin_turn_borrow(n) {
            Ok(state) => {
                proof {
                    assert(arena@.slots =~= lent(
                        ArenaModel {
                            turn: None,
                            slots: before.slots.update(
                                current.slot as int,
                                crate::state_arena::StateSlot { borrowed: false, ..before.slots[current.slot as int] },
                            ),
                            ..before
                        },
                        n,
                    ).slots);
                }
                Ok(Some(state))
            },
            Err(e) => {
                gate.end_execution();
                Err(TurnAccessError::StateArena(e))
            },
        },
    }
}

} // verus!
