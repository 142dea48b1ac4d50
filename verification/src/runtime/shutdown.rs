//! Closing a runtime: the checks and the arena work of a close, around the
//! collector teardown that the caller performs.
//!
//! A close is refused off the owner thread or while executions are active; a
//! closed runtime only reports again. Otherwise every check runs before
//! anything changes: the main state must be present, no coroutine activation
//! may remain, the main state must be detachable from the arena, and the
//! arena must be consistent with no owned state borrowed. Only then does the
//! runtime enter the closing phase, drain every owned state and detach the
//! main state.

use vstd::prelude::*;
use crate::state_arena::{owned_states, occupied_owned, vacated_error, ArenaModel, StateArena, StateHandle, StateResolveError};
use super::lifecycle::{close_outcome, AccessRefusal, CloseStep, RuntimeGate, RuntimePhase};

verus! {

/// Why a close did not go through.
#[derive(Clone, Copy, Debug, PartialEq, Eq)]
pub enum CloseError {
    /// The runtime refused the close.
    Access(AccessRefusal),
    /// The state arena refused the shutdown.
    StateArena(StateResolveError),
}

/// How far a close got.
#[derive(Debug)]
pub enum CloseProgress {
    /// The runtime was already closed; nothing changed.
    AlreadyClosed,
    /// The runtime is closing: these owned states (their keys, in slot order)
    /// were drained from the arena and are to be destroyed, and the main
    /// state was detached.
    Drained(Vec<u64>),
}

/// The error of a close that found coroutine activations left.
pub open spec fn activations_left_error(e: StateResolveError) -> bool {
    e matches StateResolveError::ArenaInvariant { reason } && reason@
        == "native activation stack is not empty at shutdown"@
}

/// Start closing the runtime guarded by `gate` and owning `arena`, whose main
/// state `main_state` is registered under `main`. Every refusal leaves the
/// runtime and the arena unchanged. A drained state's handle then fails with
/// a stale generation, or as retired when it named the last generation.
pub fn begin_close(
    gate: &mut RuntimeGate,
    on_owner_thread: bool,
    arena: &mut StateArena,
    main: StateHandle,
    main_state: u64,
    activations_idle: bool,
) -> (r: Result<CloseProgress, CloseError>)
    requires
        old(gate).wf(),
    ensures
        final(gate).wf(),
        r is Err ==> *final(gate) == *old(gate) && final(arena)@ == old(arena)@,
        r matches Ok(CloseProgress::AlreadyClosed) ==> *final(gate) == *old(gate) && final(arena)@ == old(
            arena,
        )@,
        close_outcome(*old(gate), on_owner_thread) matches Err(e) ==> r == Err::<CloseProgress, CloseError>(
            CloseError::Access(e),
        ),
        close_outcome(*old(gate), on_owner_thread) == Ok::<CloseStep, AccessRefusal>(CloseStep::AlreadyClosed)
            ==> r matches Ok(CloseProgress::AlreadyClosed),
        close_outcome(*old(gate), on_owner_thread) == Ok::<CloseStep, AccessRefusal>(CloseStep::Shutdown)
            ==> {
            let a = old(arena)@;
            if !old(gate).main_state_present {
                r == Err::<CloseProgress, CloseError>(CloseError::StateArena(StateResolveError::ArenaUnavailable))
            } else if !activations_idle {
                r matches Err(CloseError::StateArena(e)) && activations_left_error(e)
            } else if a.external_detach_result(main, main_state) is Err {
                r == Err::<CloseProgress, CloseError>(
                    CloseError::StateArena(a.external_detach_result(main, main_state)->Err_0),
                )
            } else if !(a.consistent() && a.no_owned_borrowed()) {
                r matches Err(CloseError::StateArena(e)) && a.drain_preflight(Err::<(), StateResolveError>(e))
            } else {
                &&& r matches Ok(CloseProgress::Drained(keys)) && keys@ == owned_states(a.slots)
                &&& *final(gate) == (RuntimeGate { phase: RuntimePhase::Closing, ..*old(gate) })
                &&& final(arena)@.validate(main) is Err
                &&& final(arena)@.live_owned == 0
                &&& final(arena)@.consistent()
                &&& forall|h: StateHandle| #[trigger]
                    a.validate(h) is Ok && occupied_owned(a.slots[h.slot as int]) ==> final(arena)@.validate(
                        h,
                    ) == Err::<(usize, u64), StateResolveError>(vacated_error(h))
            }
        },
{
    match gate.close_step(on_owner_thread) {
        Err(e) => {
            return Err(CloseError::Access(e));
        },
        Ok(CloseStep::AlreadyClosed) => {
            return Ok(CloseProgress::AlreadyClosed);
        },
        Ok(CloseStep::Shutdown) => {},
    }
    if !gate.main_state_present {
        return Err(CloseError::StateArena(StateResolveError::ArenaUnavailable));
    }
    if !activations_idle {
        return Err(
            CloseError::StateArena(
                StateResolveError::ArenaInvariant {
                    reason: "native activation stack is not empty at shutdown",
                },
            ),
        );
    }
    match arena.validate_external_detach(main, main_state) {
        Err(e) => {
            return Err(CloseError::StateArena(e));
        },
        Ok(_) => {},
    }
    match arena.validate_owned_drain() {
        Err(e) => {
            return Err(CloseError::StateArena(e));
        },
        Ok(()) => {},
    }
    let ghost before = arena@;
    gate.enter_closing();
    let keys = match arena.drain_owned() {
        Ok(keys) => keys,
        Err(e) => {
            return Err(CloseError::StateArena(e));
        },
    };
    proof {
        let d = arena@;
        assert(!occupied_owned(before.slots[main.slot as int]));
        assert(d.slots[main.slot as int] == before.slots[main.slot as int]);
        assert(d.validate(main) == before.validate(main));
        assert(d.external_detach_result(main, main_state) == before.external_detach_result(main, main_state));
        assert(d.generations_nonzero()) by {
            assert forall|i: int| 0 <= i < d.slots.len() implies #[trigger] d.slots[i].generation != 0 by {
                assert(d.slot_consistent(i));
            }
        }
    }
    let ghost drained = arena@;
    match arena.detach_external(main, main_state) {
        Err(e) => {
            return Err(CloseError::StateArena(e));
        },
        Ok(()) => {},
    }
    proof {
        assert forall|h: StateHandle| #[trigger]
            before.validate(h) is Ok && occupied_owned(before.slots[h.slot as int]) implies arena@.validate(
                h,
            ) == Err::<(usize, u64), StateResolveError>(vacated_error(h)) by {
            assert(drained.validate(h) == Err::<(usize, u64), StateResolveError>(vacated_error(h)));
            if h.slot != main.slot {
                assert(arena@.slots[h.slot as int] == drained.slots[h.slot as int]);
            }
        }
    }
    Ok(CloseProgress::Drained(keys))
}

} // verus!
