use lua_rust::runtime::lifecycle::{AccessRefusal, RuntimeGate};
use lua_rust::runtime::turns::{begin_turns, switch_turn, TurnAccessError};
use lua_rust::state_arena::{StateArena, StateResolveError};

#[test]
fn turn_driver_releases_before_switch_and_allows_handle_reentry() {
    let mut gate = RuntimeGate::new();
    let mut arena = StateArena::new(1);
    let main = arena.attach_external(10);
    let child = arena.insert_owned(20);

    assert_eq!(begin_turns(&mut gate, true, &mut arena, main), Ok(10));
    assert_eq!(gate.active_execution_count(), 1);
    assert_eq!(
        arena.begin_nested_borrow(child, 10),
        Err(StateResolveError::TurnBorrowActive { slot: main.slot, generation: main.generation })
    );
    assert_eq!(switch_turn(&mut gate, &mut arena, main, Some(child)), Ok(Some(20)));
    assert_eq!(
        arena.begin_nested_borrow(main, 20),
        Err(StateResolveError::TurnBorrowActive { slot: child.slot, generation: child.generation })
    );
    assert_eq!(switch_turn(&mut gate, &mut arena, child, Some(main)), Ok(Some(10)));
    assert_eq!(gate.active_execution_count(), 1);
    assert_eq!(switch_turn(&mut gate, &mut arena, main, None), Ok(None));
    assert_eq!(gate.active_execution_count(), 0);
    assert_eq!(arena.turn_borrow(), None);
    assert_eq!(arena.begin_direct_borrow(main, 10), Ok(()));
    assert!(arena.release(main));
}

#[test]
fn turn_driver_fails_closed_for_foreign_stale_and_borrowed_handles() {
    let mut gate = RuntimeGate::new();
    let mut arena = StateArena::new(1);
    let main = arena.attach_external(10);
    let mut foreign_arena = StateArena::new(2);
    let foreign = foreign_arena.attach_external(99);

    assert!(matches!(
        begin_turns(&mut gate, true, &mut arena, foreign),
        Err(TurnAccessError::StateArena(StateResolveError::ForeignRuntime { .. }))
    ));
    assert_eq!(gate.active_execution_count(), 0);

    let stale = arena.insert_owned(20);
    assert_eq!(arena.remove_owned(stale), Ok(20));
    assert!(matches!(
        begin_turns(&mut gate, true, &mut arena, stale),
        Err(TurnAccessError::StateArena(StateResolveError::StaleGeneration { .. }))
    ));
    assert_eq!(gate.active_execution_count(), 0);

    assert_eq!(arena.begin_direct_borrow(main, 10), Ok(()));
    assert!(matches!(
        begin_turns(&mut gate, true, &mut arena, main),
        Err(TurnAccessError::StateArena(StateResolveError::AlreadyBorrowed { .. }))
    ));
    assert_eq!(gate.active_execution_count(), 0);
    assert!(arena.release(main));
}

#[test]
fn a_refused_session_borrows_nothing() {
    let mut gate = RuntimeGate::new();
    let mut arena = StateArena::new(1);
    let main = arena.attach_external(10);
    assert_eq!(
        begin_turns(&mut gate, false, &mut arena, main),
        Err(TurnAccessError::Access(AccessRefusal::WrongThread))
    );
    assert_eq!(arena.turn_borrow(), None);
    assert_eq!(begin_turns(&mut gate, true, &mut arena, main), Ok(10));
    assert_eq!(
        begin_turns(&mut gate, true, &mut arena, main),
        Err(TurnAccessError::Access(AccessRefusal::ActiveExecutions { count: 1 }))
    );
}

#[test]
fn a_refused_switch_ends_the_session() {
    let mut gate = RuntimeGate::new();
    let mut arena = StateArena::new(1);
    let main = arena.attach_external(10);
    let gone = arena.insert_owned(20);
    assert_eq!(arena.remove_owned(gone), Ok(20));
    assert_eq!(begin_turns(&mut gate, true, &mut arena, main), Ok(10));
    assert!(matches!(
        switch_turn(&mut gate, &mut arena, main, Some(gone)),
        Err(TurnAccessError::StateArena(StateResolveError::StaleGeneration { .. }))
    ));
    assert_eq!(gate.active_execution_count(), 0);
    assert_eq!(arena.turn_borrow(), None);
}
