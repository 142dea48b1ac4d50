use lua_rust::state_arena::{StateArena, StateHandle, StateResolveError, StateSlot};

#[test]
fn removed_state_handles_become_stale_and_slots_advance_generation() {
    let mut arena = StateArena::new(1);
    let first = arena.insert_owned(10);
    assert_eq!(arena.remove_owned(first), Ok(10));
    assert_eq!(arena.live_owned_state_count(), 0);

    let second = arena.insert_owned(11);
    assert_eq!(second.slot, first.slot);
    assert_ne!(second.generation, first.generation);
    assert!(matches!(arena.validate(first), Err(StateResolveError::StaleGeneration { .. })));
    assert_eq!(arena.validate(second), Ok((second.slot, 11)));
}

#[test]
fn arena_releases_one_thousand_owned_states_back_to_baseline() {
    let mut arena = StateArena::new(7);
    let baseline = arena.live_owned_state_count();
    let mut first_handle: Option<StateHandle> = None;
    let mut previous_generation = 0;
    for key in 0..1_000u64 {
        let handle = arena.insert_owned(key);
        first_handle.get_or_insert(handle);
        assert!(handle.generation > previous_generation);
        previous_generation = handle.generation;
        assert_eq!(arena.live_owned_state_count(), baseline + 1);
        assert_eq!(arena.remove_owned(handle), Ok(key));
        assert_eq!(arena.live_owned_state_count(), baseline);
        assert!(matches!(arena.validate(handle), Err(StateResolveError::StaleGeneration { .. })));
        assert!(matches!(
            arena.validate(first_handle.expect("first handle is recorded")),
            Err(StateResolveError::StaleGeneration { .. })
        ));
    }
    assert_eq!(arena.validate_internal_invariants(), Ok(()));
}

#[test]
fn arena_rejects_current_foreign_and_nested_active_states() {
    let mut arena = StateArena::new(1);
    let main_handle = arena.attach_external(100);
    assert_eq!(arena.begin_direct_borrow(main_handle, 100), Ok(()));
    assert_eq!(arena.resolve(main_handle, 100), Err(StateResolveError::CurrentState));
    let child = arena.insert_owned(200);
    assert_eq!(arena.live_owned_state_count(), 1);

    assert_eq!(arena.begin_nested_borrow(child, 100), Ok(200));
    assert!(matches!(
        arena.begin_nested_borrow(main_handle, 200),
        Err(StateResolveError::AlreadyBorrowed { .. })
    ));
    assert!(arena.release(child));
    assert!(arena.release(main_handle));

    let foreign = StateArena::new(2);
    assert!(matches!(
        foreign.resolve(child, 300),
        Err(StateResolveError::ForeignRuntime { expected: 2, actual: 1 })
    ));
}

#[test]
fn handles_to_unknown_slots_and_vacant_slots_are_refused() {
    let mut arena = StateArena::new(3);
    let bogus = StateHandle::new(3, 5, 1);
    assert_eq!(arena.validate(bogus), Err(StateResolveError::InvalidSlot { slot: 5 }));
    let h = arena.insert_owned(1);
    assert!(matches!(arena.remove_owned(h), Ok(1)));
    let vacant_same_generation = StateHandle::new(3, h.slot, h.generation + 1);
    assert!(matches!(
        arena.validate(vacant_same_generation),
        Err(StateResolveError::Vacant { .. })
    ));
}

#[test]
fn external_state_cannot_be_removed_as_owned_and_detaches_once() {
    let mut arena = StateArena::new(4);
    let main_handle = arena.attach_external(9);
    assert!(matches!(arena.remove_owned(main_handle), Err(StateResolveError::NotOwned { .. })));
    assert_eq!(arena.validate_external_detach(main_handle, 8), Err(StateResolveError::PointerMismatch));
    assert_eq!(arena.detach_external(main_handle, 9), Ok(()));
    assert!(arena.validate(main_handle).is_err());
}

#[test]
fn borrowed_owned_state_is_not_removed() {
    let mut arena = StateArena::new(5);
    let h = arena.insert_owned(42);
    assert_eq!(arena.begin_turn_borrow(h), Ok(42));
    assert_eq!(arena.turn_borrow(), Some(h));
    assert!(matches!(arena.remove_owned(h), Err(StateResolveError::AlreadyBorrowed { .. })));
    assert!(arena.release_turn(h));
    assert_eq!(arena.turn_borrow(), None);
    assert_eq!(arena.remove_owned(h), Ok(42));
}

#[test]
fn drain_returns_owned_states_in_slot_order() {
    let mut arena = StateArena::new(6);
    let main_handle = arena.attach_external(1);
    let a = arena.insert_owned(2);
    let b = arena.insert_owned(3);
    assert!(a.slot < b.slot);
    assert_eq!(arena.validate_owned_drain(), Ok(()));
    assert_eq!(arena.drain_owned(), Ok(vec![2, 3]));
    assert_eq!(arena.live_owned_state_count(), 0);
    assert!(arena.validate(a).is_err());
    assert!(arena.validate(b).is_err());
    assert_eq!(arena.validate(main_handle), Ok((main_handle.slot, 1)));
}

#[test]
fn fresh_slots_start_at_generation_one_and_reuse_advances_it() {
    let mut arena = StateArena::new(3);
    assert_eq!(arena.validate_internal_invariants(), Ok(()));
    let a = arena.insert_owned(100);
    let b = arena.insert_owned(200);
    assert_eq!((a.slot, a.generation), (0, 1));
    assert_eq!((b.slot, b.generation), (1, 1));
    assert_eq!(arena.remove_owned(a), Ok(100));
    let c = arena.insert_owned(300);
    assert_eq!((c.slot, c.generation), (0, 2));
    assert_eq!(arena.validate_internal_invariants(), Ok(()));
}

fn slot(generation: u64, state: Option<u64>, owned: bool) -> StateSlot {
    StateSlot { generation, state, owned, borrowed: false, retired: false }
}

#[test]
fn generation_max_is_issued_once_then_the_slot_is_permanently_retired() {
    let mut arena = StateArena::from_parts(3, vec![slot(u64::MAX - 1, Some(1), true)], vec![], 1);
    assert_eq!(arena.validate_internal_invariants(), Ok(()));
    let penultimate = StateHandle::new(3, 0, u64::MAX - 1);
    assert_eq!(arena.remove_owned(penultimate), Ok(1));
    assert_eq!(
        arena.validate(StateHandle::new(3, 0, u64::MAX)),
        Err(StateResolveError::Vacant { slot: 0, generation: u64::MAX })
    );

    let final_handle = arena.insert_owned(2);
    assert_eq!(final_handle.slot, 0);
    assert_eq!(final_handle.generation, u64::MAX);
    assert_eq!(
        arena.validate(penultimate),
        Err(StateResolveError::StaleGeneration { slot: 0, requested: u64::MAX - 1, actual: u64::MAX })
    );

    assert_eq!(arena.remove_owned(final_handle), Ok(2));
    assert_eq!(
        arena.validate(final_handle),
        Err(StateResolveError::RetiredSlot { slot: 0, generation: u64::MAX })
    );
    let fresh = arena.insert_owned(3);
    assert_ne!(fresh.slot, 0);
    assert_eq!(arena.live_owned_state_count(), 1);
    assert_eq!(arena.validate_internal_invariants(), Ok(()));
}

#[test]
fn duplicate_or_occupied_free_list_entries_cannot_overwrite_a_live_slot() {
    let mut arena = StateArena::from_parts(4, vec![slot(2, None, false)], vec![0, 0], 0);
    let recycled = arena.insert_owned(10);
    assert_eq!(recycled.slot, 0);

    let other = arena.insert_owned(11);
    assert_ne!(other.slot, 0);
    assert_eq!(arena.live_owned_state_count(), 2);
    assert_eq!(arena.validate(recycled), Ok((0, 10)));
    assert_eq!(arena.validate(other), Ok((other.slot, 11)));

    assert_eq!(arena.remove_owned(recycled), Ok(10));
    assert_eq!(arena.remove_owned(other), Ok(11));
    assert_eq!(arena.live_owned_state_count(), 0);
}
