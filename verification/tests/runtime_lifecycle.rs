use lua_rust::runtime::shutdown::{begin_close, CloseError, CloseProgress};
use lua_rust::state_arena::{StateArena, StateHandle, StateResolveError, StateSlot};
use lua_rust::runtime::lifecycle::{
    close_report, AccessRefusal, CloseStep, ExecResult, HeapRemainder, LuaStateShutdownReport,
    NativeRequestId, RuntimeGate, RuntimePhase, RuntimeShutdownSummary, ThreadStatus,
};

fn report(a: usize, b: usize, c: usize, d: usize, e: usize) -> LuaStateShutdownReport {
    LuaStateShutdownReport {
        closed_open_upvalues: a,
        rejected_open_upvalue_edges: b,
        open_upvalue_cycles: c,
        open_upvalue_owner_mismatches: d,
        open_upvalue_stack_values_missing: e,
    }
}

#[test]
fn close_is_idempotent_and_reports_zeroed_heap() {
    let mut gate = RuntimeGate::new();
    assert_eq!(gate.phase(), RuntimePhase::Running);
    assert_eq!(gate.close_step(true), Ok(CloseStep::Shutdown));
    gate.enter_closing();
    gate.finish_closing();
    let empty = HeapRemainder {
        objects: 0,
        roots: 0,
        interned_strings: 0,
        estimated_bytes: 0,
        coroutine_states: 0,
        collector_queue_entries: 0,
    };
    let summary = RuntimeShutdownSummary {
        drained_coroutine_states: 0,
        state_shutdown: LuaStateShutdownReport::default(),
        destroyed_objects: 2,
        destroyed_threads: 1,
        destroyed_fixed_objects: 0,
        pending_lua_finalizers_discarded: 0,
    };
    let first = close_report(9, false, empty, Some(summary));
    assert!(!first.already_closed);
    assert!(!first.heap_reclamation_deferred);
    assert_eq!(first.remaining_objects, 0);
    assert_eq!(first.remaining_roots, 0);
    assert_eq!(first.remaining_interned_strings, 0);
    assert_eq!(first.remaining_estimated_bytes, 0);
    assert_eq!(first.remaining_coroutine_states, 0);
    assert_eq!(first.remaining_collector_queue_entries, 0);
    assert!(first.destroyed_objects >= 2);
    assert!(first.lua_gc_callback_debt);
    assert!(first.io_resource_drain_debt);
    assert_eq!(gate.phase(), RuntimePhase::Closed);
    assert!(!gate.main_state_present);
    assert_eq!(gate.close_step(true), Ok(CloseStep::AlreadyClosed));
    let second = close_report(9, true, empty, Some(summary));
    assert!(second.already_closed);
    assert_eq!(second.destroyed_objects, first.destroyed_objects);
    assert_eq!(second.drained_coroutine_states, first.drained_coroutine_states);
    assert_eq!(second.remaining_objects, 0);
    assert_eq!(second.remaining_estimated_bytes, 0);
    assert!(!second.heap_reclamation_deferred);
    assert_eq!(gate.close_step(true), Ok(CloseStep::AlreadyClosed));
    assert_eq!(
        gate.begin_parts(true),
        Err(AccessRefusal::NotRunning { phase: RuntimePhase::Closed })
    );
}

#[test]
fn close_rejects_active_execution_without_changing_phase() {
    let mut gate = RuntimeGate::new();
    assert_eq!(gate.begin_parts(true), Ok(()));
    assert_eq!(gate.active_execution_count(), 1);
    assert_eq!(gate.close_step(true), Err(AccessRefusal::ActiveExecutions { count: 1 }));
    assert_eq!(gate.phase(), RuntimePhase::Running);
    assert!(gate.main_state_present);
    gate.end_execution();
    assert_eq!(gate.close_step(true), Ok(CloseStep::Shutdown));
}

#[test]
fn session_requires_an_idle_running_runtime() {
    let mut gate = RuntimeGate::new();
    assert_eq!(gate.begin_session(true), Ok(()));
    assert_eq!(gate.active_execution_count(), 1);
    assert_eq!(gate.begin_session(true), Err(AccessRefusal::ActiveExecutions { count: 1 }));
    gate.end_execution();
    assert_eq!(gate.active_execution_count(), 0);
    gate.enter_closing();
    assert_eq!(
        gate.begin_session(true),
        Err(AccessRefusal::NotRunning { phase: RuntimePhase::Closing })
    );
    assert_eq!(
        gate.close_step(true),
        Err(AccessRefusal::NotRunning { phase: RuntimePhase::Closing })
    );
}

#[test]
fn drop_uses_normal_close_only_when_idle_on_owner_thread() {
    let mut gate = RuntimeGate::new();
    assert!(gate.drop_closes_normally(true));
    assert!(!gate.drop_closes_normally(false));
    assert_eq!(gate.begin_parts(true), Ok(()));
    assert!(!gate.drop_closes_normally(true));
    gate.abandon();
    assert_eq!(gate.phase(), RuntimePhase::Closed);
    assert!(!gate.drop_closes_normally(true));
}

#[test]
fn shutdown_reports_merge_field_by_field() {
    let mut total = LuaStateShutdownReport::default();
    assert_eq!(total, report(0, 0, 0, 0, 0));
    total.merge(report(1, 2, 3, 4, 5));
    total.merge(report(10, 20, 30, 40, 50));
    assert_eq!(total, report(11, 22, 33, 44, 55));
}

#[test]
fn thread_status_codes_match_the_c_api() {
    assert_eq!(ThreadStatus::Normal.code(), 0);
    assert_eq!(ThreadStatus::Yield.code(), 1);
    assert_eq!(ThreadStatus::ErrRun.code(), 2);
    assert_eq!(ThreadStatus::ErrSyntax.code(), 3);
    assert_eq!(ThreadStatus::ErrMem.code(), 4);
    assert_eq!(ThreadStatus::ErrErr.code(), 5);
}

#[test]
fn native_request_id_keeps_its_value() {
    let id = NativeRequestId::new(42);
    assert_eq!(id.get(), 42);
    assert_eq!(id, NativeRequestId::new(42));
    assert_ne!(id, NativeRequestId::new(43));
    assert_ne!(ExecResult::Returned, ExecResult::Yielded);
}

#[test]
fn every_request_off_the_owner_thread_is_refused_first() {
    let mut gate = RuntimeGate::new();
    assert_eq!(gate.begin_parts(false), Err(AccessRefusal::WrongThread));
    assert_eq!(gate.begin_session(false), Err(AccessRefusal::WrongThread));
    assert_eq!(gate.close_step(false), Err(AccessRefusal::WrongThread));
    assert_eq!(gate.active_execution_count(), 0);
    gate.abandon();
    assert_eq!(gate.close_step(false), Err(AccessRefusal::WrongThread));
    assert_eq!(gate.close_step(true), Ok(CloseStep::AlreadyClosed));
}

#[test]
fn close_report_defers_reclamation_while_anything_remains() {
    let mut remainder = HeapRemainder {
        objects: 0,
        roots: 0,
        interned_strings: 0,
        estimated_bytes: 512,
        coroutine_states: 0,
        collector_queue_entries: 0,
    };
    let report = close_report(4, false, remainder, None);
    assert_eq!(report.runtime_id, 4);
    assert!(!report.heap_reclamation_deferred);
    assert_eq!(report.remaining_estimated_bytes, 512);
    assert_eq!(report.destroyed_objects, 0);
    assert_eq!(report.drained_coroutine_states, 0);
    remainder.roots = 1;
    assert!(close_report(4, false, remainder, None).heap_reclamation_deferred);
    remainder.roots = 0;
    remainder.collector_queue_entries = 3;
    let deferred = close_report(4, true, remainder, None);
    assert!(deferred.heap_reclamation_deferred);
    assert_eq!(deferred.remaining_collector_queue_entries, 3);
}

#[test]
fn mark_only_rejects_active_execution_state() {
    let mut gate = RuntimeGate::new();
    assert_eq!(gate.admit_stop_the_world(true), Ok(()));
    gate.active_executions = 1;
    assert_eq!(gate.admit_stop_the_world(true), Err(AccessRefusal::ActiveExecutions { count: 1 }));
    gate.active_executions = 0;
    assert_eq!(gate.admit_stop_the_world(true), Ok(()));
}

#[test]
fn full_collection_enforces_runtime_phase_and_active_execution_gate() {
    let mut gate = RuntimeGate::new();
    gate.active_executions = 1;
    assert_eq!(gate.admit_stop_the_world(true), Err(AccessRefusal::ActiveExecutions { count: 1 }));
    gate.active_executions = 0;
    assert_eq!(gate.close_step(true), Ok(CloseStep::Shutdown));
    gate.enter_closing();
    gate.finish_closing();
    assert_eq!(
        gate.admit_stop_the_world(true),
        Err(AccessRefusal::NotRunning { phase: RuntimePhase::Closed })
    );
}

#[test]
fn stop_the_world_needs_an_idle_running_runtime() {
    let mut gate = RuntimeGate::new();
    gate.active_executions = 2;
    assert_eq!(gate.admit_stop_the_world(true), Err(AccessRefusal::ActiveExecutions { count: 2 }));
    gate.active_executions = 0;
    assert_eq!(gate.admit_stop_the_world(true), Ok(()));
    assert_eq!(gate.admit_stop_the_world(false), Err(AccessRefusal::WrongThread));
    gate.abandon();
    assert!(!gate.main_state_present);
    assert_eq!(
        gate.admit_stop_the_world(true),
        Err(AccessRefusal::NotRunning { phase: RuntimePhase::Closed })
    );
}

#[test]
fn close_drains_coroutine_states_and_invalidates_their_generations() {
    let mut gate = RuntimeGate::new();
    let mut arena = StateArena::new(5);
    let main = arena.attach_external(1);
    let child = arena.insert_owned(2);

    let drained = match begin_close(&mut gate, true, &mut arena, main, 1, true) {
        Ok(CloseProgress::Drained(keys)) => keys,
        other => panic!("close should drain, got {other:?}"),
    };
    assert_eq!(drained, vec![2]);
    assert_eq!(gate.phase(), RuntimePhase::Closing);
    gate.finish_closing();

    let remainder = HeapRemainder {
        objects: 0,
        roots: 0,
        interned_strings: 0,
        estimated_bytes: 0,
        coroutine_states: arena.live_owned_state_count(),
        collector_queue_entries: 0,
    };
    let summary = RuntimeShutdownSummary {
        drained_coroutine_states: drained.len(),
        state_shutdown: LuaStateShutdownReport::default(),
        destroyed_objects: 0,
        destroyed_threads: 0,
        destroyed_fixed_objects: 0,
        pending_lua_finalizers_discarded: 0,
    };
    let report = close_report(5, false, remainder, Some(summary));
    assert_eq!(report.drained_coroutine_states, 1);
    assert_eq!(report.remaining_coroutine_states, 0);
    assert_eq!(arena.live_owned_state_count(), 0);
    assert!(matches!(arena.validate(child), Err(StateResolveError::StaleGeneration { .. })));
    assert!(arena.validate(main).is_err());
    assert_eq!(gate.phase(), RuntimePhase::Closed);
    assert!(matches!(
        begin_close(&mut gate, true, &mut arena, main, 1, true),
        Ok(CloseProgress::AlreadyClosed)
    ));
}

#[test]
fn a_refused_close_changes_nothing() {
    let mut gate = RuntimeGate::new();
    let mut arena = StateArena::new(5);
    let main = arena.attach_external(1);
    let child = arena.insert_owned(2);

    assert!(matches!(
        begin_close(&mut gate, false, &mut arena, main, 1, true),
        Err(CloseError::Access(AccessRefusal::WrongThread))
    ));
    assert!(matches!(
        begin_close(&mut gate, true, &mut arena, main, 1, false),
        Err(CloseError::StateArena(StateResolveError::ArenaInvariant { .. }))
    ));
    assert!(matches!(
        begin_close(&mut gate, true, &mut arena, main, 9, true),
        Err(CloseError::StateArena(StateResolveError::PointerMismatch))
    ));
    assert!(matches!(
        begin_close(&mut gate, true, &mut arena, child, 2, true),
        Err(CloseError::StateArena(StateResolveError::NotExternal { .. }))
    ));
    assert_eq!(arena.begin_direct_borrow(child, 2), Ok(()));
    assert!(matches!(
        begin_close(&mut gate, true, &mut arena, main, 1, true),
        Err(CloseError::StateArena(StateResolveError::AlreadyBorrowed { .. }))
    ));
    assert!(arena.release(child));
    assert_eq!(gate.phase(), RuntimePhase::Running);
    assert_eq!(arena.live_owned_state_count(), 1);
    assert_eq!(arena.validate(child), Ok((child.slot, 2)));
}

fn arena_slot(generation: u64, state: Option<u64>, owned: bool) -> StateSlot {
    StateSlot { generation, state, owned, borrowed: false, retired: false }
}

#[test]
fn close_preflight_rejects_free_list_corruption_before_mutation() {
    let mut gate = RuntimeGate::new();
    let main = StateHandle::new(6, 0, 1);
    let slots = vec![arena_slot(1, Some(1), false), arena_slot(2, None, false)];
    let mut arena = StateArena::from_parts(6, slots.clone(), vec![1, 1], 0);
    assert!(matches!(
        begin_close(&mut gate, true, &mut arena, main, 1, true),
        Err(CloseError::StateArena(StateResolveError::ArenaInvariant {
            reason: "free-list contains a duplicate slot"
        }))
    ));
    assert_eq!(gate.phase(), RuntimePhase::Running);
    assert_eq!(arena.validate(main), Ok((0, 1)));

    let mut repaired = StateArena::from_parts(6, slots, vec![1], 0);
    assert!(matches!(
        begin_close(&mut gate, true, &mut repaired, main, 1, true),
        Ok(CloseProgress::Drained(_))
    ));
    assert_eq!(gate.phase(), RuntimePhase::Closing);
}

#[test]
fn close_retires_a_coroutine_at_generation_max_without_reuse_or_wrap() {
    let mut gate = RuntimeGate::new();
    let main = StateHandle::new(8, 0, 1);
    let child = StateHandle::new(8, 1, u64::MAX);
    let mut arena = StateArena::from_parts(
        8,
        vec![arena_slot(1, Some(1), false), arena_slot(u64::MAX, Some(2), true)],
        vec![],
        1,
    );
    let drained = match begin_close(&mut gate, true, &mut arena, main, 1, true) {
        Ok(CloseProgress::Drained(keys)) => keys,
        other => panic!("close should drain, got {other:?}"),
    };
    assert_eq!(drained, vec![2]);
    assert_eq!(
        arena.validate(child),
        Err(StateResolveError::RetiredSlot { slot: 1, generation: u64::MAX })
    );
    gate.finish_closing();
    assert!(matches!(
        begin_close(&mut gate, true, &mut arena, main, 1, true),
        Ok(CloseProgress::AlreadyClosed)
    ));
    assert_eq!(
        arena.validate(child),
        Err(StateResolveError::RetiredSlot { slot: 1, generation: u64::MAX })
    );
}

#[test]
fn merged_reports_do_not_depend_on_order_and_default_is_neutral() {
    let a = report(1, 2, 3, 4, 5);
    let b = report(10, 0, 7, 1, 2);
    let mut x = a;
    x.merge(b);
    let mut y = b;
    y.merge(a);
    assert_eq!(x, y);
    assert_eq!(x, report(11, 2, 10, 5, 7));
    let mut z = a;
    z.merge(LuaStateShutdownReport::default());
    assert_eq!(z, a);
}
