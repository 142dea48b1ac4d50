use lua_rust::runtime::roots::{RuntimeRootKind, UnsafeTraceGapKind};
use lua_rust::runtime::trace::{
    dedup_by_trace_key, ensure_sweep_safe, sort_by_trace_key, sorted_distinct, CollectorSeed,
    MarkOnlyTrace, StatePop, StateTraceFailure, TraceHealth, UnresolvedObjectEdge, UnsafeTraceGap,
};
use lua_rust::state_arena::{StateArena, StateHandle, StateResolveError};

fn seed(seeded: usize, rejected: usize, temporary: usize, pending: usize) -> CollectorSeed {
    CollectorSeed {
        seeded,
        rejected,
        temporary_seeded: temporary,
        pending_finalizers_seeded: pending,
    }
}

#[test]
fn mark_only_reports_stale_and_foreign_state_handles_without_dereference() {
    let mut arena = StateArena::new(1);
    let main = arena.attach_external(500);
    let stale = arena.insert_owned(600);
    assert_eq!(arena.remove_owned(stale), Ok(600));
    let mut foreign_arena = StateArena::new(2);
    let foreign = foreign_arena.attach_external(700);

    let mut trace = MarkOnlyTrace::begin(1, main, 3, seed(0, 0, 0, 0), 0, 0, Some(true), Some(true), &vec![]);
    assert_eq!(trace.pop_state(&arena), StatePop::Traced(main, 500));
    trace.record_snapshot(main, &vec![], &vec![(RuntimeRootKind::MainStack, true)]);
    assert_eq!(trace.pop_state(&arena), StatePop::Idle);
    trace.record_collector_step(false, Some(foreign), None);
    trace.record_collector_step(false, Some(stale), None);
    assert_eq!(trace.pop_state(&arena), StatePop::Failed(foreign));
    assert_eq!(trace.pop_state(&arena), StatePop::Failed(stale));
    assert!(trace.queue_is_empty());

    let report = trace.report(3, 0, 0);
    assert_eq!(report.failed_state_handles.len(), 2);
    assert_eq!(report.failed_state_handles[0].handle, stale);
    assert!(matches!(
        report.failed_state_handles[0].error,
        StateResolveError::StaleGeneration { .. }
    ));
    assert_eq!(report.failed_state_handles[1].handle, foreign);
    assert!(matches!(
        report.failed_state_handles[1].error,
        StateResolveError::ForeignRuntime { .. }
    ));
    assert_eq!(report.traced_states, vec![main]);
    assert_eq!(report.object_trace_steps, 2);
    assert_eq!(report.root_edge_count(RuntimeRootKind::CoroutineStack), 2);
}

#[test]
fn each_state_is_checked_once_and_listed_in_handle_order() {
    let mut arena = StateArena::new(1);
    let main = arena.attach_external(10);
    let a = arena.insert_owned(11);
    let b = arena.insert_owned(12);
    let mut trace = MarkOnlyTrace::begin(1, main, 0, seed(0, 0, 0, 0), 0, 0, None, None, &vec![b, a]);
    assert_eq!(trace.pop_state(&arena), StatePop::Traced(main, 10));
    assert_eq!(trace.pop_state(&arena), StatePop::Traced(b, 12));
    trace.record_collector_step(true, Some(main), Some(b));
    assert_eq!(trace.pop_state(&arena), StatePop::Traced(a, 11));
    assert_eq!(trace.pop_state(&arena), StatePop::Repeated(main));
    assert_eq!(trace.pop_state(&arena), StatePop::Repeated(b));
    assert_eq!(trace.pop_state(&arena), StatePop::Idle);
    let report = trace.report(0, 0, 0);
    assert_eq!(report.traced_states, vec![main, a, b]);
    assert!(report.failed_state_handles.is_empty());
    assert_eq!(report.root_edge_count(RuntimeRootKind::ThreadCallerChain), 1);
    assert_eq!(report.root_edge_count(RuntimeRootKind::OpenUpvalues), 1);
    assert_eq!(report.root_edge_count(RuntimeRootKind::TemporaryStateRoots), 2);
    assert_eq!(report.root_edge_count(RuntimeRootKind::MainStateEntry), 1);
}

#[test]
fn seeding_counts_collector_roots_and_runtime_tables() {
    let arena = StateArena::new(4);
    let main = StateHandle::new(4, 0, 1);
    let trace = MarkOnlyTrace::begin(4, main, 9, seed(10, 2, 3, 4), 5, 6, Some(false), None, &vec![]);
    let report = trace.report(7, 1, 0);
    assert_eq!(report.runtime_id, 4);
    assert_eq!(report.total_objects, 9);
    assert_eq!(report.marked_objects, 7);
    assert_eq!(report.collector_roots_seeded, 10);
    assert_eq!(report.collector_roots_rejected, 2);
    assert_eq!(report.rejected_child_edges, 1);
    assert_eq!(report.root_edge_count(RuntimeRootKind::CollectorExplicitRoot), 3);
    assert_eq!(report.root_edge_count(RuntimeRootKind::TemporaryProtectedRoots), 3);
    assert_eq!(report.root_edge_count(RuntimeRootKind::PendingFinalizers), 4);
    assert_eq!(report.root_edge_count(RuntimeRootKind::FixedStrings), 5);
    assert_eq!(report.root_edge_count(RuntimeRootKind::CoroutineActivationBuffer), 6);
    assert_eq!(report.root_edge_count(RuntimeRootKind::GlobalTable), 1);
    assert_eq!(report.root_edge_count(RuntimeRootKind::Registry), 0);
    assert!(report
        .root_edges
        .iter()
        .all(|entry| entry.kind != RuntimeRootKind::Registry));
    assert_eq!(
        report.unresolved_object_edges,
        vec![UnresolvedObjectEdge { state: None, kind: RuntimeRootKind::GlobalTable }]
    );
    let kinds: Vec<RuntimeRootKind> = report.root_edges.iter().map(|entry| entry.kind).collect();
    let mut sorted = kinds.clone();
    sorted.sort();
    assert_eq!(kinds, sorted);
    drop(arena);
}

#[test]
fn explicit_roots_exclude_temporary_and_pending_without_going_negative() {
    let main = StateHandle::new(1, 0, 1);
    let trace = MarkOnlyTrace::begin(1, main, 0, seed(2, 0, 3, 1), 0, 0, None, None, &vec![]);
    assert_eq!(trace.report(0, 0, 0).root_edge_count(RuntimeRootKind::CollectorExplicitRoot), 0);
}

#[test]
fn snapshot_edges_and_gaps_are_recorded_and_sorted() {
    let mut arena = StateArena::new(1);
    let main = arena.attach_external(1);
    let co = arena.insert_owned(2);
    let mut trace = MarkOnlyTrace::begin(1, main, 0, seed(0, 0, 0, 0), 0, 0, None, None, &vec![co]);
    assert_eq!(trace.pop_state(&arena), StatePop::Traced(main, 1));
    assert_eq!(trace.pop_state(&arena), StatePop::Traced(co, 2));
    trace.record_snapshot(
        co,
        &vec![UnsafeTraceGapKind::CallFunctionOutOfBounds { frame: 1, function_index: 9 }],
        &vec![(RuntimeRootKind::CallVarargs, false), (RuntimeRootKind::CoroutineStack, true)],
    );
    trace.record_snapshot(
        main,
        &vec![
            UnsafeTraceGapKind::StackWindowOutOfBounds { top: 5, available: 2 },
            UnsafeTraceGapKind::ActiveCallStackOutOfBounds { current_ci: 3, available: 1 },
        ],
        &vec![(RuntimeRootKind::MainStack, false), (RuntimeRootKind::MainStack, false)],
    );
    let report = trace.report(0, 0, 0);
    assert_eq!(report.root_edge_count(RuntimeRootKind::MainStack), 2);
    assert_eq!(report.root_edge_count(RuntimeRootKind::CallVarargs), 1);
    assert_eq!(report.root_edge_count(RuntimeRootKind::CoroutineStack), 1);
    assert_eq!(
        report.unsafe_gaps,
        vec![
            UnsafeTraceGap {
                state: main,
                kind: UnsafeTraceGapKind::StackWindowOutOfBounds { top: 5, available: 2 }
            },
            UnsafeTraceGap {
                state: main,
                kind: UnsafeTraceGapKind::ActiveCallStackOutOfBounds { current_ci: 3, available: 1 }
            },
            UnsafeTraceGap {
                state: co,
                kind: UnsafeTraceGapKind::CallFunctionOutOfBounds { frame: 1, function_index: 9 }
            },
        ]
    );
    assert_eq!(
        report.unresolved_object_edges,
        vec![
            UnresolvedObjectEdge { state: Some(main), kind: RuntimeRootKind::MainStack },
            UnresolvedObjectEdge { state: Some(main), kind: RuntimeRootKind::MainStack },
            UnresolvedObjectEdge { state: Some(co), kind: RuntimeRootKind::CallVarargs },
        ]
    );
}

#[test]
fn sorting_orders_runtime_then_slot_then_generation() {
    let handles = vec![
        StateHandle::new(2, 0, 1),
        StateHandle::new(1, 3, 1),
        StateHandle::new(1, 0, 5),
        StateHandle::new(1, 0, 2),
    ];
    assert_eq!(
        sort_by_trace_key(&handles),
        vec![
            StateHandle::new(1, 0, 2),
            StateHandle::new(1, 0, 5),
            StateHandle::new(1, 3, 1),
            StateHandle::new(2, 0, 1),
        ]
    );
    let edges = vec![
        UnresolvedObjectEdge { state: Some(StateHandle::new(1, 0, 1)), kind: RuntimeRootKind::GlobalTable },
        UnresolvedObjectEdge { state: None, kind: RuntimeRootKind::Registry },
        UnresolvedObjectEdge { state: None, kind: RuntimeRootKind::GlobalTable },
    ];
    assert_eq!(
        sort_by_trace_key(&edges),
        vec![
            UnresolvedObjectEdge { state: None, kind: RuntimeRootKind::GlobalTable },
            UnresolvedObjectEdge { state: None, kind: RuntimeRootKind::Registry },
            UnresolvedObjectEdge { state: Some(StateHandle::new(1, 0, 1)), kind: RuntimeRootKind::GlobalTable },
        ]
    );
}

#[test]
fn sweep_needs_a_clean_trace() {
    let mut arena = StateArena::new(1);
    let main = arena.attach_external(1);
    let mut trace = MarkOnlyTrace::begin(1, main, 0, seed(1, 0, 0, 0), 0, 0, Some(true), Some(true), &vec![]);
    assert_eq!(trace.pop_state(&arena), StatePop::Traced(main, 1));
    assert_eq!(trace.pop_state(&arena), StatePop::Idle);
    assert_eq!(ensure_sweep_safe(&trace.report(2, 0, 0)), Ok(()));
    assert_eq!(
        ensure_sweep_safe(&trace.report(2, 1, 3)),
        Err(TraceHealth {
            failed_states: 0,
            unsafe_gaps: 0,
            unresolved_edges: 0,
            rejected_roots: 0,
            rejected_child_edges: 1,
            pending_mark_work: 3,
        })
    );
    trace.record_snapshot(
        main,
        &vec![UnsafeTraceGapKind::StackWindowOutOfBounds { top: 4, available: 1 }],
        &vec![(RuntimeRootKind::MainStack, false)],
    );
    let dirty = ensure_sweep_safe(&trace.report(2, 0, 0)).expect_err("gaps make the trace unsafe");
    assert_eq!(dirty.unsafe_gaps, 1);
    assert_eq!(dirty.unresolved_edges, 1);
}

#[test]
fn an_atomic_rescan_requeues_known_states_and_the_distinct_report_lists_each_once() {
    let mut arena = StateArena::new(1);
    let main = arena.attach_external(1);
    let co = arena.insert_owned(2);
    let mut trace = MarkOnlyTrace::begin(1, main, 0, seed(0, 0, 0, 0), 0, 0, Some(true), None, &vec![co]);
    assert_eq!(trace.pop_state(&arena), StatePop::Traced(main, 1));
    assert_eq!(trace.pop_state(&arena), StatePop::Traced(co, 2));
    assert_eq!(trace.pop_state(&arena), StatePop::Idle);

    trace.rescan(0, 0, Some(false), None, &vec![]);
    assert_eq!(trace.pop_state(&arena), StatePop::Traced(main, 1));
    assert_eq!(trace.pop_state(&arena), StatePop::Repeated(main));
    assert_eq!(trace.pop_state(&arena), StatePop::Traced(co, 2));
    assert_eq!(trace.pop_state(&arena), StatePop::Idle);

    let all = trace.report(0, 0, 0);
    assert_eq!(all.traced_states, vec![main, main, co, co]);
    let distinct = trace.report_distinct(0, 0, 0);
    assert_eq!(distinct.traced_states, vec![main, co]);
    assert_eq!(distinct.root_edge_count(RuntimeRootKind::MainStateEntry), 2);
    assert_eq!(distinct.root_edge_count(RuntimeRootKind::GlobalTable), 2);
    assert_eq!(distinct.root_edge_count(RuntimeRootKind::TemporaryStateRoots), 1);
    assert_eq!(
        distinct.unresolved_object_edges,
        vec![UnresolvedObjectEdge { state: None, kind: RuntimeRootKind::GlobalTable }]
    );
}

#[test]
fn distinct_lists_keep_the_first_entry_of_each_key() {
    let h0 = StateHandle::new(1, 0, 1);
    let h1 = StateHandle::new(1, 1, 1);
    let failures = vec![
        StateTraceFailure { handle: h1, error: StateResolveError::Vacant { slot: 1, generation: 1 } },
        StateTraceFailure { handle: h0, error: StateResolveError::InvalidSlot { slot: 0 } },
        StateTraceFailure { handle: h1, error: StateResolveError::RetiredSlot { slot: 1, generation: 1 } },
    ];
    assert_eq!(
        sorted_distinct(&failures),
        vec![
            StateTraceFailure { handle: h0, error: StateResolveError::InvalidSlot { slot: 0 } },
            StateTraceFailure { handle: h1, error: StateResolveError::Vacant { slot: 1, generation: 1 } },
        ]
    );
    assert_eq!(dedup_by_trace_key(&vec![h0, h0, h1, h1, h1]), vec![h0, h1]);
    assert_eq!(dedup_by_trace_key::<StateHandle>(&vec![]), vec![]);
}
