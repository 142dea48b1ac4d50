use lua_rust::runtime::roots::{RootEdgeCount, RootEdgeCounts, RuntimeRootKind};

#[test]
fn inventory_names_match_the_root_inventory() {
    assert_eq!(RuntimeRootKind::CollectorExplicitRoot.inventory_name(), "COLLECTOR_EXPLICIT_ROOT");
    assert_eq!(RuntimeRootKind::MainStack.inventory_name(), "MAIN_STACK");
    assert_eq!(RuntimeRootKind::CoroutineActivationBuffer.inventory_name(), "COROUTINE_ACTIVATION_BUFFER");
    assert_eq!(RuntimeRootKind::FixedStrings.inventory_name(), "FIXED_STRINGS");
}

#[test]
fn positions_follow_inventory_order() {
    for p in 0..23usize {
        let kind = RuntimeRootKind::from_position(p);
        assert_eq!(kind.position(), p);
    }
    assert!(RuntimeRootKind::CollectorExplicitRoot < RuntimeRootKind::FixedStrings);
}

#[test]
fn counts_accumulate_per_kind_and_list_in_inventory_order() {
    let mut counts = RootEdgeCounts::new();
    assert_eq!(counts.root_edge_count(RuntimeRootKind::MainStack), 0);
    counts.increment(RuntimeRootKind::MainStack, 1);
    counts.increment(RuntimeRootKind::GlobalTable, 1);
    counts.increment(RuntimeRootKind::MainStack, 2);
    counts.increment(RuntimeRootKind::LastError, 0);
    assert_eq!(counts.root_edge_count(RuntimeRootKind::MainStack), 3);
    assert_eq!(counts.root_edge_count(RuntimeRootKind::GlobalTable), 1);
    assert_eq!(counts.root_edge_count(RuntimeRootKind::Registry), 0);
    assert_eq!(
        counts.root_edges(),
        vec![
            RootEdgeCount { kind: RuntimeRootKind::GlobalTable, edges: 1 },
            RootEdgeCount { kind: RuntimeRootKind::MainStack, edges: 3 },
            RootEdgeCount { kind: RuntimeRootKind::LastError, edges: 0 },
        ]
    );
}
