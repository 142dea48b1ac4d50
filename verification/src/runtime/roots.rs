//! Inventory-aligned kinds of runtime roots, and the per-kind edge counts that
//! a mark-only root traversal reports.

use vstd::prelude::*;

verus! {

/// Number of runtime root kinds.
pub const ROOT_KIND_COUNT: usize = 23;

/// Inventory-aligned root kinds covered by mark-only tracing, in inventory
/// order.
#[derive(Clone, Copy, Debug, PartialEq, Eq, Structural, Hash, PartialOrd, Ord)]
pub enum RuntimeRootKind {
    /// Roots explicitly registered with the collector.
    CollectorExplicitRoot,
    /// Runtime and state global-table handles.
    GlobalTable,
    /// Per-state thread and chunk environments.
    GlobalEnvironments,
    /// Runtime registry and per-state registry handles.
    Registry,
    /// Installed nil/boolean/number metatables.
    PrimitiveMetatables,
    /// Runtime-owned main state arena entry.
    MainStateEntry,
    /// The current or running thread recorded by a reachable state.
    RunningThread,
    /// Main-state active stack window.
    MainStack,
    /// Reachable coroutine state edge or active stack window.
    CoroutineStack,
    /// Function slot of an active call frame.
    CallFunction,
    /// Function prototype stored by an active call frame.
    ActiveProto,
    /// Prototype retained by one-shot debug line suppression state.
    DebugProto,
    /// Vararg snapshot of an active call frame.
    CallVarargs,
    /// Open-upvalue list head owned by a reachable state.
    OpenUpvalues,
    /// Caller thread edge traced by the object graph.
    ThreadCallerChain,
    /// Debug hook value owned by a reachable state.
    DebugHook,
    /// Values retained across coroutine yield.
    YieldedValues,
    /// Last error value retained by a state.
    LastError,
    /// Runtime-owned deferred coroutine requests, snapshots, and responses.
    CoroutineActivationBuffer,
    /// Collector-owned userdata awaiting protected finalizer delivery.
    PendingFinalizers,
    /// Lexical object-publication roots.
    TemporaryProtectedRoots,
    /// Lexical pending state handles not yet reachable through a thread.
    TemporaryStateRoots,
    /// Runtime-owned fixed metamethod and emergency strings.
    FixedStrings,
}

impl RuntimeRootKind {
    /// Position of the kind in inventory order (the order of the enum).
    pub open spec fn rank(self) -> int {
        match self {
            RuntimeRootKind::CollectorExplicitRoot => 0,
            RuntimeRootKind::GlobalTable => 1,
            RuntimeRootKind::GlobalEnvironments => 2,
            RuntimeRootKind::Registry => 3,
            RuntimeRootKind::PrimitiveMetatables => 4,
            RuntimeRootKind::MainStateEntry => 5,
            RuntimeRootKind::RunningThread => 6,
            RuntimeRootKind::MainStack => 7,
            RuntimeRootKind::CoroutineStack => 8,
            RuntimeRootKind::CallFunction => 9,
            RuntimeRootKind::ActiveProto => 10,
            RuntimeRootKind::DebugProto => 11,
            RuntimeRootKind::CallVarargs => 12,
            RuntimeRootKind::OpenUpvalues => 13,
            RuntimeRootKind::ThreadCallerChain => 14,
            RuntimeRootKind::DebugHook => 15,
            RuntimeRootKind::YieldedValues => 16,
            RuntimeRootKind::LastError => 17,
            RuntimeRootKind::CoroutineActivationBuffer => 18,
            RuntimeRootKind::PendingFinalizers => 19,
            RuntimeRootKind::TemporaryProtectedRoots => 20,
            RuntimeRootKind::TemporaryStateRoots => 21,
            RuntimeRootKind::FixedStrings => 22,
        }
    }

    /// Name of the kind in the root inventory.
    pub open spec fn name(self) -> Seq<char> {
        match self {
            RuntimeRootKind::CollectorExplicitRoot => "COLLECTOR_EXPLICIT_ROOT"@,
            RuntimeRootKind::GlobalTable => "GLOBAL_TABLE"@,
            RuntimeRootKind::GlobalEnvironments => "GLOBAL_ENVIRONMENTS"@,
            RuntimeRootKind::Registry => "REGISTRY"@,
            RuntimeRootKind::PrimitiveMetatables => "PRIMITIVE_METATABLES"@,
            RuntimeRootKind::MainStateEntry => "MAIN_STATE_ENTRY"@,
            RuntimeRootKind::RunningThread => "RUNNING_THREAD"@,
            RuntimeRootKind::MainStack => "MAIN_STACK"@,
            RuntimeRootKind::CoroutineStack => "COROUTINE_STACK"@,
            RuntimeRootKind::CallFunction => "CALL_FUNCTION"@,
            RuntimeRootKind::ActiveProto => "ACTIVE_PROTO"@,
            RuntimeRootKind::DebugProto => "DEBUG_PROTO"@,
            RuntimeRootKind::CallVarargs => "CALL_VARARGS"@,
            RuntimeRootKind::OpenUpvalues => "OPEN_UPVALUES"@,
            RuntimeRootKind::ThreadCallerChain => "THREAD_CALLER_CHAIN"@,
            RuntimeRootKind::DebugHook => "DEBUG_HOOK"@,
            RuntimeRootKind::YieldedValues => "YIELDED_VALUES"@,
            RuntimeRootKind::LastError => "LAST_ERROR"@,
            RuntimeRootKind::CoroutineActivationBuffer => "COROUTINE_ACTIVATION_BUFFER"@,
            RuntimeRootKind::PendingFinalizers => "PENDING_FINALIZERS"@,
            RuntimeRootKind::TemporaryProtectedRoots => "TEMPORARY_PROTECTED_ROOTS"@,
            RuntimeRootKind::TemporaryStateRoots => "TEMPORARY_STATE_ROOTS"@,
            RuntimeRootKind::FixedStrings => "FIXED_STRINGS"@,
        }
    }

    /// The exact name the root inventory uses for this kind.
    pub fn inventory_name(self) -> (r: &'static str)
        ensures
            r@ == self.name(),
    {
        match self {
            RuntimeRootKind::CollectorExplicitRoot => "COLLECTOR_EXPLICIT_ROOT",
            RuntimeRootKind::GlobalTable => "GLOBAL_TABLE",
            RuntimeRootKind::GlobalEnvironments => "GLOBAL_ENVIRONMENTS",
            RuntimeRootKind::Registry => "REGISTRY",
            RuntimeRootKind::PrimitiveMetatables => "PRIMITIVE_METATABLES",
            RuntimeRootKind::MainStateEntry => "MAIN_STATE_ENTRY",
            RuntimeRootKind::RunningThread => "RUNNING_THREAD",
            RuntimeRootKind::MainStack => "MAIN_STACK",
            RuntimeRootKind::CoroutineStack => "COROUTINE_STACK",
            RuntimeRootKind::CallFunction => "CALL_FUNCTION",
            RuntimeRootKind::ActiveProto => "ACTIVE_PROTO",
            RuntimeRootKind::DebugProto => "DEBUG_PROTO",
            RuntimeRootKind::CallVarargs => "CALL_VARARGS",
            RuntimeRootKind::OpenUpvalues => "OPEN_UPVALUES",
            RuntimeRootKind::ThreadCallerChain => "THREAD_CALLER_CHAIN",
            RuntimeRootKind::DebugHook => "DEBUG_HOOK",
            RuntimeRootKind::YieldedValues => "YIELDED_VALUES",
            RuntimeRootKind::LastError => "LAST_ERROR",
            RuntimeRootKind::CoroutineActivationBuffer => "COROUTINE_ACTIVATION_BUFFER",
            RuntimeRootKind::PendingFinalizers => "PENDING_FINALIZERS",
            RuntimeRootKind::TemporaryProtectedRoots => "TEMPORARY_PROTECTED_ROOTS",
            RuntimeRootKind::TemporaryStateRoots => "TEMPORARY_STATE_ROOTS",
            RuntimeRootKind::FixedStrings => "FIXED_STRINGS",
        }
    }

    /// Position of the kind in inventory order.
    pub fn position(self) -> (r: usize)
        ensures
            r == self.rank(),
    {
        match self {
            RuntimeRootKind::CollectorExplicitRoot => 0,
            RuntimeRootKind::GlobalTable => 1,
            RuntimeRootKind::GlobalEnvironments => 2,
            RuntimeRootKind::Registry => 3,
            RuntimeRootKind::PrimitiveMetatables => 4,
            RuntimeRootKind::MainStateEntry => 5,
            RuntimeRootKind::RunningThread => 6,
            RuntimeRootKind::MainStack => 7,
            RuntimeRootKind::CoroutineStack => 8,
            RuntimeRootKind::CallFunction => 9,
            RuntimeRootKind::ActiveProto => 10,
            RuntimeRootKind::DebugProto => 11,
            RuntimeRootKind::CallVarargs => 12,
            RuntimeRootKind::OpenUpvalues => 13,
            RuntimeRootKind::ThreadCallerChain => 14,
            RuntimeRootKind::DebugHook => 15,
            RuntimeRootKind::YieldedValues => 16,
            RuntimeRootKind::LastError => 17,
            RuntimeRootKind::CoroutineActivationBuffer => 18,
            RuntimeRootKind::PendingFinalizers => 19,
            RuntimeRootKind::TemporaryProtectedRoots => 20,
            RuntimeRootKind::TemporaryStateRoots => 21,
            RuntimeRootKind::FixedStrings => 22,
        }
    }

    /// The kind at inventory position `rank`.
    pub fn from_position(rank: usize) -> (r: RuntimeRootKind)
        requires
            rank < ROOT_KIND_COUNT,
        ensures
            r.rank() == rank,
    {
        if rank == 0 {
            RuntimeRootKind::CollectorExplicitRoot
        } else if rank == 1 {
            RuntimeRootKind::GlobalTable
        } else if rank == 2 {
            RuntimeRootKind::GlobalEnvironments
        } else if rank == 3 {
            RuntimeRootKind::Registry
        } else if rank == 4 {
            RuntimeRootKind::PrimitiveMetatables
        } else if rank == 5 {
            RuntimeRootKind::MainStateEntry
        } else if rank == 6 {
            RuntimeRootKind::RunningThread
        } else if rank == 7 {
            RuntimeRootKind::MainStack
        } else if rank == 8 {
            RuntimeRootKind::CoroutineStack
        } else if rank == 9 {
            RuntimeRootKind::CallFunction
        } else if rank == 10 {
            RuntimeRootKind::ActiveProto
        } else if rank == 11 {
            RuntimeRootKind::DebugProto
        } else if rank == 12 {
            RuntimeRootKind::CallVarargs
        } else if rank == 13 {
            RuntimeRootKind::OpenUpvalues
        } else if rank == 14 {
            RuntimeRootKind::ThreadCallerChain
        } else if rank == 15 {
            RuntimeRootKind::DebugHook
        } else if rank == 16 {
            RuntimeRootKind::YieldedValues
        } else if rank == 17 {
            RuntimeRootKind::LastError
        } else if rank == 18 {
            RuntimeRootKind::CoroutineActivationBuffer
        } else if rank == 19 {
            RuntimeRootKind::PendingFinalizers
        } else if rank == 20 {
            RuntimeRootKind::TemporaryProtectedRoots
        } else if rank == 21 {
            RuntimeRootKind::TemporaryStateRoots
        } else {
            RuntimeRootKind::FixedStrings
        }
    }
}

/// Two kinds with the same rank are the same kind.
pub proof fn lemma_rank_injective(a: RuntimeRootKind, b: RuntimeRootKind)
    ensures
        a.rank() == b.rank() <==> a == b,
        0 <= a.rank() < ROOT_KIND_COUNT,
{
}

/// Unsafe ownership gaps that mark-only diagnostics report but never
/// dereference.
#[derive(Clone, Copy, Debug, PartialEq, Eq, Structural, PartialOrd, Ord)]
pub enum UnsafeTraceGapKind {
    /// A state's logical top exceeded its stack's initialized window.
    StackWindowOutOfBounds {
        /// The state's logical top.
        top: usize,
        /// Initialized stack size.
        available: usize,
    },
    /// The current frame index named a frame beyond the call stack.
    ActiveCallStackOutOfBounds {
        /// Requested active frame index.
        current_ci: usize,
        /// Number of allocated frames.
        available: usize,
    },
    /// An active frame's function index did not name an initialized stack
    /// slot.
    CallFunctionOutOfBounds {
        /// Active frame index.
        frame: usize,
        /// Function stack index.
        function_index: usize,
    },
}

/// Number of scanned edges attributed to one root kind.
#[derive(Clone, Copy, Debug, PartialEq, Eq, Structural)]
pub struct RootEdgeCount {
    /// Inventory-aligned kind.
    pub kind: RuntimeRootKind,
    /// Number of root edges scanned. Duplicate object identities still count
    /// as separate owner edges.
    pub edges: usize,
}

/// Edge counts per root kind, accumulated during a traversal. A kind is
/// recorded once it has been counted, even by zero edges.
#[derive(Clone, Debug)]
pub struct RootEdgeCounts {
    counts: Vec<Option<usize>>,
}

impl RootEdgeCounts {
    /// The count recorded for each kind, by rank.
    pub closed spec fn slots(self) -> Seq<Option<usize>> {
        self.counts@
    }

    /// One slot per kind.
    pub open spec fn wf(self) -> bool {
        self.slots().len() == ROOT_KIND_COUNT
    }

    /// Whether `kind` has been counted.
    pub open spec fn recorded(self, kind: RuntimeRootKind) -> bool {
        self.slots()[kind.rank()] is Some
    }

    /// Edges counted for `kind` (zero when it was never counted).
    pub open spec fn count(self, kind: RuntimeRootKind) -> nat {
        match self.slots()[kind.rank()] {
            Some(n) => n as nat,
            None => 0,
        }
    }

    /// No kind counted yet.
    pub fn new() -> (r: RootEdgeCounts)
        ensures
            r.wf(),
            forall|k: RuntimeRootKind| !r.recorded(k),
            r.slots() == Seq::new(ROOT_KIND_COUNT as nat, |i: int| None::<usize>),
    {
        let mut counts: Vec<Option<usize>> = Vec::new();
        let mut i: usize = 0;
        while i < ROOT_KIND_COUNT
            invariant
                i <= ROOT_KIND_COUNT,
                counts@.len() == i,
                forall|j: int| 0 <= j < i ==> counts@[j] is None,
            decreases ROOT_KIND_COUNT - i,
        {
            counts.push(None);
            i += 1;
        }
        proof {
            assert(counts@ =~= Seq::new(ROOT_KIND_COUNT as nat, |i: int| None::<usize>));
        }
        RootEdgeCounts { counts }
    }

    /// Count `count` more edges for `kind`.
    pub fn increment(&mut self, kind: RuntimeRootKind, count: usize)
        requires
            old(self).wf(),
            old(self).count(kind) + count <= usize::MAX,
        ensures
            final(self).wf(),
            final(self).recorded(kind),
            final(self).count(kind) == old(self).count(kind) + count,
            final(self).slots() == old(self).slots().update(
                kind.rank(),
                Some((old(self).count(kind) + count) as usize),
            ),
            forall|k: RuntimeRootKind|
                k != kind ==> final(self).recorded(k) == old(self).recorded(k) && final(self).count(k)
                    == old(self).count(k),
    {
        let p = kind.position();
        let current = match self.counts[p] {
            Some(n) => n,
            None => 0,
        };
        self.counts.set(p, Some(current + count));
        proof {
            assert forall|k: RuntimeRootKind| k != kind implies final(self).slots()[k.rank()]
                == old(self).slots()[k.rank()] by {
                lemma_rank_injective(k, kind);
            }
        }
    }

    /// The edges counted for `kind`, or zero.
    pub fn root_edge_count(&self, kind: RuntimeRootKind) -> (r: usize)
        requires
            self.wf(),
        ensures
            r == self.count(kind),
    {
        proof {
            lemma_rank_injective(kind, kind);
        }
        match self.counts[kind.position()] {
            Some(n) => n,
            None => 0,
        }
    }

    /// The recorded counts, one entry per recorded kind, in inventory order.
    pub fn root_edges(&self) -> (r: Vec<RootEdgeCount>)
        requires
            self.wf(),
        ensures
            forall|i: int, j: int| 0 <= i < j < r@.len() ==> r@[i].kind.rank() < r@[j].kind.rank(),
            forall|i: int|
                0 <= i < r@.len() ==> self.recorded(#[trigger] r@[i].kind) && r@[i].edges
                    == self.count(r@[i].kind),
            forall|k: RuntimeRootKind|
                self.recorded(k) ==> exists|i: int| 0 <= i < r@.len() && #[trigger] r@[i].kind == k,
    {
        let mut out: Vec<RootEdgeCount> = Vec::new();
        let mut p: usize = 0;
        while p < ROOT_KIND_COUNT
            invariant
                self.wf(),
                p <= ROOT_KIND_COUNT,
                forall|i: int, j: int|
                    0 <= i < j < out@.len() ==> out@[i].kind.rank() < out@[j].kind.rank(),
                forall|i: int| 0 <= i < out@.len() ==> out@[i].kind.rank() < p,
                forall|i: int|
                    0 <= i < out@.len() ==> self.recorded(#[trigger] out@[i].kind) && out@[i].edges
                        == self.count(out@[i].kind),
                forall|k: RuntimeRootKind|
                    self.recorded(k) && k.rank() < p ==> exists|i: int|
                        0 <= i < out@.len() && #[trigger] out@[i].kind == k,
            decreases ROOT_KIND_COUNT - p,
        {
            let ghost before = out@;
            let kind = RuntimeRootKind::from_position(p);
            match self.counts[p] {
                Some(n) => {
                    out.push(RootEdgeCount { kind, edges: n });
                    proof {
                        assert(out@[out@.len() - 1].kind == kind);
                    }
                },
                None => {},
            }
            proof {
                assert forall|k: RuntimeRootKind| self.recorded(k) && k.rank() < p + 1 implies exists|i: int|
                    0 <= i < out@.len() && #[trigger] out@[i].kind == k by {
                    lemma_rank_injective(k, kind);
                    if k.rank() == p {
                        assert(out@[out@.len() - 1].kind == k);
                    } else {
                        let i = choose|i: int| 0 <= i < before.len() && #[trigger] before[i].kind == k;
                        assert(out@[i] == before[i]);
                    }
                }
            }
            p += 1;
        }
        out
    }
}

} // verus!
