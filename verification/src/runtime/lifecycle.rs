//! Lifecycle of a runtime: its phases, the admission of executions, and the
//! decisions of closing. Also the small value types that the VM hands back to
//! the runtime.

use vstd::prelude::*;

verus! {

/// Lifecycle phase of a runtime.
#[derive(Clone, Copy, Debug, PartialEq, Eq, Structural)]
pub enum RuntimePhase {
    /// The runtime accepts execution borrows.
    Running,
    /// Logical close has started; no new execution is accepted.
    Closing,
    /// The main state has been destroyed.
    Closed,
}

/// How a protected execution of Lua code ended.
#[derive(Clone, Copy, Debug, PartialEq, Eq, Structural)]
pub enum ExecResult {
    Returned,
    Yielded,
}

/// Execution status of a Lua thread.
#[derive(Clone, Copy, Debug, PartialEq, Eq, Structural)]
pub enum ThreadStatus {
    /// No error (status code 0).
    Normal,
    Yield,
    ErrRun,
    ErrSyntax,
    ErrMem,
    ErrErr,
}

impl ThreadStatus {
    /// The status code of the reference interpreter's C API.
    pub open spec fn code_of(self) -> u8 {
        match self {
            ThreadStatus::Normal => 0,
            ThreadStatus::Yield => 1,
            ThreadStatus::ErrRun => 2,
            ThreadStatus::ErrSyntax => 3,
            ThreadStatus::ErrMem => 4,
            ThreadStatus::ErrErr => 5,
        }
    }

    /// The status code of the reference interpreter's C API.
    pub fn code(self) -> (r: u8)
        ensures
            r == self.code_of(),
    {
        match self {
            ThreadStatus::Normal => 0,
            ThreadStatus::Yield => 1,
            ThreadStatus::ErrRun => 2,
            ThreadStatus::ErrSyntax => 3,
            ThreadStatus::ErrMem => 4,
            ThreadStatus::ErrErr => 5,
        }
    }
}

/// Identifier of one scoped runtime-native request. Identifiers are never
/// zero.
#[derive(Clone, Copy, Debug, PartialEq, Eq, Structural)]
pub struct NativeRequestId(u64);

impl NativeRequestId {
    /// The identifier's number.
    pub closed spec fn value(self) -> u64 {
        self.0
    }

    /// The identifier with number `value`.
    pub fn new(value: u64) -> (r: NativeRequestId)
        requires
            value != 0,
        ensures
            r.value() == value,
    {
        NativeRequestId(value)
    }

    /// The identifier's number.
    pub fn get(self) -> (r: u64)
        ensures
            r == self.value(),
    {
        self.0
    }
}

/// State-local work and debt observed during deterministic runtime shutdown.
#[derive(Clone, Copy, Debug, PartialEq, Eq, Structural)]
pub struct LuaStateShutdownReport {
    pub closed_open_upvalues: usize,
    pub rejected_open_upvalue_edges: usize,
    pub open_upvalue_cycles: usize,
    pub open_upvalue_owner_mismatches: usize,
    pub open_upvalue_stack_values_missing: usize,
}

impl LuaStateShutdownReport {
    /// Whether merging `other` into `self` keeps every count in range.
    pub open spec fn can_merge(self, other: LuaStateShutdownReport) -> bool {
        &&& self.closed_open_upvalues + other.closed_open_upvalues <= usize::MAX
        &&& self.rejected_open_upvalue_edges + other.rejected_open_upvalue_edges <= usize::MAX
        &&& self.open_upvalue_cycles + other.open_upvalue_cycles <= usize::MAX
        &&& self.open_upvalue_owner_mismatches + other.open_upvalue_owner_mismatches <= usize::MAX
        &&& self.open_upvalue_stack_values_missing + other.open_upvalue_stack_values_missing
            <= usize::MAX
    }

    /// The field-by-field sum of two reports.
    pub open spec fn sum(self, other: LuaStateShutdownReport) -> LuaStateShutdownReport {
        LuaStateShutdownReport {
            closed_open_upvalues: (self.closed_open_upvalues + other.closed_open_upvalues) as usize,
            rejected_open_upvalue_edges: (self.rejected_open_upvalue_edges
                + other.rejected_open_upvalue_edges) as usize,
            open_upvalue_cycles: (self.open_upvalue_cycles + other.open_upvalue_cycles) as usize,
            open_upvalue_owner_mismatches: (self.open_upvalue_owner_mismatches
                + other.open_upvalue_owner_mismatches) as usize,
            open_upvalue_stack_values_missing: (self.open_upvalue_stack_values_missing
                + other.open_upvalue_stack_values_missing) as usize,
        }
    }

    /// A report with every count zero.
    pub open spec fn zero() -> LuaStateShutdownReport {
        LuaStateShutdownReport {
            closed_open_upvalues: 0,
            rejected_open_upvalue_edges: 0,
            open_upvalue_cycles: 0,
            open_upvalue_owner_mismatches: 0,
            open_upvalue_stack_values_missing: 0,
        }
    }

    /// Add every count of `other` to this report.
    pub fn merge(&mut self, other: LuaStateShutdownReport)
        requires
            old(self).can_merge(other),
        ensures
            *final(self) == old(self).sum(other),
    {
        self.closed_open_upvalues = self.closed_open_upvalues + other.closed_open_upvalues;
        self.rejected_open_upvalue_edges = self.rejected_open_upvalue_edges
            + other.rejected_open_upvalue_edges;
        self.open_upvalue_cycles = self.open_upvalue_cycles + other.open_upvalue_cycles;
        self.open_upvalue_owner_mismatches = self.open_upvalue_owner_mismatches
            + other.open_upvalue_owner_mismatches;
        self.open_upvalue_stack_values_missing = self.open_upvalue_stack_values_missing
            + other.open_upvalue_stack_values_missing;
    }
}

impl Default for LuaStateShutdownReport {
    fn default() -> (r: LuaStateShutdownReport)
        ensures
            r == LuaStateShutdownReport::zero(),
    {
        LuaStateShutdownReport {
            closed_open_upvalues: 0,
            rejected_open_upvalue_edges: 0,
            open_upvalue_cycles: 0,
            open_upvalue_owner_mismatches: 0,
            open_upvalue_stack_values_missing: 0,
        }
    }
}

/// Merging reports does not depend on their grouping.
pub proof fn lemma_merge_associative(
    a: LuaStateShutdownReport,
    b: LuaStateShutdownReport,
    c: LuaStateShutdownReport,
)
    requires
        a.can_merge(b),
        a.sum(b).can_merge(c),
    ensures
        b.can_merge(c),
        a.can_merge(b.sum(c)),
        a.sum(b).sum(c) == a.sum(b.sum(c)),
{
}

/// Merging an all-zero report (the default report) changes nothing, and
/// merging a report into the all-zero one gives that report.
pub proof fn lemma_merge_zero(a: LuaStateShutdownReport)
    ensures
        a.can_merge(LuaStateShutdownReport::zero()),
        a.sum(LuaStateShutdownReport::zero()) == a,
        LuaStateShutdownReport::zero().can_merge(a),
        LuaStateShutdownReport::zero().sum(a) == a,
{
}

/// Merging does not depend on the order: whenever the counts fit, `a` merged
/// with `b` equals `b` merged with `a`.
pub proof fn lemma_merge_commutative(a: LuaStateShutdownReport, b: LuaStateShutdownReport)
    requires
        a.can_merge(b),
    ensures
        b.can_merge(a),
        a.sum(b) == b.sum(a),
{
}

/// Why the runtime refused an execution or a close.
#[derive(Clone, Copy, Debug, PartialEq, Eq, Structural)]
pub enum AccessRefusal {
    /// The operation was attempted from a thread other than the creator.
    WrongThread,
    /// Execution was requested outside the running phase.
    NotRunning { phase: RuntimePhase },
    /// An exclusive operation was requested while executions are active.
    ActiveExecutions { count: usize },
    /// A running runtime lost its main state.
    MainStateUnavailable,
}

/// What a close request does.
#[derive(Clone, Copy, Debug, PartialEq, Eq, Structural)]
pub enum CloseStep {
    /// The runtime is already closed: report again, change nothing.
    AlreadyClosed,
    /// Validate the state arena, then shut the contents down.
    Shutdown,
}

/// The lifecycle bookkeeping of a runtime: its phase, how many executions
/// hold it, and whether it still owns its main state. Its invariant `wf`: a
/// running runtime always owns its main state; only closing, or abandoning
/// the runtime when it is dropped, gives the main state up.
#[derive(Clone, Copy, Debug, PartialEq, Eq, Structural)]
pub struct RuntimeGate {
    pub phase: RuntimePhase,
    pub active_executions: usize,
    pub main_state_present: bool,
}

/// The outcome of asking `g`, from its owner thread or not, for the scoped
/// parts of one execution.
pub open spec fn parts_outcome(g: RuntimeGate, on_owner_thread: bool) -> Result<(), AccessRefusal> {
    if !on_owner_thread {
        Err(AccessRefusal::WrongThread)
    } else if g.phase != RuntimePhase::Running {
        Err(AccessRefusal::NotRunning { phase: g.phase })
    } else if !g.main_state_present {
        Err(AccessRefusal::MainStateUnavailable)
    } else {
        Ok(())
    }
}

/// The outcome of asking `g`, from its owner thread or not, for an exclusive
/// execution session.
pub open spec fn session_outcome(g: RuntimeGate, on_owner_thread: bool) -> Result<(), AccessRefusal> {
    if !on_owner_thread {
        Err(AccessRefusal::WrongThread)
    } else if g.phase != RuntimePhase::Running {
        Err(AccessRefusal::NotRunning { phase: g.phase })
    } else if !g.main_state_present {
        Err(AccessRefusal::MainStateUnavailable)
    } else if g.active_executions != 0 {
        Err(AccessRefusal::ActiveExecutions { count: g.active_executions })
    } else {
        Ok(())
    }
}

/// The outcome of asking `g`, from its owner thread or not, for a
/// stop-the-world pass over its roots (a mark-only trace or a full
/// collection): refused while any execution is active, which is checked
/// before the main state.
pub open spec fn stop_the_world_outcome(g: RuntimeGate, on_owner_thread: bool) -> Result<(), AccessRefusal> {
    if !on_owner_thread {
        Err(AccessRefusal::WrongThread)
    } else if g.phase != RuntimePhase::Running {
        Err(AccessRefusal::NotRunning { phase: g.phase })
    } else if g.active_executions != 0 {
        Err(AccessRefusal::ActiveExecutions { count: g.active_executions })
    } else if !g.main_state_present {
        Err(AccessRefusal::MainStateUnavailable)
    } else {
        Ok(())
    }
}

/// The outcome of asking `g`, from its owner thread or not, to close.
pub open spec fn close_outcome(g: RuntimeGate, on_owner_thread: bool) -> Result<CloseStep, AccessRefusal> {
    if !on_owner_thread {
        Err(AccessRefusal::WrongThread)
    } else if g.active_executions != 0 {
        Err(AccessRefusal::ActiveExecutions { count: g.active_executions })
    } else {
        match g.phase {
            RuntimePhase::Closed => Ok(CloseStep::AlreadyClosed),
            RuntimePhase::Closing => Err(AccessRefusal::NotRunning { phase: RuntimePhase::Closing }),
            RuntimePhase::Running => Ok(CloseStep::Shutdown),
        }
    }
}

impl RuntimeGate {
    /// A running runtime owns its main state.
    pub open spec fn wf(self) -> bool {
        self.phase == RuntimePhase::Running ==> self.main_state_present
    }

    /// A freshly created runtime: running, idle, owning its main state.
    pub fn new() -> (r: RuntimeGate)
        ensures
            r.wf(),
            r.phase == RuntimePhase::Running,
            r.active_executions == 0,
            r.main_state_present,
    {
        RuntimeGate { phase: RuntimePhase::Running, active_executions: 0, main_state_present: true }
    }

    /// The lifecycle phase.
    pub fn phase(&self) -> (r: RuntimePhase)
        ensures
            r == self.phase,
    {
        self.phase
    }

    /// How many executions currently hold the runtime.
    pub fn active_execution_count(&self) -> (r: usize)
        ensures
            r == self.active_executions,
    {
        self.active_executions
    }

    /// Admit one execution that borrows the main state: refused off the owner
    /// thread, outside the running phase or without a main state; otherwise
    /// counted.
    pub fn begin_parts(&mut self, on_owner_thread: bool) -> (r: Result<(), AccessRefusal>)
        requires
            old(self).wf(),
            old(self).active_executions < usize::MAX,
        ensures
            final(self).wf(),
            r == parts_outcome(*old(self), on_owner_thread),
            r is Ok ==> *final(self) == (RuntimeGate {
                active_executions: (old(self).active_executions + 1) as usize,
                ..*old(self)
            }),
            r is Err ==> *final(self) == *old(self),
    {
        if !on_owner_thread {
            return Err(AccessRefusal::WrongThread);
        }
        if self.phase != RuntimePhase::Running {
            return Err(AccessRefusal::NotRunning { phase: self.phase });
        }
        if !self.main_state_present {
            return Err(AccessRefusal::MainStateUnavailable);
        }
        self.active_executions = self.active_executions + 1;
        Ok(())
    }

    /// Admit an exclusive execution session: refused off the owner thread,
    /// outside the running phase, without a main state, or while any
    /// execution is active; otherwise counted as the one active execution.
    pub fn begin_session(&mut self, on_owner_thread: bool) -> (r: Result<(), AccessRefusal>)
        requires
            old(self).wf(),
        ensures
            final(self).wf(),
            r == session_outcome(*old(self), on_owner_thread),
            r is Ok ==> *final(self) == (RuntimeGate { active_executions: 1, ..*old(self) }),
            r is Err ==> *final(self) == *old(self),
    {
        if !on_owner_thread {
            return Err(AccessRefusal::WrongThread);
        }
        if self.phase != RuntimePhase::Running {
            return Err(AccessRefusal::NotRunning { phase: self.phase });
        }
        if !self.main_state_present {
            return Err(AccessRefusal::MainStateUnavailable);
        }
        if self.active_executions != 0 {
            return Err(AccessRefusal::ActiveExecutions { count: self.active_executions });
        }
        self.active_executions = 1;
        Ok(())
    }

    /// Admit a stop-the-world pass over the roots, which holds the runtime
    /// exclusively without counting as an execution.
    pub fn admit_stop_the_world(&self, on_owner_thread: bool) -> (r: Result<(), AccessRefusal>)
        ensures
            r == stop_the_world_outcome(*self, on_owner_thread),
    {
        if !on_owner_thread {
            return Err(AccessRefusal::WrongThread);
        }
        if self.phase != RuntimePhase::Running {
            return Err(AccessRefusal::NotRunning { phase: self.phase });
        }
        if self.active_executions != 0 {
            return Err(AccessRefusal::ActiveExecutions { count: self.active_executions });
        }
        if !self.main_state_present {
            return Err(AccessRefusal::MainStateUnavailable);
        }
        Ok(())
    }

    /// An admitted execution ends.
    pub fn end_execution(&mut self)
        requires
            old(self).wf(),
            old(self).active_executions > 0,
        ensures
            final(self).wf(),
            *final(self) == (RuntimeGate {
                active_executions: (old(self).active_executions - 1) as usize,
                ..*old(self)
            }),
    {
        self.active_executions = self.active_executions - 1;
    }

    /// Decide what a close request does: refused off the owner thread, while
    /// executions are active or while a close is under way; a closed runtime
    /// only reports again.
    pub fn close_step(&self, on_owner_thread: bool) -> (r: Result<CloseStep, AccessRefusal>)
        ensures
            r == close_outcome(*self, on_owner_thread),
    {
        if !on_owner_thread {
            return Err(AccessRefusal::WrongThread);
        }
        if self.active_executions != 0 {
            return Err(AccessRefusal::ActiveExecutions { count: self.active_executions });
        }
        match self.phase {
            RuntimePhase::Closed => Ok(CloseStep::AlreadyClosed),
            RuntimePhase::Closing => Err(AccessRefusal::NotRunning { phase: RuntimePhase::Closing }),
            RuntimePhase::Running => Ok(CloseStep::Shutdown),
        }
    }

    /// The arena was validated: the close has started and no execution is
    /// admitted from now on.
    pub fn enter_closing(&mut self)
        requires
            old(self).wf(),
            old(self).phase == RuntimePhase::Running,
        ensures
            final(self).wf(),
            *final(self) == (RuntimeGate { phase: RuntimePhase::Closing, ..*old(self) }),
    {
        self.phase = RuntimePhase::Closing;
    }

    /// The contents were shut down and the main state destroyed.
    pub fn finish_closing(&mut self)
        requires
            old(self).phase == RuntimePhase::Closing,
        ensures
            final(self).wf(),
            *final(self) == (RuntimeGate {
                phase: RuntimePhase::Closed,
                main_state_present: false,
                ..*old(self)
            }),
    {
        self.phase = RuntimePhase::Closed;
        self.main_state_present = false;
    }

    /// Whether dropping the runtime can use the ordinary close: it is not
    /// closed yet, it is dropped on its owner thread, and nothing is active.
    pub fn drop_closes_normally(&self, on_owner_thread: bool) -> (r: bool)
        ensures
            r == (self.phase != RuntimePhase::Closed && on_owner_thread && self.active_executions
                == 0),
    {
        self.phase != RuntimePhase::Closed && on_owner_thread && self.active_executions == 0
    }

    /// The fallback of dropping: the runtime is marked closed and gives up
    /// its main state without running the ordinary close.
    pub fn abandon(&mut self)
        ensures
            final(self).wf(),
            *final(self) == (RuntimeGate {
                phase: RuntimePhase::Closed,
                main_state_present: false,
                ..*old(self)
            }),
    {
        self.phase = RuntimePhase::Closed;
        self.main_state_present = false;
    }
}

/// What the first close shut down.
#[derive(Clone, Copy, Debug, PartialEq, Eq, Structural)]
pub struct RuntimeShutdownSummary {
    pub drained_coroutine_states: usize,
    pub state_shutdown: LuaStateShutdownReport,
    pub destroyed_objects: usize,
    pub destroyed_threads: usize,
    pub destroyed_fixed_objects: usize,
    pub pending_lua_finalizers_discarded: usize,
}

impl RuntimeShutdownSummary {
    /// A summary in which nothing was shut down.
    pub open spec fn zero() -> RuntimeShutdownSummary {
        RuntimeShutdownSummary {
            drained_coroutine_states: 0,
            state_shutdown: LuaStateShutdownReport::zero(),
            destroyed_objects: 0,
            destroyed_threads: 0,
            destroyed_fixed_objects: 0,
            pending_lua_finalizers_discarded: 0,
        }
    }
}

impl Default for RuntimeShutdownSummary {
    fn default() -> (r: RuntimeShutdownSummary)
        ensures
            r == RuntimeShutdownSummary::zero(),
    {
        RuntimeShutdownSummary {
            drained_coroutine_states: 0,
            state_shutdown: LuaStateShutdownReport::default(),
            destroyed_objects: 0,
            destroyed_threads: 0,
            destroyed_fixed_objects: 0,
            pending_lua_finalizers_discarded: 0,
        }
    }
}

/// What the collector, the string pool and the state arena still hold when
/// a close is reported.
#[derive(Clone, Copy, Debug, PartialEq, Eq, Structural)]
pub struct HeapRemainder {
    pub objects: usize,
    pub roots: usize,
    pub interned_strings: usize,
    pub estimated_bytes: usize,
    pub coroutine_states: usize,
    pub collector_queue_entries: usize,
}

/// The result of closing a runtime. Close does not run Lua `__gc` callbacks
/// or library resource hooks; the two debt flags say so.
#[derive(Clone, Copy, Debug, PartialEq, Eq, Structural)]
pub struct RuntimeCloseReport {
    pub runtime_id: u64,
    pub already_closed: bool,
    pub heap_reclamation_deferred: bool,
    pub remaining_objects: usize,
    pub remaining_roots: usize,
    pub remaining_interned_strings: usize,
    pub remaining_estimated_bytes: usize,
    pub remaining_coroutine_states: usize,
    pub remaining_collector_queue_entries: usize,
    pub drained_coroutine_states: usize,
    pub closed_open_upvalues: usize,
    pub rejected_open_upvalue_edges: usize,
    pub open_upvalue_owner_mismatches: usize,
    pub open_upvalue_stack_values_missing: usize,
    pub destroyed_objects: usize,
    pub destroyed_threads: usize,
    pub destroyed_fixed_objects: usize,
    pub pending_lua_finalizers_discarded: usize,
    pub lua_gc_callback_debt: bool,
    pub io_resource_drain_debt: bool,
}

/// Reclamation is deferred while any object, root, interned string,
/// coroutine state or collector queue entry remains.
pub open spec fn reclamation_deferred(h: HeapRemainder) -> bool {
    h.objects != 0 || h.roots != 0 || h.interned_strings != 0 || h.coroutine_states != 0
        || h.collector_queue_entries != 0
}

/// The report of a close of runtime `runtime_id`, from what remains and from
/// the summary of the first close (all zero when there was none).
pub open spec fn close_report_of(
    runtime_id: u64,
    already_closed: bool,
    h: HeapRemainder,
    summary: Option<RuntimeShutdownSummary>,
) -> RuntimeCloseReport {
    let s = match summary {
        Some(s) => s,
        None => RuntimeShutdownSummary::zero(),
    };
    RuntimeCloseReport {
        runtime_id,
        already_closed,
        heap_reclamation_deferred: reclamation_deferred(h),
        remaining_objects: h.objects,
        remaining_roots: h.roots,
        remaining_interned_strings: h.interned_strings,
        remaining_estimated_bytes: h.estimated_bytes,
        remaining_coroutine_states: h.coroutine_states,
        remaining_collector_queue_entries: h.collector_queue_entries,
        drained_coroutine_states: s.drained_coroutine_states,
        closed_open_upvalues: s.state_shutdown.closed_open_upvalues,
        rejected_open_upvalue_edges: s.state_shutdown.rejected_open_upvalue_edges,
        open_upvalue_owner_mismatches: s.state_shutdown.open_upvalue_owner_mismatches,
        open_upvalue_stack_values_missing: s.state_shutdown.open_upvalue_stack_values_missing,
        destroyed_objects: s.destroyed_objects,
        destroyed_threads: s.destroyed_threads,
        destroyed_fixed_objects: s.destroyed_fixed_objects,
        pending_lua_finalizers_discarded: s.pending_lua_finalizers_discarded,
        lua_gc_callback_debt: true,
        io_resource_drain_debt: true,
    }
}

/// Assemble the report of a close.
pub fn close_report(
    runtime_id: u64,
    already_closed: bool,
    remainder: HeapRemainder,
    summary: Option<RuntimeShutdownSummary>,
) -> (r: RuntimeCloseReport)
    ensures
        r == close_report_of(runtime_id, already_closed, remainder, summary),
{
    let s = match summary {
        Some(s) => s,
        None => RuntimeShutdownSummary::default(),
    };
    RuntimeCloseReport {
        runtime_id,
        already_closed,
        heap_reclamation_deferred: remainder.objects != 0 || remainder.roots != 0
            || remainder.interned_strings != 0 || remainder.coroutine_states != 0
            || remainder.collector_queue_entries != 0,
        remaining_objects: remainder.objects,
        remaining_roots: remainder.roots,
        remaining_interned_strings: remainder.interned_strings,
        remaining_estimated_bytes: remainder.estimated_bytes,
        remaining_coroutine_states: remainder.coroutine_states,
        remaining_collector_queue_entries: remainder.collector_queue_entries,
        drained_coroutine_states: s.drained_coroutine_states,
        closed_open_upvalues: s.state_shutdown.closed_open_upvalues,
        rejected_open_upvalue_edges: s.state_shutdown.rejected_open_upvalue_edges,
        open_upvalue_owner_mismatches: s.state_shutdown.open_upvalue_owner_mismatches,
        open_upvalue_stack_values_missing: s.state_shutdown.open_upvalue_stack_values_missing,
        destroyed_objects: s.destroyed_objects,
        destroyed_threads: s.destroyed_threads,
        destroyed_fixed_objects: s.destroyed_fixed_objects,
        pending_lua_finalizers_discarded: s.pending_lua_finalizers_discarded,
        lua_gc_callback_debt: true,
        io_resource_drain_debt: true,
    }
}

/// Reporting a close again with the same remainder and summary gives the
/// same report, marked as already closed, with the same counts of what the
/// first close shut down.
pub proof fn lemma_repeated_close_reports_same_counts(
    runtime_id: u64,
    h: HeapRemainder,
    summary: Option<RuntimeShutdownSummary>,
)
    ensures
        close_report_of(runtime_id, true, h, summary) == (RuntimeCloseReport {
            already_closed: true,
            ..close_report_of(runtime_id, false, h, summary)
        }),
        !reclamation_deferred(h) ==> !close_report_of(runtime_id, true, h, summary).heap_reclamation_deferred,
{
}

/// Once a close has started, no execution and no stop-the-world pass is
/// admitted from any thread (on the owner thread an execution's refusal names
/// the phase), and a later close either reports the runtime as closed or is
/// refused.
pub proof fn lemma_no_execution_after_close_starts(g: RuntimeGate, on_owner_thread: bool)
    requires
        g.phase != RuntimePhase::Running,
    ensures
        parts_outcome(g, on_owner_thread) is Err,
        session_outcome(g, on_owner_thread) is Err,
        on_owner_thread ==> parts_outcome(g, on_owner_thread) == Err::<(), AccessRefusal>(
            AccessRefusal::NotRunning { phase: g.phase },
        ),
        on_owner_thread ==> session_outcome(g, on_owner_thread) == Err::<(), AccessRefusal>(
            AccessRefusal::NotRunning { phase: g.phase },
        ),
        stop_the_world_outcome(g, on_owner_thread) is Err,
        close_outcome(g, on_owner_thread) != Ok::<CloseStep, AccessRefusal>(CloseStep::Shutdown),
{
}

/// Close is idempotent: an idle closed runtime reports itself closed, however
/// often its owner thread asks.
pub proof fn lemma_close_idempotent(g: RuntimeGate)
    requires
        g.phase == RuntimePhase::Closed,
        g.active_executions == 0,
    ensures
        close_outcome(g, true) == Ok::<CloseStep, AccessRefusal>(CloseStep::AlreadyClosed),
{
}

/// An execution admitted on an idle running runtime is counted as the one
/// active execution; when it ends the runtime is as it was, and a new
/// execution or session is admitted again. The same holds of an exclusive
/// session.
pub proof fn lemma_session_balanced(g: RuntimeGate)
    requires
        g.wf(),
        g.phase == RuntimePhase::Running,
        g.active_executions == 0,
    ensures
        parts_outcome(g, true) is Ok,
        session_outcome(g, true) is Ok,
        ({
            let held = RuntimeGate { active_executions: (g.active_executions + 1) as usize, ..g };
            let released = RuntimeGate { active_executions: (held.active_executions - 1) as usize, ..held };
            &&& held.active_executions == 1
            &&& held.wf()
            &&& session_outcome(held, true) == Err::<(), AccessRefusal>(
                AccessRefusal::ActiveExecutions { count: 1 },
            )
            &&& close_outcome(held, true) == Err::<CloseStep, AccessRefusal>(
                AccessRefusal::ActiveExecutions { count: 1 },
            )
            &&& released == g
            &&& parts_outcome(released, true) is Ok
            &&& session_outcome(released, true) is Ok
        }),
{
}

/// Closing a closed runtime again: the close only reports (the runtime stays
/// closed and no execution is admitted), and the report is marked as a
/// repeat, carries every count of what the first close shut down, and, with
/// nothing left of the heap, reports nothing remaining and no deferred
/// reclamation.
pub proof fn lemma_second_close_reports_first(
    g: RuntimeGate,
    runtime_id: u64,
    first_remainder: HeapRemainder,
    summary: RuntimeShutdownSummary,
)
    requires
        g.phase == RuntimePhase::Closed,
        g.active_executions == 0,
    ensures
        close_outcome(g, true) == Ok::<CloseStep, AccessRefusal>(CloseStep::AlreadyClosed),
        parts_outcome(g, true) == Err::<(), AccessRefusal>(
            AccessRefusal::NotRunning { phase: RuntimePhase::Closed },
        ),
        session_outcome(g, true) == Err::<(), AccessRefusal>(
            AccessRefusal::NotRunning { phase: RuntimePhase::Closed },
        ),
        ({
            let empty = HeapRemainder {
                objects: 0,
                roots: 0,
                interned_strings: 0,
                estimated_bytes: 0,
                coroutine_states: 0,
                collector_queue_entries: 0,
            };
            let first = close_report_of(runtime_id, false, first_remainder, Some(summary));
            let again = close_report_of(runtime_id, true, empty, Some(summary));
            &&& again.already_closed
            &&& again.runtime_id == first.runtime_id
            &&& again.destroyed_objects == first.destroyed_objects
            &&& again.destroyed_threads == first.destroyed_threads
            &&& again.destroyed_fixed_objects == first.destroyed_fixed_objects
            &&& again.drained_coroutine_states == first.drained_coroutine_states
            &&& again.closed_open_upvalues == first.closed_open_upvalues
            &&& again.rejected_open_upvalue_edges == first.rejected_open_upvalue_edges
            &&& again.pending_lua_finalizers_discarded == first.pending_lua_finalizers_discarded
            &&& again.remaining_objects == 0
            &&& again.remaining_estimated_bytes == 0
            &&& again.remaining_coroutine_states == 0
            &&& !again.heap_reclamation_deferred
        }),
{
}

} // verus!
