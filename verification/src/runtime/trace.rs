//! Bookkeeping of a root trace: which state handles are still to be visited,
//! what each visit found, and the report, whose lists are sorted by the
//! derived order of their items. A mark-only trace makes a single pass; an
//! incremental cycle seeds the roots again at its atomic boundary, may check
//! a state more than once, and reports each entry once.
//!
//! The order of an item is given by an integer key compared
//! lexicographically, field by field in declaration order, with an enum's
//! variant index before its fields and `None` before `Some`.

use vstd::prelude::*;
use vstd::seq_lib::to_multiset_build;
use vstd::seq_lib::to_multiset_insert;
use std::collections::VecDeque;
use crate::state_arena::{ArenaModel, StateArena, StateHandle, StateResolveError};
use super::roots::{RootEdgeCount, RootEdgeCounts, RuntimeRootKind, UnsafeTraceGapKind, ROOT_KIND_COUNT};

verus! {

/// Lexicographic order on integer keys; a proper prefix orders first.
pub open spec fn key_lt(a: Seq<int>, b: Seq<int>) -> bool
    decreases a.len(),
{
    if a.len() == 0 {
        b.len() > 0
    } else if b.len() == 0 {
        false
    } else if a[0] < b[0] {
        true
    } else if a[0] > b[0] {
        false
    } else {
        key_lt(a.drop_first(), b.drop_first())
    }
}

/// `x` followed by `s`.
pub open spec fn cons(x: int, s: Seq<int>) -> Seq<int> {
    seq![x] + s
}

proof fn lemma_key_lt_cons(x: int, s: Seq<int>, y: int, t: Seq<int>)
    ensures
        key_lt(cons(x, s), cons(y, t)) == (x < y || (x == y && key_lt(s, t))),
{
    assert(cons(x, s).drop_first() =~= s);
    assert(cons(y, t).drop_first() =~= t);
}

/// Comparing keys with prefixes of equal length compares the prefixes first.
proof fn lemma_key_lt_concat(p: Seq<int>, s: Seq<int>, q: Seq<int>, t: Seq<int>)
    requires
        p.len() == q.len(),
    ensures
        key_lt(p + s, q + t) == (key_lt(p, q) || (p == q && key_lt(s, t))),
    decreases p.len(),
{
    if p.len() > 0 {
        assert((p + s).drop_first() =~= p.drop_first() + s);
        assert((q + t).drop_first() =~= q.drop_first() + t);
        assert((p + s)[0] == p[0]);
        assert((q + t)[0] == q[0]);
        lemma_key_lt_concat(p.drop_first(), s, q.drop_first(), t);
        if p[0] == q[0] && p.drop_first() == q.drop_first() {
            assert(p =~= seq![p[0]] + p.drop_first());
            assert(q =~= seq![q[0]] + q.drop_first());
        }
        if p == q {
            assert(p.drop_first() == q.drop_first());
        }
    } else {
        assert(p + s =~= s);
        assert(q + t =~= t);
        assert(p =~= q);
    }
}

/// No key orders before itself.
pub proof fn lemma_key_lt_irreflexive(a: Seq<int>)
    ensures
        !key_lt(a, a),
    decreases a.len(),
{
    if a.len() > 0 {
        lemma_key_lt_irreflexive(a.drop_first());
    }
}

/// The key order is transitive.
pub proof fn lemma_key_lt_transitive(a: Seq<int>, b: Seq<int>, c: Seq<int>)
    requires
        key_lt(a, b),
        key_lt(b, c),
    ensures
        key_lt(a, c),
    decreases a.len(),
{
    if a.len() > 0 && b.len() > 0 && c.len() > 0 && a[0] == b[0] && b[0] == c[0] {
        lemma_key_lt_transitive(a.drop_first(), b.drop_first(), c.drop_first());
    }
}

/// Two different keys are ordered one way or the other, never both.
pub proof fn lemma_key_lt_total(a: Seq<int>, b: Seq<int>)
    ensures
        a != b ==> (key_lt(a, b) || key_lt(b, a)),
        !(key_lt(a, b) && key_lt(b, a)),
    decreases a.len(),
{
    if a.len() > 0 && b.len() > 0 {
        lemma_key_lt_total(a.drop_first(), b.drop_first());
        if a[0] == b[0] && a != b && a.drop_first() == b.drop_first() {
            assert(a =~= seq![a[0]] + a.drop_first());
            assert(b =~= seq![b[0]] + b.drop_first());
        }
    } else if a.len() == 0 && b.len() == 0 {
        assert(a =~= b);
    }
}

/// Items that a trace report lists in order.
pub trait TraceOrdered: Sized {
    /// The key by which the item is ordered.
    spec fn trace_key(&self) -> Seq<int>;

    /// Whether this item orders strictly before `other`.
    fn precedes(&self, other: &Self) -> (r: bool)
        ensures
            r == key_lt(self.trace_key(), other.trace_key()),
    ;
}

/// The key of a state handle: runtime, slot, generation.
pub open spec fn handle_key(h: StateHandle) -> Seq<int> {
    cons(h.runtime_id as int, cons(h.slot as int, cons(h.generation as int, Seq::empty())))
}

/// Handles with equal keys are equal.
pub proof fn lemma_handle_key_injective(a: StateHandle, b: StateHandle)
    ensures
        handle_key(a) == handle_key(b) <==> a == b,
        handle_key(a).len() == 3,
{
    if handle_key(a) == handle_key(b) {
        assert(handle_key(a)[0] == handle_key(b)[0]);
        assert(handle_key(a)[1] == handle_key(b)[1]);
        assert(handle_key(a)[2] == handle_key(b)[2]);
    }
}

/// Whether `a` orders strictly before `b`.
fn handle_precedes(a: &StateHandle, b: &StateHandle) -> (r: bool)
    ensures
        r == key_lt(handle_key(*a), handle_key(*b)),
{
    proof {
        let e = Seq::<int>::empty();
        lemma_key_lt_cons(a.runtime_id as int, cons(a.slot as int, cons(a.generation as int, e)),
            b.runtime_id as int, cons(b.slot as int, cons(b.generation as int, e)));
        lemma_key_lt_cons(a.slot as int, cons(a.generation as int, e), b.slot as int, cons(
            b.generation as int,
            e,
        ));
        lemma_key_lt_cons(a.generation as int, e, b.generation as int, e);
    }
    if a.runtime_id != b.runtime_id {
        a.runtime_id < b.runtime_id
    } else if a.slot != b.slot {
        a.slot < b.slot
    } else {
        a.generation < b.generation
    }
}

impl TraceOrdered for StateHandle {
    open spec fn trace_key(&self) -> Seq<int> {
        handle_key(*self)
    }

    fn precedes(&self, other: &Self) -> (r: bool) {
        handle_precedes(self, other)
    }
}

/// A state handle that could not be resolved while a trace reached its
/// fixed point.
#[derive(Clone, Copy, Debug, PartialEq, Eq)]
pub struct StateTraceFailure {
    /// Handle published by a runtime root or a reachable thread.
    pub handle: StateHandle,
    /// Why the arena refused it.
    pub error: StateResolveError,
}

impl TraceOrdered for StateTraceFailure {
    /// Failures are ordered by their handle alone.
    open spec fn trace_key(&self) -> Seq<int> {
        handle_key(self.handle)
    }

    fn precedes(&self, other: &Self) -> (r: bool) {
        handle_precedes(&self.handle, &other.handle)
    }
}

/// One unsafe gap found in the snapshot of a validated state.
#[derive(Clone, Copy, Debug, PartialEq, Eq, Structural)]
pub struct UnsafeTraceGap {
    /// State whose representation was not dereferenced.
    pub state: StateHandle,
    /// What was out of range.
    pub kind: UnsafeTraceGapKind,
}

/// The key of a gap kind: variant index, then its two fields.
pub open spec fn gap_kind_key(k: UnsafeTraceGapKind) -> Seq<int> {
    let e = Seq::<int>::empty();
    match k {
        UnsafeTraceGapKind::StackWindowOutOfBounds { top, available } => cons(
            0,
            cons(top as int, cons(available as int, e)),
        ),
        UnsafeTraceGapKind::ActiveCallStackOutOfBounds { current_ci, available } => cons(
            1,
            cons(current_ci as int, cons(available as int, e)),
        ),
        UnsafeTraceGapKind::CallFunctionOutOfBounds { frame, function_index } => cons(
            2,
            cons(frame as int, cons(function_index as int, e)),
        ),
    }
}

/// The variant index and the two fields of a gap kind.
fn gap_kind_parts(k: UnsafeTraceGapKind) -> (r: (u8, usize, usize))
    ensures
        gap_kind_key(k) == cons(r.0 as int, cons(r.1 as int, cons(r.2 as int, Seq::empty()))),
{
    match k {
        UnsafeTraceGapKind::StackWindowOutOfBounds { top, available } => (0, top, available),
        UnsafeTraceGapKind::ActiveCallStackOutOfBounds { current_ci, available } => (
            1,
            current_ci,
            available,
        ),
        UnsafeTraceGapKind::CallFunctionOutOfBounds { frame, function_index } => (
            2,
            frame,
            function_index,
        ),
    }
}

impl TraceOrdered for UnsafeTraceGap {
    /// Gaps are ordered by state, then by kind.
    open spec fn trace_key(&self) -> Seq<int> {
        handle_key(self.state) + gap_kind_key(self.kind)
    }

    fn precedes(&self, other: &Self) -> (r: bool) {
        proof {
            lemma_key_lt_concat(
                handle_key(self.state),
                gap_kind_key(self.kind),
                handle_key(other.state),
                gap_kind_key(other.kind),
            );
            lemma_handle_key_injective(self.state, other.state);
            lemma_key_lt_irreflexive(handle_key(self.state));
        }
        if !self.state.same_as(&other.state) {
            return handle_precedes(&self.state, &other.state);
        }
        let (x0, x1, x2) = gap_kind_parts(self.kind);
        let (y0, y1, y2) = gap_kind_parts(other.kind);
        proof {
            let e = Seq::<int>::empty();
            lemma_key_lt_cons(x0 as int, cons(x1 as int, cons(x2 as int, e)), y0 as int, cons(
                y1 as int,
                cons(y2 as int, e),
            ));
            lemma_key_lt_cons(x1 as int, cons(x2 as int, e), y1 as int, cons(y2 as int, e));
            lemma_key_lt_cons(x2 as int, e, y2 as int, e);
        }
        if x0 != y0 {
            x0 < y0
        } else if x1 != y1 {
            x1 < y1
        } else {
            x2 < y2
        }
    }
}

/// A copied collector edge that did not name a registered object.
#[derive(Clone, Copy, Debug, PartialEq, Eq, Structural)]
pub struct UnresolvedObjectEdge {
    /// State that owned the edge, or `None` for a runtime-level root.
    pub state: Option<StateHandle>,
    /// Inventory-aligned owner kind.
    pub kind: RuntimeRootKind,
}

/// The key of an optional handle: `None` before every handle.
pub open spec fn owner_key(o: Option<StateHandle>) -> Seq<int> {
    match o {
        None => cons(0, cons(0, cons(0, cons(0, Seq::empty())))),
        Some(h) => cons(1, handle_key(h)),
    }
}

proof fn lemma_owner_key(a: Option<StateHandle>, b: Option<StateHandle>)
    ensures
        owner_key(a).len() == 4,
        owner_key(a) == owner_key(b) <==> a == b,
        key_lt(owner_key(a), owner_key(b)) == match (a, b) {
            (None, Some(_)) => true,
            (Some(x), Some(y)) => key_lt(handle_key(x), handle_key(y)),
            _ => false,
        },
{
    let z = cons(0, cons(0, cons(0, Seq::<int>::empty())));
    match (a, b) {
        (None, None) => {
            lemma_key_lt_irreflexive(owner_key(a));
        },
        (None, Some(y)) => {
            lemma_key_lt_cons(0, z, 1, handle_key(y));
            assert(owner_key(a)[0] != owner_key(b)[0]);
        },
        (Some(x), None) => {
            lemma_key_lt_cons(1, handle_key(x), 0, z);
            assert(owner_key(a)[0] != owner_key(b)[0]);
        },
        (Some(x), Some(y)) => {
            lemma_key_lt_cons(1, handle_key(x), 1, handle_key(y));
            lemma_handle_key_injective(x, y);
            if owner_key(a) == owner_key(b) {
                assert(owner_key(a).drop_first() =~= handle_key(x));
                assert(owner_key(b).drop_first() =~= handle_key(y));
            }
        },
    }
}

impl TraceOrdered for UnresolvedObjectEdge {
    /// Edges are ordered by owner state (runtime-level roots first), then by
    /// kind.
    open spec fn trace_key(&self) -> Seq<int> {
        owner_key(self.state) + cons(self.kind.rank(), Seq::empty())
    }

    fn precedes(&self, other: &Self) -> (r: bool) {
        let ghost e = Seq::<int>::empty();
        proof {
            lemma_key_lt_concat(
                owner_key(self.state),
                cons(self.kind.rank(), e),
                owner_key(other.state),
                cons(other.kind.rank(), e),
            );
            lemma_owner_key(self.state, other.state);
            lemma_key_lt_irreflexive(owner_key(self.state));
            lemma_key_lt_cons(self.kind.rank(), e, other.kind.rank(), e);
        }
        let a = self.kind.position();
        let b = other.kind.position();
        match (self.state, other.state) {
            (None, None) => a < b,
            (None, Some(_)) => true,
            (Some(_), None) => false,
            (Some(x), Some(y)) => {
                proof {
                    lemma_handle_key_injective(x, y);
                }
                if !x.same_as(&y) {
                    handle_precedes(&x, &y)
                } else {
                    a < b
                }
            },
        }
    }
}

/// Whether the keys of `s` never decrease.
pub open spec fn keys_nondecreasing<T: TraceOrdered>(s: Seq<T>) -> bool {
    forall|i: int, j: int|
        0 <= i < j < s.len() ==> !key_lt(#[trigger] s[j].trace_key(), #[trigger] s[i].trace_key())
}

/// The items of `items` ordered by key: a permutation whose keys never
/// decrease.
pub fn sort_by_trace_key<T: TraceOrdered + Copy>(items: &Vec<T>) -> (r: Vec<T>)
    ensures
        keys_nondecreasing(r@),
        r@.to_multiset() == items@.to_multiset(),
{
    let mut out: Vec<T> = Vec::new();
    let n = items.len();
    let mut j: usize = 0;
    proof {
        assert(items@.take(0) =~= Seq::<T>::empty());
    }
    while j < n
        invariant
            n == items@.len(),
            j <= n,
            keys_nondecreasing(out@),
            out@.to_multiset() == items@.take(j as int).to_multiset(),
        decreases n - j,
    {
        let x = items[j];
        let mut p: usize = 0;
        while p < out.len() && !x.precedes(&out[p])
            invariant
                p <= out@.len(),
                forall|i: int| 0 <= i < p ==> !key_lt(x.trace_key(), #[trigger] out@[i].trace_key()),
            decreases out@.len() - p,
        {
            p += 1;
        }
        let ghost before = out@;
        out.insert(p, x);
        proof {
            assert forall|a: int, b: int| 0 <= a < b < out@.len() implies !key_lt(
                #[trigger] out@[b].trace_key(),
                #[trigger] out@[a].trace_key(),
            ) by {
                if b == p {
                    assert(out@[a] == before[a]);
                } else if a == p {
                    let y = before[b - 1];
                    assert(out@[b] == y);
                    assert(p < before.len());
                    assert(key_lt(x.trace_key(), before[p as int].trace_key()));
                    if key_lt(y.trace_key(), x.trace_key()) {
                        if b - 1 == p {
                            lemma_key_lt_total(x.trace_key(), y.trace_key());
                        } else {
                            assert(!key_lt(before[b - 1].trace_key(), before[p as int].trace_key()));
                            lemma_key_lt_transitive(y.trace_key(), x.trace_key(), before[p as int].trace_key());
                        }
                    }
                } else if a < p && b > p {
                    assert(out@[a] == before[a]);
                    assert(out@[b] == before[b - 1]);
                } else if b < p {
                    assert(out@[a] == before[a]);
                    assert(out@[b] == before[b]);
                } else {
                    assert(out@[a] == before[a - 1]);
                    assert(out@[b] == before[b - 1]);
                }
            }
            to_multiset_insert(before, p as int, x);
            assert(items@.take(j + 1) =~= items@.take(j as int).push(x));
            to_multiset_build(items@.take(j as int), x);
        }
        j += 1;
    }
    proof {
        assert(items@.take(n as int) =~= items@);
    }
    out
}

/// Whether the keys of `s` strictly increase.
pub open spec fn keys_ascending<T: TraceOrdered>(s: Seq<T>) -> bool {
    forall|i: int, j: int|
        0 <= i < j < s.len() ==> key_lt(#[trigger] s[i].trace_key(), #[trigger] s[j].trace_key())
}

/// Whether some item of `out` has the key of `x`.
pub open spec fn has_key_of<T: TraceOrdered>(out: Seq<T>, x: T) -> bool {
    exists|i: int| 0 <= i < out.len() && #[trigger] out[i].trace_key() == x.trace_key()
}

/// Whether `s[j]` is the first item of `s` with its key.
pub open spec fn first_of_key<T: TraceOrdered>(s: Seq<T>, j: int) -> bool {
    forall|k: int| 0 <= k < j ==> #[trigger] s[k].trace_key() != s[j].trace_key()
}

/// Whether `x` is the first item of `s` with its key.
pub open spec fn kept_first<T: TraceOrdered>(s: Seq<T>, x: T) -> bool {
    exists|j: int| 0 <= j < s.len() && s[j] == x && first_of_key(s, j)
}

/// The first item of each key of `items`, whose keys never decrease: keys
/// strictly increase, and every key of `items` is kept.
pub fn dedup_by_trace_key<T: TraceOrdered + Copy>(items: &Vec<T>) -> (r: Vec<T>)
    requires
        keys_nondecreasing(items@),
    ensures
        keys_ascending(r@),
        forall|i: int| 0 <= i < r@.len() ==> kept_first(items@, #[trigger] r@[i]),
        forall|j: int| 0 <= j < items@.len() ==> has_key_of(r@, #[trigger] items@[j]),
{
    let mut out: Vec<T> = Vec::new();
    let ghost mut src: Seq<int> = Seq::empty();
    let n = items.len();
    let mut j: usize = 0;
    while j < n
        invariant
            n == items@.len(),
            j <= n,
            keys_nondecreasing(items@),
            keys_ascending(out@),
            src.len() == out@.len(),
            j > 0 ==> out@.len() > 0,
            forall|i: int|
                0 <= i < out@.len() ==> 0 <= #[trigger] src[i] < j && items@[src[i]] == out@[i] && first_of_key(
                    items@,
                    src[i],
                ),
            out@.len() > 0 ==> forall|k: int|
                0 <= k < j ==> !key_lt(out@.last().trace_key(), #[trigger] items@[k].trace_key()),
            out@.len() > 0 ==> out@.last().trace_key() == items@[src.last()].trace_key(),
            forall|k: int|
                0 <= k < j ==> exists|i: int|
                    0 <= i < out@.len() && (#[trigger] out@[i]).trace_key() == #[trigger] items@[k].trace_key(),
        decreases n - j,
    {
        let x = items[j];
        let keep = if out.len() == 0 {
            true
        } else {
            let last = out[out.len() - 1];
            last.precedes(&x)
        };
        let ghost before = out@;
        let ghost before_src = src;
        if keep {
            proof {
                if before.len() > 0 {
                    assert forall|k: int| 0 <= k < j implies #[trigger] items@[k].trace_key()
                        != x.trace_key() by {
                        lemma_key_lt_irreflexive(x.trace_key());
                        if items@[k].trace_key() == x.trace_key() {
                            assert(!key_lt(before.last().trace_key(), items@[k].trace_key()));
                        }
                    }
                    assert forall|i: int| 0 <= i < before.len() implies key_lt(
                        #[trigger] before[i].trace_key(),
                        x.trace_key(),
                    ) by {
                        if i < before.len() - 1 {
                            assert(key_lt(before[i].trace_key(), before[before.len() - 1].trace_key()));
                            lemma_key_lt_transitive(
                                before[i].trace_key(),
                                before.last().trace_key(),
                                x.trace_key(),
                            );
                        }
                    }
                }
            }
            out.push(x);
            proof {
                src = before_src.push(j as int);
                assert(out@.last() == x);
                assert forall|k: int| 0 <= k < j + 1 implies !key_lt(
                    out@.last().trace_key(),
                    #[trigger] items@[k].trace_key(),
                ) by {
                    if k < j {
                        assert(!key_lt(x.trace_key(), items@[k].trace_key()));
                    } else {
                        lemma_key_lt_irreflexive(x.trace_key());
                    }
                }
                assert forall|k: int| 0 <= k < j + 1 implies exists|i: int|
                    0 <= i < out@.len() && (#[trigger] out@[i]).trace_key()
                        == #[trigger] items@[k].trace_key() by {
                    if k == j {
                        assert(out@[out@.len() - 1] == x);
                    } else {
                        let i = choose|i: int|
                            0 <= i < before.len() && (#[trigger] before[i]).trace_key()
                                == items@[k].trace_key();
                        assert(out@[i] == before[i]);
                    }
                }
            }
        } else {
            proof {
                let last = before.last();
                let k0 = before_src.last();
                assert(!key_lt(x.trace_key(), items@[k0].trace_key()));
                lemma_key_lt_total(last.trace_key(), x.trace_key());
                assert(last.trace_key() == x.trace_key());
                assert forall|k: int| 0 <= k < j + 1 implies exists|i: int|
                    0 <= i < out@.len() && (#[trigger] out@[i]).trace_key()
                        == #[trigger] items@[k].trace_key() by {
                    if k == j {
                        assert(out@[out@.len() - 1] == last);
                    }
                }
                assert forall|k: int| 0 <= k < j + 1 implies !key_lt(
                    out@.last().trace_key(),
                    #[trigger] items@[k].trace_key(),
                ) by {
                    if k == j {
                        lemma_key_lt_irreflexive(x.trace_key());
                    }
                }
            }
        }
        j += 1;
    }
    proof {
        assert forall|i: int| 0 <= i < out@.len() implies kept_first(items@, #[trigger] out@[i]) by {
            assert(items@[src[i]] == out@[i]);
        }
    }
    out
}

/// Machine-checkable result of a non-destructive root traversal.
#[derive(Clone, Debug, PartialEq, Eq)]
pub struct MarkOnlyReport {
    /// Runtime that owned the traversal.
    pub runtime_id: u64,
    /// Collector objects before and after the traversal.
    pub total_objects: usize,
    /// Objects reached and colored.
    pub marked_objects: usize,
    /// Collector objects taken from the gray queue.
    pub object_trace_steps: usize,
    /// Validated states whose snapshots were scanned, sorted.
    pub traced_states: Vec<StateHandle>,
    /// Invalid state edges, sorted by handle.
    pub failed_state_handles: Vec<StateTraceFailure>,
    /// Explicit collector roots that were still registered.
    pub collector_roots_seeded: usize,
    /// Explicit collector roots rejected without dereference.
    pub collector_roots_rejected: usize,
    /// Object-graph child edges rejected before dereference.
    pub rejected_child_edges: usize,
    /// Edge counts per recorded kind, in inventory order.
    pub root_edges: Vec<RootEdgeCount>,
    /// Unsafe representation gaps, sorted.
    pub unsafe_gaps: Vec<UnsafeTraceGap>,
    /// Copied edges that named no registered object, sorted.
    pub unresolved_object_edges: Vec<UnresolvedObjectEdge>,
    /// Collector work still pending when the report was taken.
    pub pending_objects: usize,
}

/// The edge count of the first entry for `kind`, or zero when there is none.
pub open spec fn first_count(edges: Seq<RootEdgeCount>, kind: RuntimeRootKind) -> nat
    decreases edges.len(),
{
    if edges.len() == 0 {
        0
    } else if edges[0].kind == kind {
        edges[0].edges as nat
    } else {
        first_count(edges.drop_first(), kind)
    }
}

impl MarkOnlyReport {
    /// The number of edges reported for `kind`; zero when it has no entry.
    pub fn root_edge_count(&self, kind: RuntimeRootKind) -> (r: usize)
        ensures
            r == first_count(self.root_edges@, kind),
    {
        let n = self.root_edges.len();
        let mut i: usize = 0;
        proof {
            assert(self.root_edges@.skip(0) =~= self.root_edges@);
        }
        while i < n
            invariant
                n == self.root_edges@.len(),
                i <= n,
                first_count(self.root_edges@, kind) == first_count(self.root_edges@.skip(i as int), kind),
            decreases n - i,
        {
            let entry = self.root_edges[i];
            proof {
                assert(self.root_edges@.skip(i as int)[0] == entry);
                assert(self.root_edges@.skip(i as int).drop_first() =~= self.root_edges@.skip(i + 1));
            }
            if entry.kind == kind {
                return entry.edges;
            }
            i += 1;
        }
        0
    }
}

/// The counts of a mark trace that decide whether sweeping is safe.
#[derive(Clone, Copy, Debug, PartialEq, Eq, Structural)]
pub struct TraceHealth {
    pub failed_states: usize,
    pub unsafe_gaps: usize,
    pub unresolved_edges: usize,
    pub rejected_roots: usize,
    pub rejected_child_edges: usize,
    pub pending_mark_work: usize,
}

/// The counts of `mark` that decide whether sweeping is safe.
pub open spec fn health_of(mark: MarkOnlyReport) -> TraceHealth {
    TraceHealth {
        failed_states: mark.failed_state_handles@.len() as usize,
        unsafe_gaps: mark.unsafe_gaps@.len() as usize,
        unresolved_edges: mark.unresolved_object_edges@.len() as usize,
        rejected_roots: mark.collector_roots_rejected,
        rejected_child_edges: mark.rejected_child_edges,
        pending_mark_work: mark.pending_objects,
    }
}

/// Whether a trace with these counts is safe to sweep after: nothing failed,
/// was skipped, or is left to mark.
pub open spec fn sweep_safe(h: TraceHealth) -> bool {
    h.failed_states == 0 && h.unsafe_gaps == 0 && h.unresolved_edges == 0 && h.rejected_roots == 0
        && h.rejected_child_edges == 0 && h.pending_mark_work == 0
}

/// Refuse to sweep after a mark trace that is not sweep-safe; the error
/// carries the counts.
pub fn ensure_sweep_safe(mark: &MarkOnlyReport) -> (r: Result<(), TraceHealth>)
    ensures
        sweep_safe(health_of(*mark)) ==> r is Ok,
        !sweep_safe(health_of(*mark)) ==> r == Err::<(), TraceHealth>(health_of(*mark)),
        r is Ok <==> (mark.failed_state_handles@.len() == 0 && mark.unsafe_gaps@.len() == 0
            && mark.unresolved_object_edges@.len() == 0 && mark.collector_roots_rejected == 0
            && mark.rejected_child_edges == 0 && mark.pending_objects == 0),
        r matches Err(h) ==> h.failed_states == mark.failed_state_handles@.len() && h.unsafe_gaps
            == mark.unsafe_gaps@.len() && h.unresolved_edges == mark.unresolved_object_edges@.len(),
{
    let health = TraceHealth {
        failed_states: mark.failed_state_handles.len(),
        unsafe_gaps: mark.unsafe_gaps.len(),
        unresolved_edges: mark.unresolved_object_edges.len(),
        rejected_roots: mark.collector_roots_rejected,
        rejected_child_edges: mark.rejected_child_edges,
        pending_mark_work: mark.pending_objects,
    };
    if health.failed_states != 0 || health.unsafe_gaps != 0 || health.unresolved_edges != 0
        || health.rejected_roots != 0 || health.rejected_child_edges != 0
        || health.pending_mark_work != 0 {
        return Err(health);
    }
    Ok(())
}

/// Sweeping is allowed after a mark trace exactly when the trace is clean: no
/// state failed to resolve, no unsafe gap or unresolved edge was met, no root
/// or child edge was rejected and no mark work is pending. A trace that
/// skipped even one state is never safe to sweep after. (The lengths are
/// those of vectors, so they fit in `usize`.)
pub proof fn lemma_sweep_needs_clean_trace(mark: MarkOnlyReport)
    requires
        mark.failed_state_handles@.len() <= usize::MAX,
        mark.unsafe_gaps@.len() <= usize::MAX,
        mark.unresolved_object_edges@.len() <= usize::MAX,
    ensures
        sweep_safe(health_of(mark)) <==> (mark.failed_state_handles@.len() == 0
            && mark.unsafe_gaps@.len() == 0 && mark.unresolved_object_edges@.len() == 0
            && mark.collector_roots_rejected == 0 && mark.rejected_child_edges == 0
            && mark.pending_objects == 0),
        mark.failed_state_handles@.len() > 0 ==> !sweep_safe(health_of(mark)),
        mark.unsafe_gaps@.len() > 0 ==> !sweep_safe(health_of(mark)),
{
}

/// What the collector reported when a mark-only trace began.
#[derive(Clone, Copy, Debug, PartialEq, Eq, Structural)]
pub struct CollectorSeed {
    /// Explicit roots that were still registered and were marked.
    pub seeded: usize,
    /// Explicit roots rejected without dereference.
    pub rejected: usize,
    /// Of the seeded roots, those protecting objects under publication.
    pub temporary_seeded: usize,
    /// Of the seeded roots, userdata awaiting finalizer delivery.
    pub pending_finalizers_seeded: usize,
}

/// Seeded roots that are neither temporary nor pending finalizers
/// (subtraction stops at zero).
pub open spec fn explicit_seeded(seed: CollectorSeed) -> nat {
    let a: int = if seed.seeded >= seed.temporary_seeded {
        seed.seeded - seed.temporary_seeded
    } else {
        0
    };
    if a >= seed.pending_finalizers_seeded {
        (a - seed.pending_finalizers_seeded) as nat
    } else {
        0
    }
}

/// The count that `counts` records for `kind`, zero when none.
pub open spec fn count_in(counts: Seq<Option<usize>>, kind: RuntimeRootKind) -> nat {
    match counts[kind.rank()] {
        Some(n) => n as nat,
        None => 0,
    }
}

/// `counts` with `n` more edges for `kind`.
pub open spec fn bump(counts: Seq<Option<usize>>, kind: RuntimeRootKind, n: nat) -> Seq<Option<usize>> {
    counts.update(kind.rank(), Some((count_in(counts, kind) + n) as usize))
}

/// No kind counted.
pub open spec fn no_counts() -> Seq<Option<usize>> {
    Seq::new(ROOT_KIND_COUNT as nat, |i: int| None::<usize>)
}

/// The counts with which a trace starts: the collector's seeds, the fixed
/// strings, the activation buffer, the runtime's global table and registry
/// when present, the temporary state roots and the main state entry.
pub open spec fn seeded_counts(
    seed: CollectorSeed,
    fixed_strings: nat,
    activation_entries: nat,
    global_root: Option<bool>,
    registry_root: Option<bool>,
    temporary_states: nat,
) -> Seq<Option<usize>> {
    let c1 = bump(no_counts(), RuntimeRootKind::CollectorExplicitRoot, explicit_seeded(seed));
    let c2 = bump(c1, RuntimeRootKind::TemporaryProtectedRoots, seed.temporary_seeded as nat);
    let c3 = bump(c2, RuntimeRootKind::PendingFinalizers, seed.pending_finalizers_seeded as nat);
    let c4 = bump(c3, RuntimeRootKind::FixedStrings, fixed_strings);
    let c5 = bump(c4, RuntimeRootKind::CoroutineActivationBuffer, activation_entries);
    let c6 = if global_root is Some {
        bump(c5, RuntimeRootKind::GlobalTable, 1)
    } else {
        c5
    };
    let c7 = if registry_root is Some {
        bump(c6, RuntimeRootKind::Registry, 1)
    } else {
        c6
    };
    let c8 = bump(c7, RuntimeRootKind::TemporaryStateRoots, temporary_states);
    bump(c8, RuntimeRootKind::MainStateEntry, 1)
}

/// The runtime-level edge of `kind` when the root is present but names no
/// registered object.
pub open spec fn runtime_root_unresolved(root: Option<bool>, kind: RuntimeRootKind) -> Seq<
    UnresolvedObjectEdge,
> {
    if root == Some(false) {
        seq![UnresolvedObjectEdge { state: None, kind }]
    } else {
        Seq::empty()
    }
}

/// The handles of some trace failures.
pub open spec fn failure_handles(f: Seq<StateTraceFailure>) -> Seq<StateHandle> {
    f.map_values(|x: StateTraceFailure| x.handle)
}

/// Abstract state of a mark-only trace.
pub struct TraceModel {
    pub runtime_id: u64,
    pub main_handle: StateHandle,
    pub total_objects: usize,
    pub collector_roots_seeded: usize,
    pub collector_roots_rejected: usize,
    /// Edge counts by kind rank.
    pub counts: Seq<Option<usize>>,
    /// Handles still to visit, front first.
    pub queue: Seq<StateHandle>,
    /// Handles already taken from the queue and checked, in order.
    pub attempted: Seq<StateHandle>,
    /// Handles that resolved and were scanned, in order.
    pub traced: Seq<StateHandle>,
    /// Handles that did not resolve, in order.
    pub failures: Seq<StateTraceFailure>,
    pub gaps: Seq<UnsafeTraceGap>,
    pub unresolved: Seq<UnresolvedObjectEdge>,
    pub object_trace_steps: nat,
}

impl TraceModel {
    /// Within the current pass every handle is checked at most once, and every
    /// checked handle was recorded as scanned or as failed.
    pub open spec fn wf(self) -> bool {
        &&& self.counts.len() == ROOT_KIND_COUNT
        &&& self.attempted.no_duplicates()
        &&& forall|i: int|
            0 <= i < self.attempted.len() ==> self.traced.contains(#[trigger] self.attempted[i])
                || failure_handles(self.failures).contains(self.attempted[i])
    }

    /// A trace that has made a single pass: every handle is checked at most
    /// once overall; it either resolved and was scanned, or it failed, never
    /// both and never twice.
    pub open spec fn single_pass(self) -> bool {
        &&& self.wf()
        &&& self.traced.no_duplicates()
        &&& failure_handles(self.failures).no_duplicates()
        &&& forall|i: int| 0 <= i < self.traced.len() ==> self.attempted.contains(#[trigger] self.traced[i])
        &&& forall|i: int|
            0 <= i < self.failures.len() ==> self.attempted.contains(#[trigger] self.failures[i].handle)
        &&& forall|i: int, j: int|
            0 <= i < self.traced.len() && 0 <= j < self.failures.len() ==> #[trigger] self.traced[i]
                != #[trigger] self.failures[j].handle
        &&& self.attempted.len() == self.traced.len() + self.failures.len()
    }

    /// The outcome of taking the front handle from the queue: an empty queue
    /// leaves the trace idle; a handle checked before is skipped; otherwise
    /// the handle is checked against the arena and recorded as scanned or as
    /// failed.
    pub open spec fn popped(self, arena: ArenaModel) -> (TraceModel, StatePop) {
        if self.queue.len() == 0 {
            (self, StatePop::Idle)
        } else {
            let h = self.queue[0];
            let rest = TraceModel { queue: self.queue.drop_first(), ..self };
            if self.attempted.contains(h) {
                (rest, StatePop::Repeated(h))
            } else {
                let tried = TraceModel { attempted: self.attempted.push(h), ..rest };
                match arena.resolve_for_trace(h) {
                    Err(e) => (
                        TraceModel {
                            failures: self.failures.push(StateTraceFailure { handle: h, error: e }),
                            ..tried
                        },
                        StatePop::Failed(h),
                    ),
                    Ok(st) => (TraceModel { traced: self.traced.push(h), ..tried }, StatePop::Traced(h, st)),
                }
            }
        }
    }
}

/// The gaps of one scanned state.
pub open spec fn snapshot_gaps(h: StateHandle, kinds: Seq<UnsafeTraceGapKind>) -> Seq<UnsafeTraceGap> {
    kinds.map_values(|k: UnsafeTraceGapKind| UnsafeTraceGap { state: h, kind: k })
}

/// `counts` with one more edge for the kind of each of `edges`.
pub open spec fn counted(counts: Seq<Option<usize>>, edges: Seq<(RuntimeRootKind, bool)>) -> Seq<
    Option<usize>,
>
    decreases edges.len(),
{
    if edges.len() == 0 {
        counts
    } else {
        bump(counted(counts, edges.drop_last()), edges.last().0, 1)
    }
}

/// The edges of state `h` that named no registered object, in order.
pub open spec fn unresolved_of(h: StateHandle, edges: Seq<(RuntimeRootKind, bool)>) -> Seq<
    UnresolvedObjectEdge,
>
    decreases edges.len(),
{
    if edges.len() == 0 {
        Seq::empty()
    } else if edges.last().1 {
        unresolved_of(h, edges.drop_last())
    } else {
        unresolved_of(h, edges.drop_last()).push(
            UnresolvedObjectEdge { state: Some(h), kind: edges.last().0 },
        )
    }
}

proof fn lemma_counted_bound(counts: Seq<Option<usize>>, edges: Seq<(RuntimeRootKind, bool)>, k: RuntimeRootKind)
    requires
        counts.len() == ROOT_KIND_COUNT,
    ensures
        counted(counts, edges).len() == ROOT_KIND_COUNT,
        count_in(counted(counts, edges), k) <= count_in(counts, k) + edges.len(),
    decreases edges.len(),
{
    if edges.len() > 0 {
        lemma_counted_bound(counts, edges.drop_last(), k);
        lemma_counted_bound(counts, edges.drop_last(), edges.last().0);
        super::roots::lemma_rank_injective(k, edges.last().0);
        super::roots::lemma_rank_injective(k, k);
    }
}

/// The handle, if any, as a sequence.
pub open spec fn opt_handles(o: Option<StateHandle>) -> Seq<StateHandle> {
    match o {
        Some(h) => seq![h],
        None => Seq::empty(),
    }
}

impl TraceModel {
    /// After one collector step: the step is counted; a traced caller chain,
    /// a reached coroutine state and a reached open upvalue are each counted
    /// as one edge, and the two states are queued in that order.
    pub open spec fn stepped(
        self,
        traced_thread_caller: bool,
        thread_state: Option<StateHandle>,
        upvalue_state: Option<StateHandle>,
    ) -> TraceModel {
        let c1 = if traced_thread_caller {
            bump(self.counts, RuntimeRootKind::ThreadCallerChain, 1)
        } else {
            self.counts
        };
        let c2 = if thread_state is Some {
            bump(c1, RuntimeRootKind::CoroutineStack, 1)
        } else {
            c1
        };
        let c3 = if upvalue_state is Some {
            bump(c2, RuntimeRootKind::OpenUpvalues, 1)
        } else {
            c2
        };
        TraceModel {
            counts: c3,
            queue: self.queue + opt_handles(thread_state) + opt_handles(upvalue_state),
            object_trace_steps: self.object_trace_steps + 1,
            ..self
        }
    }
}

/// Keys that never decrease and are pairwise different strictly increase.
pub proof fn lemma_distinct_keys_ascend<T: TraceOrdered>(s: Seq<T>)
    requires
        keys_nondecreasing(s),
        forall|i: int, j: int|
            0 <= i < j < s.len() ==> #[trigger] s[i].trace_key() != #[trigger] s[j].trace_key(),
    ensures
        forall|i: int, j: int|
            0 <= i < j < s.len() ==> key_lt(#[trigger] s[i].trace_key(), #[trigger] s[j].trace_key()),
{
    assert forall|i: int, j: int| 0 <= i < j < s.len() implies key_lt(
        #[trigger] s[i].trace_key(),
        #[trigger] s[j].trace_key(),
    ) by {
        lemma_key_lt_total(s[i].trace_key(), s[j].trace_key());
    }
}

impl TraceModel {
    /// After the runtime roots are seeded again at the atomic boundary of an
    /// incremental cycle: the checked handles are forgotten; the fixed
    /// strings, the activation buffer, the global table and registry when
    /// present, the temporary state roots and the main state entry are
    /// counted again; and the main state, the temporary state roots and every
    /// state scanned so far are queued again.
    pub open spec fn rescanned(
        self,
        fixed_strings: nat,
        activation_entries: nat,
        global_root: Option<bool>,
        registry_root: Option<bool>,
        temporary_states: Seq<StateHandle>,
    ) -> TraceModel {
        let c1 = bump(self.counts, RuntimeRootKind::FixedStrings, fixed_strings);
        let c2 = bump(c1, RuntimeRootKind::CoroutineActivationBuffer, activation_entries);
        let c3 = if global_root is Some {
            bump(c2, RuntimeRootKind::GlobalTable, 1)
        } else {
            c2
        };
        let c4 = if registry_root is Some {
            bump(c3, RuntimeRootKind::Registry, 1)
        } else {
            c3
        };
        let c5 = bump(c4, RuntimeRootKind::TemporaryStateRoots, temporary_states.len());
        TraceModel {
            counts: bump(c5, RuntimeRootKind::MainStateEntry, 1),
            queue: self.queue + seq![self.main_handle] + temporary_states + self.traced,
            attempted: Seq::empty(),
            unresolved: self.unresolved + runtime_root_unresolved(global_root, RuntimeRootKind::GlobalTable)
                + runtime_root_unresolved(registry_root, RuntimeRootKind::Registry),
            ..self
        }
    }
}

/// Every item of `out` is an item of `model`, and every key of `model` is
/// the key of an item of `out`, when `out` keeps the first item of each key
/// of `sorted`, a permutation of `model`.
proof fn lemma_dedup_of_permutation<T: TraceOrdered>(model: Seq<T>, sorted: Seq<T>, out: Seq<T>)
    requires
        sorted.to_multiset() == model.to_multiset(),
        forall|i: int| 0 <= i < out.len() ==> kept_first(sorted, #[trigger] out[i]),
        forall|j: int| 0 <= j < sorted.len() ==> has_key_of(out, #[trigger] sorted[j]),
    ensures
        forall|i: int| 0 <= i < out.len() ==> model.contains(#[trigger] out[i]),
        forall|k: int| 0 <= k < model.len() ==> has_key_of(out, #[trigger] model[k]),
{
    broadcast use vstd::seq_lib::group_to_multiset_ensures;
    assert forall|i: int| 0 <= i < out.len() implies model.contains(#[trigger] out[i]) by {
        assert(kept_first(sorted, out[i]));
        let j = choose|j: int| 0 <= j < sorted.len() && sorted[j] == out[i] && first_of_key(sorted, j);
        assert(sorted.contains(out[i]));
        assert(sorted.to_multiset().count(out[i]) > 0);
    }
    assert forall|k: int| 0 <= k < model.len() implies has_key_of(out, #[trigger] model[k]) by {
        assert(model.contains(model[k]));
        assert(model.to_multiset().count(model[k]) > 0);
        assert(sorted.contains(model[k]));
        let j = choose|j: int| 0 <= j < sorted.len() && sorted[j] == model[k];
        assert(has_key_of(out, sorted[j]));
    }
}

/// One item of each key of `items`, in strictly increasing key order: each
/// an item of `items`, and every key of `items` kept.
pub fn sorted_distinct<T: TraceOrdered + Copy>(items: &Vec<T>) -> (r: Vec<T>)
    ensures
        keys_ascending(r@),
        forall|i: int| 0 <= i < r@.len() ==> items@.contains(#[trigger] r@[i]),
        forall|k: int| 0 <= k < items@.len() ==> has_key_of(r@, #[trigger] items@[k]),
{
    let sorted = sort_by_trace_key(items);
    let out = dedup_by_trace_key(&sorted);
    proof {
        lemma_dedup_of_permutation(items@, sorted@, out@);
    }
    out
}

/// What taking one handle from the queue did.
#[derive(Clone, Copy, Debug, PartialEq, Eq, Structural)]
pub enum StatePop {
    /// The queue was empty.
    Idle,
    /// The handle had been checked before and was skipped.
    Repeated(StateHandle),
    /// The arena refused the handle; the failure was recorded.
    Failed(StateHandle),
    /// The handle resolved to the state with this key, which is now to be
    /// scanned.
    Traced(StateHandle, u64),
}

/// Whether `v` holds `h`.
fn holds_handle(v: &Vec<StateHandle>, h: StateHandle) -> (r: bool)
    ensures
        r == v@.contains(h),
{
    let n = v.len();
    let mut i: usize = 0;
    while i < n
        invariant
            n == v@.len(),
            i <= n,
            forall|j: int| 0 <= j < i ==> v@[j] != h,
        decreases n - i,
    {
        if v[i].same_as(&h) {
            proof {
                assert(v@[i as int] == h);
            }
            return true;
        }
        i += 1;
    }
    false
}

/// The bookkeeping of one mark-only trace.
pub struct MarkOnlyTrace {
    runtime_id: u64,
    main_handle: StateHandle,
    total_objects: usize,
    collector_roots_seeded: usize,
    collector_roots_rejected: usize,
    root_counts: RootEdgeCounts,
    queue: VecDeque<StateHandle>,
    attempted: Vec<StateHandle>,
    traced: Vec<StateHandle>,
    failures: Vec<StateTraceFailure>,
    gaps: Vec<UnsafeTraceGap>,
    unresolved: Vec<UnresolvedObjectEdge>,
    object_trace_steps: usize,
}

impl View for MarkOnlyTrace {
    type V = TraceModel;

    closed spec fn view(&self) -> TraceModel {
        TraceModel {
            runtime_id: self.runtime_id,
            main_handle: self.main_handle,
            total_objects: self.total_objects,
            collector_roots_seeded: self.collector_roots_seeded,
            collector_roots_rejected: self.collector_roots_rejected,
            counts: self.root_counts.slots(),
            queue: self.queue@,
            attempted: self.attempted@,
            traced: self.traced@,
            failures: self.failures@,
            gaps: self.gaps@,
            unresolved: self.unresolved@,
            object_trace_steps: self.object_trace_steps as nat,
        }
    }
}

impl MarkOnlyTrace {
    /// Start a trace: count the collector's seeded roots, the fixed strings
    /// and the activation buffer; count the runtime's global table and
    /// registry when present (`Some(registered)`), recording an unresolved
    /// edge for one that names no registered object; queue the main state
    /// and then the temporary state roots.
    pub fn begin(
        runtime_id: u64,
        main_handle: StateHandle,
        total_objects: usize,
        seed: CollectorSeed,
        fixed_strings_seeded: usize,
        activation_entries: usize,
        global_root: Option<bool>,
        registry_root: Option<bool>,
        temporary_state_roots: &Vec<StateHandle>,
    ) -> (r: MarkOnlyTrace)
        ensures
            r@.single_pass(),
            r@ == (TraceModel {
                runtime_id,
                main_handle,
                total_objects,
                collector_roots_seeded: seed.seeded,
                collector_roots_rejected: seed.rejected,
                counts: seeded_counts(
                    seed,
                    fixed_strings_seeded as nat,
                    activation_entries as nat,
                    global_root,
                    registry_root,
                    temporary_state_roots@.len(),
                ),
                queue: seq![main_handle] + temporary_state_roots@,
                attempted: Seq::empty(),
                traced: Seq::empty(),
                failures: Seq::empty(),
                gaps: Seq::empty(),
                unresolved: runtime_root_unresolved(global_root, RuntimeRootKind::GlobalTable)
                    + runtime_root_unresolved(registry_root, RuntimeRootKind::Registry),
                object_trace_steps: 0,
            }),
    {
        let mut counts = RootEdgeCounts::new();
        let after_temporary: usize = if seed.seeded >= seed.temporary_seeded {
            seed.seeded - seed.temporary_seeded
        } else {
            0
        };
        let explicit: usize = if after_temporary >= seed.pending_finalizers_seeded {
            after_temporary - seed.pending_finalizers_seeded
        } else {
            0
        };
        counts.increment(RuntimeRootKind::CollectorExplicitRoot, explicit);
        counts.increment(RuntimeRootKind::TemporaryProtectedRoots, seed.temporary_seeded);
        counts.increment(RuntimeRootKind::PendingFinalizers, seed.pending_finalizers_seeded);
        counts.increment(RuntimeRootKind::FixedStrings, fixed_strings_seeded);
        counts.increment(RuntimeRootKind::CoroutineActivationBuffer, activation_entries);
        let mut unresolved: Vec<UnresolvedObjectEdge> = Vec::new();
        match global_root {
            Some(registered) => {
                counts.increment(RuntimeRootKind::GlobalTable, 1);
                if !registered {
                    unresolved.push(UnresolvedObjectEdge { state: None, kind: RuntimeRootKind::GlobalTable });
                }
            },
            None => {},
        }
        match registry_root {
            Some(registered) => {
                counts.increment(RuntimeRootKind::Registry, 1);
                if !registered {
                    unresolved.push(UnresolvedObjectEdge { state: None, kind: RuntimeRootKind::Registry });
                }
            },
            None => {},
        }
        counts.increment(RuntimeRootKind::TemporaryStateRoots, temporary_state_roots.len());
        counts.increment(RuntimeRootKind::MainStateEntry, 1);
        let mut queue: VecDeque<StateHandle> = VecDeque::new();
        queue.push_back(main_handle);
        let n = temporary_state_roots.len();
        let mut i: usize = 0;
        while i < n
            invariant
                n == temporary_state_roots@.len(),
                i <= n,
                queue@ == seq![main_handle] + temporary_state_roots@.take(i as int),
            decreases n - i,
        {
            queue.push_back(temporary_state_roots[i]);
            proof {
                assert(seq![main_handle] + temporary_state_roots@.take(i + 1) =~= (seq![main_handle]
                    + temporary_state_roots@.take(i as int)).push(temporary_state_roots@[i as int]));
            }
            i += 1;
        }
        proof {
            assert(temporary_state_roots@.take(n as int) =~= temporary_state_roots@);
            assert(unresolved@ =~= runtime_root_unresolved(global_root, RuntimeRootKind::GlobalTable)
                + runtime_root_unresolved(registry_root, RuntimeRootKind::Registry));
            assert(failure_handles(Seq::<StateTraceFailure>::empty()) =~= Seq::<StateHandle>::empty());
        }
        MarkOnlyTrace {
            runtime_id,
            main_handle,
            total_objects,
            collector_roots_seeded: seed.seeded,
            collector_roots_rejected: seed.rejected,
            root_counts: counts,
            queue,
            attempted: Vec::new(),
            traced: Vec::new(),
            failures: Vec::new(),
            gaps: Vec::new(),
            unresolved,
            object_trace_steps: 0,
        }
    }

    /// Take the front handle from the queue and check it, as `popped` says.
    pub fn pop_state(&mut self, arena: &StateArena) -> (r: StatePop)
        requires
            old(self)@.wf(),
        ensures
            final(self)@.wf(),
            old(self)@.single_pass() ==> final(self)@.single_pass(),
            (final(self)@, r) == old(self)@.popped(arena@),
    {
        let h = match self.queue.pop_front() {
            Some(h) => h,
            None => {
                return StatePop::Idle;
            },
        };
        if holds_handle(&self.attempted, h) {
            return StatePop::Repeated(h);
        }
        let ghost old_attempted = self.attempted@;
        let ghost old_traced = self.traced@;
        let ghost old_failures = self.failures@;
        self.attempted.push(h);
        proof {
            if old(self)@.single_pass() {
                assert forall|i: int| 0 <= i < self.traced@.len() implies self.traced@[i] != h by {
                    assert(old_attempted.contains(self.traced@[i]));
                }
                assert forall|j: int| 0 <= j < self.failures@.len() implies self.failures@[j].handle != h by {
                    assert(old_attempted.contains(self.failures@[j].handle));
                }
            }
            assert forall|x: StateHandle| old_attempted.contains(x) implies self.attempted@.contains(x) by {
                let k = choose|k: int| 0 <= k < old_attempted.len() && old_attempted[k] == x;
                assert(self.attempted@[k] == x);
            }
            assert(self.attempted@[self.attempted@.len() - 1] == h);
        }
        match arena.resolve_for_trace(h) {
            Err(error) => {
                self.failures.push(StateTraceFailure { handle: h, error });
                proof {
                    assert(failure_handles(self.failures@) =~= failure_handles(old_failures).push(h));
                    assert(forall|j: int| 0 <= j < old_failures.len() ==> failure_handles(old_failures)[j] == old_failures[j].handle);
                    assert forall|i: int| 0 <= i < self.attempted@.len() implies self.traced@.contains(
                        #[trigger] self.attempted@[i],
                    ) || failure_handles(self.failures@).contains(self.attempted@[i]) by {
                        if i < old_attempted.len() {
                            assert(self.attempted@[i] == old_attempted[i]);
                            if failure_handles(old_failures).contains(old_attempted[i]) {
                                let k = choose|k: int| 0 <= k < failure_handles(old_failures).len()
                                    && failure_handles(old_failures)[k] == old_attempted[i];
                                assert(failure_handles(self.failures@)[k] == old_attempted[i]);
                            }
                        } else {
                            assert(failure_handles(self.failures@)[old_failures.len() as int] == h);
                        }
                    }
                }
                StatePop::Failed(h)
            },
            Ok(state) => {
                self.traced.push(h);
                proof {
                    assert forall|i: int| 0 <= i < self.attempted@.len() implies self.traced@.contains(
                        #[trigger] self.attempted@[i],
                    ) || failure_handles(self.failures@).contains(self.attempted@[i]) by {
                        if i < old_attempted.len() {
                            assert(self.attempted@[i] == old_attempted[i]);
                            if old_traced.contains(old_attempted[i]) {
                                let k = choose|k: int| 0 <= k < old_traced.len() && old_traced[k] == old_attempted[i];
                                assert(self.traced@[k] == old_attempted[i]);
                            }
                        } else {
                            assert(self.traced@[old_traced.len() as int] == h);
                        }
                    }
                }
                StatePop::Traced(h, state)
            },
        }
    }

    /// Record the scan of state `h`: its gaps, and for each of its edges one
    /// more count for the edge's kind and, when the edge named no registered
    /// object (`false`), an unresolved edge of `h`.
    pub fn record_snapshot(
        &mut self,
        h: StateHandle,
        gaps: &Vec<UnsafeTraceGapKind>,
        edges: &Vec<(RuntimeRootKind, bool)>,
    )
        requires
            old(self)@.wf(),
            forall|k: RuntimeRootKind| count_in(old(self)@.counts, k) + edges@.len() <= usize::MAX,
        ensures
            final(self)@.wf(),
            old(self)@.single_pass() ==> final(self)@.single_pass(),
            final(self)@ == (TraceModel {
                gaps: old(self)@.gaps + snapshot_gaps(h, gaps@),
                counts: counted(old(self)@.counts, edges@),
                unresolved: old(self)@.unresolved + unresolved_of(h, edges@),
                ..old(self)@
            }),
    {
        let ghost g0 = self.gaps@;
        let ng = gaps.len();
        let mut i: usize = 0;
        while i < ng
            invariant
                ng == gaps@.len(),
                i <= ng,
                self.gaps@ == g0 + snapshot_gaps(h, gaps@.take(i as int)),
                self.root_counts == old(self).root_counts,
                self.unresolved == old(self).unresolved,
                self@ == (TraceModel { gaps: self.gaps@, ..old(self)@ }),
            decreases ng - i,
        {
            self.gaps.push(UnsafeTraceGap { state: h, kind: gaps[i] });
            proof {
                assert(snapshot_gaps(h, gaps@.take(i + 1)) =~= snapshot_gaps(h, gaps@.take(i as int)).push(
                    UnsafeTraceGap { state: h, kind: gaps@[i as int] },
                ));
            }
            i += 1;
        }
        proof {
            assert(gaps@.take(ng as int) =~= gaps@);
        }
        let ghost c0 = self.root_counts.slots();
        let ghost u0 = self.unresolved@;
        let ne = edges.len();
        let mut j: usize = 0;
        proof {
            assert(edges@.take(0) =~= Seq::<(RuntimeRootKind, bool)>::empty());
            assert(u0 + unresolved_of(h, edges@.take(0)) =~= u0);
        }
        while j < ne
            invariant
                ne == edges@.len(),
                j <= ne,
                c0 == old(self)@.counts,
                c0.len() == ROOT_KIND_COUNT,
                forall|k: RuntimeRootKind| count_in(c0, k) + ne <= usize::MAX,
                self.root_counts.wf(),
                self.root_counts.slots() == counted(c0, edges@.take(j as int)),
                self.unresolved@ == u0 + unresolved_of(h, edges@.take(j as int)),
                u0 == old(self)@.unresolved,
                self.gaps@ == old(self)@.gaps + snapshot_gaps(h, gaps@),
                self.runtime_id == old(self).runtime_id,
                self.main_handle == old(self).main_handle,
                self.total_objects == old(self).total_objects,
                self.collector_roots_seeded == old(self).collector_roots_seeded,
                self.collector_roots_rejected == old(self).collector_roots_rejected,
                self.queue@ == old(self).queue@,
                self.attempted@ == old(self).attempted@,
                self.traced@ == old(self).traced@,
                self.failures@ == old(self).failures@,
                self.object_trace_steps == old(self).object_trace_steps,
            decreases ne - j,
        {
            let (kind, resolved) = edges[j];
            proof {
                lemma_counted_bound(c0, edges@.take(j as int), kind);
                assert(edges@.take(j + 1).drop_last() =~= edges@.take(j as int));
                assert(edges@.take(j + 1).last() == (kind, resolved));
            }
            self.root_counts.increment(kind, 1);
            if !resolved {
                self.unresolved.push(UnresolvedObjectEdge { state: Some(h), kind });
            }
            proof {
                assert(self.root_counts.slots() =~= counted(c0, edges@.take(j + 1)));
                assert(self.unresolved@ =~= u0 + unresolved_of(h, edges@.take(j + 1)));
            }
            j += 1;
        }
        proof {
            assert(edges@.take(ne as int) =~= edges@);
        }
    }

    /// Record one collector step, as `stepped` says.
    pub fn record_collector_step(
        &mut self,
        traced_thread_caller: bool,
        thread_state: Option<StateHandle>,
        upvalue_state: Option<StateHandle>,
    )
        requires
            old(self)@.wf(),
            old(self)@.object_trace_steps < usize::MAX,
            count_in(old(self)@.counts, RuntimeRootKind::ThreadCallerChain) < usize::MAX,
            count_in(old(self)@.counts, RuntimeRootKind::CoroutineStack) < usize::MAX,
            count_in(old(self)@.counts, RuntimeRootKind::OpenUpvalues) < usize::MAX,
        ensures
            final(self)@.wf(),
            old(self)@.single_pass() ==> final(self)@.single_pass(),
            final(self)@ == old(self)@.stepped(traced_thread_caller, thread_state, upvalue_state),
    {
        self.object_trace_steps = self.object_trace_steps + 1;
        if traced_thread_caller {
            self.root_counts.increment(RuntimeRootKind::ThreadCallerChain, 1);
        }
        match thread_state {
            Some(handle) => {
                self.root_counts.increment(RuntimeRootKind::CoroutineStack, 1);
                self.queue.push_back(handle);
            },
            None => {},
        }
        match upvalue_state {
            Some(handle) => {
                self.root_counts.increment(RuntimeRootKind::OpenUpvalues, 1);
                self.queue.push_back(handle);
            },
            None => {},
        }
        proof {
            let m = old(self)@.stepped(traced_thread_caller, thread_state, upvalue_state);
            assert(self.queue@ =~= m.queue);
            assert(self.root_counts.slots() =~= m.counts);
        }
    }

    /// Seed the runtime roots again at the atomic boundary of an
    /// incremental cycle, as `rescanned` says.
    pub fn rescan(
        &mut self,
        fixed_strings_seeded: usize,
        activation_entries: usize,
        global_root: Option<bool>,
        registry_root: Option<bool>,
        temporary_state_roots: &Vec<StateHandle>,
    )
        requires
            old(self)@.wf(),
            count_in(old(self)@.counts, RuntimeRootKind::FixedStrings) + fixed_strings_seeded <= usize::MAX,
            count_in(old(self)@.counts, RuntimeRootKind::CoroutineActivationBuffer) + activation_entries
                <= usize::MAX,
            count_in(old(self)@.counts, RuntimeRootKind::GlobalTable) < usize::MAX,
            count_in(old(self)@.counts, RuntimeRootKind::Registry) < usize::MAX,
            count_in(old(self)@.counts, RuntimeRootKind::TemporaryStateRoots) + temporary_state_roots@.len()
                <= usize::MAX,
            count_in(old(self)@.counts, RuntimeRootKind::MainStateEntry) < usize::MAX,
        ensures
            final(self)@.wf(),
            final(self)@ == old(self)@.rescanned(
                fixed_strings_seeded as nat,
                activation_entries as nat,
                global_root,
                registry_root,
                temporary_state_roots@,
            ),
    {
        self.attempted.clear();
        self.root_counts.increment(RuntimeRootKind::FixedStrings, fixed_strings_seeded);
        self.root_counts.increment(RuntimeRootKind::CoroutineActivationBuffer, activation_entries);
        match global_root {
            Some(registered) => {
                self.root_counts.increment(RuntimeRootKind::GlobalTable, 1);
                if !registered {
                    self.unresolved.push(UnresolvedObjectEdge { state: None, kind: RuntimeRootKind::GlobalTable });
                }
            },
            None => {},
        }
        match registry_root {
            Some(registered) => {
                self.root_counts.increment(RuntimeRootKind::Registry, 1);
                if !registered {
                    self.unresolved.push(UnresolvedObjectEdge { state: None, kind: RuntimeRootKind::Registry });
                }
            },
            None => {},
        }
        self.root_counts.increment(RuntimeRootKind::TemporaryStateRoots, temporary_state_roots.len());
        self.queue.push_back(self.main_handle);
        let ghost q0 = self.queue@;
        let ghost counts_mid = self.root_counts.slots();
        let ghost unresolved_mid = self.unresolved@;
        let n = temporary_state_roots.len();
        let mut i: usize = 0;
        while i < n
            invariant
                n == temporary_state_roots@.len(),
                i <= n,
                self.queue@ == q0 + temporary_state_roots@.take(i as int),
                self.root_counts.wf(),
                self.root_counts.slots() == counts_mid,
                self.unresolved@ == unresolved_mid,
                self.attempted@ == Seq::<StateHandle>::empty(),
                self.traced@ == old(self).traced@,
                self.failures@ == old(self).failures@,
                self.gaps@ == old(self).gaps@,
                self.runtime_id == old(self).runtime_id,
                self.main_handle == old(self).main_handle,
                self.total_objects == old(self).total_objects,
                self.collector_roots_seeded == old(self).collector_roots_seeded,
                self.collector_roots_rejected == old(self).collector_roots_rejected,
                self.object_trace_steps == old(self).object_trace_steps,
            decreases n - i,
        {
            self.queue.push_back(temporary_state_roots[i]);
            proof {
                assert(q0 + temporary_state_roots@.take(i + 1) =~= (q0 + temporary_state_roots@.take(
                    i as int,
                )).push(temporary_state_roots@[i as int]));
            }
            i += 1;
        }
        proof {
            assert(temporary_state_roots@.take(n as int) =~= temporary_state_roots@);
        }
        let ghost q1 = self.queue@;
        let m = self.traced.len();
        let mut k: usize = 0;
        while k < m
            invariant
                m == self.traced@.len(),
                k <= m,
                self.queue@ == q1 + self.traced@.take(k as int),
                self.root_counts.wf(),
                self.root_counts.slots() == counts_mid,
                self.unresolved@ == unresolved_mid,
                self.attempted@ == Seq::<StateHandle>::empty(),
                self.traced@ == old(self).traced@,
                self.failures@ == old(self).failures@,
                self.gaps@ == old(self).gaps@,
                self.runtime_id == old(self).runtime_id,
                self.main_handle == old(self).main_handle,
                self.total_objects == old(self).total_objects,
                self.collector_roots_seeded == old(self).collector_roots_seeded,
                self.collector_roots_rejected == old(self).collector_roots_rejected,
                self.object_trace_steps == old(self).object_trace_steps,
            decreases m - k,
        {
            self.queue.push_back(self.traced[k]);
            proof {
                assert(q1 + self.traced@.take(k + 1) =~= (q1 + self.traced@.take(k as int)).push(
                    self.traced@[k as int],
                ));
            }
            k += 1;
        }
        self.root_counts.increment(RuntimeRootKind::MainStateEntry, 1);
        proof {
            assert(self.traced@.take(m as int) =~= self.traced@);
            let r = old(self)@.rescanned(
                fixed_strings_seeded as nat,
                activation_entries as nat,
                global_root,
                registry_root,
                temporary_state_roots@,
            );
            assert(self.queue@ =~= r.queue);
            assert(self.unresolved@ =~= r.unresolved);
            assert(self.attempted@ =~= Seq::<StateHandle>::empty());
        }
    }

    /// Whether no state handle waits in the queue.
    pub fn queue_is_empty(&self) -> (r: bool)
        ensures
            r == (self@.queue.len() == 0),
    {
        self.queue.len() == 0
    }

    proof fn lemma_sorted_traced_ascend(&self, u: Seq<StateHandle>)
        requires
            self@.single_pass(),
            keys_nondecreasing(u),
            u.to_multiset() == self@.traced.to_multiset(),
        ensures
            keys_ascending(u),
    {
        self@.traced.lemma_multiset_has_no_duplicates();
        u.lemma_multiset_has_no_duplicates_conv();
        assert forall|i: int, j: int| 0 <= i < j < u.len() implies #[trigger] u[i].trace_key()
            != #[trigger] u[j].trace_key() by {
            lemma_handle_key_injective(u[i], u[j]);
        }
        lemma_distinct_keys_ascend(u);
    }

    /// The report of the trace: its lists sorted, the root edges in
    /// inventory order, with the collector's final counts.
    pub fn report(&self, marked_objects: usize, rejected_child_edges: usize, pending_objects: usize) -> (r:
        MarkOnlyReport)
        requires
            self@.wf(),
        ensures
            r.runtime_id == self@.runtime_id,
            r.total_objects == self@.total_objects,
            r.marked_objects == marked_objects,
            r.object_trace_steps == self@.object_trace_steps,
            r.collector_roots_seeded == self@.collector_roots_seeded,
            r.collector_roots_rejected == self@.collector_roots_rejected,
            r.rejected_child_edges == rejected_child_edges,
            r.pending_objects == pending_objects,
            keys_nondecreasing(r.traced_states@),
            r.traced_states@.to_multiset() == self@.traced.to_multiset(),
            self@.single_pass() ==> keys_ascending(r.traced_states@),
            keys_nondecreasing(r.failed_state_handles@),
            r.failed_state_handles@.to_multiset() == self@.failures.to_multiset(),
            keys_nondecreasing(r.unsafe_gaps@),
            r.unsafe_gaps@.to_multiset() == self@.gaps.to_multiset(),
            keys_nondecreasing(r.unresolved_object_edges@),
            r.unresolved_object_edges@.to_multiset() == self@.unresolved.to_multiset(),
            forall|i: int, j: int|
                0 <= i < j < r.root_edges@.len() ==> r.root_edges@[i].kind.rank() < r.root_edges@[j].kind.rank(),
            forall|i: int|
                0 <= i < r.root_edges@.len() ==> self@.counts[(#[trigger] r.root_edges@[i]).kind.rank()] is Some
                    && r.root_edges@[i].edges == count_in(self@.counts, r.root_edges@[i].kind),
            forall|k: RuntimeRootKind|
                self@.counts[k.rank()] is Some ==> exists|i: int|
                    0 <= i < r.root_edges@.len() && #[trigger] r.root_edges@[i].kind == k,
    {
        let traced_states = sort_by_trace_key(&self.traced);
        proof {
            if self@.single_pass() {
                self.lemma_sorted_traced_ascend(traced_states@);
            }
        }
        let root_edges = self.root_counts.root_edges();
        proof {
            assert forall|k: RuntimeRootKind| self@.counts[k.rank()] is Some implies exists|i: int|
                0 <= i < root_edges@.len() && #[trigger] root_edges@[i].kind == k by {
                assert(self.root_counts.recorded(k));
            }
        }
        MarkOnlyReport {
            runtime_id: self.runtime_id,
            total_objects: self.total_objects,
            marked_objects,
            object_trace_steps: self.object_trace_steps,
            traced_states,
            failed_state_handles: sort_by_trace_key(&self.failures),
            collector_roots_seeded: self.collector_roots_seeded,
            collector_roots_rejected: self.collector_roots_rejected,
            rejected_child_edges,
            root_edges,
            unsafe_gaps: sort_by_trace_key(&self.gaps),
            unresolved_object_edges: sort_by_trace_key(&self.unresolved),
            pending_objects,
        }
    }

    /// The report of an incremental cycle, whose later passes may check a
    /// state again: like `report`, but each list keeps one entry per key, in
    /// strictly increasing key order, and every recorded key is kept.
    pub fn report_distinct(
        &self,
        marked_objects: usize,
        rejected_child_edges: usize,
        pending_objects: usize,
    ) -> (r: MarkOnlyReport)
        requires
            self@.wf(),
        ensures
            r.runtime_id == self@.runtime_id,
            r.total_objects == self@.total_objects,
            r.marked_objects == marked_objects,
            r.object_trace_steps == self@.object_trace_steps,
            r.collector_roots_seeded == self@.collector_roots_seeded,
            r.collector_roots_rejected == self@.collector_roots_rejected,
            r.rejected_child_edges == rejected_child_edges,
            r.pending_objects == pending_objects,
            keys_ascending(r.traced_states@),
            forall|i: int| 0 <= i < r.traced_states@.len() ==> self@.traced.contains(#[trigger] r.traced_states@[i]),
            forall|k: int| 0 <= k < self@.traced.len() ==> has_key_of(r.traced_states@, #[trigger] self@.traced[k]),
            keys_ascending(r.failed_state_handles@),
            forall|i: int|
                0 <= i < r.failed_state_handles@.len() ==> self@.failures.contains(#[trigger] r.failed_state_handles@[i]),
            forall|k: int|
                0 <= k < self@.failures.len() ==> has_key_of(r.failed_state_handles@, #[trigger] self@.failures[k]),
            keys_ascending(r.unsafe_gaps@),
            forall|i: int| 0 <= i < r.unsafe_gaps@.len() ==> self@.gaps.contains(#[trigger] r.unsafe_gaps@[i]),
            forall|k: int| 0 <= k < self@.gaps.len() ==> has_key_of(r.unsafe_gaps@, #[trigger] self@.gaps[k]),
            keys_ascending(r.unresolved_object_edges@),
            forall|i: int|
                0 <= i < r.unresolved_object_edges@.len() ==> self@.unresolved.contains(
                    #[trigger] r.unresolved_object_edges@[i],
                ),
            forall|k: int|
                0 <= k < self@.unresolved.len() ==> has_key_of(r.unresolved_object_edges@, #[trigger] self@.unresolved[k]),
            forall|i: int, j: int|
                0 <= i < j < r.root_edges@.len() ==> r.root_edges@[i].kind.rank() < r.root_edges@[j].kind.rank(),
            forall|i: int|
                0 <= i < r.root_edges@.len() ==> self@.counts[(#[trigger] r.root_edges@[i]).kind.rank()] is Some
                    && r.root_edges@[i].edges == count_in(self@.counts, r.root_edges@[i].kind),
            forall|k: RuntimeRootKind|
                self@.counts[k.rank()] is Some ==> exists|i: int|
                    0 <= i < r.root_edges@.len() && #[trigger] r.root_edges@[i].kind == k,
    {
        let root_edges = self.root_counts.root_edges();
        proof {
            assert forall|k: RuntimeRootKind| self@.counts[k.rank()] is Some implies exists|i: int|
                0 <= i < root_edges@.len() && #[trigger] root_edges@[i].kind == k by {
                assert(self.root_counts.recorded(k));
            }
        }
        MarkOnlyReport {
            runtime_id: self.runtime_id,
            total_objects: self.total_objects,
            marked_objects,
            object_trace_steps: self.object_trace_steps,
            traced_states: sorted_distinct(&self.traced),
            failed_state_handles: sorted_distinct(&self.failures),
            collector_roots_seeded: self.collector_roots_seeded,
            collector_roots_rejected: self.collector_roots_rejected,
            rejected_child_edges,
            root_edges,
            unsafe_gaps: sorted_distinct(&self.gaps),
            unresolved_object_edges: sorted_distinct(&self.unresolved),
            pending_objects,
        }
    }
}

} // verus!
