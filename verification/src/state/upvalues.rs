//! The open upvalues of a Lua state: one per captured stack slot, kept in
//! strictly descending order of stack index, so that closing every upvalue at
//! or above a level takes a prefix of the list.
//!
//! Upvalue objects live in the collector; the list holds their keys.

use vstd::prelude::*;
use crate::runtime::lifecycle::LuaStateShutdownReport;

verus! {

/// An open upvalue: the stack slot it aliases and the key of its object.
#[derive(Clone, Copy, Debug, PartialEq, Eq, Structural)]
pub struct OpenUpvalue {
    pub stack_index: usize,
    pub upvalue: u64,
}

/// Whether the stack indices of `s` strictly decrease.
pub open spec fn strictly_descending(s: Seq<OpenUpvalue>) -> bool {
    forall|i: int, j: int| 0 <= i < j < s.len() ==> #[trigger] s[i].stack_index > #[trigger] s[j].stack_index
}

/// Number of leading entries whose stack index is at least `level`.
pub open spec fn at_or_above(s: Seq<OpenUpvalue>, level: int) -> nat
    decreases s.len(),
{
    if s.len() == 0 || s[0].stack_index < level {
        0
    } else {
        1 + at_or_above(s.drop_first(), level)
    }
}

/// In a strictly descending list the entries at or above `level` are exactly
/// the first `at_or_above` ones.
pub proof fn lemma_at_or_above_splits(s: Seq<OpenUpvalue>, level: int)
    requires
        strictly_descending(s),
    ensures
        at_or_above(s, level) <= s.len(),
        forall|i: int| 0 <= i < at_or_above(s, level) ==> #[trigger] s[i].stack_index >= level,
        forall|i: int| at_or_above(s, level) <= i < s.len() ==> #[trigger] s[i].stack_index < level,
    decreases s.len(),
{
    if s.len() > 0 && s[0].stack_index >= level {
        let t = s.drop_first();
        assert forall|i: int, j: int| 0 <= i < j < t.len() implies #[trigger] t[i].stack_index
            > #[trigger] t[j].stack_index by {
            assert(t[i] == s[i + 1]);
            assert(t[j] == s[j + 1]);
        }
        lemma_at_or_above_splits(t, level);
        assert forall|i: int| 0 <= i < at_or_above(s, level) implies #[trigger] s[i].stack_index >= level by {
            if i > 0 {
                assert(s[i] == t[i - 1]);
            }
        }
        assert forall|i: int| at_or_above(s, level) <= i < s.len() implies #[trigger] s[i].stack_index
            < level by {
            assert(s[i] == t[i - 1]);
        }
    } else if s.len() > 0 {
        assert forall|i: int| at_or_above(s, level) <= i < s.len() implies #[trigger] s[i].stack_index
            < level by {
            if i > 0 {
                assert(s[0].stack_index > s[i].stack_index);
            }
        }
    }
}

/// The split of a strictly descending list at `level` is the only position
/// with every entry before it at or above `level` and every entry from it on
/// below.
pub proof fn lemma_at_or_above_unique(s: Seq<OpenUpvalue>, level: int, p: int)
    requires
        strictly_descending(s),
        0 <= p <= s.len(),
        forall|i: int| 0 <= i < p ==> #[trigger] s[i].stack_index >= level,
        forall|i: int| p <= i < s.len() ==> #[trigger] s[i].stack_index < level,
    ensures
        at_or_above(s, level) == p,
{
    lemma_at_or_above_splits(s, level);
    let q = at_or_above(s, level) as int;
    if q < p {
        assert(s[q].stack_index >= level);
    }
    if p < q {
        assert(s[p].stack_index < level);
    }
}

/// Closing at `m` and then at `b` closes what closing once at the lower of
/// the two closes.
pub proof fn lemma_at_or_above_of_suffix(s: Seq<OpenUpvalue>, m: int, b: int)
    requires
        strictly_descending(s),
    ensures
        at_or_above(s, m) + at_or_above(s.skip(at_or_above(s, m) as int), b) == at_or_above(
            s,
            if b < m {
                b
            } else {
                m
            },
        ),
{
    let lo = if b < m {
        b
    } else {
        m
    };
    lemma_at_or_above_splits(s, m);
    lemma_at_or_above_splits(s, lo);
    let k1 = at_or_above(s, m) as int;
    let k2 = at_or_above(s, lo) as int;
    if k2 < k1 {
        assert(s[k2].stack_index < lo);
        assert(s[k2].stack_index >= m);
    }
    let t = s.skip(k1);
    assert forall|i: int, j: int| 0 <= i < j < t.len() implies #[trigger] t[i].stack_index
        > #[trigger] t[j].stack_index by {
        assert(t[i] == s[i + k1]);
        assert(t[j] == s[j + k1]);
    }
    assert forall|i: int| 0 <= i < k2 - k1 implies #[trigger] t[i].stack_index >= b by {
        assert(t[i] == s[i + k1]);
        if b >= m {
            assert(s[i + k1].stack_index < m);
        }
    }
    assert forall|i: int| k2 - k1 <= i < t.len() implies #[trigger] t[i].stack_index < b by {
        assert(t[i] == s[i + k1]);
    }
    lemma_at_or_above_unique(t, b, k2 - k1);
}

/// The upvalues `entries` paired with the values that close them: each slot's
/// value, or nil when the slot is not initialized.
pub open spec fn closed_pairs<V>(entries: Seq<OpenUpvalue>, slots: Seq<V>, nil: V) -> Seq<(u64, V)> {
    entries.map_values(
        |e: OpenUpvalue|
            (e.upvalue, if e.stack_index < slots.len() {
                slots[e.stack_index as int]
            } else {
                nil
            }),
    )
}

/// `s` with the entry of `stack_index` placed after every entry above it.
pub open spec fn inserted(s: Seq<OpenUpvalue>, stack_index: usize, upvalue: u64) -> Seq<OpenUpvalue> {
    let k = at_or_above(s, stack_index as int) as int;
    s.take(k).push(OpenUpvalue { stack_index, upvalue }) + s.skip(k)
}

/// Once a slot's upvalue is recorded, it is the one entry of that slot, and
/// every earlier entry stays.
pub proof fn lemma_insert_then_find(s: Seq<OpenUpvalue>, stack_index: usize, upvalue: u64)
    requires
        strictly_descending(s),
        forall|i: int| 0 <= i < s.len() ==> #[trigger] s[i].stack_index != stack_index,
    ensures
        inserted(s, stack_index, upvalue).contains(OpenUpvalue { stack_index, upvalue }),
        forall|j: int|
            0 <= j < inserted(s, stack_index, upvalue).len() && (#[trigger] inserted(
                s,
                stack_index,
                upvalue,
            )[j]).stack_index == stack_index ==> inserted(s, stack_index, upvalue)[j].upvalue == upvalue,
        forall|e: OpenUpvalue| s.contains(e) ==> inserted(s, stack_index, upvalue).contains(e),
{
    lemma_at_or_above_splits(s, stack_index as int);
    let k = at_or_above(s, stack_index as int) as int;
    let t = inserted(s, stack_index, upvalue);
    assert(t[k] == OpenUpvalue { stack_index, upvalue });
    assert forall|j: int| 0 <= j < t.len() && (#[trigger] t[j]).stack_index == stack_index implies t[j].upvalue
        == upvalue by {
        if j < k {
            assert(t[j] == s[j]);
        } else if j > k {
            assert(t[j] == s[j - 1]);
        }
    }
    assert forall|e: OpenUpvalue| s.contains(e) implies t.contains(e) by {
        let i = choose|i: int| 0 <= i < s.len() && s[i] == e;
        if i < k {
            assert(t[i] == e);
        } else {
            assert(t[i + 1] == e);
        }
    }
}

/// The open upvalues of one state.
#[derive(Debug)]
pub struct OpenUpvalues {
    entries: Vec<OpenUpvalue>,
}

impl View for OpenUpvalues {
    type V = Seq<OpenUpvalue>;

    closed spec fn view(&self) -> Seq<OpenUpvalue> {
        self.entries@
    }
}

impl OpenUpvalues {
    /// The list is strictly descending by stack index.
    pub open spec fn wf(&self) -> bool {
        strictly_descending(self@)
    }

    /// No open upvalue.
    pub fn new() -> (r: OpenUpvalues)
        ensures
            r.wf(),
            r@ == Seq::<OpenUpvalue>::empty(),
    {
        OpenUpvalues { entries: Vec::new() }
    }

    /// The entries, highest stack index first.
    pub fn entries(&self) -> (r: &Vec<OpenUpvalue>)
        ensures
            r@ == self@,
    {
        &self.entries
    }

    /// The position of the first entry whose stack index is at most
    /// `stack_index`, or the length.
    fn position_of(&self, stack_index: usize) -> (r: usize)
        requires
            self.wf(),
        ensures
            r <= self@.len(),
            forall|i: int| 0 <= i < r ==> #[trigger] self@[i].stack_index > stack_index,
            forall|i: int| r <= i < self@.len() ==> #[trigger] self@[i].stack_index <= stack_index,
    {
        let n = self.entries.len();
        let mut i: usize = 0;
        while i < n && self.entries[i].stack_index > stack_index
            invariant
                n == self@.len(),
                i <= n,
                forall|k: int| 0 <= k < i ==> #[trigger] self@[k].stack_index > stack_index,
            decreases n - i,
        {
            i += 1;
        }
        proof {
            assert forall|k: int| i <= k < self@.len() implies #[trigger] self@[k].stack_index <= stack_index by {
                if k > i {
                    assert(self@[i as int].stack_index > self@[k].stack_index);
                }
            }
        }
        i
    }

    /// The open upvalue of stack slot `stack_index`, if there is one.
    pub fn find(&self, stack_index: usize) -> (r: Option<u64>)
        requires
            self.wf(),
        ensures
            r matches Some(u) ==> self@.contains(OpenUpvalue { stack_index, upvalue: u }),
            r is None ==> forall|i: int| 0 <= i < self@.len() ==> #[trigger] self@[i].stack_index != stack_index,
    {
        let p = self.position_of(stack_index);
        if p < self.entries.len() && self.entries[p].stack_index == stack_index {
            let e = self.entries[p];
            proof {
                assert(self@[p as int] == e);
            }
            Some(e.upvalue)
        } else {
            None
        }
    }

    /// Record `upvalue` as the open upvalue of the uncaptured stack slot
    /// `stack_index`, keeping the order.
    pub fn insert(&mut self, stack_index: usize, upvalue: u64)
        requires
            old(self).wf(),
            forall|i: int| 0 <= i < old(self)@.len() ==> #[trigger] old(self)@[i].stack_index != stack_index,
        ensures
            final(self).wf(),
            final(self)@ == inserted(old(self)@, stack_index, upvalue),
    {
        proof {
            lemma_at_or_above_splits(self@, stack_index as int);
        }
        let p = self.position_of(stack_index);
        let ghost before = self@;
        proof {
            let k = at_or_above(before, stack_index as int) as int;
            if p < k {
                assert(before[p as int].stack_index >= stack_index);
            }
            if k < p {
                assert(before[k].stack_index < stack_index);
            }
        }
        let x = OpenUpvalue { stack_index, upvalue };
        self.entries.insert(p, x);
        proof {
            assert(self@ =~= before.take(p as int).push(x) + before.skip(p as int));
            assert forall|i: int, j: int| 0 <= i < j < self@.len() implies #[trigger] self@[i].stack_index
                > #[trigger] self@[j].stack_index by {
                if j < p {
                    assert(self@[i] == before[i] && self@[j] == before[j]);
                } else if j == p {
                    assert(self@[i] == before[i]);
                } else if i == p {
                    assert(self@[j] == before[j - 1]);
                } else if i < p {
                    assert(self@[i] == before[i] && self@[j] == before[j - 1]);
                } else {
                    assert(self@[i] == before[i - 1] && self@[j] == before[j - 1]);
                }
            }
        }
    }

    /// Remove every open upvalue at or above stack index `level` and return
    /// them, highest first, so that each can be closed with its slot's value.
    pub fn close(&mut self, level: usize) -> (r: Vec<OpenUpvalue>)
        requires
            old(self).wf(),
        ensures
            final(self).wf(),
            r@ == old(self)@.take(at_or_above(old(self)@, level as int) as int),
            final(self)@ == old(self)@.skip(at_or_above(old(self)@, level as int) as int),
            forall|i: int| 0 <= i < r@.len() ==> #[trigger] r@[i].stack_index >= level,
            forall|i: int| 0 <= i < final(self)@.len() ==> #[trigger] final(self)@[i].stack_index < level,
    {
        proof {
            lemma_at_or_above_splits(self@, level as int);
        }
        let ghost before = self@;
        let n = self.entries.len();
        let mut k: usize = 0;
        while k < n && self.entries[k].stack_index >= level
            invariant
                n == self@.len(),
                k <= n,
                self@ == before,
                forall|i: int| 0 <= i < k ==> #[trigger] self@[i].stack_index >= level,
            decreases n - k,
        {
            k += 1;
        }
        proof {
            let m = at_or_above(before, level as int) as int;
            if k < m {
                assert(before[k as int].stack_index >= level);
            }
            if m < k {
                assert(before[m].stack_index < level);
            }
        }
        let mut rest = self.entries.split_off(k);
        std::mem::swap(&mut self.entries, &mut rest);
        proof {
            assert(rest@ =~= before.take(k as int));
            assert(self@ =~= before.skip(k as int));
            assert forall|i: int, j: int| 0 <= i < j < self@.len() implies #[trigger] self@[i].stack_index
                > #[trigger] self@[j].stack_index by {
                assert(self@[i] == before[i + k]);
                assert(self@[j] == before[j + k]);
            }
        }
        rest
    }
}

/// What the collector says of one open upvalue at shutdown.
#[derive(Clone, Copy, Debug, PartialEq, Eq, Structural)]
pub struct UpvalueCheck {
    /// The upvalue object is registered with the state's own collector.
    pub registered: bool,
    /// The upvalue aliases this state's stack.
    pub owner_matches: bool,
    /// The upvalue is still open.
    pub is_open: bool,
}

/// `r` with one more closed upvalue, rejected edge, cycle, owner mismatch or
/// missing stack value, as the flags say.
pub open spec fn counted_report(
    r: LuaStateShutdownReport,
    closed: bool,
    rejected: bool,
    cycle: bool,
    mismatch: bool,
    missing: bool,
) -> LuaStateShutdownReport {
    LuaStateShutdownReport {
        closed_open_upvalues: (r.closed_open_upvalues + if closed { 1int } else { 0int }) as usize,
        rejected_open_upvalue_edges: (r.rejected_open_upvalue_edges + if rejected { 1int } else { 0int }) as usize,
        open_upvalue_cycles: (r.open_upvalue_cycles + if cycle { 1int } else { 0int }) as usize,
        open_upvalue_owner_mismatches: (r.open_upvalue_owner_mismatches + if mismatch { 1int } else { 0int }) as usize,
        open_upvalue_stack_values_missing: (r.open_upvalue_stack_values_missing + if missing { 1int } else { 0int }) as usize,
    }
}

/// Walk the open upvalues from position `i` on at shutdown. An entry whose
/// object is not registered is a rejected edge, and an object met a second
/// time is a cycle; either ends the walk. Otherwise an owner mismatch is
/// counted; the closing value is the stack slot's value when the owner
/// matches and the slot is below `top` and initialized, and nil otherwise (a
/// matching owner without such a slot counts a missing value); and an open
/// upvalue is closed with that value. Gives the report and the closed
/// upvalues with their values, in list order.
pub open spec fn shutdown_walk<V>(
    entries: Seq<OpenUpvalue>,
    checks: Seq<UpvalueCheck>,
    slots: Seq<V>,
    top: nat,
    nil: V,
    i: nat,
    report: LuaStateShutdownReport,
    closed: Seq<(u64, V)>,
    seen: Seq<u64>,
) -> (LuaStateShutdownReport, Seq<(u64, V)>)
    decreases entries.len() - i,
{
    if i >= entries.len() {
        (report, closed)
    } else {
        let e = entries[i as int];
        let c = checks[i as int];
        if !c.registered {
            (counted_report(report, false, true, false, false, false), closed)
        } else if seen.contains(e.upvalue) {
            (counted_report(report, false, false, true, false, false), closed)
        } else {
            let in_window = c.owner_matches && e.stack_index < top;
            let initialized = e.stack_index < slots.len();
            let value = if in_window && initialized {
                slots[e.stack_index as int]
            } else {
                nil
            };
            let missing = c.owner_matches && !(in_window && initialized);
            shutdown_walk(
                entries,
                checks,
                slots,
                top,
                nil,
                i + 1,
                counted_report(report, c.is_open, false, false, !c.owner_matches, missing),
                if c.is_open {
                    closed.push((e.upvalue, value))
                } else {
                    closed
                },
                seen.push(e.upvalue),
            )
        }
    }
}

/// The shutdown report counts exactly the upvalues that the walk hands back
/// to be closed, and never more than the entries.
pub proof fn lemma_shutdown_counts_closed<V>(
    entries: Seq<OpenUpvalue>,
    checks: Seq<UpvalueCheck>,
    slots: Seq<V>,
    top: nat,
    nil: V,
    i: nat,
    report: LuaStateShutdownReport,
    closed: Seq<(u64, V)>,
    seen: Seq<u64>,
)
    requires
        i <= entries.len(),
        report.closed_open_upvalues == closed.len(),
        closed.len() <= i,
        report.rejected_open_upvalue_edges == 0,
        report.open_upvalue_cycles == 0,
        report.open_upvalue_owner_mismatches <= i,
        report.open_upvalue_stack_values_missing <= i,
        entries.len() < usize::MAX,
    ensures
        ({
            let (r, c) = shutdown_walk(entries, checks, slots, top, nil, i, report, closed, seen);
            &&& r.closed_open_upvalues == c.len()
            &&& c.len() <= entries.len()
            &&& r.rejected_open_upvalue_edges + r.open_upvalue_cycles <= 1
        }),
    decreases entries.len() - i,
{
    if i < entries.len() {
        let e = entries[i as int];
        let c = checks[i as int];
        if c.registered && !seen.contains(e.upvalue) {
            let in_window = c.owner_matches && e.stack_index < top;
            let initialized = e.stack_index < slots.len();
            let value = if in_window && initialized {
                slots[e.stack_index as int]
            } else {
                nil
            };
            let missing = c.owner_matches && !(in_window && initialized);
            lemma_shutdown_counts_closed(
                entries,
                checks,
                slots,
                top,
                nil,
                i + 1,
                counted_report(report, c.is_open, false, false, !c.owner_matches, missing),
                if c.is_open {
                    closed.push((e.upvalue, value))
                } else {
                    closed
                },
                seen.push(e.upvalue),
            );
        }
    }
}

} // verus!
