//! Runtime-owned generational arena for Lua coroutine states.
//!
//! Every state known to a runtime sits in a slot. A handle names a runtime, a
//! slot and the slot's generation; a handle resolves only while its slot still
//! carries that generation and holds a state. Vacating a slot advances its
//! generation (so older handles become stale) and puts the slot on the free
//! list, except at the last generation, where the slot is retired for good.
//!
//! States are identified here by a plain `u64` key (the identity of the state
//! allocation); the arena never owns the state objects themselves. A slot is
//! "owned" when the arena is responsible for destroying its state, and
//! "external" when the state is kept elsewhere (the runtime's main state).

use vstd::prelude::*;

verus! {

/// Runtime-scoped generational name of one Lua state.
#[derive(Clone, Copy, Debug, PartialEq, Eq, Structural)]
pub struct StateHandle {
    /// Runtime that issued the handle.
    pub runtime_id: u64,
    /// Slot index inside that runtime's arena.
    pub slot: usize,
    /// Slot generation at the time the handle was issued.
    pub generation: u64,
}

impl StateHandle {
    /// A handle with the given runtime, slot and generation.
    pub fn new(runtime_id: u64, slot: usize, generation: u64) -> (h: StateHandle)
        ensures
            h.runtime_id == runtime_id,
            h.slot == slot,
            h.generation == generation,
    {
        StateHandle { runtime_id, slot, generation }
    }

    /// Whether two handles name the same runtime, slot and generation.
    pub fn same_as(&self, other: &StateHandle) -> (r: bool)
        ensures
            r == (*self == *other),
    {
        self.runtime_id == other.runtime_id && self.slot == other.slot && self.generation
            == other.generation
    }
}

/// Failure to resolve a generational Lua state handle.
#[derive(Clone, Copy, Debug, PartialEq, Eq)]
pub enum StateResolveError {
    /// A standalone state has no runtime arena.
    ArenaUnavailable,
    /// The handle belongs to another runtime.
    ForeignRuntime { expected: u64, actual: u64 },
    /// The handle's slot does not exist.
    InvalidSlot { slot: usize },
    /// The slot has been reused since this handle was issued.
    StaleGeneration { slot: usize, requested: u64, actual: u64 },
    /// The slot exhausted its generations and can never be reused.
    RetiredSlot { slot: usize, generation: u64 },
    /// A valid-generation slot currently holds no state.
    Vacant { slot: usize, generation: u64 },
    /// The state is already exclusively borrowed.
    AlreadyBorrowed { slot: usize, generation: u64 },
    /// A runtime turn owns a state; nested resolution is refused.
    TurnBorrowActive { slot: usize, generation: u64 },
    /// Resolution named the caller's own, currently borrowed state.
    CurrentState,
    /// The registered state did not match the expected state.
    PointerMismatch,
    /// The slot is not owned by the arena.
    NotOwned { slot: usize },
    /// The slot is owned by the arena, not external.
    NotExternal { slot: usize },
    /// Internal bookkeeping disagreed before a destructive action.
    ArenaInvariant { reason: &'static str },
}

/// One arena slot.
#[derive(Clone, Copy, Debug, PartialEq, Eq)]
pub struct StateSlot {
    /// Current generation; never zero.
    pub generation: u64,
    /// Key of the state held by the slot, if any.
    pub state: Option<u64>,
    /// Whether the arena owns the held state.
    pub owned: bool,
    /// Whether the held state is exclusively borrowed.
    pub borrowed: bool,
    /// Whether the slot has used up its generations.
    pub retired: bool,
}

/// Abstract contents of a `StateArena`.
pub struct ArenaModel {
    pub runtime_id: u64,
    pub slots: Seq<StateSlot>,
    pub free: Seq<usize>,
    pub live_owned: nat,
    pub turn: Option<StateHandle>,
}

/// Whether a slot holds a state that the arena owns.
pub open spec fn occupied_owned(s: StateSlot) -> bool {
    s.state is Some && s.owned
}

/// Number of slots that hold an arena-owned state.
pub open spec fn occupied_owned_count(slots: Seq<StateSlot>) -> nat
    decreases slots.len(),
{
    if slots.len() == 0 {
        0
    } else {
        occupied_owned_count(slots.drop_last()) + if occupied_owned(slots.last()) {
            1nat
        } else {
            0nat
        }
    }
}

/// Number of borrowed slots.
pub open spec fn borrowed_count(slots: Seq<StateSlot>) -> nat
    decreases slots.len(),
{
    if slots.len() == 0 {
        0
    } else {
        borrowed_count(slots.drop_last()) + if slots.last().borrowed {
            1nat
        } else {
            0nat
        }
    }
}

/// Keys of the arena-owned states, in slot order.
pub open spec fn owned_states(slots: Seq<StateSlot>) -> Seq<u64>
    decreases slots.len(),
{
    if slots.len() == 0 {
        Seq::empty()
    } else if occupied_owned(slots.last()) {
        owned_states(slots.drop_last()).push(slots.last().state->0)
    } else {
        owned_states(slots.drop_last())
    }
}

impl ArenaModel {
    /// Every slot generation is non-zero.
    pub open spec fn generations_nonzero(self) -> bool {
        forall|i: int| 0 <= i < self.slots.len() ==> #[trigger] self.slots[i].generation != 0
    }

    /// Bookkeeping of slot `i` agrees with its retirement, occupancy and the
    /// free list.
    pub open spec fn slot_consistent(self, i: int) -> bool {
        let s = self.slots[i];
        &&& s.generation != 0
        &&& s.retired ==> {
            &&& s.state is None
            &&& !s.owned
            &&& !s.borrowed
            &&& !self.free.contains(i as usize)
            &&& s.generation == u64::MAX
        }
        &&& (!s.retired && s.state is Some) ==> !self.free.contains(i as usize)
        &&& (!s.retired && s.state is None) ==> {
            &&& !s.owned
            &&& !s.borrowed
            &&& self.free.contains(i as usize)
        }
    }

    /// The whole arena is internally consistent.
    pub open spec fn consistent(self) -> bool {
        &&& self.slots.len() <= usize::MAX
        &&& forall|k: int| 0 <= k < self.free.len() ==> #[trigger] self.free[k] < self.slots.len()
        &&& self.free.no_duplicates()
        &&& forall|i: int| 0 <= i < self.slots.len() ==> #[trigger] self.slot_consistent(i)
        &&& occupied_owned_count(self.slots) == self.live_owned
        &&& self.turn matches Some(h) ==> {
            &&& h.runtime_id == self.runtime_id
            &&& h.slot < self.slots.len()
            &&& !self.slots[h.slot as int].retired
            &&& self.slots[h.slot as int].generation == h.generation
            &&& self.slots[h.slot as int].state is Some
            &&& self.slots[h.slot as int].borrowed
            &&& borrowed_count(self.slots) == 1
        }
    }

    /// What validating `h` against this arena gives: the slot index and the
    /// state key, or the first failed check.
    pub open spec fn validate(self, h: StateHandle) -> Result<(usize, u64), StateResolveError> {
        if h.runtime_id != self.runtime_id {
            Err(StateResolveError::ForeignRuntime { expected: self.runtime_id, actual: h.runtime_id })
        } else if h.slot >= self.slots.len() {
            Err(StateResolveError::InvalidSlot { slot: h.slot })
        } else if self.slots[h.slot as int].retired {
            Err(
                StateResolveError::RetiredSlot {
                    slot: h.slot,
                    generation: self.slots[h.slot as int].generation,
                },
            )
        } else if self.slots[h.slot as int].generation != h.generation {
            Err(
                StateResolveError::StaleGeneration {
                    slot: h.slot,
                    requested: h.generation,
                    actual: self.slots[h.slot as int].generation,
                },
            )
        } else {
            match self.slots[h.slot as int].state {
                None => Err(StateResolveError::Vacant { slot: h.slot, generation: h.generation }),
                Some(st) => Ok((h.slot, st)),
            }
        }
    }

    /// The error for resolving the already borrowed slot of `h`.
    pub open spec fn borrowed_error(self, h: StateHandle) -> StateResolveError {
        StateResolveError::AlreadyBorrowed {
            slot: h.slot,
            generation: self.slots[h.slot as int].generation,
        }
    }

    /// What resolving `h` for a nested borrow by `current` gives.
    pub open spec fn resolve(self, h: StateHandle, current: u64) -> Result<u64, StateResolveError> {
        match self.validate(h) {
            Err(e) => Err(e),
            Ok((slot, st)) => if st == current {
                Err(StateResolveError::CurrentState)
            } else if self.slots[slot as int].borrowed {
                Err(self.borrowed_error(h))
            } else {
                Ok(st)
            },
        }
    }

    /// What resolving `h` for a read-only trace gives.
    pub open spec fn resolve_for_trace(self, h: StateHandle) -> Result<u64, StateResolveError> {
        match self.validate(h) {
            Err(e) => Err(e),
            Ok((slot, st)) => if self.slots[slot as int].borrowed {
                Err(self.borrowed_error(h))
            } else {
                Ok(st)
            },
        }
    }

    /// The error for an active runtime turn, if there is one.
    pub open spec fn turn_error(self) -> Option<StateResolveError> {
        match self.turn {
            Some(t) => Some(
                StateResolveError::TurnBorrowActive { slot: t.slot, generation: t.generation },
            ),
            None => None,
        }
    }

    /// `b` differs from `self` only in slot `i`, which now holds `s`.
    pub open spec fn with_slot(self, i: int, s: StateSlot) -> ArenaModel {
        ArenaModel { slots: self.slots.update(i, s), ..self }
    }

    /// Slots only ever advance: no slot disappears, no generation decreases,
    /// and a retired slot stays retired.
    pub open spec fn evolves_to(self, later: ArenaModel) -> bool {
        &&& later.runtime_id == self.runtime_id
        &&& self.slots.len() <= later.slots.len()
        &&& forall|i: int|
            0 <= i < self.slots.len() ==> {
                &&& self.slots[i].generation <= #[trigger] later.slots[i].generation
                &&& self.slots[i].retired ==> later.slots[i].retired
                &&& self.slots[i].retired ==> later.slots[i].generation
                    == self.slots[i].generation
            }
    }
}

/// Runtime-owned generational arena for Lua coroutine states.
pub struct StateArena {
    runtime_id: u64,
    slots: Vec<StateSlot>,
    free_slots: Vec<usize>,
    live_owned_states: usize,
    turn_borrow: Option<StateHandle>,
}

impl View for StateArena {
    type V = ArenaModel;

    closed spec fn view(&self) -> ArenaModel {
        ArenaModel {
            runtime_id: self.runtime_id,
            slots: self.slots@,
            free: self.free_slots@,
            live_owned: self.live_owned_states as nat,
            turn: self.turn_borrow,
        }
    }
}

// ---------------------------------------------------------------------------
// Counting lemmas
// ---------------------------------------------------------------------------

proof fn lemma_owned_count_update(slots: Seq<StateSlot>, i: int, s: StateSlot)
    requires
        0 <= i < slots.len(),
    ensures
        occupied_owned_count(slots.update(i, s)) + (if occupied_owned(slots[i]) {
            1int
        } else {
            0int
        }) == occupied_owned_count(slots) + (if occupied_owned(s) {
            1int
        } else {
            0int
        }),
    decreases slots.len(),
{
    let u = slots.update(i, s);
    if i == slots.len() - 1 {
        assert(u.drop_last() =~= slots.drop_last());
    } else {
        assert(u.drop_last() =~= slots.drop_last().update(i, s));
        lemma_owned_count_update(slots.drop_last(), i, s);
    }
}

proof fn lemma_borrowed_count_update(slots: Seq<StateSlot>, i: int, s: StateSlot)
    requires
        0 <= i < slots.len(),
    ensures
        borrowed_count(slots.update(i, s)) + (if slots[i].borrowed {
            1int
        } else {
            0int
        }) == borrowed_count(slots) + (if s.borrowed {
            1int
        } else {
            0int
        }),
    decreases slots.len(),
{
    let u = slots.update(i, s);
    if i == slots.len() - 1 {
        assert(u.drop_last() =~= slots.drop_last());
    } else {
        assert(u.drop_last() =~= slots.drop_last().update(i, s));
        lemma_borrowed_count_update(slots.drop_last(), i, s);
    }
}

proof fn lemma_borrowed_count_zero(slots: Seq<StateSlot>)
    requires
        forall|i: int| 0 <= i < slots.len() ==> !(#[trigger] slots[i]).borrowed,
    ensures
        borrowed_count(slots) == 0,
    decreases slots.len(),
{
    if slots.len() > 0 {
        assert forall|i: int| 0 <= i < slots.drop_last().len() implies !(
        #[trigger] slots.drop_last()[i]).borrowed by {
            assert(slots.drop_last()[i] == slots[i]);
        }
        lemma_borrowed_count_zero(slots.drop_last());
    }
}

/// With exactly one borrowed slot `t`, every other slot is unborrowed.
proof fn lemma_single_borrow(slots: Seq<StateSlot>, t: int, j: int)
    requires
        0 <= t < slots.len(),
        0 <= j < slots.len(),
        t != j,
        slots[t].borrowed,
        borrowed_count(slots) == 1,
    ensures
        !slots[j].borrowed,
{
    let cleared = StateSlot { borrowed: false, ..slots[t] };
    lemma_borrowed_count_update(slots, t, cleared);
    let u = slots.update(t, cleared);
    assert(u[j] == slots[j]);
    if slots[j].borrowed {
        let cleared2 = StateSlot { borrowed: false, ..u[j] };
        lemma_borrowed_count_update(u, j, cleared2);
    }
}

proof fn lemma_owned_count_positive(slots: Seq<StateSlot>, i: int)
    requires
        0 <= i < slots.len(),
        occupied_owned(slots[i]),
    ensures
        occupied_owned_count(slots) >= 1,
{
    let cleared = StateSlot { state: None, ..slots[i] };
    lemma_owned_count_update(slots, i, cleared);
}

proof fn lemma_owned_count_push(slots: Seq<StateSlot>, s: StateSlot)
    ensures
        occupied_owned_count(slots.push(s)) == occupied_owned_count(slots) + if occupied_owned(s) {
            1nat
        } else {
            0nat
        },
        borrowed_count(slots.push(s)) == borrowed_count(slots) + if s.borrowed {
            1nat
        } else {
            0nat
        },
{
    assert(slots.push(s).drop_last() =~= slots);
}

proof fn lemma_owned_count_zero(slots: Seq<StateSlot>)
    requires
        forall|i: int| 0 <= i < slots.len() ==> !occupied_owned(#[trigger] slots[i]),
    ensures
        occupied_owned_count(slots) == 0,
        owned_states(slots) == Seq::<u64>::empty(),
    decreases slots.len(),
{
    if slots.len() > 0 {
        assert forall|i: int| 0 <= i < slots.drop_last().len() implies !occupied_owned(
            #[trigger] slots.drop_last()[i],
        ) by {
            assert(slots.drop_last()[i] == slots[i]);
        }
        lemma_owned_count_zero(slots.drop_last());
    }
}

/// `owned_states` of a prefix only depends on that prefix.
proof fn lemma_owned_states_step(slots: Seq<StateSlot>, i: int)
    requires
        0 <= i < slots.len(),
    ensures
        owned_states(slots.take(i + 1)) == if occupied_owned(slots[i]) {
            owned_states(slots.take(i)).push(slots[i].state->0)
        } else {
            owned_states(slots.take(i))
        },
{
    assert(slots.take(i + 1).drop_last() =~= slots.take(i));
    assert(slots.take(i + 1).last() == slots[i]);
}

// ---------------------------------------------------------------------------
// Consistency lemmas
// ---------------------------------------------------------------------------

/// Filling the vacant, reserved slot `i` (just removed from the free list, or
/// just appended) keeps a consistent arena consistent.
proof fn lemma_fill_keeps_consistent(a: ArenaModel, b: ArenaModel, i: int, key: u64, owned: bool)
    requires
        a.consistent(),
        0 <= i < a.slots.len(),
        !a.slots[i].retired,
        a.slots[i].state is None,
        a.free.len() > 0,
        a.free.last() == i as usize,
        b.runtime_id == a.runtime_id,
        b.turn == a.turn,
        b.free == a.free.drop_last(),
        b.slots == a.slots.update(i, StateSlot { state: Some(key), owned, ..a.slots[i] }),
        b.live_owned == a.live_owned + if owned {
            1nat
        } else {
            0nat
        },
    ensures
        b.consistent(),
{
    let ns = StateSlot { state: Some(key), owned, ..a.slots[i] };
    lemma_owned_count_update(a.slots, i, ns);
    lemma_borrowed_count_update(a.slots, i, ns);
    assert forall|k: int| 0 <= k < b.free.len() implies #[trigger] b.free[k] < b.slots.len() by {
        assert(b.free[k] == a.free[k]);
    }
    assert(b.free.no_duplicates()) by {
        assert forall|x: int, y: int| 0 <= x < y < b.free.len() implies b.free[x] != b.free[y] by {
            assert(b.free[x] == a.free[x]);
            assert(b.free[y] == a.free[y]);
        }
    }
    assert forall|j: int| 0 <= j < b.slots.len() implies #[trigger] b.slot_consistent(j) by {
        assert(a.slot_consistent(j));
        if j == i {
            // the last free entry was i and entries are distinct
            if b.free.contains(j as usize) {
                let k = choose|k: int| 0 <= k < b.free.len() && b.free[k] == j as usize;
                assert(a.free[k] == a.free[a.free.len() - 1]);
            }
        } else {
            assert(b.slots[j] == a.slots[j]);
            if a.free.contains(j as usize) {
                let k = choose|k: int| 0 <= k < a.free.len() && a.free[k] == j as usize;
                assert(a.free[a.free.len() - 1] == i as usize);
                assert(k != a.free.len() - 1);
                assert(b.free[k] == j as usize);
            }
            if b.free.contains(j as usize) {
                let k = choose|k: int| 0 <= k < b.free.len() && b.free[k] == j as usize;
                assert(a.free[k] == j as usize);
            }
        }
    }
}

/// Appending a fresh, filled slot keeps a consistent arena consistent.
proof fn lemma_append_keeps_consistent(a: ArenaModel, b: ArenaModel, key: u64, owned: bool)
    requires
        a.consistent(),
        a.slots.len() < usize::MAX,
        a.free.len() == 0,
        b.runtime_id == a.runtime_id,
        b.turn == a.turn,
        b.free == a.free,
        b.slots == a.slots.push(
            StateSlot {
                generation: 1,
                state: Some(key),
                owned,
                borrowed: false,
                retired: false,
            },
        ),
        b.live_owned == a.live_owned + if owned {
            1nat
        } else {
            0nat
        },
    ensures
        b.consistent(),
{
    let ns = StateSlot { generation: 1, state: Some(key), owned, borrowed: false, retired: false };
    lemma_owned_count_push(a.slots, ns);
    assert forall|j: int| 0 <= j < b.slots.len() implies #[trigger] b.slot_consistent(j) by {
        if j < a.slots.len() {
            assert(a.slot_consistent(j));
            assert(b.slots[j] == a.slots[j]);
        }
    }
}

/// Vacating slot `i` (which holds an unborrowed state that is not the active
/// turn) keeps a consistent arena consistent.
proof fn lemma_vacate_keeps_consistent(a: ArenaModel, b: ArenaModel, i: int)
    requires
        a.consistent(),
        0 <= i < a.slots.len(),
        a.slots[i].state is Some,
        !a.slots[i].borrowed,
        !a.slots[i].retired,
        b.runtime_id == a.runtime_id,
        b.turn == a.turn,
        b.live_owned + (if occupied_owned(a.slots[i]) {
            1int
        } else {
            0int
        }) == a.live_owned,
        a.slots[i].generation == u64::MAX ==> {
            &&& b.free == a.free
            &&& b.slots == a.slots.update(
                i,
                StateSlot {
                    state: None,
                    owned: false,
                    borrowed: false,
                    retired: true,
                    ..a.slots[i]
                },
            )
        },
        a.slots[i].generation != u64::MAX ==> {
            &&& b.free == a.free.push(i as usize)
            &&& b.slots == a.slots.update(
                i,
                StateSlot {
                    generation: (a.slots[i].generation + 1) as u64,
                    state: None,
                    owned: false,
                    borrowed: false,
                    retired: false,
                },
            )
        },
    ensures
        b.consistent(),
{
    let ns = b.slots[i];
    lemma_owned_count_update(a.slots, i, ns);
    lemma_borrowed_count_update(a.slots, i, ns);
    assert(a.slot_consistent(i));
    assert forall|k: int| 0 <= k < b.free.len() implies #[trigger] b.free[k] < b.slots.len() by {
        if k < a.free.len() {
            assert(b.free[k] == a.free[k]);
        }
    }
    assert(b.free.no_duplicates()) by {
        assert forall|x: int, y: int| 0 <= x < y < b.free.len() implies b.free[x] != b.free[y] by {
            assert(b.free[x] == a.free[x]);
            if y < a.free.len() {
                assert(b.free[y] == a.free[y]);
            } else {
                assert(b.free[y] == i as usize);
                assert(a.free.contains(a.free[x]));
            }
        }
    }
    assert forall|j: int| 0 <= j < b.slots.len() implies #[trigger] b.slot_consistent(j) by {
        assert(a.slot_consistent(j));
        if j == i {
            if a.slots[i].generation != u64::MAX {
                assert(b.free[a.free.len() as int] == i as usize);
            }
        } else {
            assert(b.slots[j] == a.slots[j]);
            if a.free.contains(j as usize) {
                let k = choose|k: int| 0 <= k < a.free.len() && a.free[k] == j as usize;
                assert(b.free[k] == j as usize);
                assert(b.free.contains(j as usize));
            }
            if b.free.contains(j as usize) {
                let k = choose|k: int| 0 <= k < b.free.len() && b.free[k] == j as usize;
                if k < a.free.len() {
                    assert(a.free[k] == j as usize);
                } else {
                    assert(b.free[k] == i as usize);
                }
                assert(a.free.contains(j as usize));
            }
        }
    }
    if let Some(h) = a.turn {
        assert(h.slot != i);
        assert(b.slots[h.slot as int] == a.slots[h.slot as int]);
    }
}

/// Setting the borrow flag of an occupied slot to `flag` keeps a consistent
/// arena consistent when no runtime turn is active.
proof fn lemma_borrow_flag_keeps_consistent(a: ArenaModel, b: ArenaModel, i: int, flag: bool)
    requires
        a.consistent(),
        a.turn is None,
        0 <= i < a.slots.len(),
        a.slots[i].state is Some,
        b.runtime_id == a.runtime_id,
        b.turn == a.turn,
        b.free == a.free,
        b.live_owned == a.live_owned,
        b.slots == a.slots.update(i, StateSlot { borrowed: flag, ..a.slots[i] }),
    ensures
        b.consistent(),
{
    let ns = StateSlot { borrowed: flag, ..a.slots[i] };
    lemma_owned_count_update(a.slots, i, ns);
    assert forall|j: int| 0 <= j < b.slots.len() implies #[trigger] b.slot_consistent(j) by {
        assert(a.slot_consistent(j));
        if j != i {
            assert(b.slots[j] == a.slots[j]);
        }
    }
}

proof fn lemma_consistent_generations_nonzero(a: ArenaModel)
    requires
        a.consistent(),
    ensures
        a.generations_nonzero(),
{
    assert forall|i: int| 0 <= i < a.slots.len() implies #[trigger] a.slots[i].generation != 0 by {
        assert(a.slot_consistent(i));
    }
}

/// How often `i` appears in `free`.
pub open spec fn count_in(free: Seq<usize>, i: usize) -> nat
    decreases free.len(),
{
    if free.len() == 0 {
        0
    } else {
        count_in(free.drop_last(), i) + if free.last() == i {
            1nat
        } else {
            0nat
        }
    }
}

impl ArenaModel {
    /// Whether some free-list entry names no slot.
    pub open spec fn free_out_of_range(self) -> bool {
        exists|k: int| 0 <= k < self.free.len() && #[trigger] self.free[k] >= self.slots.len()
    }

    /// The problem with slot `j`, if any, checked in this order: a zero
    /// generation, a duplicate free-list entry, a retired slot that is
    /// occupied, flagged, listed or below the last generation, an occupied
    /// slot on the free list, a vacant slot with flags or not listed once.
    pub open spec fn slot_violation(self, j: int) -> Option<Seq<char>> {
        let s = self.slots[j];
        let c = count_in(self.free, j as usize);
        if s.generation == 0 {
            Some("slot generation is zero"@)
        } else if c > 1 {
            Some("free-list contains a duplicate slot"@)
        } else if s.retired {
            if s.state is Some || s.owned || s.borrowed || c != 0 || s.generation != u64::MAX {
                Some("retired slot is occupied, reusable, or below generation max"@)
            } else {
                None
            }
        } else if s.state is Some {
            if c != 0 {
                Some("occupied slot appears in the free-list"@)
            } else {
                None
            }
        } else if s.owned || s.borrowed || c != 1 {
            Some("vacant reusable slot has invalid flags or free-list count"@)
        } else {
            None
        }
    }

    /// The first problem among the first `n` slots.
    pub open spec fn first_slot_violation(self, n: int) -> Option<Seq<char>>
        decreases n,
    {
        if n <= 0 {
            None
        } else {
            match self.first_slot_violation(n - 1) {
                Some(r) => Some(r),
                None => self.slot_violation(n - 1),
            }
        }
    }

    /// The problem with the active turn, if any.
    pub open spec fn turn_violation(self) -> Option<Seq<char>> {
        match self.turn {
            None => None,
            Some(h) => if h.runtime_id != self.runtime_id {
                Some("active turn handle belongs to another runtime"@)
            } else if h.slot >= self.slots.len() {
                Some("active turn handle points outside the slot table"@)
            } else if self.slots[h.slot as int].retired || self.slots[h.slot as int].generation
                != h.generation || self.slots[h.slot as int].state is None
                || !self.slots[h.slot as int].borrowed {
                Some("active turn handle disagrees with its borrowed slot"@)
            } else if borrowed_count(self.slots) != 1 {
                Some("active Runtime turn does not own exactly one state slot"@)
            } else {
                None
            },
        }
    }

    /// The first problem with the arena's bookkeeping: free-list bounds, then
    /// each slot in order, then the live owned count, then the active turn.
    pub open spec fn first_violation(self) -> Option<Seq<char>> {
        if self.free_out_of_range() {
            Some("free-list index is outside the slot table"@)
        } else {
            match self.first_slot_violation(self.slots.len() as int) {
                Some(r) => Some(r),
                None => if occupied_owned_count(self.slots) != self.live_owned {
                    Some("live owned-state count disagrees with occupied slots"@)
                } else {
                    self.turn_violation()
                },
            }
        }
    }
}

proof fn lemma_count_in_contains(free: Seq<usize>, i: usize)
    ensures
        count_in(free, i) > 0 <==> free.contains(i),
        count_in(free, i) <= free.len(),
    decreases free.len(),
{
    if free.len() > 0 {
        let f = free.drop_last();
        lemma_count_in_contains(f, i);
        if f.contains(i) {
            let k = choose|k: int| 0 <= k < f.len() && f[k] == i;
            assert(free[k] == i);
        }
        if free.contains(i) && free.last() != i {
            let k = choose|k: int| 0 <= k < free.len() && free[k] == i;
            assert(k < f.len());
            assert(f[k] == i);
        }
    }
}

proof fn lemma_count_in_no_duplicates(free: Seq<usize>)
    ensures
        free.no_duplicates() <==> forall|i: usize| #[trigger] count_in(free, i) <= 1,
    decreases free.len(),
{
    if free.len() > 0 {
        let f = free.drop_last();
        let x = free.last();
        lemma_count_in_no_duplicates(f);
        lemma_count_in_contains(f, x);
        if free.no_duplicates() {
            assert(f.no_duplicates()) by {
                assert forall|a: int, b: int| 0 <= a < b < f.len() implies f[a] != f[b] by {
                    assert(free[a] == f[a] && free[b] == f[b]);
                }
            }
            assert(!f.contains(x)) by {
                if f.contains(x) {
                    let k = choose|k: int| 0 <= k < f.len() && f[k] == x;
                    assert(free[k] == free[free.len() - 1]);
                }
            }
            assert forall|i: usize| #[trigger] count_in(free, i) <= 1 by {
                assert(count_in(f, i) <= 1);
            }
        } else {
            if forall|i: usize| #[trigger] count_in(free, i) <= 1 {
                assert forall|i: usize| #[trigger] count_in(f, i) <= 1 by {
                    assert(count_in(free, i) <= 1);
                }
                assert(count_in(free, x) <= 1);
                assert(!f.contains(x));
                assert forall|a: int, b: int| 0 <= a < b < free.len() implies free[a] != free[b] by {
                    if b == free.len() - 1 {
                        assert(f[a] == free[a]);
                        if free[a] == free[b] {
                            assert(f.contains(x));
                        }
                    } else {
                        assert(f[a] == free[a] && f[b] == free[b]);
                    }
                }
            }
        }
    } else {
        assert forall|i: usize| #[trigger] count_in(free, i) <= 1 by {}
    }
}

proof fn lemma_count_in_out_of_range(free: Seq<usize>, i: usize, n: int)
    requires
        forall|k: int| 0 <= k < free.len() ==> #[trigger] free[k] < n,
        i >= n,
    ensures
        count_in(free, i) == 0,
    decreases free.len(),
{
    if free.len() > 0 {
        lemma_count_in_out_of_range(free.drop_last(), i, n);
    }
}

proof fn lemma_first_slot_violation_stable(a: ArenaModel, n: int, m: int)
    requires
        0 <= n <= m,
        a.first_slot_violation(n) is Some,
    ensures
        a.first_slot_violation(m) == a.first_slot_violation(n),
    decreases m - n,
{
    if n < m {
        lemma_first_slot_violation_stable(a, n, m - 1);
    }
}

proof fn lemma_first_slot_violation_none(a: ArenaModel, n: int)
    requires
        0 <= n <= a.slots.len(),
    ensures
        a.first_slot_violation(n) is None <==> forall|j: int| 0 <= j < n ==> #[trigger] a.slot_violation(j) is None,
    decreases n,
{
    if n > 0 {
        lemma_first_slot_violation_none(a, n - 1);
    }
}

/// An arena model has no bookkeeping problem exactly when it is consistent.
proof fn lemma_violation_iff_inconsistent(a: ArenaModel)
    requires
        a.slots.len() <= usize::MAX,
    ensures
        a.first_violation() is None <==> a.consistent(),
{
    let len = a.slots.len() as int;
    lemma_count_in_no_duplicates(a.free);
    lemma_first_slot_violation_none(a, len);
    if !a.free_out_of_range() {
        assert forall|k: int| 0 <= k < a.free.len() implies #[trigger] a.free[k] < a.slots.len() by {
            if a.free[k] >= a.slots.len() {
                assert(a.free_out_of_range());
            }
        }
        assert forall|i: usize| i >= a.slots.len() implies #[trigger] count_in(a.free, i) == 0 by {
            lemma_count_in_out_of_range(a.free, i, len);
        }
        assert forall|j: int| 0 <= j < len implies (#[trigger] a.slot_violation(j) is None
            <==> (a.slot_consistent(j) && count_in(a.free, j as usize) <= 1)) by {
            lemma_count_in_contains(a.free, j as usize);
        }
        if a.consistent() {
            assert forall|j: int| 0 <= j < len implies #[trigger] a.slot_violation(j) is None by {
                assert(a.slot_consistent(j));
                assert(count_in(a.free, j as usize) <= 1);
            }
            assert(a.first_slot_violation(len) is None);
            assert(a.turn_violation() is None);
        }
        if a.first_violation() is None {
            assert(a.first_slot_violation(len) is None);
            assert forall|i: usize| #[trigger] count_in(a.free, i) <= 1 by {
                if i < a.slots.len() {
                    assert(a.slot_violation(i as int) is None);
                } else {
                    assert(count_in(a.free, i) == 0);
                }
            }
            assert(a.free.no_duplicates());
            assert forall|j: int| 0 <= j < len implies #[trigger] a.slot_consistent(j) by {
                assert(a.slot_violation(j) is None);
            }
            assert(occupied_owned_count(a.slots) == a.live_owned);
            assert(a.turn_violation() is None);
        }
    } else {
        let k = choose|k: int| 0 <= k < a.free.len() && #[trigger] a.free[k] >= a.slots.len();
        assert(!(a.free[k] < a.slots.len()));
    }
}

impl ArenaModel {
    /// Index of the first of the first `n` slots that holds an owned state
    /// and is borrowed.
    pub open spec fn first_borrowed_owned(self, n: int) -> Option<int>
        decreases n,
    {
        if n <= 0 {
            None
        } else {
            match self.first_borrowed_owned(n - 1) {
                Some(i) => Some(i),
                None => if occupied_owned(self.slots[n - 1]) && self.slots[n - 1].borrowed {
                    Some(n - 1)
                } else {
                    None
                },
            }
        }
    }

    /// `r` is what the drain preflight reports: the first bookkeeping
    /// problem, else the first borrowed owned slot, else success.
    pub open spec fn drain_preflight(self, r: Result<(), StateResolveError>) -> bool {
        match self.first_violation() {
            Some(reason) => r matches Err(StateResolveError::ArenaInvariant { reason: x }) && x@
                == reason,
            None => match self.first_borrowed_owned(self.slots.len() as int) {
                Some(i) => r == Err::<(), StateResolveError>(
                    StateResolveError::AlreadyBorrowed {
                        slot: i as usize,
                        generation: self.slots[i].generation,
                    },
                ),
                None => r is Ok,
            },
        }
    }
}

proof fn lemma_first_borrowed_owned_step(a: ArenaModel, i: int)
    requires
        0 <= i,
        a.first_borrowed_owned(i) is None,
    ensures
        a.first_borrowed_owned(i + 1) == if occupied_owned(a.slots[i]) && a.slots[i].borrowed {
            Some(i)
        } else {
            None::<int>
        },
{
}

proof fn lemma_first_borrowed_owned_stable(a: ArenaModel, n: int, m: int)
    requires
        0 <= n <= m,
        a.first_borrowed_owned(n) is Some,
    ensures
        a.first_borrowed_owned(m) == a.first_borrowed_owned(n),
    decreases m - n,
{
    if n < m {
        lemma_first_borrowed_owned_stable(a, n, m - 1);
    }
}

proof fn lemma_first_borrowed_owned_none(a: ArenaModel, n: int)
    requires
        0 <= n <= a.slots.len(),
    ensures
        a.first_borrowed_owned(n) is None <==> forall|j: int|
            0 <= j < n ==> !(occupied_owned(#[trigger] a.slots[j]) && a.slots[j].borrowed),
    decreases n,
{
    if n > 0 {
        lemma_first_borrowed_owned_none(a, n - 1);
    }
}


// ---------------------------------------------------------------------------
// Laws
// ---------------------------------------------------------------------------

/// `evolves_to` is transitive: slots only ever advance.
pub proof fn lemma_evolves_transitive(a: ArenaModel, b: ArenaModel, c: ArenaModel)
    requires
        a.evolves_to(b),
        b.evolves_to(c),
    ensures
        a.evolves_to(c),
{
    assert forall|i: int| 0 <= i < a.slots.len() implies {
        &&& a.slots[i].generation <= #[trigger] c.slots[i].generation
        &&& a.slots[i].retired ==> c.slots[i].retired
        &&& a.slots[i].retired ==> c.slots[i].generation == a.slots[i].generation
    } by {
        assert(a.slots[i].generation <= b.slots[i].generation);
    }
}

/// A handle that names an older generation of its slot than the slot now
/// carries, or a retired slot, never resolves again however the arena
/// evolves.
pub proof fn lemma_stale_handle_stays_unresolvable(a: ArenaModel, b: ArenaModel, h: StateHandle)
    requires
        a.evolves_to(b),
        h.runtime_id == a.runtime_id,
        h.slot < a.slots.len(),
        a.slots[h.slot as int].retired || h.generation < a.slots[h.slot as int].generation,
    ensures
        b.validate(h) is Err,
{
    assert(a.slots[h.slot as int].generation <= b.slots[h.slot as int].generation);
}

/// In a consistent arena a handle that resolves names a slot that is not on
/// the free list, and two handles that resolve to slots are equal exactly when
/// their slots are equal.
pub proof fn lemma_resolving_handles_are_unique(a: ArenaModel, g: StateHandle, h: StateHandle)
    requires
        a.consistent(),
        a.validate(g) is Ok,
        a.validate(h) is Ok,
    ensures
        (g == h) <==> (g.slot == h.slot),
        !a.free.contains(g.slot),
{
    assert(a.slot_consistent(g.slot as int));
}

// ---------------------------------------------------------------------------
// Implementation
// ---------------------------------------------------------------------------

impl StateArena {
    /// An empty arena for runtime `runtime_id`.
    pub fn new(runtime_id: u64) -> (a: StateArena)
        ensures
            a@.runtime_id == runtime_id,
            a@.slots.len() == 0,
            a@.free.len() == 0,
            a@.live_owned == 0,
            a@.turn is None,
            a@.consistent(),
    {
        let a = StateArena {
            runtime_id,
            slots: Vec::new(),
            free_slots: Vec::new(),
            live_owned_states: 0,
            turn_borrow: None,
        };
        proof {
            assert(a@.free.no_duplicates());
        }
        a
    }

    /// An arena of runtime `runtime_id` made of the given slots, free list and
    /// owned-state count, with no active turn. Nothing is checked here: the
    /// parts are taken as they are, and `validate_internal_invariants` says
    /// whether they are consistent.
    pub fn from_parts(
        runtime_id: u64,
        slots: Vec<StateSlot>,
        free_slots: Vec<usize>,
        live_owned_states: usize,
    ) -> (a: StateArena)
        ensures
            a@ == (ArenaModel {
                runtime_id,
                slots: slots@,
                free: free_slots@,
                live_owned: live_owned_states as nat,
                turn: None,
            }),
    {
        StateArena { runtime_id, slots, free_slots, live_owned_states, turn_borrow: None }
    }

    /// Runtime this arena belongs to.
    pub fn runtime_id(&self) -> (r: u64)
        ensures
            r == self@.runtime_id,
    {
        self.runtime_id
    }

    /// Number of arena-owned states currently held.
    pub fn live_owned_state_count(&self) -> (r: usize)
        ensures
            r == self@.live_owned,
    {
        self.live_owned_states
    }

    /// Handle of the active runtime turn, if any.
    pub fn turn_borrow(&self) -> (r: Option<StateHandle>)
        ensures
            r == self@.turn,
    {
        self.turn_borrow
    }

    /// Reserve a vacant, reusable slot: the most recently freed one, or a new
    /// slot at generation 1. Free-list entries that do not name a vacant,
    /// reusable slot are discarded, so a live or retired slot is never handed
    /// out even when the free list is corrupt.
    fn reserve_slot(&mut self) -> (h: StateHandle)
        requires
            old(self)@.generations_nonzero(),
            old(self)@.slots.len() < usize::MAX,
        ensures
            final(self)@.runtime_id == old(self)@.runtime_id,
            final(self)@.turn == old(self)@.turn,
            final(self)@.live_owned == old(self)@.live_owned,
            final(self)@.generations_nonzero(),
            h.runtime_id == final(self)@.runtime_id,
            h.slot < final(self)@.slots.len(),
            final(self)@.slots[h.slot as int].generation == h.generation,
            final(self)@.slots[h.slot as int].state is None,
            !final(self)@.slots[h.slot as int].owned,
            !final(self)@.slots[h.slot as int].borrowed,
            !final(self)@.slots[h.slot as int].retired,
            final(self)@.slots.len() == old(self)@.slots.len() || (final(self)@.slots
                == old(self)@.slots.push(final(self)@.slots[h.slot as int]) && h.slot
                == old(self)@.slots.len() && h.generation == 1),
            final(self)@.slots.len() == old(self)@.slots.len() ==> final(self)@.slots
                == old(self)@.slots,
            final(self)@.free.len() <= old(self)@.free.len(),
            final(self)@.free == old(self)@.free.take(final(self)@.free.len() as int),
            old(self)@.consistent() && old(self)@.free.len() > 0 ==> {
                &&& h.slot == old(self)@.free.last()
                &&& final(self)@.free == old(self)@.free.drop_last()
                &&& final(self)@.slots == old(self)@.slots
            },
            old(self)@.consistent() && old(self)@.free.len() == 0 ==> final(self)@.slots.len()
                == old(self)@.slots.len() + 1,
    {
        let slot_index: usize;
        loop
            invariant_except_break
                self@.runtime_id == old(self)@.runtime_id,
                self@.turn == old(self)@.turn,
                self@.live_owned == old(self)@.live_owned,
                self@.slots == old(self)@.slots,
                self@.free.len() <= old(self)@.free.len(),
                self@.free == old(self)@.free.take(self@.free.len() as int),
                old(self)@.generations_nonzero(),
                old(self)@.slots.len() < usize::MAX,
                old(self)@.consistent() && old(self)@.free.len() > 0 ==> self@.free
                    == old(self)@.free,
            ensures
                self@.runtime_id == old(self)@.runtime_id,
                self@.turn == old(self)@.turn,
                self@.live_owned == old(self)@.live_owned,
                self@.generations_nonzero(),
                slot_index < self@.slots.len(),
                self@.slots[slot_index as int].state is None,
                !self@.slots[slot_index as int].owned,
                !self@.slots[slot_index as int].borrowed,
                !self@.slots[slot_index as int].retired,
                self@.slots.len() == old(self)@.slots.len() || (self@.slots == old(
                    self,
                )@.slots.push(self@.slots[slot_index as int]) && slot_index == old(
                    self,
                )@.slots.len() && self@.slots[slot_index as int].generation == 1),
                self@.slots.len() == old(self)@.slots.len() ==> self@.slots == old(self)@.slots,
                self@.free.len() <= old(self)@.free.len(),
                self@.free == old(self)@.free.take(self@.free.len() as int),
                old(self)@.consistent() && old(self)@.free.len() > 0 ==> {
                    &&& slot_index == old(self)@.free.last()
                    &&& self@.free == old(self)@.free.drop_last()
                    &&& self@.slots == old(self)@.slots
                },
                old(self)@.consistent() && old(self)@.free.len() == 0 ==> self@.slots.len()
                    == old(self)@.slots.len() + 1,
            decreases self@.free.len(),
        {
            match self.free_slots.pop() {
                Some(candidate) => {
                    proof {
                        assert(self@.free =~= old(self)@.free.take(self@.free.len() as int));
                        if old(self)@.consistent() && old(self)@.free.len() > 0 {
                            assert(old(self)@.slot_consistent(candidate as int));
                        }
                    }
                    if candidate < self.slots.len() {
                        let s = self.slots[candidate];
                        if !s.retired && s.state.is_none() && !s.owned && !s.borrowed {
                            slot_index = candidate;
                            break ;
                        }
                    }
                    // A stale or duplicated entry is dropped instead of
                    // overwriting a live or retired slot.
                },
                None => {
                    self.slots.push(
                        StateSlot {
                            generation: 1,
                            state: None,
                            owned: false,
                            borrowed: false,
                            retired: false,
                        },
                    );
                    slot_index = self.slots.len() - 1;
                    proof {
                        assert forall|i: int| 0 <= i < self@.slots.len() implies #[trigger] self@.slots[i].generation != 0 by {
                            if i < old(self)@.slots.len() {
                                assert(self@.slots[i] == old(self)@.slots[i]);
                            }
                        }
                    }
                    break ;
                },
            }
        }
        StateHandle {
            runtime_id: self.runtime_id,
            slot: slot_index,
            generation: self.slots[slot_index].generation,
        }
    }

    /// Register a state kept outside the arena (the runtime's main state).
    pub fn attach_external(&mut self, state: u64) -> (h: StateHandle)
        requires
            old(self)@.generations_nonzero(),
            old(self)@.slots.len() < usize::MAX,
        ensures
            final(self)@.generations_nonzero(),
            final(self)@.validate(h) == Ok::<(usize, u64), StateResolveError>((h.slot, state)),
            final(self)@.resolve_for_trace(h) == Ok::<u64, StateResolveError>(state),
            !final(self)@.slots[h.slot as int].owned,
            final(self)@.live_owned == old(self)@.live_owned,
            old(self)@.consistent() ==> final(self)@.consistent(),
            old(self)@.evolves_to(final(self)@),
            old(self)@.consistent() && old(self)@.free.len() > 0 ==> h.slot == old(self)@.free.last()
                && h.generation == old(self)@.slots[h.slot as int].generation,
            old(self)@.consistent() && old(self)@.free.len() == 0 ==> h.slot == old(self)@.slots.len()
                && h.generation == 1,
            forall|g: StateHandle| old(self)@.validate(g) is Ok ==> g != h,
            forall|g: StateHandle| #[trigger]
                old(self)@.validate(g) is Ok ==> final(self)@.validate(g) == old(self)@.validate(g),
    {
        let ghost before = self@;
        let h = self.reserve_slot();
        let ghost reserved = self@;
        let mut s = self.slots[h.slot];
        s.state = Some(state);
        s.owned = false;
        self.slots.set(h.slot, s);
        proof {
            self.lemma_fill_after_reserve(before, reserved, h, state, false);
        }
        h
    }

    /// Move an arena-owned state (a coroutine state) into a fresh slot.
    pub fn insert_owned(&mut self, state: u64) -> (h: StateHandle)
        requires
            old(self)@.generations_nonzero(),
            old(self)@.slots.len() < usize::MAX,
            old(self)@.live_owned < usize::MAX,
        ensures
            final(self)@.generations_nonzero(),
            final(self)@.validate(h) == Ok::<(usize, u64), StateResolveError>((h.slot, state)),
            final(self)@.resolve_for_trace(h) == Ok::<u64, StateResolveError>(state),
            final(self)@.slots[h.slot as int].owned,
            final(self)@.live_owned == old(self)@.live_owned + 1,
            old(self)@.consistent() ==> final(self)@.consistent(),
            old(self)@.evolves_to(final(self)@),
            old(self)@.consistent() && old(self)@.free.len() > 0 ==> h.slot == old(self)@.free.last()
                && h.generation == old(self)@.slots[h.slot as int].generation,
            old(self)@.consistent() && old(self)@.free.len() == 0 ==> h.slot == old(self)@.slots.len()
                && h.generation == 1,
            forall|g: StateHandle| old(self)@.validate(g) is Ok ==> g != h,
            forall|g: StateHandle| #[trigger]
                old(self)@.validate(g) is Ok ==> final(self)@.validate(g) == old(self)@.validate(g),
    {
        let next_live_owned_states = self.live_owned_states + 1;
        let ghost before = self@;
        let h = self.reserve_slot();
        let ghost reserved = self@;
        let mut s = self.slots[h.slot];
        s.state = Some(state);
        s.owned = true;
        self.slots.set(h.slot, s);
        self.live_owned_states = next_live_owned_states;
        proof {
            self.lemma_fill_after_reserve(before, reserved, h, state, true);
        }
        h
    }

    proof fn lemma_fill_after_reserve(
        &self,
        before: ArenaModel,
        reserved: ArenaModel,
        h: StateHandle,
        state: u64,
        owned: bool,
    )
        requires
            before.generations_nonzero(),
            before.slots.len() < usize::MAX,
            reserved.runtime_id == before.runtime_id,
            reserved.turn == before.turn,
            reserved.live_owned == before.live_owned,
            reserved.generations_nonzero(),
            h.runtime_id == reserved.runtime_id,
            h.slot < reserved.slots.len(),
            reserved.slots[h.slot as int].generation == h.generation,
            reserved.slots[h.slot as int].state is None,
            !reserved.slots[h.slot as int].owned,
            !reserved.slots[h.slot as int].borrowed,
            !reserved.slots[h.slot as int].retired,
            reserved.slots.len() == before.slots.len() || (reserved.slots == before.slots.push(
                reserved.slots[h.slot as int],
            ) && h.slot == before.slots.len() && h.generation == 1),
            reserved.slots.len() == before.slots.len() ==> reserved.slots == before.slots,
            reserved.free.len() <= before.free.len(),
            reserved.free == before.free.take(reserved.free.len() as int),
            before.consistent() && before.free.len() > 0 ==> {
                &&& h.slot == before.free.last()
                &&& reserved.free == before.free.drop_last()
                &&& reserved.slots == before.slots
            },
            before.consistent() && before.free.len() == 0 ==> reserved.slots.len()
                == before.slots.len() + 1,
            self@.runtime_id == reserved.runtime_id,
            self@.turn == reserved.turn,
            self@.free == reserved.free,
            self@.slots == reserved.slots.update(
                h.slot as int,
                StateSlot { state: Some(state), owned, ..reserved.slots[h.slot as int] },
            ),
            self@.live_owned == reserved.live_owned + if owned {
                1nat
            } else {
                0nat
            },
        ensures
            self@.generations_nonzero(),
            self@.validate(h) == Ok::<(usize, u64), StateResolveError>((h.slot, state)),
            self@.resolve_for_trace(h) == Ok::<u64, StateResolveError>(state),
            self@.slots[h.slot as int].owned == owned,
            before.consistent() ==> self@.consistent(),
            before.evolves_to(self@),
            forall|g: StateHandle| before.validate(g) is Ok ==> g != h,
            forall|g: StateHandle| #[trigger]
                before.validate(g) is Ok ==> self@.validate(g) == before.validate(g),
    {
        let a = self@;
        assert forall|i: int| 0 <= i < a.slots.len() implies #[trigger] a.slots[i].generation
            != 0 by {
            if i != h.slot {
                assert(a.slots[i] == reserved.slots[i]);
            }
        }
        assert forall|i: int| 0 <= i < before.slots.len() implies {
            &&& before.slots[i].generation <= #[trigger] a.slots[i].generation
            &&& before.slots[i].retired ==> a.slots[i].retired
            &&& before.slots[i].retired ==> a.slots[i].generation == before.slots[i].generation
        } by {
            assert(reserved.slots[i] == before.slots[i]);
            if i == h.slot {
                assert(!before.slots[i].retired);
            }
        }
        assert forall|g: StateHandle| before.validate(g) is Ok implies g != h && #[trigger]
            a.validate(g) == before.validate(g) by {
            assert(reserved.slots[g.slot as int] == before.slots[g.slot as int]);
            assert(g.slot != h.slot);
            assert(a.slots[g.slot as int] == before.slots[g.slot as int]);
        }
        if before.consistent() {
            if before.free.len() > 0 {
                let b0 = ArenaModel { free: reserved.free, slots: reserved.slots, ..before };
                assert(before.slot_consistent(h.slot as int));
                lemma_fill_keeps_consistent(before, a, h.slot as int, state, owned);
            } else {
                assert(reserved.slots[h.slot as int].generation == 1);
                assert(a.slots =~= before.slots.push(
                    StateSlot {
                        generation: 1,
                        state: Some(state),
                        owned,
                        borrowed: false,
                        retired: false,
                    },
                ));
                assert(a.free =~= before.free);
                lemma_append_keeps_consistent(before, a, state, owned);
            }
        }
    }

    /// Validate `h`: it must name this runtime, an existing slot, a slot that
    /// is not retired, the slot's current generation, and an occupied slot.
    pub fn validate(&self, h: StateHandle) -> (r: Result<(usize, u64), StateResolveError>)
        ensures
            r == self@.validate(h),
    {
        if h.runtime_id != self.runtime_id {
            return Err(
                StateResolveError::ForeignRuntime { expected: self.runtime_id, actual: h.runtime_id },
            );
        }
        if h.slot >= self.slots.len() {
            return Err(StateResolveError::InvalidSlot { slot: h.slot });
        }
        let s = self.slots[h.slot];
        if s.retired {
            return Err(StateResolveError::RetiredSlot { slot: h.slot, generation: s.generation });
        }
        if s.generation != h.generation {
            return Err(
                StateResolveError::StaleGeneration {
                    slot: h.slot,
                    requested: h.generation,
                    actual: s.generation,
                },
            );
        }
        match s.state {
            None => Err(StateResolveError::Vacant { slot: h.slot, generation: h.generation }),
            Some(st) => Ok((h.slot, st)),
        }
    }

    /// Resolve `h` for a nested borrow by the state `current`: the target must
    /// validate, must not be `current` itself, and must not be borrowed.
    pub fn resolve(&self, h: StateHandle, current: u64) -> (r: Result<u64, StateResolveError>)
        ensures
            r == self@.resolve(h, current),
    {
        let (slot_index, state) = self.validate(h)?;
        if state == current {
            return Err(StateResolveError::CurrentState);
        }
        let s = self.slots[slot_index];
        if s.borrowed {
            return Err(StateResolveError::AlreadyBorrowed { slot: slot_index, generation: s.generation });
        }
        Ok(state)
    }

    /// Resolve `h` for a read-only snapshot; the main state is a valid target,
    /// but a borrowed slot is refused.
    pub fn resolve_for_trace(&self, h: StateHandle) -> (r: Result<u64, StateResolveError>)
        ensures
            r == self@.resolve_for_trace(h),
    {
        let (slot_index, state) = self.validate(h)?;
        let s = self.slots[slot_index];
        if s.borrowed {
            return Err(StateResolveError::AlreadyBorrowed { slot: slot_index, generation: s.generation });
        }
        Ok(state)
    }

    /// Refuse when a runtime turn owns a state.
    pub fn reject_active_turn(&self) -> (r: Result<(), StateResolveError>)
        ensures
            r is Ok <==> self@.turn is None,
            r matches Err(e) ==> Some(e) == self@.turn_error(),
    {
        if let Some(h) = self.turn_borrow {
            return Err(StateResolveError::TurnBorrowActive { slot: h.slot, generation: h.generation });
        }
        Ok(())
    }

    /// Acquire a nested exclusive borrow of the state named by `h` on behalf
    /// of the currently borrowed state `current`. The borrow lasts until
    /// `release(h)`.
    pub fn begin_nested_borrow(&mut self, h: StateHandle, current: u64) -> (r: Result<
        u64,
        StateResolveError,
    >)
        ensures
            old(self)@.turn is Some ==> r == Err::<u64, StateResolveError>(
                old(self)@.turn_error()->0,
            ),
            old(self)@.turn is None ==> r == old(self)@.resolve(h, current),
            r is Ok ==> final(self)@ == old(self)@.with_slot(
                h.slot as int,
                StateSlot { borrowed: true, ..old(self)@.slots[h.slot as int] },
            ),
            r is Err ==> final(self)@ == old(self)@,
            old(self)@.consistent() ==> final(self)@.consistent(),
            old(self)@.evolves_to(final(self)@),
    {
        self.reject_active_turn()?;
        let state = self.resolve(h, current)?;
        let mut s = self.slots[h.slot];
        s.borrowed = true;
        self.slots.set(h.slot, s);
        proof {
            if old(self)@.consistent() {
                lemma_borrow_flag_keeps_consistent(old(self)@, self@, h.slot as int, true);
            }
            assert(self@.slots =~= old(self)@.slots.update(h.slot as int, s));
        }
        Ok(state)
    }

    /// Index of the first borrowed slot, if any.
    fn first_borrowed_slot(&self) -> (r: Option<usize>)
        ensures
            r matches Some(i) ==> i < self@.slots.len() && self@.slots[i as int].borrowed && forall|
                j: int,
            |
                0 <= j < i ==> !(#[trigger] self@.slots[j]).borrowed,
            r is None ==> forall|j: int| 0 <= j < self@.slots.len() ==> !(
            #[trigger] self@.slots[j]).borrowed,
    {
        let mut i: usize = 0;
        while i < self.slots.len()
            invariant
                i <= self@.slots.len(),
                forall|j: int| 0 <= j < i ==> !(#[trigger] self@.slots[j]).borrowed,
            decreases self@.slots.len() - i,
        {
            if self.slots[i].borrowed {
                return Some(i);
            }
            i += 1;
        }
        None
    }

    /// Borrow exactly one state for one runtime-owned execution turn. Fails
    /// when `h` does not validate, when a turn is already active, or when any
    /// slot is borrowed (naming the first borrowed slot).
    pub fn begin_turn_borrow(&mut self, h: StateHandle) -> (r: Result<u64, StateResolveError>)
        ensures
            old(self)@.validate(h) matches Err(e) ==> r == Err::<u64, StateResolveError>(e),
            old(self)@.validate(h) is Ok && old(self)@.turn is Some ==> r == Err::<
                u64,
                StateResolveError,
            >(old(self)@.turn_error()->0),
            old(self)@.validate(h) is Ok && old(self)@.turn is None ==> ((r is Ok) <==> forall|
                j: int,
            |
                0 <= j < old(self)@.slots.len() ==> !(#[trigger] old(self)@.slots[j]).borrowed),
            old(self)@.validate(h) is Ok && old(self)@.turn is None && r is Err ==> (r matches Err(
                StateResolveError::AlreadyBorrowed { slot, generation },
            ) && slot < old(self)@.slots.len() && old(self)@.slots[slot as int].borrowed
                && generation == old(self)@.slots[slot as int].generation && forall|j: int|
                0 <= j < slot ==> !(#[trigger] old(self)@.slots[j]).borrowed),
            r matches Ok(st) ==> {
                &&& old(self)@.validate(h) == Ok::<(usize, u64), StateResolveError>((h.slot, st))
                &&& final(self)@.turn == Some(h)
                &&& final(self)@.slots == old(self)@.slots.update(
                    h.slot as int,
                    StateSlot { borrowed: true, ..old(self)@.slots[h.slot as int] },
                )
                &&& final(self)@.free == old(self)@.free
                &&& final(self)@.live_owned == old(self)@.live_owned
                &&& final(self)@.runtime_id == old(self)@.runtime_id
            },
            r is Err ==> final(self)@ == old(self)@,
            old(self)@.consistent() ==> final(self)@.consistent(),
            old(self)@.evolves_to(final(self)@),
    {
        let (_, state) = self.validate(h)?;
        self.reject_active_turn()?;
        if let Some(i) = self.first_borrowed_slot() {
            return Err(StateResolveError::AlreadyBorrowed { slot: i, generation: self.slots[i].generation });
        }
        let ghost before = self@;
        let mut s = self.slots[h.slot];
        s.borrowed = true;
        self.slots.set(h.slot, s);
        self.turn_borrow = Some(h);
        proof {
            if before.consistent() {
                lemma_borrowed_count_zero(before.slots);
                lemma_borrowed_count_update(before.slots, h.slot as int, s);
                lemma_owned_count_update(before.slots, h.slot as int, s);
                let a = self@;
                assert forall|j: int| 0 <= j < a.slots.len() implies #[trigger] a.slot_consistent(
                    j,
                ) by {
                    assert(before.slot_consistent(j));
                    if j != h.slot {
                        assert(a.slots[j] == before.slots[j]);
                    }
                }
            }
        }
        Ok(state)
    }

    /// Borrow the registered state `expected` through `h` directly (the
    /// runtime's main state). The borrow lasts until `release(h)`.
    pub fn begin_direct_borrow(&mut self, h: StateHandle, expected: u64) -> (r: Result<
        (),
        StateResolveError,
    >)
        ensures
            old(self)@.turn is Some ==> r == Err::<(), StateResolveError>(
                old(self)@.turn_error()->0,
            ),
            old(self)@.turn is None ==> match old(self)@.validate(h) {
                Err(e) => r == Err::<(), StateResolveError>(e),
                Ok((slot, st)) => if st != expected {
                    r == Err::<(), StateResolveError>(StateResolveError::PointerMismatch)
                } else if old(self)@.slots[slot as int].borrowed {
                    r == Err::<(), StateResolveError>(old(self)@.borrowed_error(h))
                } else {
                    r is Ok
                },
            },
            r is Ok ==> final(self)@ == old(self)@.with_slot(
                h.slot as int,
                StateSlot { borrowed: true, ..old(self)@.slots[h.slot as int] },
            ),
            r is Err ==> final(self)@ == old(self)@,
            old(self)@.consistent() ==> final(self)@.consistent(),
            old(self)@.evolves_to(final(self)@),
    {
        self.reject_active_turn()?;
        let (slot_index, state) = self.validate(h)?;
        if state != expected {
            return Err(StateResolveError::PointerMismatch);
        }
        let mut s = self.slots[slot_index];
        if s.borrowed {
            return Err(StateResolveError::AlreadyBorrowed { slot: slot_index, generation: s.generation });
        }
        s.borrowed = true;
        self.slots.set(slot_index, s);
        proof {
            if old(self)@.consistent() {
                lemma_borrow_flag_keeps_consistent(old(self)@, self@, h.slot as int, true);
            }
            assert(self@.slots =~= old(self)@.slots.update(h.slot as int, s));
        }
        Ok(())
    }

    /// End the borrow of the state named by `h`. Returns whether `h` validated
    /// and its slot was borrowed.
    pub fn release(&mut self, h: StateHandle) -> (r: bool)
        ensures
            old(self)@.validate(h) is Err ==> !r && final(self)@ == old(self)@,
            old(self)@.validate(h) is Ok ==> {
                &&& r == old(self)@.slots[h.slot as int].borrowed
                &&& final(self)@ == old(self)@.with_slot(
                    h.slot as int,
                    StateSlot { borrowed: false, ..old(self)@.slots[h.slot as int] },
                )
            },
            old(self)@.consistent() && old(self)@.turn is None ==> final(self)@.consistent(),
            old(self)@.evolves_to(final(self)@),
    {
        let slot_index = match self.validate(h) {
            Ok((slot_index, _)) => slot_index,
            Err(_) => {
                return false;
            },
        };
        let mut s = self.slots[slot_index];
        let was_borrowed = s.borrowed;
        s.borrowed = false;
        self.slots.set(slot_index, s);
        proof {
            if old(self)@.consistent() && old(self)@.turn is None {
                lemma_borrow_flag_keeps_consistent(old(self)@, self@, h.slot as int, false);
            }
            assert(self@.slots =~= old(self)@.slots.update(h.slot as int, s));
        }
        was_borrowed
    }

    /// End the runtime turn that owns `h`. Returns whether the turn was
    /// released.
    pub fn release_turn(&mut self, h: StateHandle) -> (r: bool)
        ensures
            old(self)@.turn != Some(h) ==> !r && final(self)@ == old(self)@,
            old(self)@.consistent() && old(self)@.turn == Some(h) ==> {
                &&& r
                &&& final(self)@.turn is None
                &&& final(self)@.slots == old(self)@.slots.update(
                    h.slot as int,
                    StateSlot { borrowed: false, ..old(self)@.slots[h.slot as int] },
                )
                &&& final(self)@.free == old(self)@.free
                &&& final(self)@.live_owned == old(self)@.live_owned
                &&& final(self)@.runtime_id == old(self)@.runtime_id
                &&& forall|j: int|
                    0 <= j < final(self)@.slots.len() ==> !(#[trigger] final(self)@.slots[j]).borrowed
            },
            old(self)@.consistent() ==> final(self)@.consistent(),
            old(self)@.evolves_to(final(self)@),
    {
        let is_turn = match self.turn_borrow {
            Some(t) => t.same_as(&h),
            None => false,
        };
        if !is_turn {
            return false;
        }
        let ghost before = self@;
        let released = self.release(h);
        if released {
            self.turn_borrow = None;
        }
        proof {
            if before.consistent() {
                let t = h.slot as int;
                assert forall|j: int| 0 <= j < self@.slots.len() implies !(
                #[trigger] self@.slots[j]).borrowed by {
                    if j != t {
                        lemma_single_borrow(before.slots, t, j);
                        assert(self@.slots[j] == before.slots[j]);
                    }
                }
                let a = self@;
                let ns = a.slots[t];
                lemma_owned_count_update(before.slots, t, ns);
                assert forall|j: int| 0 <= j < a.slots.len() implies #[trigger] a.slot_consistent(
                    j,
                ) by {
                    assert(before.slot_consistent(j));
                    if j != t {
                        assert(a.slots[j] == before.slots[j]);
                    }
                }
            }
        }
        released
    }

    /// Check that `h` names the external, unborrowed state `expected` and
    /// return its slot.
    pub fn validate_external_detach(&self, h: StateHandle, expected: u64) -> (r: Result<
        usize,
        StateResolveError,
    >)
        ensures
            match self@.validate(h) {
                Err(e) => r == Err::<usize, StateResolveError>(e),
                Ok((slot, st)) => if st != expected {
                    r == Err::<usize, StateResolveError>(StateResolveError::PointerMismatch)
                } else if self@.slots[slot as int].borrowed {
                    r == Err::<usize, StateResolveError>(self@.borrowed_error(h))
                } else if self@.slots[slot as int].owned {
                    r == Err::<usize, StateResolveError>(
                        StateResolveError::NotExternal { slot },
                    )
                } else {
                    r == Ok::<usize, StateResolveError>(slot)
                },
            },
    {
        let (slot_index, state) = self.validate(h)?;
        if state != expected {
            return Err(StateResolveError::PointerMismatch);
        }
        let s = self.slots[slot_index];
        if s.borrowed {
            return Err(StateResolveError::AlreadyBorrowed { slot: slot_index, generation: s.generation });
        }
        if s.owned {
            return Err(StateResolveError::NotExternal { slot: slot_index });
        }
        Ok(slot_index)
    }

    /// Vacate slot `i`: clear it and advance its generation onto the free list,
    /// or retire it when it already carries the last generation.
    fn vacate_slot(&mut self, i: usize)
        requires
            i < old(self)@.slots.len(),
            !old(self)@.slots[i as int].retired,
            old(self)@.generations_nonzero(),
        ensures
            final(self)@.runtime_id == old(self)@.runtime_id,
            final(self)@.turn == old(self)@.turn,
            final(self)@.live_owned == old(self)@.live_owned,
            final(self)@.generations_nonzero(),
            old(self)@.slots[i as int].generation == u64::MAX ==> {
                &&& final(self)@.free == old(self)@.free
                &&& final(self)@.slots == old(self)@.slots.update(
                    i as int,
                    StateSlot {
                        state: None,
                        owned: false,
                        borrowed: false,
                        retired: true,
                        ..old(self)@.slots[i as int]
                    },
                )
            },
            old(self)@.slots[i as int].generation != u64::MAX ==> {
                &&& final(self)@.free == old(self)@.free.push(i)
                &&& final(self)@.slots == old(self)@.slots.update(
                    i as int,
                    StateSlot {
                        generation: (old(self)@.slots[i as int].generation + 1) as u64,
                        state: None,
                        owned: false,
                        borrowed: false,
                        retired: false,
                    },
                )
            },
    {
        let mut s = self.slots[i];
        s.state = None;
        s.owned = false;
        s.borrowed = false;
        if s.generation == u64::MAX {
            s.retired = true;
            self.slots.set(i, s);
        } else {
            s.generation = s.generation + 1;
            self.slots.set(i, s);
            self.free_slots.push(i);
        }
        proof {
            assert forall|j: int| 0 <= j < self@.slots.len() implies #[trigger] self@.slots[j].generation
                != 0 by {
                if j != i {
                    assert(self@.slots[j] == old(self)@.slots[j]);
                }
            }
        }
    }

    /// Unregister the external state `expected` named by `h`; `h` becomes
    /// stale.
    pub fn detach_external(&mut self, h: StateHandle, expected: u64) -> (r: Result<
        (),
        StateResolveError,
    >)
        requires
            old(self)@.generations_nonzero(),
        ensures
            r is Ok <==> old(self)@.validate_external_detach_ok(h, expected),
            r matches Err(e) ==> Err::<usize, StateResolveError>(e)
                == old(self)@.external_detach_result(h, expected),
            r is Err ==> final(self)@ == old(self)@,
            r is Ok ==> final(self)@.validate(h) is Err,
            r is Ok ==> final(self)@.live_owned == old(self)@.live_owned,
            r is Ok ==> final(self)@.slots.len() == old(self)@.slots.len() && forall|j: int|
                0 <= j < old(self)@.slots.len() && j != h.slot ==> #[trigger] final(self)@.slots[j]
                    == old(self)@.slots[j],
            final(self)@.generations_nonzero(),
            old(self)@.consistent() ==> final(self)@.consistent(),
            old(self)@.evolves_to(final(self)@),
    {
        let slot_index = self.validate_external_detach(h, expected)?;
        let ghost before = self@;
        self.vacate_slot(slot_index);
        proof {
            self.lemma_after_vacate(before, slot_index as int);
        }
        Ok(())
    }

    proof fn lemma_after_vacate(&self, before: ArenaModel, i: int)
        requires
            0 <= i < before.slots.len(),
            before.slots[i].state is Some,
            !before.slots[i].borrowed,
            !before.slots[i].retired,
            before.generations_nonzero(),
            self@.runtime_id == before.runtime_id,
            self@.turn == before.turn,
            self@.live_owned + (if occupied_owned(before.slots[i]) {
                1int
            } else {
                0int
            }) == before.live_owned,
            before.slots[i].generation == u64::MAX ==> {
                &&& self@.free == before.free
                &&& self@.slots == before.slots.update(
                    i,
                    StateSlot {
                        state: None,
                        owned: false,
                        borrowed: false,
                        retired: true,
                        ..before.slots[i]
                    },
                )
            },
            before.slots[i].generation != u64::MAX ==> {
                &&& self@.free == before.free.push(i as usize)
                &&& self@.slots == before.slots.update(
                    i,
                    StateSlot {
                        generation: (before.slots[i].generation + 1) as u64,
                        state: None,
                        owned: false,
                        borrowed: false,
                        retired: false,
                    },
                )
            },
        ensures
            forall|h: StateHandle|
                h.runtime_id == before.runtime_id && h.slot == i && h.generation
                    == before.slots[i].generation ==> #[trigger] self@.validate(h) is Err,
            before.consistent() ==> self@.consistent(),
            before.evolves_to(self@),
    {
        if before.consistent() {
            if let Some(t) = before.turn {
                if t.slot == i {
                    assert(before.slots[i].borrowed);
                }
            }
            lemma_vacate_keeps_consistent(before, self@, i);
        }
        assert forall|j: int| 0 <= j < before.slots.len() implies {
            &&& before.slots[j].generation <= #[trigger] self@.slots[j].generation
            &&& before.slots[j].retired ==> self@.slots[j].retired
            &&& before.slots[j].retired ==> self@.slots[j].generation == before.slots[j].generation
        } by {
            if j != i {
                assert(self@.slots[j] == before.slots[j]);
            }
        }
    }

    /// Remove the arena-owned state named by `h` and return its key, so that
    /// the caller can destroy it; `h` becomes stale.
    pub fn remove_owned(&mut self, h: StateHandle) -> (r: Result<u64, StateResolveError>)
        requires
            old(self)@.consistent(),
        ensures
            r is Ok <==> old(self)@.remove_owned_ok(h),
            r matches Err(e) ==> Err::<u64, StateResolveError>(e) == old(
                self,
            )@.remove_owned_result(h),
            r matches Ok(st) ==> old(self)@.validate(h) == Ok::<(usize, u64), StateResolveError>(
                (h.slot, st),
            ),
            r is Err ==> final(self)@ == old(self)@,
            r is Ok ==> final(self)@.validate(h) is Err,
            r is Ok ==> final(self)@.live_owned + 1 == old(self)@.live_owned,
            final(self)@.consistent(),
            old(self)@.evolves_to(final(self)@),
    {
        let (slot_index, state) = self.validate(h)?;
        let s = self.slots[slot_index];
        if s.borrowed {
            return Err(StateResolveError::AlreadyBorrowed { slot: slot_index, generation: s.generation });
        }
        if !s.owned {
            return Err(StateResolveError::NotOwned { slot: slot_index });
        }
        proof {
            lemma_owned_count_positive(self@.slots, slot_index as int);
            lemma_consistent_generations_nonzero(self@);
        }
        let next_live_owned_states = self.live_owned_states - 1;
        let ghost before = self@;
        proof {
            assert(before.slot_consistent(slot_index as int));
        }
        self.vacate_slot(slot_index);
        self.live_owned_states = next_live_owned_states;
        proof {
            self.lemma_after_vacate(before, slot_index as int);
        }
        Ok(state)
    }

    /// Check the arena's internal bookkeeping, in the order `first_violation`
    /// describes, and report the first problem found. Succeeds exactly when
    /// the arena is consistent.
    pub fn validate_internal_invariants(&self) -> (r: Result<(), StateResolveError>)
        ensures
            r is Ok <==> self@.consistent(),
            match self@.first_violation() {
                None => r is Ok,
                Some(reason) => r matches Err(StateResolveError::ArenaInvariant { reason: x })
                    && x@ == reason,
            },
    {
        let len = self.slots.len();
        let free_len = self.free_slots.len();
        proof {
            lemma_violation_iff_inconsistent(self@);
        }
        // Every free-list entry must name a slot.
        let mut k: usize = 0;
        while k < free_len
            invariant
                len == self@.slots.len(),
                free_len == self@.free.len(),
                k <= free_len,
                forall|m: int| 0 <= m < k ==> #[trigger] self@.free[m] < len,
                self@.first_violation() is None <==> self@.consistent(),
            decreases free_len - k,
        {
            if self.free_slots[k] >= len {
                proof {
                    assert(self@.free_out_of_range());
                }
                return Err(
                    StateResolveError::ArenaInvariant {
                        reason: "free-list index is outside the slot table",
                    },
                );
            }
            k += 1;
        }
        // How often each slot appears on the free list.
        let mut counts: Vec<usize> = Vec::new();
        let mut i: usize = 0;
        while i < len
            invariant
                len == self@.slots.len(),
                i <= len,
                counts@.len() == i,
                forall|j: int| 0 <= j < i ==> #[trigger] counts@[j] == 0,
            decreases len - i,
        {
            counts.push(0);
            i += 1;
        }
        let mut k: usize = 0;
        while k < free_len
            invariant
                len == self@.slots.len(),
                free_len == self@.free.len(),
                k <= free_len,
                counts@.len() == len,
                forall|m: int| 0 <= m < free_len ==> #[trigger] self@.free[m] < len,
                !self@.free_out_of_range(),
                forall|j: int|
                    0 <= j < len ==> #[trigger] counts@[j] == count_in(
                        self@.free.take(k as int),
                        j as usize,
                    ),
                forall|j: int| 0 <= j < len ==> #[trigger] counts@[j] <= k,
            decreases free_len - k,
        {
            let idx = self.free_slots[k];
            proof {
                assert(self@.free.take(k + 1).drop_last() =~= self@.free.take(k as int));
                assert(self@.free.take(k + 1).last() == idx);
            }
            let c = counts[idx];
            counts.set(idx, c + 1);
            k += 1;
        }
        proof {
            assert(self@.free.take(free_len as int) =~= self@.free);
        }
        // Pass over the slots.
        let mut occupied_owned_seen: usize = 0;
        let mut borrowed_seen: usize = 0;
        let mut j: usize = 0;
        while j < len
            invariant
                len == self@.slots.len(),
                j <= len,
                counts@.len() == len,
                forall|m: int| 0 <= m < len ==> #[trigger] counts@[m] == count_in(self@.free, m as usize),
                !self@.free_out_of_range(),
                self@.first_violation() is None <==> self@.consistent(),
                self@.first_slot_violation(j as int) is None,
                occupied_owned_seen == occupied_owned_count(self@.slots.take(j as int)),
                borrowed_seen == borrowed_count(self@.slots.take(j as int)),
                occupied_owned_seen <= j,
                borrowed_seen <= j,
            decreases len - j,
        {
            let s = self.slots[j];
            let c = counts[j];
            proof {
                assert(self@.slots.take(j + 1).drop_last() =~= self@.slots.take(j as int));
            }
            proof {
                if self@.slot_violation(j as int) is Some {
                    assert(self@.first_slot_violation(j + 1) == self@.slot_violation(j as int));
                    lemma_first_slot_violation_stable(self@, j + 1, len as int);
                    assert(!self@.free_out_of_range());
                }
            }
            if s.generation == 0 {
                return Err(StateResolveError::ArenaInvariant { reason: "slot generation is zero" });
            }
            if c > 1 {
                return Err(
                    StateResolveError::ArenaInvariant { reason: "free-list contains a duplicate slot" },
                );
            }
            if s.retired {
                if s.state.is_some() || s.owned || s.borrowed || c != 0 || s.generation != u64::MAX {
                    return Err(
                        StateResolveError::ArenaInvariant {
                            reason: "retired slot is occupied, reusable, or below generation max",
                        },
                    );
                }
            } else {
                match s.state {
                    Some(_) => {
                        if c != 0 {
                            return Err(
                                StateResolveError::ArenaInvariant {
                                    reason: "occupied slot appears in the free-list",
                                },
                            );
                        }
                        if s.owned {
                            occupied_owned_seen = occupied_owned_seen + 1;
                        }
                    },
                    None => {
                        if s.owned || s.borrowed || c != 1 {
                            return Err(
                                StateResolveError::ArenaInvariant {
                                    reason: "vacant reusable slot has invalid flags or free-list count",
                                },
                            );
                        }
                    },
                }
            }
            if s.borrowed {
                borrowed_seen = borrowed_seen + 1;
            }
            j += 1;
        }
        proof {
            assert(self@.slots.take(len as int) =~= self@.slots);
        }
        if occupied_owned_seen != self.live_owned_states {
            return Err(
                StateResolveError::ArenaInvariant {
                    reason: "live owned-state count disagrees with occupied slots",
                },
            );
        }
        if let Some(h) = self.turn_borrow {
            if h.runtime_id != self.runtime_id {
                return Err(
                    StateResolveError::ArenaInvariant {
                        reason: "active turn handle belongs to another runtime",
                    },
                );
            }
            if h.slot >= len {
                return Err(
                    StateResolveError::ArenaInvariant {
                        reason: "active turn handle points outside the slot table",
                    },
                );
            }
            let s = self.slots[h.slot];
            if s.retired || s.generation != h.generation || s.state.is_none() || !s.borrowed {
                return Err(
                    StateResolveError::ArenaInvariant {
                        reason: "active turn handle disagrees with its borrowed slot",
                    },
                );
            }
            if borrowed_seen != 1 {
                return Err(
                    StateResolveError::ArenaInvariant {
                        reason: "active Runtime turn does not own exactly one state slot",
                    },
                );
            }
        }
        Ok(())
    }

    /// Preflight for `drain_owned`: the arena is consistent and no occupied
    /// owned slot is borrowed. Fails with the first bookkeeping problem, or
    /// else with the first borrowed owned slot.
    pub fn validate_owned_drain(&self) -> (r: Result<(), StateResolveError>)
        ensures
            r is Ok <==> (self@.consistent() && self@.no_owned_borrowed()),
            self@.drain_preflight(r),
    {
        self.validate_internal_invariants()?;
        let len = self.slots.len();
        let mut i: usize = 0;
        while i < len
            invariant
                len == self@.slots.len(),
                i <= len,
                self@.first_violation() is None,
                self@.consistent(),
                self@.first_borrowed_owned(i as int) is None,
            decreases len - i,
        {
            let s = self.slots[i];
            proof {
                lemma_first_borrowed_owned_step(self@, i as int);
            }
            if s.owned && s.state.is_some() && s.borrowed {
                proof {
                    lemma_first_borrowed_owned_stable(self@, i + 1, len as int);
                }
                return Err(StateResolveError::AlreadyBorrowed { slot: i, generation: s.generation });
            }
            i += 1;
        }
        proof {
            lemma_first_borrowed_owned_none(self@, len as int);
        }
        Ok(())
    }

    /// Vacate every arena-owned state in slot order and return their keys in
    /// that order, so that the caller can destroy them. Each drained handle
    /// becomes unresolvable (a stale generation, or a retired slot when it
    /// named the last generation) and the live owned count returns to zero.
    pub fn drain_owned(&mut self) -> (r: Result<Vec<u64>, StateResolveError>)
        ensures
            r is Ok <==> (old(self)@.consistent() && old(self)@.no_owned_borrowed()),
            r matches Err(e) ==> old(self)@.drain_preflight(Err::<(), StateResolveError>(e)),
            r is Err ==> final(self)@ == old(self)@,
            r matches Ok(keys) ==> {
                &&& keys@ == owned_states(old(self)@.slots)
                &&& final(self)@.consistent()
                &&& final(self)@.live_owned == 0
                &&& final(self)@.slots.len() == old(self)@.slots.len()
                &&& forall|i: int|
                    0 <= i < final(self)@.slots.len() ==> !occupied_owned(
                        #[trigger] final(self)@.slots[i],
                    )
                &&& forall|i: int|
                    0 <= i < old(self)@.slots.len() && !occupied_owned(
                        #[trigger] old(self)@.slots[i],
                    ) ==> final(self)@.slots[i] == old(self)@.slots[i]
                &&& forall|h: StateHandle| #[trigger]
                    old(self)@.validate(h) is Ok && occupied_owned(old(self)@.slots[h.slot as int])
                        ==> final(self)@.validate(h) == Err::<(usize, u64), StateResolveError>(
                        vacated_error(h),
                    )
            },
            old(self)@.evolves_to(final(self)@),
    {
        self.validate_owned_drain()?;
        let ghost start = self@;
        let mut keys: Vec<u64> = Vec::new();
        let len = self.slots.len();
        let mut i: usize = 0;
        while i < len
            invariant
                len == self@.slots.len(),
                len == start.slots.len(),
                i <= len,
                start.consistent(),
                start.no_owned_borrowed(),
                self@.consistent(),
                self@.runtime_id == start.runtime_id,
                self@.turn == start.turn,
                start.evolves_to(self@),
                keys@ == owned_states(start.slots.take(i as int)),
                forall|j: int| 0 <= j < i ==> !occupied_owned(#[trigger] self@.slots[j]),
                forall|j: int|
                    0 <= j < len && (j >= i || !occupied_owned(start.slots[j])) ==> #[trigger] self@.slots[j]
                        == start.slots[j],
                forall|j: int|
                    0 <= j < i && occupied_owned(start.slots[j]) ==> if start.slots[j].generation
                        == u64::MAX {
                        (#[trigger] self@.slots[j]).retired && self@.slots[j].generation == u64::MAX
                    } else {
                        !self@.slots[j].retired && self@.slots[j].generation == start.slots[j].generation
                            + 1
                    },
            decreases len - i,
        {
            let s = self.slots[i];
            proof {
                lemma_owned_states_step(start.slots, i as int);
            }
            if s.owned && s.state.is_some() {
                let key = match s.state {
                    Some(k) => k,
                    None => 0,
                };
                proof {
                    assert(self@.slot_consistent(i as int));
                    lemma_owned_count_positive(self@.slots, i as int);
                    lemma_consistent_generations_nonzero(self@);
                    if let Some(t) = self@.turn {
                        assert(self@.slots[t.slot as int].borrowed);
                    }
                }
                let next_live_owned_states = self.live_owned_states - 1;
                let ghost before = self@;
                self.vacate_slot(i);
                self.live_owned_states = next_live_owned_states;
                proof {
                    self.lemma_after_vacate(before, i as int);
                    lemma_evolves_transitive(start, before, self@);
                }
                keys.push(key);
            }
            i += 1;
        }
        proof {
            assert(start.slots.take(len as int) =~= start.slots);
            lemma_owned_count_zero(self@.slots);
            assert forall|h: StateHandle| #[trigger]
                start.validate(h) is Ok && occupied_owned(start.slots[h.slot as int])
                    implies self@.validate(h) == Err::<(usize, u64), StateResolveError>(
                    vacated_error(h),
                ) by {
                assert(!start.slots[h.slot as int].retired);
                assert(start.slots[h.slot as int].generation == h.generation);
                if h.generation == u64::MAX {
                    assert(self@.slots[h.slot as int].retired);
                } else {
                    assert(!self@.slots[h.slot as int].retired);
                }
            }
        }
        Ok(keys)
    }
}

/// The error that resolving `h` gives once the state it resolved to has been
/// vacated: its slot moved on to the next generation, or, when `h` named the
/// last generation, was retired.
pub open spec fn vacated_error(h: StateHandle) -> StateResolveError {
    if h.generation == u64::MAX {
        StateResolveError::RetiredSlot { slot: h.slot, generation: u64::MAX }
    } else {
        StateResolveError::StaleGeneration {
            slot: h.slot,
            requested: h.generation,
            actual: (h.generation + 1) as u64,
        }
    }
}

impl ArenaModel {
    /// No slot holding an arena-owned state is borrowed.
    pub open spec fn no_owned_borrowed(self) -> bool {
        forall|i: int|
            0 <= i < self.slots.len() ==> !(occupied_owned(#[trigger] self.slots[i])
                && self.slots[i].borrowed)
    }

    /// What `validate_external_detach` gives for `h` and `expected`.
    pub open spec fn external_detach_result(self, h: StateHandle, expected: u64) -> Result<
        usize,
        StateResolveError,
    > {
        match self.validate(h) {
            Err(e) => Err(e),
            Ok((slot, st)) => if st != expected {
                Err(StateResolveError::PointerMismatch)
            } else if self.slots[slot as int].borrowed {
                Err(self.borrowed_error(h))
            } else if self.slots[slot as int].owned {
                Err(StateResolveError::NotExternal { slot })
            } else {
                Ok(slot)
            },
        }
    }

    /// Whether detaching `h`/`expected` succeeds.
    pub open spec fn validate_external_detach_ok(self, h: StateHandle, expected: u64) -> bool {
        self.external_detach_result(h, expected) is Ok
    }

    /// What `remove_owned` gives for `h`, before vacating.
    pub open spec fn remove_owned_result(self, h: StateHandle) -> Result<u64, StateResolveError> {
        match self.validate(h) {
            Err(e) => Err(e),
            Ok((slot, st)) => if self.slots[slot as int].borrowed {
                Err(self.borrowed_error(h))
            } else if !self.slots[slot as int].owned {
                Err(StateResolveError::NotOwned { slot })
            } else {
                Ok(st)
            },
        }
    }

    /// Whether `remove_owned(h)` succeeds.
    pub open spec fn remove_owned_ok(self, h: StateHandle) -> bool {
        self.remove_owned_result(h) is Ok
    }
}

} // verus!
