//! Call frames of a Lua state and the stack window that each frame sees.
//!
//! The state keeps a vector of frames, of which the first `current + 1` are
//! active; frames above are kept for reuse and are reset when they are left.
//! Stack indices follow the reference C API: a positive index counts from the
//! current frame's base (1 is the first argument), a negative one counts down
//! from the top (-1 is the top value).

use vstd::prelude::*;
use super::stack::Stack;
use crate::runtime::lifecycle::ThreadStatus;
use super::upvalues::{shutdown_walk, OpenUpvalue, OpenUpvalues, UpvalueCheck};
use crate::runtime::lifecycle::LuaStateShutdownReport;

verus! {

/// Wanted result count meaning "all results".
pub const LUA_MULTRET: i32 = -1;

/// One call frame.
#[derive(Debug)]
pub struct CallInfo<V, P> {
    /// Stack index of the called function.
    pub func: usize,
    /// First register of the frame.
    pub base: usize,
    /// Upper bound (exclusive) of the stack the frame may use.
    pub top: usize,
    /// Saved program counter of a Lua function.
    pub savedpc: Option<usize>,
    /// Prototype of the Lua function the frame runs.
    pub proto: Option<P>,
    /// Wanted result count (`LUA_MULTRET` for all).
    pub nresults: i32,
    /// Number of arguments passed.
    pub nargs: i32,
    /// Snapshot of the variable arguments.
    pub varargs: Vec<V>,
    /// Tail calls performed in this frame.
    pub tailcalls: i32,
}

impl<V, P> CallInfo<V, P> {
    /// Whether the frame is empty: every field zero or absent.
    pub open spec fn is_fresh(self) -> bool {
        &&& self.func == 0
        &&& self.base == 0
        &&& self.top == 0
        &&& self.savedpc is None
        &&& self.proto is None
        &&& self.nresults == 0
        &&& self.nargs == 0
        &&& self.varargs@.len() == 0
        &&& self.tailcalls == 0
    }

    /// An empty frame.
    pub fn new() -> (r: CallInfo<V, P>)
        ensures
            r.is_fresh(),
    {
        CallInfo::with_frame(0, 0, 0)
    }

    /// A frame over the given stack window, otherwise empty.
    pub fn with_frame(func: usize, base: usize, top: usize) -> (r: CallInfo<V, P>)
        ensures
            r.func == func,
            r.base == base,
            r.top == top,
            r.savedpc is None,
            r.proto is None,
            r.nresults == 0,
            r.nargs == 0,
            r.varargs@.len() == 0,
            r.tailcalls == 0,
    {
        CallInfo {
            func,
            base,
            top,
            savedpc: None,
            proto: None,
            nresults: 0,
            nargs: 0,
            varargs: Vec::new(),
            tailcalls: 0,
        }
    }

    /// Empty the frame, releasing its prototype and variable arguments.
    pub fn reset(&mut self)
        ensures
            final(self).is_fresh(),
    {
        self.func = 0;
        self.base = 0;
        self.top = 0;
        self.savedpc = None;
        self.proto = None;
        self.nresults = 0;
        self.nargs = 0;
        self.varargs.clear();
        self.tailcalls = 0;
    }
}

/// The frames and the value stack of one Lua state.
#[derive(Debug)]
pub struct Frames<V, P> {
    stack: Stack<V>,
    top: usize,
    call_stack: Vec<CallInfo<V, P>>,
    current_ci: usize,
    status: ThreadStatus,
    open_upvalues: OpenUpvalues,
}

impl<V: Copy, P> Frames<V, P> {
    /// The value stack.
    pub closed spec fn value_stack(self) -> Stack<V> {
        self.stack
    }

    /// The state's top: one past the last live value.
    pub closed spec fn top_index(self) -> nat {
        self.top as nat
    }

    /// Every frame, active or kept for reuse.
    pub closed spec fn frames(self) -> Seq<CallInfo<V, P>> {
        self.call_stack@
    }

    /// Index of the current frame.
    pub closed spec fn current(self) -> nat {
        self.current_ci as nat
    }

    /// The thread's execution status.
    pub closed spec fn status(self) -> ThreadStatus {
        self.status
    }

    /// The open upvalues, highest stack index first.
    pub closed spec fn upvalues(self) -> Seq<OpenUpvalue> {
        self.open_upvalues@
    }

    /// The open upvalues are strictly descending by stack index.
    pub open spec fn upvalues_wf(self) -> bool {
        super::upvalues::strictly_descending(self.upvalues())
    }

    /// Base of the current frame.
    pub open spec fn base(self) -> nat {
        self.frames()[self.current() as int].base as nat
    }

    /// The current frame exists, and the value stack is consistent.
    pub open spec fn wf(self) -> bool {
        &&& self.current() < self.frames().len()
        &&& self.value_stack().wf()
    }

    /// Number of values above the current frame's base.
    pub open spec fn relative_top(self) -> nat {
        if self.top_index() >= self.base() {
            (self.top_index() - self.base()) as nat
        } else {
            0
        }
    }

    /// The absolute index that the API index `idx` names, if it names a live
    /// value of the current frame.
    pub open spec fn abs_index_of(self, idx: int) -> Option<nat> {
        if idx > 0 {
            let abs = self.base() + idx - 1;
            if abs < self.top_index() {
                Some(abs as nat)
            } else {
                None
            }
        } else if idx < 0 {
            if -idx <= self.relative_top() {
                Some((self.top_index() + idx) as nat)
            } else {
                None
            }
        } else {
            None
        }
    }

    /// A state with one empty frame and an empty stack of the default size.
    pub fn new(nil: V) -> (r: Frames<V, P>)
        ensures
            r.wf(),
            r.top_index() == 0,
            r.current() == 0,
            r.frames().len() == 1,
            r.frames()[0].is_fresh(),
            r.value_stack().slots().len() == 0,
            r.value_stack().top_index() == 0,
            r.value_stack().nil_value() == nil,
            r.status() == ThreadStatus::Normal,
            r.upvalues() == Seq::<OpenUpvalue>::empty(),
            r.upvalues_wf(),
    {
        let mut call_stack: Vec<CallInfo<V, P>> = Vec::new();
        call_stack.push(CallInfo::new());
        Frames {
            stack: Stack::with_default(nil),
            top: 0,
            call_stack,
            current_ci: 0,
            status: ThreadStatus::Normal,
            open_upvalues: OpenUpvalues::new(),
        }
    }

    /// The state's top.
    pub fn top(&self) -> (r: usize)
        ensures
            r == self.top_index(),
    {
        self.top
    }

    /// Every frame, active or kept for reuse.
    pub fn frame_slice(&self) -> (r: &Vec<CallInfo<V, P>>)
        ensures
            r@ == self.frames(),
    {
        &self.call_stack
    }

    /// Index of the current frame.
    pub fn current_index(&self) -> (r: usize)
        ensures
            r == self.current(),
    {
        self.current_ci
    }

    /// The value stack.
    pub fn stack(&self) -> (r: &Stack<V>)
        ensures
            *r == self.value_stack(),
    {
        &self.stack
    }

    /// Number of values in the current frame, as the C API reports it.
    pub fn get_top(&self) -> (r: i32)
        requires
            self.wf(),
        ensures
            r == self.relative_top() as i32,
    {
        let base = self.call_stack[self.current_ci].base;
        let n: usize = if self.top >= base {
            self.top - base
        } else {
            0
        };
        #[verifier::truncate]
        (n as i32)
    }

    /// Set the frame's number of values: a non-negative `idx` counts from the
    /// base, a negative one drops values from the top (not below index 0).
    /// The value stack is grown with nil when the new top lies beyond it.
    pub fn set_top(&mut self, idx: i32)
        requires
            old(self).wf(),
            idx != i32::MIN,
            idx >= 0 ==> old(self).base() + idx <= usize::MAX,
        ensures
            final(self).wf(),
            final(self).top_index() == if idx >= 0 {
                (old(self).base() + idx) as nat
            } else if old(self).top_index() >= -idx {
                (old(self).top_index() + idx) as nat
            } else {
                0
            },
            final(self).value_stack().top_index() == final(self).top_index(),
            final(self).value_stack().slots() == Stack::<V>::grown(
                old(self).value_stack().slots(),
                final(self).top_index(),
                old(self).value_stack().nil_value(),
            ),
            final(self).value_stack().nil_value() == old(self).value_stack().nil_value(),
            final(self).frames() == old(self).frames(),
            final(self).status() == old(self).status(),
            final(self).upvalues() == old(self).upvalues(),
            final(self).current() == old(self).current(),
    {
        let base = self.call_stack[self.current_ci].base;
        let new_top: usize = if idx >= 0 {
            base + (idx as usize)
        } else {
            let drop_count = (-idx) as usize;
            if self.top >= drop_count {
                self.top - drop_count
            } else {
                0
            }
        };
        self.stack.set_top(new_top);
        self.top = new_top;
    }

    /// The absolute stack index that `idx` names, if it names a live value
    /// of the current frame.
    pub fn abs_index(&self, idx: i32) -> (r: Option<usize>)
        requires
            self.wf(),
            self.base() + i32::MAX <= usize::MAX,
        ensures
            match self.abs_index_of(idx as int) {
                Some(a) => r == Some(a as usize),
                None => r is None,
            },
    {
        let base = self.call_stack[self.current_ci].base;
        if idx > 0 {
            let abs = base + (idx as usize) - 1;
            if abs < self.top {
                Some(abs)
            } else {
                None
            }
        } else if idx < 0 {
            let offset = (-(idx as i64)) as usize;
            let available: usize = if self.top >= base {
                self.top - base
            } else {
                0
            };
            if offset <= available {
                Some(self.top - offset)
            } else {
                None
            }
        } else {
            None
        }
    }

    /// The value at API index `idx`, if it names a live value of the current
    /// frame.
    pub fn at(&self, idx: i32) -> (r: Option<&V>)
        requires
            self.wf(),
            self.base() + i32::MAX <= usize::MAX,
        ensures
            match self.abs_index_of(idx as int) {
                Some(a) => if a < self.value_stack().slots().len() {
                    r == Some(&self.value_stack().slots()[a as int])
                } else {
                    r is None
                },
                None => r is None,
            },
    {
        match self.abs_index(idx) {
            Some(abs) => self.stack.at(abs),
            None => None,
        }
    }

    /// The value at API index `idx`, for update, if it names a live value of
    /// the current frame.
    pub fn at_mut(&mut self, idx: i32) -> (r: Option<&mut V>)
        requires
            old(self).wf(),
            old(self).base() + i32::MAX <= usize::MAX,
        ensures
            final(self).wf(),
            final(self).top_index() == old(self).top_index(),
            final(self).frames() == old(self).frames(),
            final(self).current() == old(self).current(),
            final(self).status() == old(self).status(),
            final(self).upvalues() == old(self).upvalues(),
            final(self).value_stack().top_index() == old(self).value_stack().top_index(),
            final(self).value_stack().nil_value() == old(self).value_stack().nil_value(),
            match old(self).abs_index_of(idx as int) {
                Some(a) => if a < old(self).value_stack().slots().len() {
                    &&& r is Some
                    &&& *r.unwrap() == old(self).value_stack().slots()[a as int]
                    &&& final(self).value_stack().slots() == old(self).value_stack().slots().update(
                        a as int,
                        *final(r.unwrap()),
                    )
                } else {
                    r is None && *final(self) == *old(self)
                },
                None => r is None && *final(self) == *old(self),
            },
    {
        match self.abs_index(idx) {
            Some(abs) => self.stack.at_mut(abs),
            None => None,
        }
    }

    /// The value in absolute stack slot `idx`, live or not, if it is
    /// initialized.
    pub fn at_abs(&self, idx: usize) -> (r: Option<&V>)
        ensures
            idx < self.value_stack().slots().len() ==> r == Some(&self.value_stack().slots()[idx as int]),
            idx >= self.value_stack().slots().len() ==> r is None,
    {
        self.stack.at(idx)
    }

    /// `s` with the slots from `from` up to `to` (exclusive) set to `nil`,
    /// grown to at least `to` slots.
    pub open spec fn nil_filled(s: Seq<V>, from: nat, to: nat, nil: V) -> Seq<V> {
        Seq::new(
            if to > s.len() {
                to
            } else {
                s.len()
            },
            |i: int|
                if from <= i < to {
                    nil
                } else {
                    s[i]
                },
        )
    }

    /// `after` is this state with `v` pushed on top of the current frame:
    /// when the value stack's own top is not above the state's top, the value
    /// stack is first filled with nil up to and including the state's top;
    /// then `v` is written at the top, and the top moves past it.
    pub open spec fn pushed(self, after: Self, v: V) -> bool {
        &&& after.top_index() == self.top_index() + 1
        &&& self.value_stack().top_index() <= self.top_index() ==> {
            &&& after.value_stack().top_index() == self.top_index() + 1
            &&& after.value_stack().slots() == Self::nil_filled(
                self.value_stack().slots(),
                self.value_stack().top_index(),
                self.top_index() + 1,
                self.value_stack().nil_value(),
            ).update(self.top_index() as int, v)
        }
        &&& self.value_stack().top_index() > self.top_index() ==> {
            &&& after.value_stack().top_index() == self.value_stack().top_index()
            &&& after.value_stack().slots() == self.value_stack().slots().update(
                self.top_index() as int,
                v,
            )
        }
        &&& after.value_stack().nil_value() == self.value_stack().nil_value()
        &&& after.frames() == self.frames()
        &&& after.current() == self.current()
        &&& after.status() == self.status()
        &&& after.upvalues() == self.upvalues()
    }

    /// Push `v` on top of the current frame.
    pub fn push_value(&mut self, v: V)
        requires
            old(self).wf(),
            old(self).top_index() + 64 <= usize::MAX,
            old(self).value_stack().top_index() + 64 <= usize::MAX,
        ensures
            final(self).wf(),
            old(self).pushed(*final(self), v),
    {
        if self.top >= self.stack.capacity() {
            self.stack.ensure_space(32);
        }
        let ghost start = self.stack.slots();
        let ghost st0 = self.stack.top_index();
        let ghost nil = self.stack.nil_value();
        proof {
            assert(Self::nil_filled(start, st0, st0, nil) =~= start);
        }
        while self.stack.size() <= self.top
            invariant
                self.stack.wf(),
                self.top == old(self).top,
                self.call_stack == old(self).call_stack,
                self.current_ci == old(self).current_ci,
                self.status == old(self).status,
                self.open_upvalues@ == old(self).open_upvalues@,
                self.top + 64 <= usize::MAX,
                self.stack.nil_value() == nil,
                st0 <= self.stack.top_index(),
                st0 <= self.top + 1 ==> self.stack.top_index() <= self.top + 1,
                st0 > self.top ==> self.stack.top_index() == st0,
                start.len() >= st0,
                self.stack.slots() == Self::nil_filled(start, st0, self.stack.top_index(), nil),
            decreases self.top + 1 - self.stack.top_index(),
        {
            let ghost k = self.stack.top_index();
            let n = *self.stack_nil();
            self.stack.push(n);
            proof {
                let f = Self::nil_filled(start, st0, k, nil);
                if k < f.len() {
                    assert(Self::nil_filled(start, st0, k + 1, nil) =~= f.update(k as int, nil));
                } else {
                    assert(Self::nil_filled(start, st0, k + 1, nil) =~= f.push(nil));
                }
            }
        }
        proof {
            if st0 > self.top {
                assert(Self::nil_filled(start, st0, st0, nil) =~= start);
            }
        }
        self.stack.set_at(self.top, v);
        self.top = self.top + 1;
    }

    /// Push the nil value on top of the current frame.
    pub fn push_nil(&mut self)
        requires
            old(self).wf(),
            old(self).top_index() + 64 <= usize::MAX,
            old(self).value_stack().top_index() + 64 <= usize::MAX,
        ensures
            final(self).wf(),
            old(self).pushed(*final(self), old(self).value_stack().nil_value()),
    {
        let nil = *self.stack_nil();
        self.push_value(nil);
    }

    /// The thread's execution status.
    pub fn get_status(&self) -> (r: ThreadStatus)
        ensures
            r == self.status(),
    {
        self.status
    }

    /// Set the thread's execution status; nothing else changes.
    pub fn set_status(&mut self, s: ThreadStatus)
        ensures
            final(self).status() == s,
            final(self).upvalues() == old(self).upvalues(),
            final(self).value_stack() == old(self).value_stack(),
            final(self).top_index() == old(self).top_index(),
            final(self).frames() == old(self).frames(),
            final(self).current() == old(self).current(),
    {
        self.status = s;
    }

    /// The open upvalues, highest stack index first.
    pub fn open_upvalues(&self) -> (r: &Vec<OpenUpvalue>)
        ensures
            r@ == self.upvalues(),
    {
        self.open_upvalues.entries()
    }

    /// The open upvalue of stack slot `stack_index`, if there is one.
    pub fn find_upvalue(&self, stack_index: usize) -> (r: Option<u64>)
        requires
            self.upvalues_wf(),
        ensures
            r matches Some(u) ==> self.upvalues().contains(OpenUpvalue { stack_index, upvalue: u }),
            r is None ==> forall|i: int|
                0 <= i < self.upvalues().len() ==> #[trigger] self.upvalues()[i].stack_index != stack_index,
    {
        self.open_upvalues.find(stack_index)
    }

    /// The open upvalue of stack slot `stack_index`: the one already open,
    /// or else `fresh`, which is recorded in order as the slot's new open
    /// upvalue. The flag says whether `fresh` was taken, so that the caller
    /// creates its object only then.
    pub fn find_or_create_upvalue(&mut self, stack_index: usize, fresh: u64) -> (r: (u64, bool))
        requires
            old(self).upvalues_wf(),
        ensures
            final(self).upvalues_wf(),
            r.1 ==> r.0 == fresh && (forall|i: int|
                0 <= i < old(self).upvalues().len() ==> #[trigger] old(self).upvalues()[i].stack_index
                    != stack_index) && final(self).upvalues() == super::upvalues::inserted(
                old(self).upvalues(),
                stack_index,
                fresh,
            ),
            !r.1 ==> old(self).upvalues().contains(OpenUpvalue { stack_index, upvalue: r.0 })
                && final(self).upvalues() == old(self).upvalues(),
            final(self).value_stack() == old(self).value_stack(),
            final(self).top_index() == old(self).top_index(),
            final(self).frames() == old(self).frames(),
            final(self).current() == old(self).current(),
            final(self).status() == old(self).status(),
    {
        match self.open_upvalues.find(stack_index) {
            Some(existing) => (existing, false),
            None => {
                self.open_upvalues.insert(stack_index, fresh);
                (fresh, true)
            },
        }
    }

    /// Close every open upvalue at or above stack index `level`: each leaves
    /// the list, highest first, paired with the value of its stack slot (nil
    /// when the slot is not initialized).
    pub fn close_upvalues(&mut self, level: usize) -> (r: Vec<(u64, V)>)
        requires
            old(self).upvalues_wf(),
        ensures
            final(self).upvalues_wf(),
            ({
                let k = super::upvalues::at_or_above(old(self).upvalues(), level as int) as int;
                &&& final(self).upvalues() == old(self).upvalues().skip(k)
                &&& r@ == super::upvalues::closed_pairs(
                    old(self).upvalues().take(k),
                    old(self).value_stack().slots(),
                    old(self).value_stack().nil_value(),
                )
                &&& r@.len() == k
                &&& forall|i: int|
                    0 <= i < k ==> (#[trigger] r@[i]).0 == old(self).upvalues()[i].upvalue && r@[i].1 == (
                    if old(self).upvalues()[i].stack_index < old(self).value_stack().slots().len() {
                        old(self).value_stack().slots()[old(self).upvalues()[i].stack_index as int]
                    } else {
                        old(self).value_stack().nil_value()
                    })
            }),
            forall|i: int|
                0 <= i < final(self).upvalues().len() ==> #[trigger] final(self).upvalues()[i].stack_index
                    < level,
            final(self).value_stack() == old(self).value_stack(),
            final(self).top_index() == old(self).top_index(),
            final(self).frames() == old(self).frames(),
            final(self).current() == old(self).current(),
            final(self).status() == old(self).status(),
    {
        proof {
            super::upvalues::lemma_at_or_above_splits(self.upvalues(), level as int);
        }
        let closed = self.open_upvalues.close(level);
        let ghost k = super::upvalues::at_or_above(old(self).upvalues(), level as int) as int;
        let n = closed.len();
        let mut out: Vec<(u64, V)> = Vec::new();
        let mut i: usize = 0;
        while i < n
            invariant
                closed@ == old(self).upvalues().take(k),
                k <= old(self).upvalues().len(),
                self.stack == old(self).stack,
                n == closed@.len(),
                i <= n,
                out@.len() == i,
                forall|j: int|
                    0 <= j < i ==> (#[trigger] out@[j]).0 == closed@[j].upvalue && out@[j].1 == (
                    if closed@[j].stack_index < self.stack.slots().len() {
                        self.stack.slots()[closed@[j].stack_index as int]
                    } else {
                        self.stack.nil_value()
                    }),
            decreases n - i,
        {
            let e = closed[i];
            let value = match self.stack.at(e.stack_index) {
                Some(v) => *v,
                None => *self.stack.nil(),
            };
            out.push((e.upvalue, value));
            i += 1;
        }
        proof {
            assert(out@ =~= super::upvalues::closed_pairs(
                old(self).upvalues().take(k),
                old(self).value_stack().slots(),
                old(self).value_stack().nil_value(),
            ));
        }
        out
    }

    /// Close the open upvalues before the state is destroyed, as
    /// `shutdown_walk` says, given what the collector says of each entry; the
    /// list is left empty either way.
    pub fn prepare_for_runtime_shutdown(&mut self, checks: &Vec<UpvalueCheck>) -> (r: (
        LuaStateShutdownReport,
        Vec<(u64, V)>,
    ))
        requires
            old(self).wf(),
            old(self).upvalues_wf(),
            checks@.len() == old(self).upvalues().len(),
            old(self).upvalues().len() < usize::MAX,
        ensures
            (r.0, r.1@) == shutdown_walk(
                old(self).upvalues(),
                checks@,
                old(self).value_stack().slots(),
                old(self).top_index(),
                old(self).value_stack().nil_value(),
                0,
                LuaStateShutdownReport::zero(),
                Seq::empty(),
                Seq::empty(),
            ),
            r.0.closed_open_upvalues == r.1@.len(),
            r.0.rejected_open_upvalue_edges + r.0.open_upvalue_cycles <= 1,
            final(self).upvalues() == Seq::<OpenUpvalue>::empty(),
            final(self).upvalues_wf(),
            final(self).value_stack() == old(self).value_stack(),
            final(self).top_index() == old(self).top_index(),
            final(self).frames() == old(self).frames(),
            final(self).current() == old(self).current(),
            final(self).status() == old(self).status(),
    {
        let entries = self.open_upvalues.close(0);
        proof {
            super::upvalues::lemma_at_or_above_splits(old(self).upvalues(), 0);
            let k = super::upvalues::at_or_above(old(self).upvalues(), 0) as int;
            if k < old(self).upvalues().len() {
                assert(old(self).upvalues()[k].stack_index < 0);
            }
            assert(entries@ =~= old(self).upvalues());
            assert(self.open_upvalues@ =~= Seq::<OpenUpvalue>::empty());
        }
        let n = entries.len();
        let nil = *self.stack.nil();
        let mut report = LuaStateShutdownReport::default();
        let mut closed: Vec<(u64, V)> = Vec::new();
        let mut seen: Vec<u64> = Vec::new();
        let mut i: usize = 0;
        while i < n
            invariant
                n == entries@.len(),
                n == checks@.len(),
                n < usize::MAX,
                entries@ == old(self).upvalues(),
                i <= n,
                nil == self.stack.nil_value(),
                self.stack == old(self).stack,
                self.top == old(self).top,
                self.call_stack == old(self).call_stack,
                self.current_ci == old(self).current_ci,
                self.status == old(self).status,
                self.open_upvalues@ == Seq::<OpenUpvalue>::empty(),
                report.closed_open_upvalues <= i,
                report.closed_open_upvalues == closed@.len(),
                report.rejected_open_upvalue_edges == 0,
                report.open_upvalue_cycles == 0,
                report.open_upvalue_owner_mismatches <= i,
                report.open_upvalue_stack_values_missing <= i,
                shutdown_walk(
                    entries@,
                    checks@,
                    self.stack.slots(),
                    self.top as nat,
                    nil,
                    0,
                    LuaStateShutdownReport::zero(),
                    Seq::empty(),
                    Seq::empty(),
                ) == shutdown_walk(
                    entries@,
                    checks@,
                    self.stack.slots(),
                    self.top as nat,
                    nil,
                    i as nat,
                    report,
                    closed@,
                    seen@,
                ),
            decreases n - i,
        {
            let e = entries[i];
            let c = checks[i];
            if !c.registered {
                let ghost before = report;
                report.rejected_open_upvalue_edges = report.rejected_open_upvalue_edges + 1;
                proof {
                    assert(report == super::upvalues::counted_report(before, false, true, false, false, false));
                    assert(shutdown_walk(
                        entries@,
                        checks@,
                        self.stack.slots(),
                        self.top as nat,
                        nil,
                        i as nat,
                        before,
                        closed@,
                        seen@,
                    ) == (report, closed@));
                }
                return (report, closed);
            }
            let mut k: usize = 0;
            let mut repeated = false;
            while k < seen.len() && !repeated
                invariant
                    k <= seen@.len(),
                    !repeated ==> forall|j: int| 0 <= j < k ==> seen@[j] != e.upvalue,
                    repeated ==> seen@.contains(e.upvalue),
                decreases seen@.len() - k,
            {
                if seen[k] == e.upvalue {
                    repeated = true;
                    proof {
                        assert(seen@[k as int] == e.upvalue);
                    }
                }
                k += 1;
            }
            if repeated {
                let ghost before = report;
                report.open_upvalue_cycles = report.open_upvalue_cycles + 1;
                proof {
                    assert(report == super::upvalues::counted_report(before, false, false, true, false, false));
                    assert(shutdown_walk(
                        entries@,
                        checks@,
                        self.stack.slots(),
                        self.top as nat,
                        nil,
                        i as nat,
                        before,
                        closed@,
                        seen@,
                    ) == (report, closed@));
                }
                return (report, closed);
            }
            let ghost before = report;
            let ghost closed_before = closed@;
            let ghost seen_before = seen@;
            if !c.owner_matches {
                report.open_upvalue_owner_mismatches = report.open_upvalue_owner_mismatches + 1;
            }
            let in_window = c.owner_matches && e.stack_index < self.top;
            let value = if in_window {
                match self.stack.at(e.stack_index) {
                    Some(v) => *v,
                    None => {
                        report.open_upvalue_stack_values_missing = report.open_upvalue_stack_values_missing
                            + 1;
                        nil
                    },
                }
            } else {
                if c.owner_matches {
                    report.open_upvalue_stack_values_missing = report.open_upvalue_stack_values_missing
                        + 1;
                }
                nil
            };
            if c.is_open {
                closed.push((e.upvalue, value));
                report.closed_open_upvalues = report.closed_open_upvalues + 1;
            }
            seen.push(e.upvalue);
            proof {
                let missing = c.owner_matches && !(in_window && e.stack_index < self.stack.slots().len());
                assert(report == super::upvalues::counted_report(before, c.is_open, false, false, !c.owner_matches, missing));
                assert(!seen_before.contains(e.upvalue));
                assert(entries@[i as int] == e);
                assert(checks@[i as int] == c);
                assert(shutdown_walk(
                    entries@,
                    checks@,
                    self.stack.slots(),
                    self.top as nat,
                    nil,
                    i as nat,
                    before,
                    closed_before,
                    seen_before,
                ) == shutdown_walk(
                    entries@,
                    checks@,
                    self.stack.slots(),
                    self.top as nat,
                    nil,
                    (i + 1) as nat,
                    report,
                    closed@,
                    seen@,
                ));
            }
            i += 1;
        }
        (report, closed)
    }

    fn stack_nil(&self) -> (r: &V)
        ensures
            *r == self.stack.nil_value(),
    {
        self.stack.nil()
    }

    /// Pop the top value of the current frame; `None` when the frame has no
    /// values. The value stays in its slot.
    pub fn pop(&mut self) -> (r: Option<V>)
        requires
            old(self).wf(),
        ensures
            final(self).wf(),
            old(self).top_index() <= old(self).base() ==> r is None && final(self).top_index()
                == old(self).top_index(),
            old(self).top_index() > old(self).base() ==> {
                &&& final(self).top_index() == old(self).top_index() - 1
                &&& if final(self).top_index() < old(self).value_stack().slots().len() {
                    r == Some(old(self).value_stack().slots()[final(self).top_index() as int])
                } else {
                    r is None
                }
            },
            final(self).value_stack() == old(self).value_stack(),
            final(self).frames() == old(self).frames(),
            final(self).status() == old(self).status(),
            final(self).upvalues() == old(self).upvalues(),
            final(self).current() == old(self).current(),
    {
        let base = self.call_stack[self.current_ci].base;
        if self.top <= base {
            return None;
        }
        self.top = self.top - 1;
        match self.stack.at(self.top) {
            Some(v) => Some(*v),
            None => None,
        }
    }

    /// `s` with `values` written from index `start` on (within `s`).
    pub open spec fn overwritten(s: Seq<V>, start: int, values: Seq<V>) -> Seq<V> {
        Seq::new(
            s.len(),
            |i: int|
                if start <= i < start + values.len() {
                    values[i - start]
                } else {
                    s[i]
                },
        )
    }

    /// The value-stack slots once slot `index` is made live.
    pub open spec fn slots_with_slot(self, index: nat) -> Seq<V> {
        if self.value_stack().top_index() <= index {
            Stack::<V>::grown(self.value_stack().slots(), index + 1, self.value_stack().nil_value())
        } else {
            self.value_stack().slots()
        }
    }

    /// `args` padded with `nil` (or cut) to exactly `wanted` values.
    pub open spec fn padded(args: Seq<V>, wanted: nat, nil: V) -> Seq<V> {
        Seq::new(
            wanted,
            |i: int|
                if i < args.len() {
                    args[i]
                } else {
                    nil
                },
        )
    }

    /// Make slot `index` of the value stack live, moving the value stack's top
    /// just past it when it lies at or above that top.
    pub fn ensure_stack_slot(&mut self, index: usize)
        requires
            old(self).wf(),
            index < usize::MAX,
        ensures
            final(self).wf(),
            final(self).value_stack().slots() == old(self).slots_with_slot(index as nat),
            final(self).value_stack().slots().len() > index,
            final(self).value_stack().top_index() == if old(self).value_stack().top_index() <= index {
                (index + 1) as nat
            } else {
                old(self).value_stack().top_index()
            },
            final(self).value_stack().nil_value() == old(self).value_stack().nil_value(),
            final(self).frames() == old(self).frames(),
            final(self).status() == old(self).status(),
            final(self).upvalues() == old(self).upvalues(),
            final(self).current() == old(self).current(),
            final(self).top_index() == old(self).top_index(),
    {
        if self.stack.size() <= index {
            self.stack.set_top(index + 1);
        }
    }

    /// Write `values` into the live slots from `start` on.
    fn write_slots(&mut self, start: usize, values: &Vec<V>)
        requires
            old(self).wf(),
            start + values@.len() <= old(self).value_stack().slots().len(),
            start + values@.len() <= usize::MAX,
        ensures
            final(self).wf(),
            final(self).value_stack().slots() == Self::overwritten(
                old(self).value_stack().slots(),
                start as int,
                values@,
            ),
            final(self).value_stack().top_index() == old(self).value_stack().top_index(),
            final(self).value_stack().nil_value() == old(self).value_stack().nil_value(),
            final(self).frames() == old(self).frames(),
            final(self).status() == old(self).status(),
            final(self).upvalues() == old(self).upvalues(),
            final(self).current() == old(self).current(),
            final(self).top_index() == old(self).top_index(),
    {
        let ghost s0 = self.stack.slots();
        let n = values.len();
        let mut k: usize = 0;
        proof {
            assert(Self::overwritten(s0, start as int, values@.take(0)) =~= s0);
        }
        while k < n
            invariant
                self.wf(),
                n == values@.len(),
                k <= n,
                start + n <= s0.len(),
                start + n <= usize::MAX,
                self.stack.slots() == Self::overwritten(s0, start as int, values@.take(k as int)),
                self.stack.top_index() == old(self).stack.top_index(),
                self.stack.nil_value() == old(self).stack.nil_value(),
                self.call_stack == old(self).call_stack,
                self.current_ci == old(self).current_ci,
                self.status == old(self).status,
                self.open_upvalues@ == old(self).open_upvalues@,
                self.top == old(self).top,
            decreases n - k,
        {
            self.stack.set_at(start + k, values[k]);
            proof {
                assert(self.stack.slots() =~= Self::overwritten(
                    s0,
                    start as int,
                    values@.take(k + 1),
                ));
            }
            k += 1;
        }
        proof {
            assert(values@.take(n as int) =~= values@);
        }
    }

    /// Place the arguments of a coroutine's first resume above its function
    /// slot: they go into slots 1 onwards and the top follows them.
    pub fn install_initial_resume_args(&mut self, args: &Vec<V>)
        requires
            old(self).wf(),
            args@.len() + 1 < usize::MAX,
        ensures
            final(self).wf(),
            final(self).top_index() == args@.len() + 1,
            final(self).value_stack().slots() == Self::overwritten(
                old(self).slots_with_slot(args@.len()),
                1,
                args@,
            ),
            final(self).value_stack().nil_value() == old(self).value_stack().nil_value(),
            final(self).frames() == old(self).frames(),
            final(self).status() == old(self).status(),
            final(self).upvalues() == old(self).upvalues(),
            final(self).current() == old(self).current(),
    {
        self.ensure_stack_slot(args.len());
        self.write_slots(1, args);
        self.top = 1 + args.len();
    }

    /// Deliver the values of a later resume as the results of the pending
    /// yield: `wanted` values (all of `args` when no count was recorded),
    /// padded with nil, from `base` (the top when none was recorded) on; the
    /// top follows them.
    pub fn install_resume_args(
        &mut self,
        result_base: Option<usize>,
        wanted_results: Option<usize>,
        args: &Vec<V>,
    )
        requires
            old(self).wf(),
            ({
                let base = match result_base {
                    Some(b) => b as int,
                    None => old(self).top_index() as int,
                };
                let wanted = match wanted_results {
                    Some(w) => w as int,
                    None => args@.len() as int,
                };
                base + wanted < usize::MAX
            }),
        ensures
            final(self).wf(),
            ({
                let base = match result_base {
                    Some(b) => b as nat,
                    None => old(self).top_index(),
                };
                let wanted = match wanted_results {
                    Some(w) => w as nat,
                    None => args@.len(),
                };
                let ensured = if wanted > 0 {
                    old(self).slots_with_slot((base + wanted - 1) as nat)
                } else {
                    old(self).value_stack().slots()
                };
                &&& final(self).top_index() == base + wanted
                &&& final(self).value_stack().slots() == Self::overwritten(
                    ensured,
                    base as int,
                    Self::padded(args@, wanted, old(self).value_stack().nil_value()),
                )
            }),
            final(self).value_stack().nil_value() == old(self).value_stack().nil_value(),
            final(self).frames() == old(self).frames(),
            final(self).status() == old(self).status(),
            final(self).upvalues() == old(self).upvalues(),
            final(self).current() == old(self).current(),
    {
        let base = match result_base {
            Some(b) => b,
            None => self.top,
        };
        let wanted = match wanted_results {
            Some(w) => w,
            None => args.len(),
        };
        if wanted > 0 {
            self.ensure_stack_slot(base + wanted - 1);
            let nil = *self.stack_nil();
            let mut values: Vec<V> = Vec::new();
            let mut k: usize = 0;
            while k < wanted
                invariant
                    k <= wanted,
                    values@ == Self::padded(args@, wanted as nat, nil).take(k as int),
                decreases wanted - k,
            {
                if k < args.len() {
                    values.push(args[k]);
                } else {
                    values.push(nil);
                }
                proof {
                    assert(values@ =~= Self::padded(args@, wanted as nat, nil).take(k + 1));
                }
                k += 1;
            }
            proof {
                assert(values@ =~= Self::padded(args@, wanted as nat, nil));
            }
            self.write_slots(base, &values);
        } else {
            proof {
                let nil = self.stack.nil_value();
                assert(Self::overwritten(self.stack.slots(), base as int, Self::padded(args@, 0, nil))
                    =~= self.stack.slots());
            }
        }
        self.top = base + wanted;
    }

    /// The values from the bottom of the stack up to the state's top, nil
    /// where no slot is initialized.
    pub fn stack_values(&self) -> (r: Vec<V>)
        ensures
            r@ == Seq::new(
                self.top_index(),
                |i: int|
                    if i < self.value_stack().slots().len() {
                        self.value_stack().slots()[i]
                    } else {
                        self.value_stack().nil_value()
                    },
            ),
    {
        let nil = *self.stack_nil();
        let mut out: Vec<V> = Vec::new();
        let mut k: usize = 0;
        while k < self.top
            invariant
                k <= self.top,
                nil == self.stack.nil_value(),
                out@ == Seq::new(
                    k as nat,
                    |i: int|
                        if i < self.stack.slots().len() {
                            self.stack.slots()[i]
                        } else {
                            nil
                        },
                ),
            decreases self.top - k,
        {
            match self.stack.at(k) {
                Some(v) => out.push(*v),
                None => out.push(nil),
            }
            proof {
                assert(out@ =~= Seq::new(
                    (k + 1) as nat,
                    |i: int|
                        if i < self.stack.slots().len() {
                            self.stack.slots()[i]
                        } else {
                            nil
                        },
                ));
            }
            k += 1;
        }
        out
    }

    /// Number of arguments a call actually passed: `nargs`, or none when it
    /// is negative.
    pub open spec fn actual_args(nargs: i32) -> nat {
        if nargs > 0 {
            nargs as nat
        } else {
            0
        }
    }

    /// The value in slot `k` of the value stack, or nil when it does not
    /// exist.
    pub open spec fn slot_or_nil(self, k: int) -> V {
        if 0 <= k < self.value_stack().slots().len() {
            self.value_stack().slots()[k]
        } else {
            self.value_stack().nil_value()
        }
    }

    /// The variable arguments of a call whose arguments start at `base`: those
    /// beyond the first `fixed_params`, nil where a slot does not exist.
    pub fn collect_varargs(&self, base: usize, nargs: i32, fixed_params: usize) -> (r: Vec<V>)
        requires
            base + Self::actual_args(nargs) <= usize::MAX,
        ensures
            Self::actual_args(nargs) <= fixed_params ==> r@.len() == 0,
            Self::actual_args(nargs) > fixed_params ==> r@ == Seq::new(
                (Self::actual_args(nargs) - fixed_params) as nat,
                |i: int| self.slot_or_nil(base + fixed_params + i),
            ),
    {
        let actual: usize = if nargs > 0 {
            nargs as usize
        } else {
            0
        };
        let mut out: Vec<V> = Vec::new();
        if actual <= fixed_params {
            return out;
        }
        let nil = *self.stack_nil();
        let mut i = fixed_params;
        while i < actual
            invariant
                fixed_params <= i <= actual,
                actual == Self::actual_args(nargs),
                base + actual <= usize::MAX,
                nil == self.stack.nil_value(),
                out@ == Seq::new(
                    (i - fixed_params) as nat,
                    |k: int| self.slot_or_nil(base + fixed_params + k),
                ),
            decreases actual - i,
        {
            match self.stack.at(base + i) {
                Some(v) => out.push(*v),
                None => out.push(nil),
            }
            proof {
                assert(out@ =~= Seq::new(
                    (i + 1 - fixed_params) as nat,
                    |k: int| self.slot_or_nil(base + fixed_params + k),
                ));
            }
            i += 1;
        }
        out
    }

    /// Give nil to the fixed parameters that the call's arguments did not
    /// fill, making their slots live.
    pub fn fill_missing_fixed_params(&mut self, base: usize, nargs: i32, fixed_params: usize)
        requires
            old(self).wf(),
            base + fixed_params < usize::MAX,
        ensures
            final(self).wf(),
            Self::actual_args(nargs) >= fixed_params ==> final(self).value_stack() == old(
                self,
            ).value_stack(),
            Self::actual_args(nargs) < fixed_params ==> final(self).value_stack().slots()
                == Self::overwritten(
                old(self).slots_with_slot((base + fixed_params - 1) as nat),
                base + Self::actual_args(nargs),
                Seq::new(
                    (fixed_params - Self::actual_args(nargs)) as nat,
                    |i: int| old(self).value_stack().nil_value(),
                ),
            ),
            final(self).value_stack().nil_value() == old(self).value_stack().nil_value(),
            final(self).frames() == old(self).frames(),
            final(self).status() == old(self).status(),
            final(self).upvalues() == old(self).upvalues(),
            final(self).current() == old(self).current(),
            final(self).top_index() == old(self).top_index(),
    {
        let actual: usize = if nargs > 0 {
            nargs as usize
        } else {
            0
        };
        if actual >= fixed_params {
            return;
        }
        self.ensure_stack_slot(base + fixed_params - 1);
        let nil = *self.stack_nil();
        let mut nils: Vec<V> = Vec::new();
        let mut k = actual;
        while k < fixed_params
            invariant
                actual <= k <= fixed_params,
                nils@ == Seq::new((k - actual) as nat, |i: int| nil),
            decreases fixed_params - k,
        {
            nils.push(nil);
            proof {
                assert(nils@ =~= Seq::new((k + 1 - actual) as nat, |i: int| nil));
            }
            k += 1;
        }
        self.write_slots(base + actual, &nils);
    }

    /// The current frame.
    pub fn current_call_info(&self) -> (r: &CallInfo<V, P>)
        requires
            self.wf(),
        ensures
            *r == self.frames()[self.current() as int],
    {
        &self.call_stack[self.current_ci]
    }

    /// The current frame, for update.
    pub fn current_call_info_mut(&mut self) -> (r: &mut CallInfo<V, P>)
        requires
            old(self).wf(),
        ensures
            *r == old(self).frames()[old(self).current() as int],
            final(self).frames() == old(self).frames().update(old(self).current() as int, *final(r)),
            final(self).status() == old(self).status(),
            final(self).upvalues() == old(self).upvalues(),
            final(self).current() == old(self).current(),
            final(self).value_stack() == old(self).value_stack(),
            final(self).top_index() == old(self).top_index(),
    {
        &mut self.call_stack[self.current_ci]
    }

    /// Number of active frames.
    pub fn call_stack_size(&self) -> (r: usize)
        requires
            self.wf(),
        ensures
            r == self.current() + 1,
    {
        let n = self.call_stack.len();
        proof {
            assert(self.current_ci < n);
        }
        self.current_ci + 1
    }

    /// Enter a new frame: the next frame (added when none is kept) becomes
    /// current, is reset, and is handed back for update.
    pub fn push_call_info(&mut self) -> (r: &mut CallInfo<V, P>)
        requires
            old(self).wf(),
            old(self).current() + 2 <= usize::MAX,
        ensures
            final(self).wf(),
            final(self).status() == old(self).status(),
            final(self).upvalues() == old(self).upvalues(),
            final(self).current() == old(self).current() + 1,
            r.is_fresh(),
            final(self).frames()[final(self).current() as int] == *final(r),
            final(self).frames().len() == if old(self).current() + 1 >= old(self).frames().len() {
                old(self).frames().len() + 1
            } else {
                old(self).frames().len() + 0
            },
            forall|i: int|
                0 <= i <= old(self).current() ==> #[trigger] final(self).frames()[i] == old(self).frames()[i],
            forall|i: int|
                old(self).current() + 1 < i < old(self).frames().len() ==> #[trigger] final(self).frames()[i] == old(self).frames()[i],
            final(self).value_stack() == old(self).value_stack(),
            final(self).top_index() == old(self).top_index(),
    {
        if self.current_ci + 1 >= self.call_stack.len() {
            self.call_stack.push(CallInfo::new());
        }
        self.current_ci = self.current_ci + 1;
        let mut frame = CallInfo::new();
        std::mem::swap(&mut frame, &mut self.call_stack[self.current_ci]);
        &mut self.call_stack[self.current_ci]
    }

    /// Leave the current frame: it is reset, and the one below becomes
    /// current (the bottom frame stays current).
    pub fn pop_call_info(&mut self)
        requires
            old(self).wf(),
        ensures
            final(self).wf(),
            final(self).status() == old(self).status(),
            final(self).upvalues() == old(self).upvalues(),
            final(self).current() == if old(self).current() > 0 {
                old(self).current() - 1
            } else {
                0
            },
            final(self).frames().len() == old(self).frames().len(),
            final(self).frames()[old(self).current() as int].is_fresh(),
            forall|i: int|
                0 <= i < old(self).frames().len() && i != old(self).current() ==> #[trigger] final(self).frames()[i] == old(self).frames()[i],
            final(self).value_stack() == old(self).value_stack(),
            final(self).top_index() == old(self).top_index(),
    {
        let mut frame = CallInfo::new();
        std::mem::swap(&mut frame, &mut self.call_stack[self.current_ci]);
        if self.current_ci > 0 {
            self.current_ci = self.current_ci - 1;
        }
    }

    /// The lowest base among frames `lo` up to `hi`.
    pub open spec fn lowest_base(frames: Seq<CallInfo<V, P>>, lo: int, hi: int) -> int
        decreases hi - lo,
    {
        if hi <= lo {
            frames[lo].base as int
        } else {
            let rest = Self::lowest_base(frames, lo, hi - 1);
            if (frames[hi].base as int) < rest {
                frames[hi].base as int
            } else {
                rest
            }
        }
    }

    /// Leave every frame above `target`, closing the open upvalues at or
    /// above each left frame's base before leaving it; the closed upvalues
    /// are handed back with their closing values, highest first.
    pub fn unwind_lua_frames_to(&mut self, target: usize) -> (r: Vec<(u64, V)>)
        requires
            old(self).wf(),
            old(self).upvalues_wf(),
        ensures
            final(self).wf(),
            final(self).upvalues_wf(),
            final(self).status() == old(self).status(),
            final(self).current() == if old(self).current() > target {
                target as nat
            } else {
                old(self).current()
            },
            final(self).frames().len() == old(self).frames().len(),
            forall|i: int|
                final(self).current() < i <= old(self).current() ==> (#[trigger] final(self).frames()[i]).is_fresh(),
            forall|i: int|
                0 <= i < old(self).frames().len() && !(final(self).current() < i <= old(self).current()) ==> #[trigger] final(self).frames()[i] == old(self).frames()[i],
            final(self).value_stack() == old(self).value_stack(),
            final(self).top_index() == old(self).top_index(),
            old(self).current() <= target ==> r@.len() == 0 && final(self).upvalues() == old(self).upvalues(),
            old(self).current() > target ==> {
                let k = super::upvalues::at_or_above(
                    old(self).upvalues(),
                    Self::lowest_base(old(self).frames(), target + 1, old(self).current() as int),
                ) as int;
                &&& final(self).upvalues() == old(self).upvalues().skip(k)
                &&& r@ == super::upvalues::closed_pairs(
                    old(self).upvalues().take(k),
                    old(self).value_stack().slots(),
                    old(self).value_stack().nil_value(),
                )
            },
    {
        let ghost start_ci = self.current_ci;
        let ghost start_frames = self.call_stack@;
        let ghost start_stack = self.stack;
        let ghost start_top = self.top;
        let ghost u = self.upvalues();
        let ghost slots = self.stack.slots();
        let ghost nil = self.stack.nil_value();
        let mut out: Vec<(u64, V)> = Vec::new();
        let ghost mut k: int = 0;
        proof {
            assert(u.skip(0) =~= u);
            assert(u.take(0) =~= Seq::<OpenUpvalue>::empty());
            assert(out@ =~= super::upvalues::closed_pairs(u.take(0), slots, nil));
        }
        while self.current_ci > target
            invariant
                self.wf(),
                self.upvalues_wf(),
                self.current_ci <= start_ci,
                start_ci > target ==> self.current_ci >= target,
                start_ci <= target ==> self.current_ci == start_ci,
                self.frames().len() == start_frames.len(),
                start_ci < start_frames.len(),
                forall|i: int| self.current_ci < i <= start_ci ==> (#[trigger] self.frames()[i]).is_fresh(),
                forall|i: int|
                    0 <= i < start_frames.len() && !(self.current_ci < i <= start_ci)
                        ==> #[trigger] self.frames()[i] == start_frames[i],
                self.stack == start_stack,
                self.top == start_top,
                self.status == old(self).status,
                u == old(self).upvalues(),
                slots == start_stack.slots(),
                nil == start_stack.nil_value(),
                super::upvalues::strictly_descending(u),
                0 <= k <= u.len(),
                self.upvalues() == u.skip(k),
                out@ == super::upvalues::closed_pairs(u.take(k), slots, nil),
                self.current_ci == start_ci ==> k == 0,
                self.current_ci < start_ci ==> k == super::upvalues::at_or_above(
                    u,
                    Self::lowest_base(start_frames, self.current_ci + 1, start_ci as int),
                ),
            decreases self.current_ci,
        {
            let cur = self.current_ci;
            let base = self.call_stack[cur].base;
            proof {
                assert(self.frames()[cur as int] == start_frames[cur as int]);
                super::upvalues::lemma_at_or_above_splits(u, base as int);
                if cur < start_ci {
                    super::upvalues::lemma_at_or_above_of_suffix(
                        u,
                        Self::lowest_base(start_frames, cur + 1, start_ci as int),
                        base as int,
                    );
                    assert(Self::lowest_base(start_frames, cur as int, start_ci as int) == if (base as int)
                        < Self::lowest_base(start_frames, cur + 1, start_ci as int) {
                        base as int
                    } else {
                        Self::lowest_base(start_frames, cur + 1, start_ci as int)
                    }) by {
                        self.lemma_lowest_base_down(start_frames, cur as int, start_ci as int);
                    }
                }
            }
            let closed = self.close_upvalues(base);
            let ghost k_next = k + closed@.len();
            proof {
                let rest = u.skip(k);
                let c = super::upvalues::at_or_above(rest, base as int) as int;
                assert forall|i: int, j: int| 0 <= i < j < rest.len() implies #[trigger] rest[i].stack_index
                    > #[trigger] rest[j].stack_index by {
                    assert(rest[i] == u[i + k]);
                    assert(rest[j] == u[j + k]);
                }
                super::upvalues::lemma_at_or_above_splits(rest, base as int);
                assert(closed@.len() == c);
                assert(k + c <= u.len());
                assert(rest.take(c) =~= u.take(k + c).skip(k));
                assert(rest.skip(c) =~= u.skip(k + c));
                assert(u.take(k + c) =~= u.take(k) + rest.take(c));
                lemma_closed_pairs_concat(u.take(k), rest.take(c), slots, nil);
                if cur == start_ci {
                    assert(Self::lowest_base(start_frames, cur as int, start_ci as int) == base as int);
                    assert(rest =~= u);
                }
            }
            let mut idx: usize = 0;
            let ghost out0 = out@;
            while idx < closed.len()
                invariant
                    idx <= closed@.len(),
                    out@ == out0 + closed@.take(idx as int),
                decreases closed@.len() - idx,
            {
                out.push(closed[idx]);
                proof {
                    assert(out0 + closed@.take(idx + 1) =~= (out0 + closed@.take(idx as int)).push(
                        closed@[idx as int],
                    ));
                }
                idx += 1;
            }
            proof {
                assert(closed@.take(closed@.len() as int) =~= closed@);
                k = k_next;
            }
            self.pop_call_info();
        }
        out
    }

    proof fn lemma_lowest_base_down(&self, frames: Seq<CallInfo<V, P>>, lo: int, hi: int)
        requires
            lo < hi,
        ensures
            Self::lowest_base(frames, lo, hi) == if (frames[lo].base as int) < Self::lowest_base(
                frames,
                lo + 1,
                hi,
            ) {
                frames[lo].base as int
            } else {
                Self::lowest_base(frames, lo + 1, hi)
            },
        decreases hi - lo,
    {
        if lo + 1 < hi {
            self.lemma_lowest_base_down(frames, lo, hi - 1);
            assert(Self::lowest_base(frames, lo + 1, hi) == if (frames[hi].base as int)
                < Self::lowest_base(frames, lo + 1, hi - 1) {
                frames[hi].base as int
            } else {
                Self::lowest_base(frames, lo + 1, hi - 1)
            });
        } else {
            assert(Self::lowest_base(frames, lo, lo) == frames[lo].base as int);
            assert(Self::lowest_base(frames, lo + 1, hi) == frames[hi].base as int);
        }
    }

    /// Leave every frame above `target`, resetting each.
    pub fn unwind_call_info_to(&mut self, target: usize)
        requires
            old(self).wf(),
        ensures
            final(self).wf(),
            final(self).status() == old(self).status(),
            final(self).upvalues() == old(self).upvalues(),
            final(self).current() == if old(self).current() > target {
                target as nat
            } else {
                old(self).current()
            },
            final(self).frames().len() == old(self).frames().len(),
            forall|i: int|
                final(self).current() < i <= old(self).current() ==> (#[trigger] final(self).frames()[i]).is_fresh(),
            forall|i: int|
                0 <= i < old(self).frames().len() && !(final(self).current() < i <= old(self).current()) ==> #[trigger] final(self).frames()[i] == old(self).frames()[i],
            final(self).value_stack() == old(self).value_stack(),
            final(self).top_index() == old(self).top_index(),
    {
        let ghost start_ci = self.current_ci;
        let ghost start_frames = self.call_stack@;
        let ghost start_stack = self.stack;
        let ghost start_top = self.top;
        while self.current_ci > target
            invariant
                self.wf(),
                self.current_ci <= start_ci,
                start_ci > target ==> self.current_ci >= target,
                start_ci <= target ==> self.current_ci == start_ci,
                self.frames().len() == start_frames.len(),
                start_ci < start_frames.len(),
                forall|i: int| self.current_ci < i <= start_ci ==> (#[trigger] self.frames()[i]).is_fresh(),
                forall|i: int|
                    0 <= i < start_frames.len() && !(self.current_ci < i <= start_ci)
                        ==> #[trigger] self.frames()[i] == start_frames[i],
                self.stack == start_stack,
                self.top == start_top,
                self.status == old(self).status,
                self.open_upvalues@ == old(self).open_upvalues@,
            decreases self.current_ci,
        {
            self.pop_call_info();
        }
    }
}

/// Pairing two lists with their closing values pairs their concatenation.
proof fn lemma_closed_pairs_concat<V>(a: Seq<OpenUpvalue>, b: Seq<OpenUpvalue>, slots: Seq<V>, nil: V)
    ensures
        super::upvalues::closed_pairs(a + b, slots, nil) == super::upvalues::closed_pairs(a, slots, nil)
            + super::upvalues::closed_pairs(b, slots, nil),
{
    assert(super::upvalues::closed_pairs(a + b, slots, nil) =~= super::upvalues::closed_pairs(a, slots, nil)
        + super::upvalues::closed_pairs(b, slots, nil));
}

/// Entering a frame and leaving it again returns to the frame that was
/// current, with every frame up to it as it was.
pub proof fn lemma_enter_then_leave_restores<V: Copy, P>(
    before: Frames<V, P>,
    entered: Frames<V, P>,
    left: Frames<V, P>,
)
    requires
        entered.current() == before.current() + 1,
        forall|i: int| 0 <= i <= before.current() ==> #[trigger] entered.frames()[i] == before.frames()[i],
        left.current() == if entered.current() > 0 {
            entered.current() - 1
        } else {
            0
        },
        forall|i: int|
            0 <= i < entered.frames().len() && i != entered.current() ==> #[trigger] left.frames()[i]
                == entered.frames()[i],
        before.current() < entered.frames().len(),
    ensures
        left.current() == before.current(),
        forall|i: int| 0 <= i <= before.current() ==> #[trigger] left.frames()[i] == before.frames()[i],
{
    assert forall|i: int| 0 <= i <= before.current() implies #[trigger] left.frames()[i] == before.frames()[i] by {
        assert(entered.frames()[i] == before.frames()[i]);
        assert(left.frames()[i] == entered.frames()[i]);
    }
}

} // verus!
