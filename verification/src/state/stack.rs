//! The value stack of a Lua state: a growable vector of slots with a logical
//! top. Slots at and above the top keep their values until they are
//! overwritten; slots that a pop or a growth vacates hold the stack's nil
//! value.

use vstd::prelude::*;

verus! {

/// Initial capacity of a default stack.
pub const INITIAL_STACK_SIZE: usize = 64;

/// Extra room reserved whenever the stack must grow.
pub const STACK_GROW_MARGIN: usize = 32;

/// How many elements `v` can hold without reallocating.
///
/// Trusted wrapper around `Vec::capacity`. The contract states only what the
/// documentation guarantees of every vector, that the capacity is at least
/// the length; the value itself depends on the allocator and is not named.
#[verifier::external_body]
fn vec_capacity<V>(v: &Vec<V>) -> (r: usize)
    ensures
        r >= v@.len(),
{
    v.capacity()
}

/// A value stack over slot values of type `V`, with `nil` as the value of a
/// vacated slot.
#[derive(Debug)]
pub struct Stack<V> {
    values: Vec<V>,
    top: usize,
    nil: V,
}

impl<V: Copy> Stack<V> {
    /// Every initialized slot, including those at and above the top.
    pub closed spec fn slots(self) -> Seq<V> {
        self.values@
    }

    /// The logical top: the number of live values.
    pub closed spec fn top_index(self) -> nat {
        self.top as nat
    }

    /// The value of a vacated slot.
    pub closed spec fn nil_value(self) -> V {
        self.nil
    }

    /// The live values, bottom first.
    pub open spec fn live(self) -> Seq<V> {
        self.slots().take(self.top_index() as int)
    }

    /// The top never exceeds the initialized slots.
    pub open spec fn wf(self) -> bool {
        self.top_index() <= self.slots().len()
    }

    /// An empty stack with room for `initial_size` values before it grows.
    pub fn new(initial_size: usize, nil: V) -> (r: Stack<V>)
        ensures
            r.wf(),
            r.slots().len() == 0,
            r.top_index() == 0,
            r.nil_value() == nil,
    {
        Stack { values: Vec::with_capacity(initial_size), top: 0, nil }
    }

    /// An empty stack of the default initial size.
    pub fn with_default(nil: V) -> (r: Stack<V>)
        ensures
            r.wf(),
            r.slots().len() == 0,
            r.top_index() == 0,
            r.nil_value() == nil,
    {
        Stack::new(INITIAL_STACK_SIZE, nil)
    }

    /// The value of a vacated slot.
    pub fn nil(&self) -> (r: &V)
        ensures
            *r == self.nil_value(),
    {
        &self.nil
    }

    /// The number of live values.
    pub fn size(&self) -> (r: usize)
        ensures
            r == self.top_index(),
    {
        self.top
    }

    /// Whether no value is live.
    pub fn is_empty(&self) -> (r: bool)
        ensures
            r == (self.top_index() == 0),
    {
        self.top == 0
    }

    /// How many slots the stack can hold before it reallocates.
    pub fn capacity(&self) -> (r: usize)
        ensures
            r >= self.slots().len(),
    {
        vec_capacity(&self.values)
    }

    /// Push `value` on top: it goes into the slot at the top, which is added
    /// when every initialized slot is live.
    pub fn push(&mut self, value: V)
        requires
            old(self).wf(),
            old(self).top_index() < usize::MAX,
        ensures
            final(self).wf(),
            final(self).nil_value() == old(self).nil_value(),
            final(self).top_index() == old(self).top_index() + 1,
            final(self).live() == old(self).live().push(value),
            old(self).top_index() < old(self).slots().len() ==> final(self).slots() == old(
                self,
            ).slots().update(old(self).top_index() as int, value),
            old(self).top_index() == old(self).slots().len() ==> final(self).slots() == old(
                self,
            ).slots().push(value),
    {
        if self.top >= self.values.len() {
            self.values.push(value);
        } else {
            self.values.set(self.top, value);
        }
        self.top = self.top + 1;
        proof {
            assert(self.live() =~= old(self).live().push(value));
        }
    }

    /// Pop the top value, leaving nil in its slot; `None` when the stack is
    /// empty.
    pub fn pop(&mut self) -> (r: Option<V>)
        requires
            old(self).wf(),
        ensures
            final(self).wf(),
            final(self).nil_value() == old(self).nil_value(),
            old(self).top_index() == 0 ==> r is None && *final(self) == *old(self),
            old(self).top_index() > 0 ==> {
                &&& r == Some(old(self).live().last())
                &&& final(self).top_index() == old(self).top_index() - 1
                &&& final(self).live() == old(self).live().drop_last()
                &&& final(self).slots() == old(self).slots().update(
                    old(self).top_index() - 1,
                    old(self).nil_value(),
                )
            },
    {
        if self.top == 0 {
            return None;
        }
        self.top = self.top - 1;
        let value = self.values[self.top];
        self.values.set(self.top, self.nil);
        proof {
            assert(self.live() =~= old(self).live().drop_last());
        }
        Some(value)
    }

    /// The top value, if any.
    pub fn top_value(&self) -> (r: Option<&V>)
        requires
            self.wf(),
        ensures
            self.top_index() == 0 ==> r is None,
            self.top_index() > 0 ==> r == Some(&self.live().last()),
    {
        if self.top == 0 {
            return None;
        }
        Some(&self.values[self.top - 1])
    }

    /// The slot at absolute `index`, live or not, if it is initialized.
    pub fn at(&self, index: usize) -> (r: Option<&V>)
        ensures
            index < self.slots().len() ==> r == Some(&self.slots()[index as int]),
            index >= self.slots().len() ==> r is None,
    {
        if index < self.values.len() {
            Some(&self.values[index])
        } else {
            None
        }
    }

    /// The slot at absolute `index`, which must be initialized.
    pub fn get_unchecked(&self, index: usize) -> (r: &V)
        requires
            index < self.slots().len(),
        ensures
            *r == self.slots()[index as int],
    {
        &self.values[index]
    }

    /// The slot at absolute `index`, which must be initialized, for update.
    pub fn get_unchecked_mut(&mut self, index: usize) -> (r: &mut V)
        requires
            index < old(self).slots().len(),
        ensures
            *r == old(self).slots()[index as int],
            final(self).slots() == old(self).slots().update(index as int, *final(r)),
            final(self).top_index() == old(self).top_index(),
            final(self).nil_value() == old(self).nil_value(),
    {
        &mut self.values[index]
    }

    /// The slot at absolute `index`, for update, if it is initialized.
    pub fn at_mut(&mut self, index: usize) -> (r: Option<&mut V>)
        ensures
            final(self).top_index() == old(self).top_index(),
            final(self).nil_value() == old(self).nil_value(),
            index >= old(self).slots().len() ==> r is None && *final(self) == *old(self),
            index < old(self).slots().len() ==> {
                &&& r is Some
                &&& *r.unwrap() == old(self).slots()[index as int]
                &&& final(self).slots() == old(self).slots().update(index as int, *final(r.unwrap()))
            },
    {
        if index < self.values.len() {
            Some(&mut self.values[index])
        } else {
            None
        }
    }

    /// The top value, for update, if any.
    pub fn top_value_mut(&mut self) -> (r: Option<&mut V>)
        requires
            old(self).wf(),
        ensures
            final(self).top_index() == old(self).top_index(),
            final(self).nil_value() == old(self).nil_value(),
            old(self).top_index() == 0 ==> r is None && *final(self) == *old(self),
            old(self).top_index() > 0 ==> {
                &&& r is Some
                &&& *r.unwrap() == old(self).live().last()
                &&& final(self).slots() == old(self).slots().update(
                    old(self).top_index() - 1,
                    *final(r.unwrap()),
                )
            },
    {
        if self.top == 0 {
            return None;
        }
        Some(&mut self.values[self.top - 1])
    }

    /// The live values as one slice, for update in bulk.
    pub fn as_mut_slice(&mut self) -> (r: &mut [V])
        requires
            old(self).wf(),
        ensures
            r@ == old(self).live(),
            final(self).slots() == final(r)@ + old(self).slots().skip(old(self).top_index() as int),
            final(self).top_index() == old(self).top_index(),
            final(self).nil_value() == old(self).nil_value(),
    {
        let top = self.top;
        let (live, _rest) = self.values.as_mut_slice().split_at_mut(top);
        live
    }

    /// Overwrite the initialized slot at absolute `index`.
    pub fn set_at(&mut self, index: usize, value: V)
        requires
            index < old(self).slots().len(),
        ensures
            final(self).slots() == old(self).slots().update(index as int, value),
            final(self).top_index() == old(self).top_index(),
            final(self).nil_value() == old(self).nil_value(),
    {
        self.values.set(index, value);
    }

    /// Drop every live value; the slots stay initialized.
    pub fn clear(&mut self)
        ensures
            final(self).top_index() == 0,
            final(self).slots() == old(self).slots(),
            final(self).nil_value() == old(self).nil_value(),
    {
        self.top = 0;
    }

    /// `self` grown with nil slots to at least `len` slots.
    pub open spec fn grown(slots: Seq<V>, len: nat, nil: V) -> Seq<V> {
        if len <= slots.len() {
            slots
        } else {
            slots + Seq::new((len - slots.len()) as nat, |i: int| nil)
        }
    }

    fn grow_to(&mut self, len: usize)
        ensures
            final(self).slots() == Self::grown(old(self).slots(), len as nat, old(self).nil_value()),
            final(self).top_index() == old(self).top_index(),
            final(self).nil_value() == old(self).nil_value(),
    {
        let ghost start = self.values@;
        if len <= self.values.len() {
            return;
        }
        while self.values.len() < len
            invariant
                self.top == old(self).top,
                self.nil == old(self).nil,
                start == old(self).values@,
                start.len() <= self.values@.len() <= len,
                self.values@ == start + Seq::new(
                    (self.values@.len() - start.len()) as nat,
                    |i: int| self.nil,
                ),
            decreases len - self.values@.len(),
        {
            let ghost before = self.values@;
            self.values.push(self.nil);
            proof {
                assert(self.values@ =~= start + Seq::new(
                    (self.values@.len() - start.len()) as nat,
                    |i: int| self.nil,
                ));
            }
        }
    }

    /// Move the top to `new_top`, growing the slots with nil when it lies
    /// beyond them.
    pub fn set_top(&mut self, new_top: usize)
        ensures
            final(self).wf(),
            final(self).top_index() == new_top,
            final(self).slots() == Self::grown(old(self).slots(), new_top as nat, old(self).nil_value()),
            final(self).nil_value() == old(self).nil_value(),
    {
        self.grow_to(new_top);
        self.top = new_top;
    }

    /// Make room for `needed` more values above the top without
    /// reallocating; the contents do not change. The room reserved is the
    /// vector's capacity, which the allocator decides and no contract here
    /// names, so only the unchanged contents are stated.
    pub fn ensure_space(&mut self, needed: usize)
        requires
            old(self).wf(),
            old(self).top_index() + needed + STACK_GROW_MARGIN <= usize::MAX,
        ensures
            final(self).slots() == old(self).slots(),
            final(self).top_index() == old(self).top_index(),
            final(self).nil_value() == old(self).nil_value(),
    {
        let required = self.top + needed;
        if required > vec_capacity(&self.values) {
            self.values.reserve(required + STACK_GROW_MARGIN - self.values.len());
        }
    }

    /// Initialize slots so that `needed` values above the top are backed by
    /// slots, filling new ones with nil.
    pub fn check_space(&mut self, needed: usize)
        requires
            old(self).top_index() + needed <= usize::MAX,
        ensures
            final(self).slots() == Self::grown(
                old(self).slots(),
                (old(self).top_index() + needed) as nat,
                old(self).nil_value(),
            ),
            final(self).top_index() == old(self).top_index(),
            final(self).nil_value() == old(self).nil_value(),
    {
        let required = self.top + needed;
        self.grow_to(required);
    }
}

/// Popping right after a push gives back the pushed value and leaves the
/// live values as they were before the push.
pub proof fn lemma_pop_undoes_push<V: Copy>(
    before: Stack<V>,
    pushed: Stack<V>,
    popped: Stack<V>,
    value: V,
)
    requires
        pushed.live() == before.live().push(value),
        popped.live() == pushed.live().drop_last(),
    ensures
        pushed.live().len() > 0,
        pushed.live().last() == value,
        popped.live() == before.live(),
{
    assert(before.live().push(value).drop_last() =~= before.live());
}

} // verus!
