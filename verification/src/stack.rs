//! A bounded stack of 16-bit integers.

use vstd::prelude::*;
use crate::error::ForthError;

verus! {

/// A stack of `i16` values that never holds more than a fixed number of
/// them. Its view is the sequence of its values, the oldest first.
#[derive(Debug, PartialEq)]
pub struct Stack {
    data: Vec<i16>,
    max_size: usize,
}

impl View for Stack {
    type V = Seq<i16>;

    closed spec fn view(&self) -> Seq<i16> {
        self.data@
    }
}

/// What one push leaves on a stack that held `items`: the value on top of
/// them where there is room, and `items` alone where there is none.
pub open spec fn pushed(items: Seq<i16>, capacity: nat, value: i16) -> Seq<i16> {
    if items.len() < capacity {
        items.push(value)
    } else {
        items
    }
}

/// What pushing `values` in turn leaves on a stack that held `items`.
pub open spec fn after_pushes(items: Seq<i16>, capacity: nat, values: Seq<i16>) -> Seq<i16>
    decreases values.len(),
{
    if values.len() == 0 {
        items
    } else {
        after_pushes(pushed(items, capacity, values[0]), capacity, values.drop_first())
    }
}

/// What `count` successive pops return, in the order in which they return
/// it; a pop from an empty stack returns nothing.
pub open spec fn popped(items: Seq<i16>, count: nat) -> Seq<i16>
    decreases count,
{
    if count == 0 || items.len() == 0 {
        Seq::empty()
    } else {
        seq![items.last()] + popped(items.drop_last(), (count - 1) as nat)
    }
}

/// What `count` successive pops leave on the stack.
pub open spec fn after_pops(items: Seq<i16>, count: nat) -> Seq<i16>
    decreases count,
{
    if count == 0 || items.len() == 0 {
        items
    } else {
        after_pops(items.drop_last(), (count - 1) as nat)
    }
}

impl Stack {
    /// The invariant of the type: the stack is within its capacity.
    pub closed spec fn wf(&self) -> bool {
        self.data@.len() <= self.max_size
    }

    /// The largest number of values the stack may hold.
    pub closed spec fn capacity(&self) -> nat {
        self.max_size as nat
    }

    /// A stack that keeps its invariant is within its capacity.
    pub proof fn lemma_within_capacity(&self)
        requires
            self.wf(),
        ensures
            self@.len() <= self.capacity(),
    {
    }

    /// An empty stack that can hold up to `max_size` values.
    pub fn new(max_size: usize) -> (s: Self)
        ensures
            s.wf(),
            s@ == Seq::<i16>::empty(),
            s.capacity() == max_size,
    {
        Stack { data: Vec::new(), max_size }
    }

    /// Puts `value` on top, unless the stack is full; a full stack is left
    /// as it was.
    pub fn push(&mut self, value: i16) -> (r: Result<(), String>)
        requires
            old(self).wf(),
        ensures
            final(self).wf(),
            final(self).capacity() == old(self).capacity(),
            final(self)@ == pushed(old(self)@, old(self).capacity(), value),
            r is Ok <==> old(self)@.len() < old(self).capacity(),
            r is Err ==> r->Err_0@ == ForthError::StackOverflow.text(),
    {
        if self.data.len() >= self.max_size {
            return Err(ForthError::StackOverflow.message());
        }
        self.data.push(value);
        Ok(())
    }

    /// Takes the top value off; an empty stack is left as it was.
    pub fn pop(&mut self) -> (r: Result<i16, String>)
        requires
            old(self).wf(),
        ensures
            final(self).wf(),
            final(self).capacity() == old(self).capacity(),
            old(self)@.len() > 0 ==> r == Ok::<i16, String>(old(self)@.last()) && final(self)@
                == old(self)@.drop_last(),
            old(self)@.len() == 0 ==> final(self)@ == old(self)@ && r is Err && r->Err_0@
                == ForthError::StackUnderflow.text(),
    {
        match self.data.pop() {
            Some(value) => Ok(value),
            None => Err(ForthError::StackUnderflow.message()),
        }
    }

    /// The top value, which stays where it is.
    pub fn peek(&self) -> (r: Result<i16, String>)
        ensures
            self@.len() > 0 ==> r == Ok::<i16, String>(self@.last()),
            self@.len() == 0 ==> r is Err && r->Err_0@ == ForthError::StackUnderflow.text(),
    {
        self.peek_at_depth(0)
    }

    /// The value `depth` places below the top; depth 0 is the top itself.
    pub fn peek_at_depth(&self, depth: usize) -> (r: Result<i16, String>)
        ensures
            depth < self@.len() ==> r == Ok::<i16, String>(self@[self@.len() - 1 - depth]),
            depth >= self@.len() ==> r is Err && r->Err_0@ == ForthError::StackUnderflow.text(),
    {
        let n: usize = self.data.len();
        if depth < n {
            Ok(self.data[n - 1 - depth])
        } else {
            Err(ForthError::StackUnderflow.message())
        }
    }

    /// The number of values on the stack.
    pub fn len(&self) -> (n: usize)
        ensures
            n == self@.len(),
            self.wf() ==> n <= self.capacity(),
    {
        self.data.len()
    }

    /// All values, the oldest first, borrowed from the stack.
    pub fn to_vec(&self) -> (s: &[i16])
        ensures
            s@ == self@,
    {
        self.data.as_slice()
    }

    /// A copy of all values, the oldest first.
    pub fn snapshot(&self) -> (v: Vec<i16>)
        ensures
            v@ == self@,
    {
        self.data.clone()
    }
}

proof fn lemma_pushes_append(items: Seq<i16>, capacity: nat, values: Seq<i16>)
    requires
        items.len() + values.len() <= capacity,
    ensures
        after_pushes(items, capacity, values) == items + values,
    decreases values.len(),
{
    if values.len() > 0 {
        lemma_pushes_append(items.push(values[0]), capacity, values.drop_first());
    } else {
    }
}

/// Last in, first out: after values are pushed in turn for which there is
/// room, as many pops return them in the reverse order and leave the stack
/// as it was before.
pub proof fn lemma_lifo(items: Seq<i16>, capacity: nat, values: Seq<i16>)
    requires
        items.len() + values.len() <= capacity,
    ensures
        popped(after_pushes(items, capacity, values), values.len()) == values.reverse(),
        after_pops(after_pushes(items, capacity, values), values.len()) == items,
    decreases values.len(),
{
    lemma_pushes_append(items, capacity, values);
    if values.len() > 0 {
        let front = values.drop_last();
        lemma_pushes_append(items, capacity, front);
        lemma_lifo(items, capacity, front);
        assert((items + values).drop_last() == items + front);
    }
}

} // verus!
