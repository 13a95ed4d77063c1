//! The virtual machine's operand stack.
//!
//! Locals live in its lower region; expression evaluation pushes and pops
//! above them. The machine keeps it within a fixed capacity and reports an
//! overflow as a runtime error before any push could pass it.

use vstd::prelude::*;

use crate::value::Value;

verus! {

/// The operand stack: a sequence of values, the top at the end.
pub struct Stack {
    pub stack: Vec<Value>,
}

impl Stack {
    /// An empty stack with room reserved for `capacity` values.
    pub fn new(capacity: usize) -> (s: Self)
        ensures
            s.stack@ == Seq::<Value>::empty(),
    {
        let _ = capacity;
        Stack { stack: Vec::new() }
    }

    /// How many values the stack holds.
    pub fn depth(&self) -> (n: usize)
        ensures
            n == self.stack@.len(),
    {
        self.stack.len()
    }

    /// Pushes a value on top.
    pub fn push(&mut self, v: Value)
        ensures
            final(self).stack@ == old(self).stack@.push(v),
    {
        self.stack.push(v);
    }

    /// Pops the top value.
    pub fn pop(&mut self) -> (v: Value)
        requires
            old(self).stack@.len() > 0,
        ensures
            v == old(self).stack@.last(),
            final(self).stack@ == old(self).stack@.drop_last(),
    {
        proof {
            assert(old(self).stack@.subrange(0, old(self).stack@.len() - 1)
                =~= old(self).stack@.drop_last());
        }
        self.stack.pop().unwrap()
    }

    /// The top value, left in place.
    pub fn peek(&self) -> (v: Value)
        requires
            self.stack@.len() > 0,
        ensures
            v == self.stack@.last(),
    {
        let n = self.stack.len();
        self.stack[n - 1]
    }

    /// The value in slot `i`, counted from the bottom.
    pub fn get(&self, i: usize) -> (v: Value)
        requires
            i < self.stack@.len(),
        ensures
            v == self.stack@[i as int],
    {
        self.stack[i]
    }

    /// Overwrites the value in slot `i`.
    pub fn set(&mut self, v: Value, i: usize)
        requires
            i < old(self).stack@.len(),
        ensures
            final(self).stack@ == old(self).stack@.update(i as int, v),
    {
        self.stack.set(i, v);
    }

    /// Pops the top value where one is there.
    pub fn try_pop(&mut self) -> (v: Option<Value>)
        ensures
            old(self).stack@.len() > 0 ==> (v == Some(old(self).stack@.last())
                && final(self).stack@ == old(self).stack@.drop_last()),
            old(self).stack@.len() == 0 ==> (v is None && final(self).stack@ == old(self).stack@),
    {
        proof {
            if old(self).stack@.len() > 0 {
                assert(old(self).stack@.subrange(0, old(self).stack@.len() - 1)
                    =~= old(self).stack@.drop_last());
            }
        }
        self.stack.pop()
    }

    /// Empties the stack for a fresh run.
    pub fn reset(&mut self)
        ensures
            final(self).stack@ == Seq::<Value>::empty(),
    {
        self.stack.clear();
    }
}

} // verus!
