use vstd::prelude::*;

verus! {

/// Storage for the VM: its stack of values.
#[derive(Debug)]
pub struct Storage<V> {
    stack: Vec<V>,
}

impl<V> Storage<V> {
    /// The values on the stack, bottom first.
    pub closed spec fn stack_spec(&self) -> Seq<V> {
        self.stack@
    }

    /// Pushes a value onto the stack.
    pub fn push_stack(&mut self, value: V)
        ensures
            final(self).stack_spec() == old(self).stack_spec().push(value),
    {
        self.stack.push(value);
    }

    /// Pops the top value off the stack, if there is one.
    pub fn pop_stack(&mut self) -> (r: Option<V>)
        ensures
            r == if old(self).stack_spec().len() > 0 {
                Some(old(self).stack_spec().last())
            } else {
                None::<V>
            },
            final(self).stack_spec() == if old(self).stack_spec().len() > 0 {
                old(self).stack_spec().drop_last()
            } else {
                old(self).stack_spec()
            },
    {
        self.stack.pop()
    }

    /// The top value of the stack, if there is one.
    pub fn peek_stack(&mut self) -> (r: Option<&V>)
        ensures
            r == if old(self).stack_spec().len() > 0 {
                Some(&old(self).stack_spec().last())
            } else {
                None
            },
            final(self).stack_spec() == old(self).stack_spec(),
    {
        let n = self.stack.len();
        if n == 0 {
            None
        } else {
            Some(&self.stack[n - 1])
        }
    }
}

impl<V> Default for Storage<V> {
    fn default() -> (r: Self)
        ensures
            r.stack_spec() == Seq::<V>::empty(),
    {
        Storage { stack: Vec::new() }
    }
}

} // verus!
