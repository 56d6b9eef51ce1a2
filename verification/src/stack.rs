//! The value stack: a vector with push, pop, distance-from-top peeking and
//! absolute slot access, as the virtual machine needs it.

use vstd::prelude::*;

verus! {

#[derive(Debug)]
pub struct Stack<T> {
    data: Vec<T>,
}

impl<T> View for Stack<T> {
    type V = Seq<T>;

    closed spec fn view(&self) -> Seq<T> {
        self.data@
    }
}

impl<T> Stack<T> {
    pub fn new() -> (r: Self)
        ensures
            r@ =~= Seq::<T>::empty(),
    {
        Stack { data: Vec::new() }
    }

    pub fn push(&mut self, value: T) -> (r: ())
        ensures
            final(self)@ == old(self)@.push(value),
    {
        self.data.push(value)
    }

    pub fn pop(&mut self) -> (r: Option<T>)
        ensures
            old(self)@.len() == 0 ==> r is None && final(self)@ == old(self)@,
            old(self)@.len() > 0 ==> r == Some(old(self)@.last()) && final(self)@ == old(self)@.drop_last(),
    {
        self.data.pop()
    }

    /// The element `distance` below the top, without removing it.
    pub fn peek(&self, distance: usize) -> (r: Option<&T>)
        ensures
            distance < self@.len() ==> r == Some(&self@[self@.len() - distance - 1]),
            distance >= self@.len() ==> r is None,
    {
        if distance < self.data.len() {
            let idx = self.data.len() - distance - 1;
            Some(&self.data[idx])
        } else {
            None
        }
    }

    /// The element in absolute slot `idx`, counted from the bottom.
    pub fn get(&self, idx: usize) -> (r: Option<&T>)
        ensures
            idx < self@.len() ==> r == Some(&self@[idx as int]),
            idx >= self@.len() ==> r is None,
    {
        if idx < self.data.len() {
            Some(&self.data[idx])
        } else {
            None
        }
    }

    /// Overwrites absolute slot `idx`; reports whether the slot exists.
    pub fn set(&mut self, idx: usize, value: T) -> (r: bool)
        ensures
            idx < old(self)@.len() ==> r && final(self)@ == old(self)@.update(idx as int, value),
            idx >= old(self)@.len() ==> !r && final(self)@ == old(self)@,
    {
        if idx < self.data.len() {
            self.data.set(idx, value);
            true
        } else {
            false
        }
    }

    pub fn len(&self) -> (r: usize)
        ensures
            r == self@.len(),
    {
        self.data.len()
    }

    /// Empties the stack.
    pub fn reset(&mut self) -> (r: ())
        ensures
            final(self)@ =~= Seq::<T>::empty(),
    {
        self.data.clear()
    }
}

} // verus!
