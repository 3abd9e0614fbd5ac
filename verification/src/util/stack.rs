//! A last-in, first-out stack.
use vstd::prelude::*;

verus! {

/// A stack of values; the top is the element pushed last.
#[derive(Debug)]
pub struct Stack<T> {
    stack: Vec<T>,
}

impl<T> View for Stack<T> {
    type V = Seq<T>;

    /// The elements from the bottom of the stack to its top.
    closed spec fn view(&self) -> Seq<T> {
        self.stack@
    }
}

impl<T> Stack<T> {
    /// An empty stack.
    pub fn new() -> (r: Self)
        ensures
            r@ == Seq::<T>::empty(),
    {
        Stack { stack: Vec::new() }
    }

    /// The number of elements on the stack.
    pub fn len(&self) -> (r: usize)
        ensures
            r == self@.len(),
    {
        self.stack.len()
    }

    /// The element at `i`, counted from the bottom.
    pub fn get(&self, i: usize) -> (r: &T)
        requires
            i < self@.len(),
        ensures
            *r == self@[i as int],
    {
        &self.stack[i]
    }

    /// The top of the stack, which stays where it is.
    pub fn top(&self) -> (r: Option<&T>)
        ensures
            self@.len() == 0 ==> r is None,
            self@.len() > 0 ==> r == Some(&self@.last()),
    {
        let n = self.stack.len();
        if n == 0 {
            None
        } else {
            Some(&self.stack[n - 1])
        }
    }

    /// The top of a stack that is not empty, for changing it in place.
    pub fn top_mut(&mut self) -> (r: &mut T)
        requires
            old(self)@.len() > 0,
        ensures
            *r == old(self)@.last(),
            final(self)@ == old(self)@.drop_last().push(*final(r)),
    {
        let n = self.stack.len();
        let r = &mut self.stack[n - 1];
        proof {
            assert(old(self)@.update(n - 1, *final(r)) =~= old(self)@.drop_last().push(*final(r)));
        }
        r
    }

    /// Takes the top off the stack.
    pub fn pop(&mut self) -> (r: Option<T>)
        ensures
            old(self)@.len() == 0 ==> r is None && final(self)@ == old(self)@,
            old(self)@.len() > 0 ==> r == Some(old(self)@.last()) && final(self)@ == old(self)@.drop_last(),
    {
        self.stack.pop()
    }

    /// Puts `val` on top of the stack.
    pub fn push(&mut self, val: T)
        ensures
            final(self)@ == old(self)@.push(val),
    {
        self.stack.push(val);
    }

    /// A cursor that walks the stack from its top to its bottom.
    pub fn iter(&self) -> (r: Iter<'_, T>)
        ensures
            r.elements() == self@,
            r.position() == self@.len(),
    {
        Iter { stack: &self.stack, pos: self.stack.len() }
    }
}

/// A cursor over a stack: `position` elements are still to come, and the
/// next one handed out is the one just below the position.
pub struct Iter<'a, T> {
    stack: &'a Vec<T>,
    pos: usize,
}

impl<'a, T> Iter<'a, T> {
    /// The elements of the stack that the cursor walks, bottom first.
    pub closed spec fn elements(&self) -> Seq<T> {
        self.stack@
    }

    /// How many elements the cursor has yet to hand out.
    pub closed spec fn position(&self) -> int {
        self.pos as int
    }

    #[verifier::type_invariant]
    spec fn in_range(&self) -> bool {
        self.pos <= self.stack@.len()
    }

    /// Hands out the next element on the way down, if one is left.
    pub fn next(&mut self) -> (r: Option<&'a T>)
        ensures
            final(self).elements() == old(self).elements(),
            old(self).position() > 0 ==> final(self).position() == old(self).position() - 1
                && r == Some(&old(self).elements()[old(self).position() - 1]),
            old(self).position() <= 0 ==> final(self).position() == old(self).position()
                && r is None,
    {
        proof {
            use_type_invariant(&*self);
        }
        if self.pos > 0 {
            self.pos -= 1;
            Some(&self.stack[self.pos])
        } else {
            None
        }
    }
}

} // verus!
