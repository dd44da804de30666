//! A stack over a vector, the last element on top.

use vstd::prelude::*;

verus! {

#[derive(Clone)]
pub struct Stack<T> {
    vec: Vec<T>,
}

impl<T> View for Stack<T> {
    type V = Seq<T>;

    closed spec fn view(&self) -> Seq<T> {
        self.vec@
    }
}

impl<T> Stack<T> {
    pub fn new() -> (r: Stack<T>)
        ensures
            r@ == Seq::<T>::empty(),
    {
        Stack { vec: Vec::new() }
    }

    /// A stack that holds `first` alone.
    pub fn init(first: T) -> (r: Stack<T>)
        ensures
            r@ == seq![first],
    {
        let mut res = Stack::new();
        res.push(first);
        assert(res@ =~= seq![first]);
        res
    }

    pub fn clear(&mut self)
        ensures
            final(self)@ == Seq::<T>::empty(),
    {
        self.vec.clear()
    }

    pub fn push(&mut self, x: T)
        ensures
            final(self)@ == old(self)@.push(x),
    {
        self.vec.push(x);
    }

    /// Takes the top off, if there is one.
    pub fn pop(&mut self) -> (r: Option<T>)
        ensures
            old(self)@.len() == 0 ==> r is None && final(self)@ == old(self)@,
            old(self)@.len() > 0 ==> r == Some(old(self)@.last()) && final(self)@ == old(
                self,
            )@.drop_last(),
    {
        let r = self.vec.pop();
        assert(old(self)@.len() > 0 ==> self@ =~= old(self)@.drop_last());
        r
    }

    /// The top, if there is one.
    pub fn val(&self) -> (r: Option<&T>)
        ensures
            self@.len() == 0 ==> r is None,
            self@.len() > 0 ==> r == Some(&self@.last()),
    {
        if self.vec.len() == 0 {
            None
        } else {
            Some(&self.vec[self.vec.len() - 1])
        }
    }

    /// The top, to be changed in place, if there is one.
    pub fn val_mut(&mut self) -> (r: Option<&mut T>)
        ensures
            old(self)@.len() == 0 ==> r is None && final(self)@ == old(self)@,
            old(self)@.len() > 0 ==> (r matches Some(top) && *top == old(self)@.last()
                && final(self)@ == old(self)@.drop_last().push(*final(top))),
    {
        let n = self.vec.len();
        if n == 0 {
            None
        } else {
            Some(&mut self.vec[n - 1])
        }
    }

    pub fn is_empty(&self) -> (r: bool)
        ensures
            r == (self@.len() == 0),
    {
        self.vec.len() == 0
    }

    pub fn size(&self) -> (r: usize)
        ensures
            r == self@.len(),
    {
        self.vec.len()
    }

    /// Puts `new` in the place of the top.
    pub fn change_top(&mut self, new: T)
        requires
            old(self)@.len() > 0,
        ensures
            final(self)@ == old(self)@.drop_last().push(new),
    {
        let n = self.vec.len();
        self.vec.set(n - 1, new);
        assert(self@ =~= old(self)@.drop_last().push(new));
    }
}

} // verus!
