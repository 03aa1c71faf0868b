//! A queue of items that can be read from the front and grown at both ends.
use std::collections::VecDeque;
use vstd::prelude::*;

verus! {

/// An iterator that can be extended at its back and prepended to at its front.
pub struct ExtendableIterator<T> {
    items: VecDeque<T>,
}

impl<T> View for ExtendableIterator<T> {
    type V = Seq<T>;

    /// The items still to come, front first.
    closed spec fn view(&self) -> Seq<T> {
        self.items@
    }
}

impl<T> ExtendableIterator<T> {
    /// Construct a new iterator over the given items.
    pub fn new(items: Vec<T>) -> (r: Self)
        ensures
            r@ == items@,
    {
        let mut q: VecDeque<T> = VecDeque::new();
        let mut items = items;
        let ghost all = items@;
        // Fill from the back so that each item goes in front of the later ones.
        while items.len() > 0
            invariant
                all == items@ + q@,
            decreases items.len(),
        {
            let x = items.pop().unwrap();
            q.push_front(x);
            proof {
                assert(all =~= items@ + q@);
            }
        }
        assert(q@ =~= all);
        ExtendableIterator { items: q }
    }

    /// Put the given items in front of those still to come, in their order.
    pub fn prepend(&mut self, items: Vec<T>)
        ensures
            final(self)@ == items@ + old(self)@,
    {
        let mut items = items;
        let ghost all = items@ + self@;
        while items.len() > 0
            invariant
                all == items@ + self.items@,
            decreases items.len(),
        {
            let x = items.pop().unwrap();
            self.items.push_front(x);
            proof {
                assert(all =~= items@ + self.items@);
            }
        }
        assert(self.items@ =~= all);
    }

    /// Put the given items after those still to come, in their order.
    pub fn extend(&mut self, items: Vec<T>)
        ensures
            final(self)@ == old(self)@ + items@,
    {
        let mut rest = ExtendableIterator::new(items);
        self.items.append(&mut rest.items);
    }

    /// Take the next item, if any.
    pub fn next(&mut self) -> (r: Option<T>)
        ensures
            old(self)@.len() == 0 ==> r is None && final(self)@ == old(self)@,
            old(self)@.len() > 0 ==> r == Some(old(self)@[0]) && final(self)@ == old(self)@.drop_first(),
    {
        self.items.pop_front()
    }

    /// Check if no items are left.
    pub fn is_empty(&self) -> (r: bool)
        ensures
            r == (self@.len() == 0),
    {
        self.items.len() == 0
    }
}

} // verus!
