//! The dispatch queue: commands and callback-relayed events line up here
//! and leave strictly in arrival order, which is the consistency guarantee
//! of the dispatch loop.

use vstd::prelude::*;

verus! {

/// A first-in-first-out queue.
pub struct Fifo<T> {
    pub items: Vec<T>,
}

impl<T> View for Fifo<T> {
    type V = Seq<T>;

    open spec fn view(&self) -> Seq<T> {
        self.items@
    }
}

impl<T> Fifo<T> {
    /// An empty queue.
    pub fn new() -> (r: Fifo<T>)
        ensures
            r@ == Seq::<T>::empty(),
    {
        Fifo { items: Vec::new() }
    }

    /// How many items wait.
    pub fn len(&self) -> (r: usize)
        ensures
            r == self@.len(),
    {
        self.items.len()
    }

    /// A new arrival lines up behind everything already waiting.
    pub fn push_back(&mut self, item: T)
        ensures
            final(self)@ == old(self)@.push(item),
    {
        self.items.push(item);
    }

    /// The queue hands out the oldest arrival first: exactly the front of
    /// the queue leaves, and everything else keeps its order.
    pub fn pop_front(&mut self) -> (r: Option<T>)
        ensures
            old(self)@.len() == 0 ==> r is None && final(self)@ == old(self)@,
            old(self)@.len() > 0 ==> match r {
                Some(item) => item == old(self)@.first() && final(self)@ == old(self)@.drop_first(),
                None => false,
            },
    {
        if self.items.len() == 0 {
            return None;
        }
        let item = self.items.remove(0);
        proof {
            assert(self.items@ =~= old(self).items@.drop_first());
        }
        Some(item)
    }
}

/// Draining a queue visits its items front to back: after any number of
/// pops, what has left is exactly a prefix of what was lined up, in order.
pub proof fn lemma_fifo_drains_in_order<T>(lined_up: Seq<T>, popped: int)
    requires
        0 <= popped <= lined_up.len(),
    ensures
        lined_up.take(popped) + lined_up.skip(popped) == lined_up,
        popped < lined_up.len() ==> lined_up.skip(popped).first() == lined_up[popped],
{
    assert(lined_up.take(popped) + lined_up.skip(popped) =~= lined_up);
}

} // verus!
