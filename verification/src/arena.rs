//! A simple growable arena: an owning store of nodes addressed by index.
//! Nodes are never removed, so an index stays good for the arena's life;
//! structures that need to reference each other can hold indices instead
//! of references.

use vstd::prelude::*;

verus! {

/// An owning store of nodes addressed by index.
pub struct Arena<T> {
    nodes: Vec<T>,
}

impl<T> View for Arena<T> {
    type V = Seq<T>;

    closed spec fn view(&self) -> Seq<T> {
        self.nodes@
    }
}

impl<T> Arena<T> {
    /// Create an empty arena with room reserved for `size` nodes.
    pub fn new(size: usize) -> (arena: Arena<T>)
        ensures
            arena@ =~= Seq::<T>::empty(),
    {
        Arena { nodes: Vec::with_capacity(size) }
    }

    /// Store a node and hand back its index, which stays good for the
    /// arena's life.
    pub fn allocate(&mut self, node: T) -> (index: usize)
        ensures
            final(self)@ == old(self)@.push(node),
            index as int == old(self)@.len(),
    {
        let index = self.nodes.len();
        self.nodes.push(node);
        index
    }

    /// The node behind an index.
    pub fn get(&self, index: usize) -> (node: &T)
        requires
            index < self@.len(),
        ensures
            *node == self@[index as int],
    {
        &self.nodes[index]
    }

    /// How many nodes the arena holds.
    pub fn len(&self) -> (n: usize)
        ensures
            n == self@.len(),
    {
        self.nodes.len()
    }
}

} // verus!
