//! The arena that exclusively owns the storage of every node of a tree and
//! hands out stable indices: it only ever grows, so an index stays valid for
//! the arena's whole lifetime.

use vstd::prelude::*;

verus! {

/// A growable, allocation-only store of nodes.  Nodes reference each other
/// by index into the arena that owns them; a well-formed node references
/// only nodes that were allocated before it (see
/// [`arena_children_wf`](crate::ast::arena_children_wf)), which keeps every
/// tree finite.
#[derive(Debug)]
pub struct Arena<N> {
    nodes: Vec<N>,
}

impl<N> View for Arena<N> {
    type V = Seq<N>;

    closed spec fn view(&self) -> Seq<N> {
        self.nodes@
    }
}

impl<N> Arena<N> {
    /// Create an empty arena.
    pub fn new() -> (r: Self)
        ensures
            r@ == Seq::<N>::empty(),
    {
        Arena { nodes: Vec::new() }
    }

    /// The number of nodes allocated so far.
    pub fn len(&self) -> (r: usize)
        ensures
            r == self@.len(),
    {
        self.nodes.len()
    }

    /// Resolve an index to the node it references.
    pub fn get(&self, i: usize) -> (r: &N)
        requires
            i < self@.len(),
        ensures
            *r == self@[i as int],
    {
        &self.nodes[i]
    }

    /// Allocate a new node and return its index.  Existing nodes are never
    /// moved or freed.
    pub fn add_node(&mut self, node: N) -> (r: usize)
        ensures
            final(self)@ == old(self)@.push(node),
            r == old(self)@.len(),
    {
        let r = self.nodes.len();
        self.nodes.push(node);
        r
    }
}

} // verus!
