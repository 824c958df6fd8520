//! A plain tree of nodes.

use vstd::prelude::*;

verus! {

/// A node and the subtrees below it.
pub struct Node {
    pub subs: Vec<Node>,
}

impl Node {
    /// A node without subtrees.
    pub fn new() -> (node: Node)
        ensures
            node.subs@.len() == 0,
    {
        Node { subs: Vec::new() }
    }

    /// Whether the node has no subtree.
    pub fn is_leaf_node(&self) -> (leaf: bool)
        ensures
            leaf == (self.subs@.len() == 0),
    {
        self.subs.len() == 0
    }
}

} // verus!
