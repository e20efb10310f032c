//! The suggestion-tree view model: which tree to show and to what
//! depth.

use vstd::prelude::*;

use crate::progression::ProgressionNode;

verus! {

/// A view over a suggestion tree: the tree to render, if any, and the
/// depth to render it to.
pub struct ChordTree {
    pub root: Option<ProgressionNode>,
    pub depth: usize,
}

impl ChordTree {
    pub fn new() -> (r: Self)
        ensures
            r.root is None,
            r.depth == 2,
    {
        Self { root: None, depth: 2 }
    }

    pub fn root(self, node: ProgressionNode) -> (r: Self)
        ensures
            r.root == Some(node),
            r.depth == self.depth,
    {
        Self { root: Some(node), ..self }
    }

    pub fn depth(self, d: usize) -> (r: Self)
        ensures
            r.depth == d,
            r.root == self.root,
    {
        Self { depth: d, ..self }
    }
}

} // verus!
