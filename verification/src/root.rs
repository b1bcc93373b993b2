//! The root of a tree.

use crate::container::Container;
use crate::node::NodeKind;
use crate::render::{render_root, write_root};
use vstd::prelude::*;

verus! {

/// The whole document: a container that has no parent.
#[derive(Debug)]
pub struct Root<'a> {
    pub container: Container<'a>,
}

impl<'a> Root<'a> {
    /// The root of an empty document.
    pub fn new() -> (r: Root<'a>)
        ensures
            r.container.node.node_type == NodeKind::Root,
            r.container.node.id == 0,
            r.container.node.parent is None,
            r.container.node.source is None,
            r.container.node.raws.is_empty(),
            r.container.nodes@.len() == 0,
    {
        Root { container: Container::new_by_node_type(NodeKind::Root) }
    }

    /// Writes out the tree: gives the text that it stands for.
    pub fn to_bytes(&self) -> (out: Vec<u8>)
        ensures
            out@ == render_root(*self),
    {
        let mut out: Vec<u8> = Vec::new();
        write_root(self, &mut out);
        assert(out@ =~= render_root(*self));
        out
    }
}

} // verus!
