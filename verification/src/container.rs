//! A node that owns an ordered sequence of children.

use crate::input::Input;
use crate::node::{Node, NodeKind};
use crate::node_type::NodeType;
use crate::render::{lemma_render_pushed, lemma_render_with_parent, render, render_children};
use crate::sound::{lemma_sound_pushed, lemma_sound_with_parent, sound, sound_children};
use crate::view::{children_view, lemma_view_with_parent, lemma_views_pushed, view_of, NodeView};
use vstd::prelude::*;

verus! {

/// A node with children. The order of the children is the order of the
/// document.
#[derive(Debug)]
pub struct Container<'a> {
    pub node: Node<'a>,
    pub nodes: Vec<NodeType<'a>>,
}

impl<'a> Container<'a> {
    /// The empty container of a whole document.
    pub fn new() -> (c: Container<'a>)
        ensures
            c.node.node_type == NodeKind::Root,
            c.node.id == 0,
            c.node.parent is None,
            c.node.source is None,
            c.node.raws.is_empty(),
            c.nodes@.len() == 0,
    {
        Container { node: Node::new(NodeKind::Root), nodes: Vec::new() }
    }

    /// The empty container of the given kind.
    pub fn new_by_node_type(node_type: NodeKind) -> (c: Container<'a>)
        ensures
            c.node.node_type == node_type,
            c.node.id == 0,
            c.node.parent is None,
            c.node.source is None,
            c.node.raws.is_empty(),
            c.nodes@.len() == 0,
    {
        Container { node: Node::new(node_type), nodes: Vec::new() }
    }

    /// Puts `child` behind the children that are there, as a child of this
    /// container: its parent is the handle of this container from then on.
    pub fn append_child(&mut self, child: NodeType<'a>)
        ensures
            final(self).node == old(self).node,
            final(self).nodes@ == old(self).nodes@.push(
                child.with_parent(Some(old(self).node.id)),
            ),
            render_children(*final(self)) == render_children(*old(self)) + render(child),
            children_view(*final(self)) == children_view(*old(self)).push(
                NodeView { parent: Some(old(self).node.id), ..view_of(child) },
            ),
            forall|input: &Input|
                sound_children(*old(self), input) && sound(child, input, child.node().parent)
                    ==> #[trigger] sound_children(*final(self), input),
    {
        let ghost given = child;
        let child = child.set_parent(Some(self.node.id));
        let ghost before = self.nodes;
        self.nodes.push(child);
        proof {
            lemma_render_pushed(before, self.nodes, child);
            lemma_render_with_parent(given, Some(self.node.id));
            lemma_views_pushed(before, self.nodes, child);
            lemma_view_with_parent(given, Some(self.node.id));
            assert forall|input: &Input|
                sound_children(*old(self), input) && sound(
                    given,
                    input,
                    given.node().parent,
                ) implies #[trigger] sound_children(*self, input) by {
                lemma_sound_with_parent(given, input, Some(self.node.id));
                lemma_sound_pushed(before, self.nodes, child, input, self.node.id);
            }
        }
    }
}

} // verus!
