//! What holds of every node of a tree that the parser built.

use crate::container::Container;
use crate::input::Input;
use crate::node::{position_at, Node};
use crate::node_type::NodeType;
use crate::render::{render, render_children, render_first};
use crate::view::{children_view, view_of, views_first, NodeView};
use vstd::prelude::*;
use vstd::string::StringSliceAdditionalSpecFns;

verus! {

/// A container without children has nothing to write out for them, and
/// they are sound.
pub(crate) proof fn lemma_empty_children(c: Container, input: &Input)
    requires
        c.nodes.len() == 0,
    ensures
        render_children(c) == Seq::<u8>::empty(),
        sound_children(c, input),
        children_view(c) == Seq::<NodeView>::empty(),
{
    reveal_with_fuel(render_first, 2);
    reveal_with_fuel(render, 2);
    reveal_with_fuel(sound_first, 2);
    reveal_with_fuel(sound, 2);
    reveal_with_fuel(views_first, 2);
    reveal_with_fuel(view_of, 2);
}

/// The source of the node is a closed span of the text of `input`: both
/// ends are positions of that text, and the start does not lie behind the
/// end.
pub open spec fn spanned(node: Node, input: &Input) -> bool {
    let css = input.css.spec_bytes();
    &&& node.source matches Some(s)
    &&& s.input == input
    &&& s.start == position_at(css, s.start.offset as int)
    &&& s.end matches Some(e)
    &&& e == position_at(css, e.offset as int)
    &&& s.start.offset <= e.offset <= css.len()
}

/// The member and all that it owns are as the parser leaves them: the
/// parent of every node is the handle of its owner, the kind of every node
/// is that of the member it is in, every node spans a piece of the text of
/// `input`, and an at-rule without a block has no children.
#[verifier::opaque]
pub open spec fn sound(n: NodeType, input: &Input, parent: Option<usize>) -> bool
    decreases n, 0int,
{
    let node = n.node();
    &&& node.parent == parent
    &&& node.node_type == n.kind()
    &&& spanned(node, input)
    &&& match n {
        NodeType::Root(r) => sound_first(
            r.container.nodes,
            r.container.nodes.len() as int,
            input,
            node.id,
        ),
        NodeType::Rule(r) => sound_first(
            r.container.nodes,
            r.container.nodes.len() as int,
            input,
            node.id,
        ),
        NodeType::AtRule(a) => sound_first(
            a.container.nodes,
            a.container.nodes.len() as int,
            input,
            node.id,
        ) && (a.has_block || a.container.nodes.len() == 0),
        NodeType::Declaration(_) => true,
        NodeType::Comment(_) => true,
    }
}

/// The first `k` of `nodes` are sound as children of the node whose handle
/// is `owner`.
#[verifier::opaque]
pub open spec fn sound_first(nodes: Vec<NodeType>, k: int, input: &Input, owner: usize) -> bool
    decreases nodes, k,
{
    if k <= 0 || k > nodes.len() {
        true
    } else {
        sound_first(nodes, k - 1, input, owner) && sound(nodes[k - 1], input, Some(owner))
    }
}

/// All children of a container are sound.
pub open spec fn sound_children(c: Container, input: &Input) -> bool {
    sound_first(c.nodes, c.nodes.len() as int, input, c.node.id)
}

/// A member that is sound under one owner is sound under any other once
/// its parent is set to that owner.
pub(crate) proof fn lemma_sound_with_parent(n: NodeType, input: &Input, parent: Option<usize>)
    requires
        sound(n, input, n.node().parent),
    ensures
        sound(n.with_parent(parent), input, parent),
{
    reveal_with_fuel(sound, 2);
    reveal_with_fuel(sound_first, 2);
}

/// A member is sound when its node and its children are.
pub proof fn lemma_sound_of(n: NodeType, input: &Input, parent: Option<usize>)
    ensures
        sound(n, input, parent) == ({
            let node = n.node();
            &&& node.parent == parent
            &&& node.node_type == n.kind()
            &&& spanned(node, input)
            &&& match n {
                NodeType::Root(r) => sound_children(r.container, input),
                NodeType::Rule(r) => sound_children(r.container, input),
                NodeType::AtRule(a) => sound_children(a.container, input) && (a.has_block
                    || a.container.nodes.len() == 0),
                NodeType::Declaration(_) => true,
                NodeType::Comment(_) => true,
            }
        }),
{
    reveal_with_fuel(sound, 2);
    reveal_with_fuel(sound_first, 2);
}

/// Whether the first `k` members are sound depends on these alone.
pub(crate) proof fn lemma_sound_first_prefix(
    a: Vec<NodeType>,
    b: Vec<NodeType>,
    k: int,
    input: &Input,
    owner: usize,
)
    requires
        0 <= k <= a.len(),
        k <= b.len(),
        forall|i: int| 0 <= i < k ==> a[i] == b[i],
    ensures
        sound_first(a, k, input, owner) == sound_first(b, k, input, owner),
    decreases k,
{
    reveal_with_fuel(sound_first, 2);
    reveal_with_fuel(sound, 2);
    if k > 0 {
        lemma_sound_first_prefix(a, b, k - 1, input, owner);
    }
}

/// Sound children stay sound when a sound child joins them.
pub(crate) proof fn lemma_sound_pushed(
    before: Vec<NodeType>,
    after: Vec<NodeType>,
    child: NodeType,
    input: &Input,
    owner: usize,
)
    requires
        after@ == before@.push(child),
        sound_first(before, before.len() as int, input, owner),
        sound(child, input, Some(owner)),
    ensures
        sound_first(after, after.len() as int, input, owner),
{
    reveal_with_fuel(sound_first, 2);
    reveal_with_fuel(sound, 2);
    lemma_sound_first_prefix(before, after, before.len() as int, input, owner);
}

} // verus!
