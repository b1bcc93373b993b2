//! The tree as the contracts see it.
//!
//! A view holds of a member what the member holds, with the bytes of every
//! text in place of the text, and with the views of its children in place of
//! the children.

use crate::container::Container;
use crate::node::{Node, NodeKind, Raws, Source};
use crate::node_type::NodeType;
use crate::root::Root;
use vstd::prelude::*;
use vstd::string::StringSliceAdditionalSpecFns;

verus! {

/// Formatting as the contracts see it: the bytes of every text.
#[verifier::ext_equal]
pub struct RawsView {
    pub before: Option<Seq<u8>>,
    pub after: Option<Seq<u8>>,
    pub between: Option<Seq<u8>>,
    pub semicolon: bool,
    pub after_name: Option<Seq<u8>>,
    pub left: Option<Seq<u8>>,
    pub right: Option<Seq<u8>>,
    pub important: Option<Seq<u8>>,
}

/// A member of the tree as the contracts see it, with all that it owns.
#[verifier::ext_equal]
pub struct NodeView<'a> {
    pub kind: NodeKind,
    /// The handle of the node.
    pub id: usize,
    /// The handle of the owner.
    pub parent: Option<usize>,
    pub source: Option<Source<'a>>,
    pub raws: RawsView,
    /// The selector of a rule, the name of an at-rule, the property of a
    /// declaration, the text of a comment. A root has none.
    pub name: Seq<u8>,
    /// The parameters of an at-rule, the value of a declaration. The other
    /// kinds have none.
    pub value: Seq<u8>,
    /// A root, a rule, and an at-rule that has a block.
    pub has_block: bool,
    pub children: Seq<NodeView<'a>>,
}

/// The bytes of a text that may be absent.
pub open spec fn option_view(s: Option<&str>) -> Option<Seq<u8>> {
    match s {
        Some(t) => Some(t.spec_bytes()),
        None => None,
    }
}

/// Formatting as the contracts see it.
pub open spec fn raws_view(raws: Raws) -> RawsView {
    RawsView {
        before: option_view(raws.before),
        after: option_view(raws.after),
        between: option_view(raws.between),
        semicolon: raws.semicolon,
        after_name: option_view(raws.after_name),
        left: option_view(raws.left),
        right: option_view(raws.right),
        important: option_view(raws.important),
    }
}

/// The view that is made of a node, of what its kind adds to it, and of
/// the views of its children.
pub open spec fn node_view<'a>(
    node: Node<'a>,
    kind: NodeKind,
    name: Seq<u8>,
    value: Seq<u8>,
    has_block: bool,
    children: Seq<NodeView<'a>>,
) -> NodeView<'a> {
    NodeView {
        kind,
        id: node.id,
        parent: node.parent,
        source: node.source,
        raws: raws_view(node.raws),
        name,
        value,
        has_block,
        children,
    }
}

/// A member of the tree as the contracts see it.
#[verifier::opaque]
pub open spec fn view_of<'a>(n: NodeType<'a>) -> NodeView<'a>
    decreases n, 0int,
{
    match n {
        NodeType::Root(r) => node_view(
            r.container.node,
            NodeKind::Root,
            Seq::empty(),
            Seq::empty(),
            true,
            views_first(r.container.nodes, r.container.nodes.len() as int),
        ),
        NodeType::Rule(r) => node_view(
            r.container.node,
            NodeKind::Rule,
            r.selector.spec_bytes(),
            Seq::empty(),
            true,
            views_first(r.container.nodes, r.container.nodes.len() as int),
        ),
        NodeType::AtRule(a) => node_view(
            a.container.node,
            NodeKind::AtRule,
            a.name.spec_bytes(),
            a.params.spec_bytes(),
            a.has_block,
            views_first(a.container.nodes, a.container.nodes.len() as int),
        ),
        NodeType::Declaration(d) => node_view(
            d.node,
            NodeKind::Declaration,
            d.prop.spec_bytes(),
            d.value.spec_bytes(),
            false,
            Seq::empty(),
        ),
        NodeType::Comment(c) => node_view(
            c.node,
            NodeKind::Comment,
            c.text.spec_bytes(),
            Seq::empty(),
            false,
            Seq::empty(),
        ),
    }
}

/// The views of the first `k` of `nodes`.
#[verifier::opaque]
pub open spec fn views_first<'a>(nodes: Vec<NodeType<'a>>, k: int) -> Seq<NodeView<'a>>
    decreases nodes, k,
{
    if k <= 0 || k > nodes.len() {
        Seq::empty()
    } else {
        views_first(nodes, k - 1).push(view_of(nodes[k - 1]))
    }
}

/// The views of all children of a container.
pub open spec fn children_view<'a>(c: Container<'a>) -> Seq<NodeView<'a>> {
    views_first(c.nodes, c.nodes.len() as int)
}

/// The view of a root.
pub open spec fn root_view<'a>(r: Root<'a>) -> NodeView<'a> {
    view_of(NodeType::Root(r))
}

/// The view with `child` as the last child: the parent of the child is the
/// handle of its new owner.
pub open spec fn with_child<'a>(owner: NodeView<'a>, child: NodeView<'a>) -> NodeView<'a> {
    NodeView {
        children: owner.children.push(NodeView { parent: Some(owner.id), ..child }),
        ..owner
    }
}

/// Setting the parent changes the parent in the view, and nothing else.
pub(crate) proof fn lemma_view_with_parent(n: NodeType, parent: Option<usize>)
    ensures
        view_of(n.with_parent(parent)) == (NodeView { parent, ..view_of(n) }),
{
    reveal_with_fuel(view_of, 2);
    reveal_with_fuel(views_first, 2);
}

/// The views of the first `k` members depend on these alone.
pub(crate) proof fn lemma_views_first_prefix(a: Vec<NodeType>, b: Vec<NodeType>, k: int)
    requires
        0 <= k <= a.len(),
        k <= b.len(),
        forall|i: int| 0 <= i < k ==> a[i] == b[i],
    ensures
        views_first(a, k) == views_first(b, k),
    decreases k,
{
    reveal_with_fuel(views_first, 2);
    reveal_with_fuel(view_of, 2);
    if k > 0 {
        lemma_views_first_prefix(a, b, k - 1);
    }
}

/// One more child adds its view at the end.
pub(crate) proof fn lemma_views_pushed(before: Vec<NodeType>, after: Vec<NodeType>, child: NodeType)
    requires
        after@ == before@.push(child),
    ensures
        views_first(after, after.len() as int) == views_first(before, before.len() as int).push(
            view_of(child),
        ),
{
    reveal_with_fuel(views_first, 2);
    reveal_with_fuel(view_of, 2);
    lemma_views_first_prefix(before, after, before.len() as int);
}

/// The view of a member is made of its node, of what its kind adds to it,
/// and of the views of its children.
pub proof fn lemma_view_of(n: NodeType)
    ensures
        view_of(n) == (match n {
            NodeType::Root(r) => node_view(
                r.container.node,
                NodeKind::Root,
                Seq::empty(),
                Seq::empty(),
                true,
                children_view(r.container),
            ),
            NodeType::Rule(r) => node_view(
                r.container.node,
                NodeKind::Rule,
                r.selector.spec_bytes(),
                Seq::empty(),
                true,
                children_view(r.container),
            ),
            NodeType::AtRule(a) => node_view(
                a.container.node,
                NodeKind::AtRule,
                a.name.spec_bytes(),
                a.params.spec_bytes(),
                a.has_block,
                children_view(a.container),
            ),
            NodeType::Declaration(d) => node_view(
                d.node,
                NodeKind::Declaration,
                d.prop.spec_bytes(),
                d.value.spec_bytes(),
                false,
                Seq::empty(),
            ),
            NodeType::Comment(c) => node_view(
                c.node,
                NodeKind::Comment,
                c.text.spec_bytes(),
                Seq::empty(),
                false,
                Seq::empty(),
            ),
        }),
{
    reveal_with_fuel(view_of, 2);
    reveal_with_fuel(views_first, 2);
}

/// The view of a member has the handle, the parent and the span of its
/// node.
pub proof fn lemma_view_node(n: NodeType)
    ensures
        view_of(n).id == n.node().id,
        view_of(n).parent == n.node().parent,
        view_of(n).source == n.node().source,
{
    reveal_with_fuel(view_of, 2);
    reveal_with_fuel(views_first, 2);
}

} // verus!
