//! The members of the tree.

use crate::container::Container;
use crate::node::{Node, NodeKind};
use crate::root::Root;
use vstd::prelude::*;

verus! {

/// A selector and the block it governs.
#[derive(Debug)]
pub struct Rule<'a> {
    pub container: Container<'a>,
    pub selector: &'a str,
}

/// An `@` name with its parameters, and its block if it has one.
#[derive(Debug)]
pub struct AtRule<'a> {
    pub container: Container<'a>,
    /// The name, without the `@`.
    pub name: &'a str,
    pub params: &'a str,
    /// Whether a block follows the parameters. Without one the container
    /// stays empty.
    pub has_block: bool,
}

/// A property and its value.
#[derive(Debug)]
pub struct Declaration<'a> {
    pub node: Node<'a>,
    pub prop: &'a str,
    pub value: &'a str,
}

/// A comment.
#[derive(Debug)]
pub struct Comment<'a> {
    pub node: Node<'a>,
    /// The text between `/*` and `*/`, without the whitespace at its ends.
    pub text: &'a str,
}

/// A member of the tree: one of the five kinds of node, each with what only
/// that kind has.
#[derive(Debug)]
pub enum NodeType<'a> {
    Root(Root<'a>),
    Rule(Rule<'a>),
    AtRule(AtRule<'a>),
    Declaration(Declaration<'a>),
    Comment(Comment<'a>),
}

impl<'a> NodeType<'a> {
    /// The node inside the member.
    pub open spec fn node(&self) -> Node<'a> {
        match *self {
            NodeType::Root(r) => r.container.node,
            NodeType::Rule(r) => r.container.node,
            NodeType::AtRule(a) => a.container.node,
            NodeType::Declaration(d) => d.node,
            NodeType::Comment(c) => c.node,
        }
    }

    /// The kind of the member.
    pub open spec fn kind(&self) -> NodeKind {
        match *self {
            NodeType::Root(_) => NodeKind::Root,
            NodeType::Rule(_) => NodeKind::Rule,
            NodeType::AtRule(_) => NodeKind::AtRule,
            NodeType::Declaration(_) => NodeKind::Declaration,
            NodeType::Comment(_) => NodeKind::Comment,
        }
    }

    /// The member with `node` in place of its own node.
    pub open spec fn with_node(self, node: Node<'a>) -> NodeType<'a> {
        match self {
            NodeType::Root(r) => NodeType::Root(
                Root { container: Container { node, ..r.container } },
            ),
            NodeType::Rule(r) => NodeType::Rule(
                Rule { container: Container { node, ..r.container }, ..r },
            ),
            NodeType::AtRule(a) => NodeType::AtRule(
                AtRule { container: Container { node, ..a.container }, ..a },
            ),
            NodeType::Declaration(d) => NodeType::Declaration(Declaration { node, ..d }),
            NodeType::Comment(c) => NodeType::Comment(Comment { node, ..c }),
        }
    }

    /// The member with `parent` as the handle of its owner.
    pub open spec fn with_parent(self, parent: Option<usize>) -> NodeType<'a> {
        self.with_node(Node { parent, ..self.node() })
    }

    /// Gives the kind of the member.
    pub fn node_kind(&self) -> (k: NodeKind)
        ensures
            k == self.kind(),
    {
        match self {
            NodeType::Root(_) => NodeKind::Root,
            NodeType::Rule(_) => NodeKind::Rule,
            NodeType::AtRule(_) => NodeKind::AtRule,
            NodeType::Declaration(_) => NodeKind::Declaration,
            NodeType::Comment(_) => NodeKind::Comment,
        }
    }

    /// Gives the node inside the member.
    pub fn as_node(&self) -> (n: &Node<'a>)
        ensures
            *n == self.node(),
    {
        match self {
            NodeType::Root(r) => &r.container.node,
            NodeType::Rule(r) => &r.container.node,
            NodeType::AtRule(a) => &a.container.node,
            NodeType::Declaration(d) => &d.node,
            NodeType::Comment(c) => &c.node,
        }
    }

    /// Makes `parent` the handle of the owner of the member.
    pub fn set_parent(self, parent: Option<usize>) -> (n: NodeType<'a>)
        ensures
            n == self.with_parent(parent),
    {
        match self {
            NodeType::Root(r) => {
                let mut r = r;
                r.container.node.parent = parent;
                NodeType::Root(r)
            },
            NodeType::Rule(r) => {
                let mut r = r;
                r.container.node.parent = parent;
                NodeType::Rule(r)
            },
            NodeType::AtRule(a) => {
                let mut a = a;
                a.container.node.parent = parent;
                NodeType::AtRule(a)
            },
            NodeType::Declaration(d) => {
                let mut d = d;
                d.node.parent = parent;
                NodeType::Declaration(d)
            },
            NodeType::Comment(c) => {
                let mut c = c;
                c.node.parent = parent;
                NodeType::Comment(c)
            },
        }
    }
}

} // verus!
