//! How a tree is written out.
//!
//! [`render`] says which text a member of the tree stands for;
//! [`write_node`] writes that text.

use crate::bytes::{ASTERISK, AT, CLOSE_CURLY, OPEN_CURLY, SEMICOLON, SLASH};
use crate::container::Container;
use crate::node_type::{AtRule, Comment, Declaration, NodeType, Rule};
use crate::root::Root;
use crate::text::option_bytes;
use vstd::prelude::*;
use vstd::string::StringSliceAdditionalSpecFns;

verus! {

/// The one byte `b`.
pub open spec fn byte(b: u8) -> Seq<u8> {
    seq![b]
}

/// `;` where `present`, nothing where not.
pub open spec fn semicolon_bytes(present: bool) -> Seq<u8> {
    if present {
        byte(SEMICOLON)
    } else {
        Seq::empty()
    }
}

/// The text that the member stands for: what is written out for it.
#[verifier::opaque]
pub open spec fn render(n: NodeType) -> Seq<u8>
    decreases n, 0int,
{
    match n {
        NodeType::Root(r) => render_root(r),
        NodeType::Rule(r) => render_rule(r),
        NodeType::AtRule(a) => render_at_rule(a),
        NodeType::Declaration(d) => render_declaration(d),
        NodeType::Comment(c) => render_comment(c),
    }
}

/// The texts of the first `k` of `nodes`, one after the other.
#[verifier::opaque]
pub open spec fn render_first(nodes: Vec<NodeType>, k: int) -> Seq<u8>
    decreases nodes, k,
{
    if k <= 0 || k > nodes.len() {
        Seq::empty()
    } else {
        render_first(nodes, k - 1) + render(nodes[k - 1])
    }
}

/// The texts of all children of a container, one after the other.
pub open spec fn render_children(c: Container) -> Seq<u8>
    decreases c, 0int,
{
    render_first(c.nodes, c.nodes.len() as int)
}

/// A root is its children and what follows them.
pub open spec fn render_root(r: Root) -> Seq<u8>
    decreases r, 0int,
{
    render_children(r.container) + option_bytes(r.container.node.raws.after)
}

/// What stands before the children of a rule: its selector and the `{`.
pub open spec fn rule_head(r: Rule) -> Seq<u8> {
    let raws = r.container.node.raws;
    option_bytes(raws.before) + r.selector.spec_bytes() + option_bytes(raws.between) + byte(
        OPEN_CURLY,
    )
}

/// What stands at the start of an at-rule: `@`, its name and its
/// parameters.
pub open spec fn at_rule_head(a: AtRule) -> Seq<u8> {
    let raws = a.container.node.raws;
    option_bytes(raws.before) + byte(AT) + a.name.spec_bytes() + option_bytes(raws.after_name)
        + a.params.spec_bytes() + option_bytes(raws.between)
}

/// What stands behind the children of a block: the `}`, and what is kept
/// before it.
pub open spec fn block_tail(c: Container) -> Seq<u8> {
    option_bytes(c.node.raws.after) + byte(CLOSE_CURLY)
}

/// A rule is its selector and, in curly brackets, its children.
pub open spec fn render_rule(r: Rule) -> Seq<u8>
    decreases r, 0int,
{
    rule_head(r) + render_children(r.container) + block_tail(r.container)
}

/// An at-rule is `@`, its name and its parameters, and then its block in
/// curly brackets, or the semicolon that ends it if it has one.
pub open spec fn render_at_rule(a: AtRule) -> Seq<u8>
    decreases a, 0int,
{
    if a.has_block {
        at_rule_head(a) + byte(OPEN_CURLY) + render_children(a.container) + block_tail(
            a.container,
        )
    } else {
        at_rule_head(a) + semicolon_bytes(a.container.node.raws.semicolon)
    }
}

/// A declaration is its property, its value, and the semicolon that ends it
/// if it has one.
pub open spec fn render_declaration(d: Declaration) -> Seq<u8> {
    let raws = d.node.raws;
    option_bytes(raws.before) + d.prop.spec_bytes() + option_bytes(raws.between)
        + d.value.spec_bytes() + option_bytes(raws.important) + option_bytes(raws.after)
        + semicolon_bytes(raws.semicolon)
}

/// A comment is its text between `/*` and `*/`.
pub open spec fn render_comment(c: Comment) -> Seq<u8> {
    let raws = c.node.raws;
    option_bytes(raws.before) + byte(SLASH) + byte(ASTERISK) + option_bytes(raws.left)
        + c.text.spec_bytes() + option_bytes(raws.right) + byte(ASTERISK) + byte(SLASH)
}

/// What is written out for a member does not depend on who owns it.
pub(crate) proof fn lemma_render_with_parent(n: NodeType, parent: Option<usize>)
    ensures
        render(n.with_parent(parent)) == render(n),
{
    reveal_with_fuel(render, 2);
    reveal_with_fuel(render_first, 2);
}

/// What is written out for a member is what is written out for its kind.
pub proof fn lemma_render_of(n: NodeType)
    ensures
        render(n) == (match n {
            NodeType::Root(r) => render_root(r),
            NodeType::Rule(r) => render_rule(r),
            NodeType::AtRule(a) => render_at_rule(a),
            NodeType::Declaration(d) => render_declaration(d),
            NodeType::Comment(c) => render_comment(c),
        }),
{
    reveal_with_fuel(render, 2);
    reveal_with_fuel(render_first, 2);
}

/// What is written out for the first `k` members depends on these alone.
pub(crate) proof fn lemma_render_first_prefix(a: Vec<NodeType>, b: Vec<NodeType>, k: int)
    requires
        0 <= k <= a.len(),
        k <= b.len(),
        forall|i: int| 0 <= i < k ==> a[i] == b[i],
    ensures
        render_first(a, k) == render_first(b, k),
    decreases k,
{
    reveal_with_fuel(render_first, 2);
    reveal_with_fuel(render, 2);
    if k > 0 {
        lemma_render_first_prefix(a, b, k - 1);
    }
}

/// One more child adds its text at the end.
pub(crate) proof fn lemma_render_pushed(before: Vec<NodeType>, after: Vec<NodeType>, child: NodeType)
    requires
        after@ == before@.push(child),
    ensures
        render_first(after, after.len() as int) == render_first(before, before.len() as int)
            + render(child),
{
    reveal_with_fuel(render_first, 2);
    reveal_with_fuel(render, 2);
    lemma_render_first_prefix(before, after, before.len() as int);
}

/// Writes the bytes of `s` behind what `out` holds.
fn write_str(s: &str, out: &mut Vec<u8>)
    ensures
        final(out)@ == old(out)@ + s.spec_bytes(),
{
    out.extend_from_slice(s.as_bytes());
}

/// Writes a text that may be absent.
fn write_option(s: Option<&str>, out: &mut Vec<u8>)
    ensures
        final(out)@ == old(out)@ + option_bytes(s),
{
    match s {
        Some(t) => write_str(t, out),
        None => {
            assert(old(out)@ + option_bytes(s) =~= old(out)@);
        },
    }
}

/// Writes the one byte `b`.
fn write_byte(b: u8, out: &mut Vec<u8>)
    ensures
        final(out)@ == old(out)@ + byte(b),
{
    out.push(b);
    assert(out@ =~= old(out)@ + byte(b));
}

/// Writes the children of a container, in order.
fn write_children(c: &Container, out: &mut Vec<u8>)
    ensures
        final(out)@ == old(out)@ + render_children(*c),
    decreases *c, 0int,
{
    let n: usize = c.nodes.len();
    let mut i: usize = 0;
    proof {
        reveal_with_fuel(render_first, 2);
    reveal_with_fuel(render, 2);
        assert(old(out)@ + render_first(c.nodes, 0) =~= old(out)@);
    }
    while i < n
        invariant
            i <= n,
            n == c.nodes.len(),
            out@ == old(out)@ + render_first(c.nodes, i as int),
        decreases n - i,
    {
        let ghost so_far = out@;
        write_node(&c.nodes[i], out);
        i += 1;
        proof {
            reveal_with_fuel(render_first, 2);
    reveal_with_fuel(render, 2);
            lemma_append(
                old(out)@,
                render_first(c.nodes, i - 1),
                render(c.nodes[i - 1]),
            );
        }
    }
}

/// Appending is associative.
pub(crate) proof fn lemma_append(a: Seq<u8>, b: Seq<u8>, c: Seq<u8>)
    ensures
        (a + b) + c == a + (b + c),
{
    assert((a + b) + c =~= a + (b + c));
}

/// Writes out what stands before the children of a rule.
fn write_rule_head(r: &Rule, out: &mut Vec<u8>)
    ensures
        final(out)@ == old(out)@ + rule_head(*r),
{
    let ghost start = out@;
    let raws = &r.container.node.raws;
    let ghost a = option_bytes(raws.before);
    let ghost b = r.selector.spec_bytes();
    let ghost c = option_bytes(raws.between);
    let ghost d = byte(OPEN_CURLY);
    write_option(raws.before, out);
    write_str(r.selector, out);
    write_option(raws.between, out);
    write_byte(OPEN_CURLY, out);
    proof {
        lemma_append(start, a, b);
        lemma_append(start, a + b, c);
        lemma_append(start, a + b + c, d);
    }
}

/// Writes out what stands behind the children of a block.
fn write_block_tail(c: &Container, out: &mut Vec<u8>)
    ensures
        final(out)@ == old(out)@ + block_tail(*c),
{
    let ghost start = out@;
    write_option(c.node.raws.after, out);
    write_byte(CLOSE_CURLY, out);
    proof {
        lemma_append(start, option_bytes(c.node.raws.after), byte(CLOSE_CURLY));
    }
}

/// Writes out a rule.
fn write_rule(r: &Rule, out: &mut Vec<u8>)
    ensures
        final(out)@ == old(out)@ + render_rule(*r),
    decreases *r, 1int,
{
    let ghost start = out@;
    write_rule_head(r, out);
    write_children(&r.container, out);
    write_block_tail(&r.container, out);
    proof {
        lemma_append(start, rule_head(*r), render_children(r.container));
        lemma_append(
            start,
            rule_head(*r) + render_children(r.container),
            block_tail(r.container),
        );
    }
}

/// Writes out what stands at the start of an at-rule.
fn write_at_rule_head(a: &AtRule, out: &mut Vec<u8>)
    ensures
        final(out)@ == old(out)@ + at_rule_head(*a),
{
    let ghost start = out@;
    let raws = &a.container.node.raws;
    let ghost p = option_bytes(raws.before);
    let ghost q = byte(AT);
    let ghost r = a.name.spec_bytes();
    let ghost s = option_bytes(raws.after_name);
    let ghost t = a.params.spec_bytes();
    let ghost u = option_bytes(raws.between);
    write_option(raws.before, out);
    write_byte(AT, out);
    write_str(a.name, out);
    write_option(raws.after_name, out);
    write_str(a.params, out);
    write_option(raws.between, out);
    proof {
        lemma_append(start, p, q);
        lemma_append(start, p + q, r);
        lemma_append(start, p + q + r, s);
        lemma_append(start, p + q + r + s, t);
        lemma_append(start, p + q + r + s + t, u);
    }
}

/// Writes out an at-rule.
fn write_at_rule(a: &AtRule, out: &mut Vec<u8>)
    ensures
        final(out)@ == old(out)@ + render_at_rule(*a),
    decreases *a, 1int,
{
    let ghost start = out@;
    let ghost head = at_rule_head(*a);
    write_at_rule_head(a, out);
    if a.has_block {
        write_byte(OPEN_CURLY, out);
        write_children(&a.container, out);
        write_block_tail(&a.container, out);
        proof {
            lemma_append(start, head, byte(OPEN_CURLY));
            lemma_append(start, head + byte(OPEN_CURLY), render_children(a.container));
            lemma_append(
                start,
                head + byte(OPEN_CURLY) + render_children(a.container),
                block_tail(a.container),
            );
        }
    } else if a.container.node.raws.semicolon {
        write_byte(SEMICOLON, out);
        proof {
            lemma_append(start, head, byte(SEMICOLON));
        }
    } else {
        assert(start + head + Seq::<u8>::empty() =~= start + head);
        proof {
            lemma_append(start, head, Seq::<u8>::empty());
        }
    }
}

/// Writes out a declaration.
fn write_declaration(d: &Declaration, out: &mut Vec<u8>)
    ensures
        final(out)@ == old(out)@ + render_declaration(*d),
{
    let ghost start = out@;
    let raws = &d.node.raws;
    let ghost p = option_bytes(raws.before);
    let ghost q = d.prop.spec_bytes();
    let ghost r = option_bytes(raws.between);
    let ghost s = d.value.spec_bytes();
    let ghost t = option_bytes(raws.important);
    let ghost u = option_bytes(raws.after);
    let ghost v = semicolon_bytes(raws.semicolon);
    write_option(raws.before, out);
    write_str(d.prop, out);
    write_option(raws.between, out);
    write_str(d.value, out);
    write_option(raws.important, out);
    write_option(raws.after, out);
    if raws.semicolon {
        write_byte(SEMICOLON, out);
    } else {
        assert(out@ + v =~= out@);
    }
    proof {
        lemma_append(start, p, q);
        lemma_append(start, p + q, r);
        lemma_append(start, p + q + r, s);
        lemma_append(start, p + q + r + s, t);
        lemma_append(start, p + q + r + s + t, u);
        lemma_append(start, p + q + r + s + t + u, v);
    }
}

/// Writes out a comment.
fn write_comment(c: &Comment, out: &mut Vec<u8>)
    ensures
        final(out)@ == old(out)@ + render_comment(*c),
{
    let ghost start = out@;
    let raws = &c.node.raws;
    let ghost p = option_bytes(raws.before);
    let ghost q = byte(SLASH);
    let ghost r = byte(ASTERISK);
    let ghost s = option_bytes(raws.left);
    let ghost t = c.text.spec_bytes();
    let ghost u = option_bytes(raws.right);
    write_option(raws.before, out);
    write_byte(SLASH, out);
    write_byte(ASTERISK, out);
    write_option(raws.left, out);
    write_str(c.text, out);
    write_option(raws.right, out);
    write_byte(ASTERISK, out);
    write_byte(SLASH, out);
    proof {
        lemma_append(start, p, q);
        lemma_append(start, p + q, r);
        lemma_append(start, p + q + r, s);
        lemma_append(start, p + q + r + s, t);
        lemma_append(start, p + q + r + s + t, u);
        lemma_append(start, p + q + r + s + t + u, r);
        lemma_append(start, p + q + r + s + t + u + r, q);
    }
}

/// Writes out a root behind what `out` holds.
pub fn write_root(r: &Root, out: &mut Vec<u8>)
    ensures
        final(out)@ == old(out)@ + render_root(*r),
    decreases *r, 1int,
{
    let ghost start = out@;
    write_children(&r.container, out);
    write_option(r.container.node.raws.after, out);
    proof {
        lemma_append(
            start,
            render_children(r.container),
            option_bytes(r.container.node.raws.after),
        );
    }
}

/// Writes out a member of the tree behind what `out` holds.
pub fn write_node(n: &NodeType, out: &mut Vec<u8>)
    ensures
        final(out)@ == old(out)@ + render(*n),
    decreases *n, 2int,
{
    proof {
        lemma_render_of(*n);
    }
    match n {
        NodeType::Root(r) => write_root(r, out),
        NodeType::Rule(r) => write_rule(r, out),
        NodeType::AtRule(a) => write_at_rule(a, out),
        NodeType::Declaration(d) => write_declaration(d, out),
        NodeType::Comment(c) => write_comment(c, out),
    }
}

} // verus!
