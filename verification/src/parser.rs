//! The tree builder: it pulls tokens and assembles the tree.
//!
//! What the builder does with each token is stated in [`crate::grammar`];
//! the code here is proved to do just that. Beside it, the builder keeps
//! two things true of the tree while it grows: the nodes that are there
//! write out the text up to the place the builder has come to, and every
//! node is sound in the sense of [`crate::sound::sound`].

use crate::bytes::{
    is_space, lemma_spaces_end_bounds, lemma_trailing_spaces_start_bounds, scan_spaces,
    scan_trailing_spaces, ASTERISK, AT, CLOSE_CURLY, HYPHEN, OPEN_CURLY, SEMICOLON, SLASH,
};
use crate::container::Container;
use crate::error::{ErrorKind, ParseError};
use crate::grammar::{
    at_rule_view, at_statement_view, attached, bare_rule_view, block_view, closed_view,
    comment_left_end, comment_right_start, comment_view, declaration_view, finish, head_of,
    head_with, no_raws, piece, root_closed, root_open, span, statement_end, statement_view,
    step, tree_from, tree_of, Build, Head,
};
use crate::input::Input;
use crate::lexis::{
    after_url, lemma_lex_boundary, lemma_lex_progress, lemma_lex_well_delimited, lex_at,
    token_at, TokenKind,
};
use crate::node::{position_at, Node, NodeKind, Position, Raws, Source};
use crate::node_type::{AtRule, Comment, Declaration, NodeType, Rule};
use crate::render::{
    at_rule_head, byte, lemma_append, lemma_render_of, render, render_children, render_root,
    rule_head, semicolon_bytes,
};
use crate::root::Root;
use crate::sound::{lemma_empty_children, lemma_sound_of, sound, sound_children};
use crate::text::{
    is_boundary, lemma_boundary_after_ascii, lemma_boundary_at, lemma_boundary_ends,
    lemma_str_valid, slice,
};
use crate::tokenize::{error_at, reports, Token, Tokenizer};
use crate::view::{
    lemma_view_node, lemma_view_of, root_view, view_of, with_child, NodeView, RawsView,
};
use vstd::prelude::*;
use vstd::string::StringSliceAdditionalSpecFns;
use vstd::utf8::valid_utf8;

verus! {

/// Two neighbouring pieces of a text make one piece.
proof fn lemma_join(css: Seq<u8>, a: int, b: int, c: int)
    requires
        0 <= a <= b <= c <= css.len(),
    ensures
        css.subrange(a, b) + css.subrange(b, c) == css.subrange(a, c),
{
    assert(css.subrange(a, b) + css.subrange(b, c) =~= css.subrange(a, c));
}

/// Appending does not care how its operands are grouped.
proof fn lemma_closed_text(a: Seq<u8>, b: Seq<u8>, c: Seq<u8>, d: Seq<u8>, e: Seq<u8>)
    ensures
        a + b + (c + d + e) == (a + (b + c)) + d + e,
{
    assert(a + b + (c + d + e) =~= (a + (b + c)) + d + e);
}

/// What the lexer promises of a token that the builder relies on: the token
/// is not empty and ends where a character ends; a `;`, `{` or `}` is that
/// one byte; an at-word starts with `@`; a comment has both its delimiters.
spec fn shaped(css: Seq<u8>, kind: TokenKind, s: int, e: int) -> bool {
    &&& 0 <= s < e <= css.len()
    &&& is_boundary(css, e)
    &&& kind == TokenKind::Semicolon ==> css[s] == SEMICOLON && e == s + 1
    &&& kind == TokenKind::OpenCurly ==> css[s] == OPEN_CURLY && e == s + 1
    &&& kind == TokenKind::CloseCurly ==> css[s] == CLOSE_CURLY && e == s + 1
    &&& kind == TokenKind::AtWord ==> css[s] == AT
    &&& kind == TokenKind::Comment ==> s + 4 <= e && css[s] == SLASH && css[s + 1] == ASTERISK
        && css[e - 2] == ASTERISK && css[e - 1] == SLASH
}

/// Every token that the lexer finds has the shape that the builder relies
/// on.
proof fn lemma_lex_shaped(css: Seq<u8>, pos: int, after: bool)
    requires
        valid_utf8(css),
        0 <= pos < css.len(),
    ensures
        lex_at(css, pos, after, false) matches Ok((kind, end)) ==> shaped(css, kind, pos, end),
{
    lemma_lex_progress(css, pos, after, false);
    lemma_lex_boundary(css, pos, after, false);
    lemma_lex_well_delimited(css, pos, after);
}

/// The text of a block that is still open: its head, its `{`, and the
/// children it has so far.
spec fn open_text(n: NodeType) -> Seq<u8> {
    match n {
        NodeType::Rule(r) => rule_head(r) + render_children(r.container),
        NodeType::AtRule(a) => at_rule_head(a) + byte(OPEN_CURLY) + render_children(a.container),
        _ => Seq::empty(),
    }
}

/// The texts of the open blocks, from the outermost to the innermost.
spec fn stack_text(stack: Seq<NodeType>) -> Seq<u8>
    decreases stack.len(),
{
    if stack.len() == 0 {
        Seq::empty()
    } else {
        stack_text(stack.drop_last()) + open_text(stack.last())
    }
}

/// The views of the open blocks.
spec fn stack_views<'a>(stack: Seq<NodeType<'a>>) -> Seq<NodeView<'a>> {
    stack.map_values(|n: NodeType<'a>| view_of(n))
}

/// The member is an open block of a tree over `input`: a rule, or an
/// at-rule with a block; its node has the kind of the member, its start is
/// a position of the text, its end is not recorded yet, and its children
/// are sound.
spec fn open_sound(n: NodeType, input: &Input) -> bool {
    let node = n.node();
    let css = input.css.spec_bytes();
    &&& n is Rule || (n matches NodeType::AtRule(a) && a.has_block)
    &&& node.node_type == n.kind()
    &&& node.source matches Some(s)
    &&& s.input == input
    &&& s.start == position_at(css, s.start.offset as int)
    &&& s.start.offset <= css.len()
    &&& s.end is None
    &&& match n {
        NodeType::Rule(r) => sound_children(r.container, input),
        NodeType::AtRule(a) => sound_children(a.container, input),
        _ => true,
    }
}

/// The offset at which the member starts.
spec fn start_of(n: NodeType) -> int {
    n.node().source->0.start.offset as int
}

/// The offsets of the head lie in order behind `mark`, and a character
/// starts at each of them.
spec fn head_wf(h: Head, css: Seq<u8>, mark: int) -> bool {
    &&& mark <= h.start < h.last_end <= css.len()
    &&& h.start < h.name_end <= h.last_end
    &&& is_boundary(css, h.start as int)
    &&& is_boundary(css, h.last_end as int)
    &&& is_boundary(css, h.name_end as int)
    &&& h.origin == position_at(css, h.start as int)
    &&& h.depth <= h.last_end - h.start
    &&& h.at_rule ==> {
        &&& css[h.start as int] == AT
        &&& !h.colon
        &&& h.params_start matches Some(p) ==> h.name_end <= p <= h.last_end && is_boundary(
            css,
            p as int,
        )
    }
    &&& h.colon ==> {
        &&& h.start <= h.prop_end <= h.last_end
        &&& is_boundary(css, h.prop_end as int)
        &&& h.value_start matches Some(v) ==> h.prop_end <= v <= h.last_end && is_boundary(
            css,
            v as int,
        )
    }
}

/// The semicolon at `semi`, if there is one, stands behind the head `h`.
spec fn semi_wf(h: Head, css: Seq<u8>, semi: Option<usize>) -> bool {
    semi matches Some(s) ==> h.last_end <= s < css.len() && is_boundary(css, s as int)
        && css[s as int] == SEMICOLON
}

/// A block that is opened goes on top of the open blocks: its text comes
/// last.
proof fn lemma_stack_pushed(
    before: Seq<NodeType>,
    block: NodeType,
    input: &Input,
    old_mark: int,
    new_mark: int,
)
    requires
        forall|i: int| 0 <= i < before.len() ==> open_sound(#[trigger] before[i], input),
        forall|i: int| 0 <= i < before.len() ==> start_of(#[trigger] before[i]) < old_mark,
        open_sound(block, input),
        start_of(block) < new_mark,
        old_mark <= new_mark,
    ensures
        forall|i: int|
            0 <= i < before.push(block).len() ==> open_sound(
                #[trigger] before.push(block)[i],
                input,
            ),
        forall|i: int|
            0 <= i < before.push(block).len() ==> start_of(#[trigger] before.push(block)[i])
                < new_mark,
        stack_text(before.push(block)) == stack_text(before) + open_text(block),
        stack_views(before.push(block)) == stack_views(before).push(view_of(block)),
{
    let after = before.push(block);
    assert(after.drop_last() =~= before);
    assert(after.last() == block);
    assert(stack_views(after) =~= stack_views(before).push(view_of(block)));
    assert forall|i: int| 0 <= i < after.len() implies open_sound(#[trigger] after[i], input)
        && start_of(after[i]) < new_mark by {
        if i < before.len() {
            assert(after[i] == before[i]);
        }
    }
}

/// Gives the position of the offset `to`, and keeps it in `here` for the
/// next call to start from.
fn locate(css: &[u8], here: &mut Position, to: usize) -> (p: Position)
    requires
        *old(here) == position_at(css@, old(here).offset as int),
        old(here).offset <= css.len(),
        to <= css.len(),
        to < usize::MAX,
    ensures
        p == position_at(css@, to as int),
        *final(here) == p,
{
    if to >= here.offset {
        *here = here.advance(css, to);
    } else {
        *here = Position::locate(css, to);
    }
    *here
}

/// Builds the node of a member that spans from `start` to `end`.
fn make_node<'a>(
    input: &'a Input<'a>,
    kind: NodeKind,
    id: usize,
    start: Position,
    end: Option<Position>,
    raws: Raws<'a>,
) -> (n: Node<'a>)
    ensures
        n == (Node {
            node_type: kind,
            id,
            parent: None,
            source: Some(Source { input, start, end }),
            raws,
        }),
{
    Node { node_type: kind, id, parent: None, source: Some(Source::new(input, start, end)), raws }
}

/// Builds the declaration that the head `h` is.
fn make_declaration<'a>(
    input: &'a Input<'a>,
    id: usize,
    mark: usize,
    h: Head,
    semi: Option<usize>,
    end: Position,
) -> (d: NodeType<'a>)
    requires
        head_wf(h, input.css.spec_bytes(), mark as int),
        is_boundary(input.css.spec_bytes(), mark as int),
        h.colon,
        semi_wf(h, input.css.spec_bytes(), semi),
        end == position_at(input.css.spec_bytes(), statement_end(h, semi)),
        input.css.spec_bytes().len() < usize::MAX,
    ensures
        view_of(d) == declaration_view(input, id, mark, h, semi),
        sound(d, input, None),
        render(d) == piece(input, mark as int, statement_end(h, semi)),
{
    let css = input.css;
    let ghost b = css.spec_bytes();
    let stop: usize = match semi {
        Some(s) => s,
        None => h.last_end,
    };
    let value_start: usize = match h.value_start {
        Some(v) => v,
        None => h.last_end,
    };
    let mut raws = Raws::new();
    raws.before = Some(slice(css, mark, h.start));
    raws.between = Some(slice(css, h.prop_end, value_start));
    raws.after = Some(slice(css, h.last_end, stop));
    raws.semicolon = semi.is_some();
    let node = make_node(input, NodeKind::Declaration, id, h.origin, Some(end), raws);
    let d = Declaration {
        node,
        prop: slice(css, h.start, h.prop_end),
        value: slice(css, value_start, h.last_end),
    };
    proof {
        let p = b.subrange(mark as int, h.start as int);
        let q = b.subrange(h.start as int, h.prop_end as int);
        let r = b.subrange(h.prop_end as int, value_start as int);
        let s = b.subrange(value_start as int, h.last_end as int);
        let t = Seq::<u8>::empty();
        let u = b.subrange(h.last_end as int, stop as int);
        let v = semicolon_bytes(semi is Some);
        lemma_join(b, mark as int, h.start as int, h.prop_end as int);
        lemma_join(b, mark as int, h.prop_end as int, value_start as int);
        lemma_join(b, mark as int, value_start as int, h.last_end as int);
        assert(p + q + r + s + t =~= p + q + r + s);
        lemma_join(b, mark as int, h.last_end as int, stop as int);
        if semi is Some {
            assert(v =~= b.subrange(stop as int, stop + 1));
            lemma_join(b, mark as int, stop as int, stop + 1);
        } else {
            assert(p + q + r + s + t + u + v =~= p + q + r + s + t + u);
        }
        lemma_view_of(NodeType::Declaration(d));
        lemma_render_of(NodeType::Declaration(d));
        lemma_sound_of(NodeType::Declaration(d), input, None);
        assert(view_of(NodeType::Declaration(d)) == declaration_view(input, id, mark, h, semi));
    }
    NodeType::Declaration(d)
}

/// Builds the at-rule without a block that the head `h` is.
fn make_at_statement<'a>(
    input: &'a Input<'a>,
    id: usize,
    mark: usize,
    h: Head,
    semi: Option<usize>,
    end: Position,
) -> (d: NodeType<'a>)
    requires
        head_wf(h, input.css.spec_bytes(), mark as int),
        is_boundary(input.css.spec_bytes(), mark as int),
        h.at_rule,
        semi_wf(h, input.css.spec_bytes(), semi),
        end == position_at(input.css.spec_bytes(), statement_end(h, semi)),
        input.css.spec_bytes().len() < usize::MAX,
    ensures
        view_of(d) == at_statement_view(input, id, mark, h, semi),
        sound(d, input, None),
        render(d) == piece(input, mark as int, statement_end(h, semi)),
{
    let css = input.css;
    let ghost b = css.spec_bytes();
    let stop: usize = match semi {
        Some(s) => s,
        None => h.last_end,
    };
    let params_start: usize = match h.params_start {
        Some(p) => p,
        None => h.last_end,
    };
    proof {
        lemma_str_valid(css);
        lemma_boundary_after_ascii(b, h.start + 1);
    }
    let mut raws = Raws::new();
    raws.before = Some(slice(css, mark, h.start));
    raws.after_name = Some(slice(css, h.name_end, params_start));
    raws.between = Some(slice(css, h.last_end, stop));
    raws.semicolon = semi.is_some();
    let node = make_node(input, NodeKind::AtRule, id, h.origin, Some(end), raws);
    let a = AtRule {
        container: Container { node, nodes: Vec::new() },
        name: slice(css, h.start + 1, h.name_end),
        params: slice(css, params_start, h.last_end),
        has_block: false,
    };
    proof {
        assert(byte(AT) =~= b.subrange(h.start as int, h.start + 1));
        lemma_join(b, mark as int, h.start as int, h.start + 1);
        lemma_join(b, mark as int, h.start + 1, h.name_end as int);
        lemma_join(b, mark as int, h.name_end as int, params_start as int);
        lemma_join(b, mark as int, params_start as int, h.last_end as int);
        lemma_join(b, mark as int, h.last_end as int, stop as int);
        if semi is Some {
            assert(semicolon_bytes(true) =~= b.subrange(stop as int, stop + 1));
            lemma_join(b, mark as int, stop as int, stop + 1);
        } else {
            assert(b.subrange(mark as int, stop as int) + semicolon_bytes(false) =~= b.subrange(
                mark as int,
                stop as int,
            ));
        }
        lemma_view_of(NodeType::AtRule(a));
        lemma_render_of(NodeType::AtRule(a));
        lemma_sound_of(NodeType::AtRule(a), input, None);
        lemma_empty_children(a.container, input);
        assert(view_of(NodeType::AtRule(a)) == at_statement_view(input, id, mark, h, semi));
    }
    NodeType::AtRule(a)
}

/// Builds the statement that the head `h` is.
fn make_statement<'a>(
    input: &'a Input<'a>,
    id: usize,
    mark: usize,
    h: Head,
    semi: Option<usize>,
    end: Position,
) -> (d: NodeType<'a>)
    requires
        head_wf(h, input.css.spec_bytes(), mark as int),
        is_boundary(input.css.spec_bytes(), mark as int),
        h.is_statement(),
        semi_wf(h, input.css.spec_bytes(), semi),
        end == position_at(input.css.spec_bytes(), statement_end(h, semi)),
        input.css.spec_bytes().len() < usize::MAX,
    ensures
        view_of(d) == statement_view(input, id, mark, h, semi),
        sound(d, input, None),
        render(d) == piece(input, mark as int, statement_end(h, semi)),
{
    if h.at_rule {
        make_at_statement(input, id, mark, h, semi, end)
    } else {
        make_declaration(input, id, mark, h, semi, end)
    }
}

/// The view of a rule whose selector runs from `start` to `last_end`.
spec fn plain_rule_view<'a>(
    input: &'a Input<'a>,
    id: usize,
    mark: usize,
    start: usize,
    last_end: usize,
    brace: usize,
    origin: Position,
) -> NodeView<'a> {
    NodeView {
        kind: NodeKind::Rule,
        id,
        parent: None,
        source: span(input, origin, None),
        raws: RawsView {
            before: Some(piece(input, mark as int, start as int)),
            between: Some(piece(input, last_end as int, brace as int)),
            ..no_raws()
        },
        name: piece(input, start as int, last_end as int),
        value: Seq::empty(),
        has_block: true,
        children: Seq::empty(),
    }
}

/// Builds the rule that the `{` at `brace` opens: the rule whose selector
/// runs from `start` to `last_end`.
fn make_rule<'a>(
    input: &'a Input<'a>,
    id: usize,
    mark: usize,
    start: usize,
    last_end: usize,
    brace: usize,
    origin: Position,
) -> (d: NodeType<'a>)
    requires
        mark <= start <= last_end <= brace < input.css.spec_bytes().len(),
        input.css.spec_bytes()[brace as int] == OPEN_CURLY,
        is_boundary(input.css.spec_bytes(), mark as int),
        is_boundary(input.css.spec_bytes(), start as int),
        is_boundary(input.css.spec_bytes(), last_end as int),
        is_boundary(input.css.spec_bytes(), brace as int),
        origin == position_at(input.css.spec_bytes(), start as int),
        input.css.spec_bytes().len() < usize::MAX,
    ensures
        open_sound(d, input),
        start_of(d) == start,
        view_of(d) == plain_rule_view(input, id, mark, start, last_end, brace, origin),
        open_text(d) == piece(input, mark as int, brace + 1),
{
    let css = input.css;
    let ghost b = css.spec_bytes();
    let mut raws = Raws::new();
    raws.before = Some(slice(css, mark, start));
    raws.between = Some(slice(css, last_end, brace));
    let node = make_node(input, NodeKind::Rule, id, origin, None, raws);
    let r = Rule {
        container: Container { node, nodes: Vec::new() },
        selector: slice(css, start, last_end),
    };
    proof {
        assert(byte(OPEN_CURLY) =~= b.subrange(brace as int, brace + 1));
        lemma_join(b, mark as int, start as int, last_end as int);
        lemma_join(b, mark as int, last_end as int, brace as int);
        lemma_join(b, mark as int, brace as int, brace + 1);
        lemma_empty_children(r.container, input);
        assert(b.subrange(mark as int, brace + 1) + Seq::<u8>::empty() =~= b.subrange(
            mark as int,
            brace + 1,
        ));
        lemma_view_of(NodeType::Rule(r));
        assert(view_of(NodeType::Rule(r)) == plain_rule_view(
            input,
            id,
            mark,
            start,
            last_end,
            brace,
            origin,
        ));
    }
    NodeType::Rule(r)
}

/// Builds the at-rule that the head `h` is and whose block the `{` at
/// `brace` opens.
fn make_at_rule<'a>(input: &'a Input<'a>, id: usize, mark: usize, h: Head, brace: usize) -> (d:
    NodeType<'a>)
    requires
        head_wf(h, input.css.spec_bytes(), mark as int),
        is_boundary(input.css.spec_bytes(), mark as int),
        h.at_rule,
        h.last_end <= brace < input.css.spec_bytes().len(),
        input.css.spec_bytes()[brace as int] == OPEN_CURLY,
        is_boundary(input.css.spec_bytes(), brace as int),
        input.css.spec_bytes().len() < usize::MAX,
    ensures
        open_sound(d, input),
        start_of(d) == h.start,
        view_of(d) == at_rule_view(input, id, mark, h, brace),
        open_text(d) == piece(input, mark as int, brace + 1),
{
    let css = input.css;
    let ghost b = css.spec_bytes();
    let params_start: usize = match h.params_start {
        Some(p) => p,
        None => h.last_end,
    };
    proof {
        lemma_str_valid(css);
        lemma_boundary_after_ascii(b, h.start + 1);
    }
    let mut raws = Raws::new();
    raws.before = Some(slice(css, mark, h.start));
    raws.after_name = Some(slice(css, h.name_end, params_start));
    raws.between = Some(slice(css, h.last_end, brace));
    let node = make_node(input, NodeKind::AtRule, id, h.origin, None, raws);
    let a = AtRule {
        container: Container { node, nodes: Vec::new() },
        name: slice(css, h.start + 1, h.name_end),
        params: slice(css, params_start, h.last_end),
        has_block: true,
    };
    proof {
        assert(byte(AT) =~= b.subrange(h.start as int, h.start + 1));
        assert(byte(OPEN_CURLY) =~= b.subrange(brace as int, brace + 1));
        lemma_join(b, mark as int, h.start as int, h.start + 1);
        lemma_join(b, mark as int, h.start + 1, h.name_end as int);
        lemma_join(b, mark as int, h.name_end as int, params_start as int);
        lemma_join(b, mark as int, params_start as int, h.last_end as int);
        lemma_join(b, mark as int, h.last_end as int, brace as int);
        lemma_join(b, mark as int, brace as int, brace + 1);
        lemma_empty_children(a.container, input);
        assert(b.subrange(mark as int, brace + 1) + Seq::<u8>::empty() =~= b.subrange(
            mark as int,
            brace + 1,
        ));
        lemma_view_of(NodeType::AtRule(a));
        assert(view_of(NodeType::AtRule(a)) == at_rule_view(input, id, mark, h, brace));
    }
    NodeType::AtRule(a)
}

/// Builds the block that the `{` at `brace` opens: the block of the head
/// `h`, or, without a head, of a rule that has no selector and starts at
/// the brace.
fn make_block<'a>(
    input: &'a Input<'a>,
    id: usize,
    mark: usize,
    h: Option<Head>,
    brace: usize,
    origin: Position,
) -> (d: NodeType<'a>)
    requires
        brace < input.css.spec_bytes().len(),
        input.css.spec_bytes()[brace as int] == OPEN_CURLY,
        is_boundary(input.css.spec_bytes(), mark as int),
        is_boundary(input.css.spec_bytes(), brace as int),
        mark <= brace,
        h matches Some(head) ==> head_wf(head, input.css.spec_bytes(), mark as int)
            && head.last_end <= brace,
        h is None ==> origin == position_at(input.css.spec_bytes(), brace as int),
        input.css.spec_bytes().len() < usize::MAX,
    ensures
        open_sound(d, input),
        start_of(d) == (match h {
            Some(head) => head.start,
            None => brace,
        }),
        view_of(d) == block_view(input, id, mark, h, brace),
        open_text(d) == piece(input, mark as int, brace + 1),
{
    match h {
        None => {
            let d = make_rule(input, id, mark, brace, brace, brace, origin);
            assert(view_of(d) == bare_rule_view(input, id, mark, brace));
            d
        },
        Some(head) => {
            if head.at_rule {
                make_at_rule(input, id, mark, head, brace)
            } else {
                let d = make_rule(input, id, mark, head.start, head.last_end, brace, head.origin);
                assert(view_of(d) == crate::grammar::rule_view(input, id, mark, head, brace));
                d
            }
        },
    }
}

/// Finds where the text of the comment from `s` to `e` starts and ends:
/// behind the whitespace that follows `/*`, and before the whitespace that
/// precedes `*/`.
fn comment_cuts<'a>(input: &'a Input<'a>, s: usize, e: usize) -> (cuts: (usize, usize))
    requires
        shaped(input.css.spec_bytes(), TokenKind::Comment, s as int, e as int),
    ensures
        cuts.0 == comment_left_end(input.css.spec_bytes(), s as int, e as int),
        cuts.1 == comment_right_start(input.css.spec_bytes(), s as int, e as int),
        s + 2 <= cuts.0 <= cuts.1 <= e - 2,
        is_boundary(input.css.spec_bytes(), s + 2),
        is_boundary(input.css.spec_bytes(), cuts.0 as int),
        is_boundary(input.css.spec_bytes(), cuts.1 as int),
        is_boundary(input.css.spec_bytes(), e - 2),
{
    let css = input.css;
    let bytes = css.as_bytes();
    let ghost b = css.spec_bytes();
    let lo: usize = s + 2;
    let hi: usize = e - 2;
    proof {
        lemma_str_valid(css);
        lemma_spaces_end_bounds(b, lo as int);
    }
    let run: usize = scan_spaces(bytes, lo);
    let left_end: usize = if run < hi {
        run
    } else {
        hi
    };
    let right_start: usize = scan_trailing_spaces(bytes, left_end, hi);
    proof {
        lemma_trailing_spaces_start_bounds(b, left_end as int, hi as int);
        lemma_boundary_after_ascii(b, lo as int);
        lemma_boundary_at(b, hi as int);
        if left_end > lo {
            assert(is_space(b[left_end - 1]));
            lemma_boundary_after_ascii(b, left_end as int);
        }
        if right_start < hi {
            assert(is_space(b[right_start as int]));
            lemma_boundary_at(b, right_start as int);
        }
    }
    (left_end, right_start)
}

/// Builds the comment that the token from `s` to `e` is.
fn make_comment<'a>(
    input: &'a Input<'a>,
    id: usize,
    mark: usize,
    s: usize,
    e: usize,
    origin: Position,
    end: Position,
) -> (d: NodeType<'a>)
    requires
        mark <= s,
        is_boundary(input.css.spec_bytes(), mark as int),
        is_boundary(input.css.spec_bytes(), s as int),
        shaped(input.css.spec_bytes(), TokenKind::Comment, s as int, e as int),
        origin == position_at(input.css.spec_bytes(), s as int),
        end == position_at(input.css.spec_bytes(), e as int),
        input.css.spec_bytes().len() < usize::MAX,
    ensures
        view_of(d) == comment_view(input, id, mark, s as int, e as int),
        sound(d, input, None),
        render(d) == piece(input, mark as int, e as int),
{
    let css = input.css;
    let ghost b = css.spec_bytes();
    let lo: usize = s + 2;
    let hi: usize = e - 2;
    let (left_end, right_start) = comment_cuts(input, s, e);
    let mut raws = Raws::new();
    raws.before = Some(slice(css, mark, s));
    raws.left = Some(slice(css, lo, left_end));
    raws.right = Some(slice(css, right_start, hi));
    let node = make_node(input, NodeKind::Comment, id, origin, Some(end), raws);
    let c = Comment { node, text: slice(css, left_end, right_start) };
    proof {
        let p = b.subrange(mark as int, s as int);
        let q = byte(SLASH);
        let r = byte(ASTERISK);
        let t = b.subrange(lo as int, left_end as int);
        let u = b.subrange(left_end as int, right_start as int);
        let v = b.subrange(right_start as int, hi as int);
        assert(p + q =~= b.subrange(mark as int, s + 1));
        assert(p + q + r =~= b.subrange(mark as int, lo as int));
        lemma_join(b, mark as int, lo as int, left_end as int);
        lemma_join(b, mark as int, left_end as int, right_start as int);
        lemma_join(b, mark as int, right_start as int, hi as int);
        assert(b.subrange(mark as int, hi as int) + r =~= b.subrange(mark as int, hi + 1));
        assert(b.subrange(mark as int, hi + 1) + q =~= b.subrange(mark as int, e as int));
        lemma_render_of(NodeType::Comment(c));
        assert(render(NodeType::Comment(c)) == p + q + r + t + u + v + r + q);
        lemma_view_of(NodeType::Comment(c));
        lemma_sound_of(NodeType::Comment(c), input, None);
    }
    NodeType::Comment(c)
}

/// Puts `child` into the open block `top`.
fn push_into<'a>(input: &'a Input<'a>, top: NodeType<'a>, child: NodeType<'a>) -> (r: NodeType<
    'a,
>)
    requires
        open_sound(top, input),
        sound(child, input, child.node().parent),
    ensures
        open_sound(r, input),
        r.node() == top.node(),
        open_text(r) == open_text(top) + render(child),
        view_of(r) == with_child(view_of(top), view_of(child)),
{
    match top {
        NodeType::Rule(rule) => {
            let mut rule = rule;
            let ghost head = rule_head(rule);
            let ghost children = render_children(rule.container);
            rule.container.append_child(child);
            proof {
                lemma_append(head, children, render(child));
                lemma_view_of(NodeType::Rule(rule));
                lemma_view_of(top);
                assert(view_of(NodeType::Rule(rule)) == with_child(view_of(top), view_of(child)));
            }
            NodeType::Rule(rule)
        },
        NodeType::AtRule(at) => {
            let mut at = at;
            let ghost head = at_rule_head(at) + byte(OPEN_CURLY);
            let ghost children = render_children(at.container);
            at.container.append_child(child);
            proof {
                lemma_append(head, children, render(child));
                lemma_view_of(NodeType::AtRule(at));
                lemma_view_of(top);
                assert(view_of(NodeType::AtRule(at)) == with_child(view_of(top), view_of(child)));
            }
            NodeType::AtRule(at)
        },
        other => other,
    }
}

/// Closes the open block `top` at the `}` from `s` to `e`: records what
/// stands before the `}`, whether the last statement ended with a
/// semicolon, and where the block ends.
fn close<'a>(
    input: &'a Input<'a>,
    top: NodeType<'a>,
    mark: usize,
    s: usize,
    e: usize,
    semicolon: bool,
    end: Position,
) -> (r: NodeType<'a>)
    requires
        open_sound(top, input),
        start_of(top) < mark <= s < e <= input.css.spec_bytes().len(),
        is_boundary(input.css.spec_bytes(), mark as int),
        is_boundary(input.css.spec_bytes(), s as int),
        end == position_at(input.css.spec_bytes(), e as int),
    ensures
        sound(r, input, r.node().parent),
        render(r) == open_text(top) + piece(input, mark as int, s as int) + byte(CLOSE_CURLY),
        view_of(r) == closed_view(view_of(top), input, mark, s as int, e as int, semicolon),
{
    let after = slice(input.css, mark, s);
    match top {
        NodeType::Rule(rule) => {
            let mut rule = rule;
            rule.container.node.raws.after = Some(after);
            rule.container.node.raws.semicolon = semicolon;
            rule.container.node.close_source(end);
            proof {
                lemma_append(open_text(top), after.spec_bytes(), byte(CLOSE_CURLY));
                lemma_render_of(NodeType::Rule(rule));
                lemma_sound_of(NodeType::Rule(rule), input, rule.container.node.parent);
                lemma_view_of(NodeType::Rule(rule));
                lemma_view_of(top);
                assert(view_of(NodeType::Rule(rule)) == closed_view(
                    view_of(top),
                    input,
                    mark,
                    s as int,
                    e as int,
                    semicolon,
                ));
            }
            NodeType::Rule(rule)
        },
        NodeType::AtRule(at) => {
            let mut at = at;
            at.container.node.raws.after = Some(after);
            at.container.node.raws.semicolon = semicolon;
            at.container.node.close_source(end);
            proof {
                lemma_append(open_text(top), after.spec_bytes(), byte(CLOSE_CURLY));
                lemma_render_of(NodeType::AtRule(at));
                lemma_sound_of(NodeType::AtRule(at), input, at.container.node.parent);
                lemma_view_of(NodeType::AtRule(at));
                lemma_view_of(top);
                assert(view_of(NodeType::AtRule(at)) == closed_view(
                    view_of(top),
                    input,
                    mark,
                    s as int,
                    e as int,
                    semicolon,
                ));
            }
            NodeType::AtRule(at)
        },
        other => other,
    }
}

/// Closes the root at the end of the text: records what stands behind its
/// last child, whether its last statement ended with a semicolon, and where
/// it ends.
fn close_root<'a>(
    input: &'a Input<'a>,
    root: &mut Root<'a>,
    mark: usize,
    semicolon: bool,
    end: Position,
)
    requires
        mark <= input.css.spec_bytes().len(),
        is_boundary(input.css.spec_bytes(), mark as int),
        render_children(old(root).container) == piece(input, 0, mark as int),
        sound_children(old(root).container, input),
        old(root).container.node.node_type == NodeKind::Root,
        old(root).container.node.id == 0,
        old(root).container.node.parent is None,
        old(root).container.node.source == Some(
            Source { input, start: position_at(input.css.spec_bytes(), 0), end: None },
        ),
        end == position_at(input.css.spec_bytes(), input.css.spec_bytes().len() as int),
    ensures
        is_tree_of(*final(root), input),
        root_view(*final(root)) == root_closed(root_view(*old(root)), input, mark, semicolon),
{
    let css = input.css;
    let ghost b = css.spec_bytes();
    let n: usize = css.as_bytes().len();
    proof {
        lemma_str_valid(css);
        lemma_boundary_ends(b);
    }
    let ghost children = render_children(root.container);
    root.container.node.raws.after = Some(slice(css, mark, n));
    root.container.node.raws.semicolon = semicolon;
    root.container.node.close_source(end);
    proof {
        lemma_join(b, 0, mark as int, b.len() as int);
        assert(b.subrange(0, b.len() as int) =~= b);
        assert(render_children(root.container) == children);
        lemma_view_of(NodeType::Root(*root));
        lemma_view_of(NodeType::Root(*old(root)));
        lemma_sound_of(NodeType::Root(*root), input, None);
    }
}

/// Puts `child` into the innermost open block, or into the root where no
/// block is open.
fn attach<'a>(
    input: &'a Input<'a>,
    root: &mut Root<'a>,
    stack: &mut Vec<NodeType<'a>>,
    child: NodeType<'a>,
)
    requires
        forall|i: int| 0 <= i < old(stack)@.len() ==> open_sound(#[trigger] old(stack)@[i], input),
        sound_children(old(root).container, input),
        sound(child, input, child.node().parent),
    ensures
        forall|i: int|
            0 <= i < final(stack)@.len() ==> open_sound(#[trigger] final(stack)@[i], input),
        sound_children(final(root).container, input),
        final(stack)@.len() == old(stack)@.len(),
        forall|i: int|
            0 <= i < final(stack)@.len() ==> (#[trigger] final(stack)@[i]).node()
                == old(stack)@[i].node(),
        final(root).container.node == old(root).container.node,
        render_children(final(root).container) + stack_text(final(stack)@) == render_children(
            old(root).container,
        ) + stack_text(old(stack)@) + render(child),
        (root_view(*final(root)), stack_views(final(stack)@)) == attached(
            root_view(*old(root)),
            stack_views(old(stack)@),
            view_of(child),
        ),
{
    let ghost before = stack@;
    let ghost root_text = render_children(root.container);
    match stack.pop() {
        None => {
            root.container.append_child(child);
            proof {
                assert(stack_text(stack@) =~= Seq::<u8>::empty());
                assert(stack_views(stack@) =~= stack_views(before));
                assert(render_children(root.container) + stack_text(stack@) =~= root_text
                    + stack_text(before) + render(child));
                lemma_view_of(NodeType::Root(*root));
                lemma_view_of(NodeType::Root(*old(root)));
                assert(root_view(*root) == with_child(root_view(*old(root)), view_of(child)));
            }
        },
        Some(top) => {
            let ghost rest = stack@;
            let pushed = push_into(input, top, child);
            stack.push(pushed);
            proof {
                assert(rest =~= before.drop_last());
                assert(before.last() == top);
                assert(stack@.drop_last() =~= rest);
                assert(stack@.last() == pushed);
                assert(stack_text(before) == stack_text(rest) + open_text(top));
                assert(stack_text(stack@) == stack_text(rest) + open_text(pushed));
                assert forall|i: int| 0 <= i < stack@.len() implies open_sound(
                    #[trigger] stack@[i],
                    input,
                ) && stack@[i].node() == before[i].node() by {
                    if i < rest.len() {
                        assert(stack@[i] == rest[i]);
                        assert(rest[i] == before[i]);
                    }
                }
                assert(stack_views(stack@) =~= stack_views(before).drop_last().push(
                    with_child(stack_views(before).last(), view_of(child)),
                ));
                assert(root_text + (stack_text(rest) + (open_text(top) + render(child)))
                    =~= root_text + (stack_text(rest) + open_text(top)) + render(child));
            }
        },
    }
}

/// Builds the tree of a text, token by token.
#[derive(Debug)]
pub struct Parser<'a> {
    input: &'a Input<'a>,
    /// The root, with the children that are complete.
    root: Root<'a>,
    /// The blocks that are open, the innermost last.
    stack: Vec<NodeType<'a>>,
    /// Where the formatting starts that no node has taken yet: everything
    /// before this offset is written out by the nodes that are there.
    mark: usize,
    /// Where the last token ended.
    cursor: usize,
    /// The head that is being read.
    head: Option<Head>,
    /// The last statement ended with a semicolon, and no node has begun
    /// since.
    semicolon: bool,
    /// The last token became a comment node.
    commented: bool,
    /// A position in the text, from which later positions are counted.
    here: Position,
    /// The handle of the next node.
    next_id: usize,
}

impl<'a> Parser<'a> {
    /// The input that is parsed.
    pub closed spec fn input(&self) -> &'a Input<'a> {
        self.input
    }

    /// The root of the tree.
    pub closed spec fn tree(&self) -> Root<'a> {
        self.root
    }

    /// What the builder holds, as the grammar sees it.
    spec fn view(&self) -> Build<'a> {
        Build {
            root: root_view(self.root),
            stack: stack_views(self.stack@),
            mark: self.mark,
            head: self.head,
            semicolon: self.semicolon,
            commented: self.commented,
            next_id: self.next_id,
        }
    }

    /// The nodes that are there write out the text up to the mark; the
    /// mark, the head and the cursor follow each other; a character starts
    /// at every offset at which the text will be cut; and every node is
    /// sound.
    spec fn inv(&self) -> bool {
        let css = self.input.css.spec_bytes();
        &&& css.len() < usize::MAX
        &&& self.mark <= self.cursor <= css.len()
        &&& is_boundary(css, self.mark as int)
        &&& is_boundary(css, self.cursor as int)
        &&& render_children(self.root.container) + stack_text(self.stack@) == css.subrange(
            0,
            self.mark as int,
        )
        &&& forall|i: int|
            0 <= i < self.stack@.len() ==> open_sound(#[trigger] self.stack@[i], self.input)
        &&& forall|i: int|
            0 <= i < self.stack@.len() ==> start_of(#[trigger] self.stack@[i]) < self.mark
        &&& sound_children(self.root.container, self.input)
        &&& self.root.container.node.node_type == NodeKind::Root
        &&& self.root.container.node.id == 0
        &&& self.root.container.node.parent is None
        &&& self.root.container.node.raws.is_empty()
        &&& self.root.container.node.source == Some(
            Source { input: self.input, start: position_at(css, 0), end: None },
        )
        &&& match self.head {
            Some(h) => head_wf(h, css, self.mark as int) && h.last_end <= self.cursor
                && !self.commented,
            None => true,
        }
        &&& self.here == position_at(css, self.here.offset as int)
        &&& self.here.offset <= css.len()
        &&& self.next_id <= self.mark + 1
    }

    /// A builder that has read nothing of `input` yet.
    fn start(input: &'a Input<'a>) -> (p: Parser<'a>)
        requires
            input.css.spec_bytes().len() < usize::MAX,
        ensures
            p.inv(),
            p.input == input,
            p.cursor == 0,
            p.view() == Build::start(input),
    {
        proof {
            lemma_str_valid(input.css);
            lemma_boundary_ends(input.css.spec_bytes());
        }
        let mut root = Root::new();
        root.container.node.open_source(input, Position::origin());
        let p = Parser {
            input,
            root,
            stack: Vec::new(),
            mark: 0,
            cursor: 0,
            head: None,
            semicolon: false,
            commented: false,
            here: Position::origin(),
            next_id: 1,
        };
        proof {
            lemma_empty_children(p.root.container, input);
            assert(render_children(p.root.container) + stack_text(p.stack@)
                =~= input.css.spec_bytes().subrange(0, 0));
            assert(stack_views(p.stack@) =~= Seq::<NodeView>::empty());
            lemma_view_of(NodeType::Root(p.root));
            assert(root_view(p.root) == root_open(input));
        }
        p
    }

    /// Ends the head `h` as a statement: a declaration if it has a colon,
    /// an at-rule without a block if it started with an at-word. The
    /// statement ends with the semicolon at `semi`, or, without one, where
    /// the last token of the head ended.
    fn end_statement(&mut self, h: Head, semi: Option<usize>)
        requires
            old(self).inv(),
            old(self).head == Some(h),
            h.is_statement(),
            semi matches Some(s) ==> s == old(self).cursor && semi_wf(
                h,
                old(self).input.css.spec_bytes(),
                semi,
            ) && is_boundary(old(self).input.css.spec_bytes(), s + 1),
        ensures
            final(self).inv(),
            final(self).input == old(self).input,
            final(self).view() == old(self).view().end_statement(old(self).input, h, semi),
            final(self).head is None,
            final(self).cursor == (match semi {
                Some(s) => s + 1,
                None => old(self).cursor as int,
            }),
    {
        let input = self.input;
        let bytes = input.css.as_bytes();
        let ghost b = input.css.spec_bytes();
        let mark: usize = self.mark;
        let end_offset: usize = match semi {
            Some(s) => s + 1,
            None => h.last_end,
        };
        let id: usize = self.next_id;
        let end = locate(bytes, &mut self.here, end_offset);
        let child = make_statement(input, id, mark, h, semi, end);
        proof {
            lemma_view_node(child);
        }
        attach(input, &mut self.root, &mut self.stack, child);
        self.next_id = id + 1;
        self.mark = end_offset;
        if self.cursor < end_offset {
            self.cursor = end_offset;
        }
        self.head = None;
        self.commented = false;
        self.semicolon = semi.is_some();
        proof {
            lemma_join(b, 0, mark as int, end_offset as int);
            assert forall|i: int| 0 <= i < self.stack@.len() implies start_of(
                #[trigger] self.stack@[i],
            ) < self.mark by {
                assert(self.stack@[i].node() == old(self).stack@[i].node());
            }
            assert(self.view() == old(self).view().end_statement(input, h, semi));
        }
    }

    /// Opens a block at the `{` that spans from `s` to `e`: the block of
    /// the head that is being read, or, without a head, of a rule that has
    /// no selector.
    fn open_block(&mut self, s: usize, e: usize)
        requires
            old(self).inv(),
            old(self).cursor == s,
            shaped(old(self).input.css.spec_bytes(), TokenKind::OpenCurly, s as int, e as int),
        ensures
            final(self).inv(),
            final(self).input == old(self).input,
            final(self).cursor == e,
            final(self).view() == old(self).view().open_block(old(self).input, s as int, e as int),
    {
        let input = self.input;
        let bytes = input.css.as_bytes();
        let ghost b = input.css.spec_bytes();
        let ghost before = self.stack@;
        let mark: usize = self.mark;
        let h: Option<Head> = self.head;
        let id: usize = self.next_id;
        let origin = match h {
            None => locate(bytes, &mut self.here, s),
            Some(head) => head.origin,
        };
        let block = make_block(input, id, mark, h, s, origin);
        self.stack.push(block);
        self.next_id = id + 1;
        self.mark = e;
        self.cursor = e;
        self.head = None;
        self.commented = false;
        self.semicolon = false;
        proof {
            assert(self.stack@ == before.push(block));
            lemma_stack_pushed(before, block, input, mark as int, e as int);
            lemma_join(b, 0, mark as int, e as int);
            lemma_append(
                render_children(self.root.container),
                stack_text(before),
                open_text(block),
            );
            assert(self.view() == old(self).view().open_block(input, s as int, e as int));
        }
    }

    /// Closes the innermost block at the `}` that spans from `s` to `e`. A
    /// `}` where no block is open is out of place.
    fn close_block(&mut self, s: usize, e: usize) -> (r: Result<(), ParseError<'a>>)
        requires
            old(self).inv(),
            old(self).head is None,
            old(self).cursor == s,
            shaped(old(self).input.css.spec_bytes(), TokenKind::CloseCurly, s as int, e as int),
        ensures
            final(self).input == old(self).input,
            match old(self).view().close_block(old(self).input, s as int, e as int) {
                Ok(next) => r is Ok && final(self).inv() && final(self).cursor == e
                    && final(self).view() == next,
                Err((kind, at)) => r matches Err(err) && reports(
                    err,
                    old(self).input,
                    kind,
                    position_at(old(self).input.css.spec_bytes(), at),
                ),
            },
    {
        let input = self.input;
        let bytes = input.css.as_bytes();
        let ghost b = input.css.spec_bytes();
        let ghost before = self.stack@;
        let mark: usize = self.mark;
        assert(stack_views(before).len() == before.len());
        match self.stack.pop() {
            None => {
                let at = locate(bytes, &mut self.here, s);
                Err(error_at(input, ErrorKind::UnexpectedToken, at))
            },
            Some(top) => {
                let ghost rest = self.stack@;
                let ghost root_text = render_children(self.root.container);
                let end = locate(bytes, &mut self.here, e);
                let closed = close(input, top, mark, s, e, self.semicolon, end);
                attach(input, &mut self.root, &mut self.stack, closed);
                self.mark = e;
                self.cursor = e;
                self.commented = false;
                self.semicolon = false;
                proof {
                    assert(rest =~= before.drop_last());
                    assert(before.last() == top);
                    assert(stack_text(before) == stack_text(rest) + open_text(top));
                    assert(byte(CLOSE_CURLY) =~= b.subrange(s as int, e as int));
                    lemma_join(b, 0, mark as int, s as int);
                    lemma_join(b, 0, s as int, e as int);
                    lemma_closed_text(
                        root_text,
                        stack_text(rest),
                        open_text(top),
                        b.subrange(mark as int, s as int),
                        byte(CLOSE_CURLY),
                    );
                    assert forall|i: int| 0 <= i < self.stack@.len() implies start_of(
                        #[trigger] self.stack@[i],
                    ) < self.mark by {
                        assert(self.stack@[i].node() == rest[i].node());
                        assert(rest[i] == before[i]);
                    }
                    assert(stack_views(rest) =~= stack_views(before).drop_last());
                    assert(stack_views(before).last() == view_of(top));
                    let expected = old(self).view().close_block(input, s as int, e as int)->Ok_0;
                    assert(self.view().root == expected.root);
                    assert(self.view().stack == expected.stack);
                    assert(self.view() == expected);
                }
                Ok(())
            },
        }
    }

    /// Makes a node of the comment that spans from `s` to `e`.
    fn comment(&mut self, s: usize, e: usize)
        requires
            old(self).inv(),
            old(self).head is None,
            old(self).cursor == s,
            shaped(old(self).input.css.spec_bytes(), TokenKind::Comment, s as int, e as int),
        ensures
            final(self).inv(),
            final(self).input == old(self).input,
            final(self).cursor == e,
            final(self).view() == old(self).view().comment(old(self).input, s as int, e as int),
    {
        let input = self.input;
        let bytes = input.css.as_bytes();
        let ghost b = input.css.spec_bytes();
        let mark: usize = self.mark;
        let id: usize = self.next_id;
        let origin = locate(bytes, &mut self.here, s);
        let end = locate(bytes, &mut self.here, e);
        let child = make_comment(input, id, mark, s, e, origin, end);
        proof {
            lemma_view_node(child);
        }
        attach(input, &mut self.root, &mut self.stack, child);
        self.next_id = id + 1;
        self.mark = e;
        self.cursor = e;
        self.commented = true;
        proof {
            lemma_join(b, 0, mark as int, e as int);
            assert forall|i: int| 0 <= i < self.stack@.len() implies start_of(
                #[trigger] self.stack@[i],
            ) < self.mark by {
                assert(self.stack@[i].node() == old(self).stack@[i].node());
            }
            assert(self.view() == old(self).view().comment(input, s as int, e as int));
        }
    }

    /// Begins a head with the token `token`.
    fn begin_head(&mut self, token: Token<'a>)
        requires
            old(self).inv(),
            old(self).head is None,
            old(self).cursor == token.start_offset,
            shaped(
                old(self).input.css.spec_bytes(),
                token.kind,
                token.start_offset as int,
                token.end_offset + 1,
            ),
        ensures
            final(self).inv(),
            final(self).input == old(self).input,
            final(self).cursor == token.end_offset + 1,
            final(self).view() == (Build {
                head: Some(head_of(old(self).input, token@)),
                commented: false,
                ..old(self).view()
            }),
    {
        let bytes = self.input.css.as_bytes();
        let s: usize = token.start_offset;
        let e: usize = token.end_offset + 1;
        let text = token.text.as_bytes();
        let custom: bool = token.kind == TokenKind::Word && text.len() >= 2 && text[0] == HYPHEN
            && text[1] == HYPHEN;
        let origin = locate(bytes, &mut self.here, s);
        self.head = Some(
            Head {
                start: s,
                origin,
                at_rule: token.kind == TokenKind::AtWord,
                name_end: e,
                params_start: None,
                colon: token.kind == TokenKind::Colon,
                prop_end: s,
                value_start: None,
                last_end: e,
                custom,
                depth: 0,
            },
        );
        self.cursor = e;
        self.commented = false;
    }

    /// Takes the token `token` into the head `h`, whose braces then stand
    /// `depth` deep.
    fn extend_head(&mut self, h: Head, token: Token<'a>, depth: usize)
        requires
            old(self).inv(),
            old(self).head == Some(h),
            old(self).cursor == token.start_offset,
            shaped(
                old(self).input.css.spec_bytes(),
                token.kind,
                token.start_offset as int,
                token.end_offset + 1,
            ),
            depth <= h.depth + 1,
        ensures
            final(self).inv(),
            final(self).input == old(self).input,
            final(self).cursor == token.end_offset + 1,
            final(self).view() == (Build {
                head: Some(head_with(h, token@, depth)),
                ..old(self).view()
            }),
    {
        let s: usize = token.start_offset;
        let e: usize = token.end_offset + 1;
        let mut next = h;
        if token.kind == TokenKind::Colon && !h.at_rule && !h.colon {
            next.colon = true;
            next.prop_end = h.last_end;
            next.value_start = None;
        } else {
            if h.at_rule && h.params_start.is_none() {
                next.params_start = Some(s);
            }
            if h.colon && h.value_start.is_none() {
                next.value_start = Some(s);
            }
        }
        next.depth = depth;
        next.last_end = e;
        self.head = Some(next);
        self.cursor = e;
    }

    /// Passes over a token that is formatting: whitespace, a stray
    /// semicolon, or a comment inside a head.
    fn pass(&mut self, e: usize)
        requires
            old(self).inv(),
            old(self).cursor <= e <= old(self).input.css.spec_bytes().len(),
            is_boundary(old(self).input.css.spec_bytes(), e as int),
        ensures
            final(self).inv(),
            final(self).input == old(self).input,
            final(self).cursor == e,
            final(self).view() == (Build { commented: false, ..old(self).view() }),
    {
        self.cursor = e;
        self.commented = false;
    }

    /// Reads one token.
    ///
    /// The builder changes as [`step`] says; a token that is out of place
    /// is reported, and the builder is then of no further use.
    fn consume(&mut self, token: Token<'a>) -> (r: Result<(), ParseError<'a>>)
        requires
            old(self).inv(),
            token.start_offset == old(self).cursor,
            token@ == token_at(
                old(self).input.css.spec_bytes(),
                token.kind,
                token.start_offset as int,
                token.end_offset + 1,
            ),
            shaped(
                old(self).input.css.spec_bytes(),
                token.kind,
                token.start_offset as int,
                token.end_offset + 1,
            ),
        ensures
            final(self).input == old(self).input,
            match step(old(self).view(), old(self).input, token@) {
                Ok(next) => r is Ok && final(self).inv() && final(self).view() == next
                    && final(self).cursor == token.end_offset + 1,
                Err((kind, at)) => r matches Err(e) && reports(
                    e,
                    old(self).input,
                    kind,
                    position_at(old(self).input.css.spec_bytes(), at),
                ),
            },
    {
        let kind = token.kind;
        let s: usize = token.start_offset;
        let e: usize = token.end_offset + 1;
        match self.head {
            None => {
                if kind == TokenKind::Space || kind == TokenKind::Semicolon {
                    self.pass(e);
                    Ok(())
                } else if kind == TokenKind::Comment {
                    self.comment(s, e);
                    Ok(())
                } else if kind == TokenKind::OpenCurly {
                    self.open_block(s, e);
                    Ok(())
                } else if kind == TokenKind::CloseCurly {
                    self.close_block(s, e)
                } else {
                    self.begin_head(token);
                    Ok(())
                }
            },
            Some(h) => {
                let opaque: bool = h.custom && h.colon;
                if kind == TokenKind::Space || kind == TokenKind::Comment {
                    self.pass(e);
                    Ok(())
                } else if kind == TokenKind::OpenCurly {
                    if opaque {
                        self.extend_head(h, token, h.depth + 1);
                    } else {
                        self.open_block(s, e);
                    }
                    Ok(())
                } else if kind == TokenKind::Semicolon {
                    if opaque && h.depth > 0 {
                        self.extend_head(h, token, h.depth);
                        Ok(())
                    } else if h.at_rule || h.colon {
                        self.end_statement(h, Some(s));
                        Ok(())
                    } else {
                        Err(error_at(self.input, ErrorKind::UnexpectedToken, h.origin))
                    }
                } else if kind == TokenKind::CloseCurly {
                    if opaque && h.depth > 0 {
                        self.extend_head(h, token, h.depth - 1);
                        Ok(())
                    } else if !(h.at_rule || h.colon) {
                        Err(error_at(self.input, ErrorKind::UnexpectedToken, h.origin))
                    } else {
                        self.end_statement(h, None);
                        self.close_block(s, e)
                    }
                } else {
                    self.extend_head(h, token, h.depth);
                    Ok(())
                }
            },
        }
    }

    /// Ends the tree at the end of the text.
    ///
    /// A head ends as a statement; then no block may be open, and what is
    /// left of the text is the formatting after the last child of the root.
    fn finish(&mut self) -> (r: Result<(), ParseError<'a>>)
        requires
            old(self).inv(),
            old(self).cursor == old(self).input.css.spec_bytes().len(),
        ensures
            final(self).input == old(self).input,
            match finish(old(self).view(), old(self).input) {
                Ok(tree) => r is Ok && is_tree_of(final(self).root, old(self).input) && root_view(
                    final(self).root,
                ) == tree,
                Err((kind, at)) => r matches Err(e) && reports(
                    e,
                    old(self).input,
                    kind,
                    position_at(old(self).input.css.spec_bytes(), at),
                ),
            },
    {
        let input = self.input;
        let css = input.css;
        let bytes = css.as_bytes();
        let ghost b = css.spec_bytes();
        match self.head {
            Some(h) => {
                if h.custom && h.colon && h.depth > 0 {
                    return Err(error_at(input, ErrorKind::UnclosedBlock, h.origin));
                }
                if !(h.at_rule || h.colon) {
                    return Err(error_at(input, ErrorKind::UnexpectedToken, h.origin));
                }
                self.end_statement(h, None);
            },
            None => {},
        }
        let open: usize = self.stack.len();
        assert(stack_views(self.stack@).len() == open);
        if open > 0 {
            let start: Position = match self.stack[open - 1].as_node().source {
                Some(source) => source.start,
                None => Position::origin(),
            };
            proof {
                lemma_view_node(self.stack@[open - 1]);
                assert(stack_views(self.stack@).last() == view_of(self.stack@[open - 1]));
            }
            return Err(error_at(input, ErrorKind::UnclosedBlock, start));
        }
        let n: usize = bytes.len();
        let end = locate(bytes, &mut self.here, n);
        proof {
            assert(stack_text(self.stack@) =~= Seq::<u8>::empty());
            assert(render_children(self.root.container) + Seq::<u8>::empty()
                =~= render_children(self.root.container));
        }
        close_root(input, &mut self.root, self.mark, self.semicolon, end);
        Ok(())
    }

    /// Parses the text of `input`.
    ///
    /// Which tree the text has is what [`tree_of`] says of it. The tree is
    /// sound, and, written out, it is the text again, byte for byte. Where
    /// the text has no tree, the failure is the first that the lexer or the
    /// grammar meets, reported at the offset where the construct starts
    /// that is unterminated, unclosed or out of place.
    pub fn new(input: &'a Input<'a>) -> (r: Result<Parser<'a>, ParseError<'a>>)
        requires
            input.css.spec_bytes().len() < usize::MAX,
        ensures
            match tree_of(input) {
                Ok(tree) => r matches Ok(p) && p.input() == input && root_view(p.tree()) == tree
                    && is_tree_of(p.tree(), input),
                Err((kind, at)) => r matches Err(e) && reports(
                    e,
                    input,
                    kind,
                    position_at(input.css.spec_bytes(), at),
                ),
            },
    {
        let ghost css = input.css.spec_bytes();
        let mut tokenizer = Tokenizer::new(input);
        let mut parser = Parser::start(input);
        proof {
            lemma_str_valid(input.css);
        }
        loop
            invariant
                valid_utf8(css),
                css == input.css.spec_bytes(),
                tokenizer.wf(),
                tokenizer.input() == input,
                tokenizer@.css == css,
                tokenizer@.ignore == false,
                tokenizer@.returned.len() == 0,
                parser.inv(),
                parser.input == input,
                parser.cursor == tokenizer@.cursor,
                tree_of(input) == tree_from(
                    input,
                    tokenizer@.cursor,
                    tokenizer@.words,
                    parser.view(),
                ),
            decreases css.len() - tokenizer@.cursor,
        {
            let ghost before = tokenizer@;
            proof {
                if before.cursor < css.len() {
                    lemma_lex_progress(css, before.cursor, after_url(before.words), false);
                    lemma_lex_shaped(css, before.cursor, after_url(before.words));
                }
            }
            match tokenizer.next_token() {
                Err(e) => {
                    return Err(e);
                },
                Ok(None) => {
                    match parser.finish() {
                        Ok(()) => {
                            return Ok(parser);
                        },
                        Err(e) => {
                            return Err(e);
                        },
                    }
                },
                Ok(Some(token)) => {
                    match parser.consume(token) {
                        Ok(()) => {},
                        Err(e) => {
                            return Err(e);
                        },
                    }
                },
            }
        }
    }

    /// Hands out the tree.
    pub fn into_root(self) -> (root: Root<'a>)
        ensures
            root == self.tree(),
    {
        self.root
    }
}

/// The tree of `root` is sound, spans the whole text of `input`, and,
/// written out, is that text.
pub open spec fn is_tree_of(root: Root, input: &Input) -> bool {
    let css = input.css.spec_bytes();
    &&& render_root(root) == css
    &&& root.container.node.source == Some(
        Source { input, start: position_at(css, 0), end: Some(position_at(css, css.len() as int)) },
    )
    &&& root.container.node.id == 0
    &&& sound(NodeType::Root(root), input, None)
}

} // verus!
