//! The grammar of the tree builder, stated on tokens.
//!
//! The builder reads one token at a time. Between two tokens it holds the
//! nodes that are complete, the blocks that are open, and the head that it
//! is reading, that is the start of a rule, of an at-rule or of a
//! declaration. [`step`] says what one token makes of that, and where a
//! token is out of place; [`finish`] says what the end of the text makes of
//! it; [`tree_from`] runs a text through both, token by token as the lexer
//! finds them, and so says for every text which tree it has, or what its
//! first failure is and where.

use crate::bytes::{spaces_end, trailing_spaces_start, HYPHEN};
use crate::error::ErrorKind;
use crate::input::Input;
use crate::lexis::{
    after_url, lemma_lex_progress, lex_at, token_at, words_after, TokenKind, TokenView,
};
use crate::node::{position_at, NodeKind, Position, Source};
use crate::view::{with_child, NodeView, RawsView};
use vstd::prelude::*;
use vstd::string::StringSliceAdditionalSpecFns;

verus! {

/// The state of the builder between two tokens.
#[derive(Clone, Copy, Debug, PartialEq, Eq, Structural)]
pub enum ParserState {
    /// At the top level, with no head begun.
    AwaitingNode,
    /// Inside a block, with no head begun.
    InBlock,
    /// Reading a head that has no colon yet, or that started with an
    /// at-word.
    InSelectorOrAtRuleHead,
    /// Reading a head after its colon: the value of a declaration, unless
    /// a `{` turns the head into a selector.
    InDeclarationValue,
    /// Right after a comment that became a node.
    InComment,
}

/// A head while it is read: where it starts, and where the parts end that
/// it will be cut into.
#[derive(Clone, Copy, Debug)]
pub struct Head {
    /// The offset of the first token.
    pub start: usize,
    /// The position of the first token.
    pub origin: Position,
    /// The first token is an at-word.
    pub at_rule: bool,
    /// Where the first token ends.
    pub name_end: usize,
    /// Where the first token after the at-word starts that is neither
    /// whitespace nor a comment.
    pub params_start: Option<usize>,
    /// A colon was seen. A head that started with an at-word never counts
    /// one.
    pub colon: bool,
    /// Where the last token before the colon ends that is neither
    /// whitespace nor a comment.
    pub prop_end: usize,
    /// Where the first token after the colon starts that is neither
    /// whitespace nor a comment.
    pub value_start: Option<usize>,
    /// Where the last token ends that is neither whitespace nor a comment.
    pub last_end: usize,
    /// The first token is a word that begins with `--`.
    pub custom: bool,
    /// How many `{` stand open in the value of a custom property.
    pub depth: usize,
}

/// What the builder holds between two tokens.
pub struct Build<'a> {
    /// The root, with the children that are complete.
    pub root: NodeView<'a>,
    /// The blocks that are open, the innermost last.
    pub stack: Seq<NodeView<'a>>,
    /// Where the formatting starts that no node has taken yet.
    pub mark: usize,
    /// The head that is being read, if any.
    pub head: Option<Head>,
    /// The last statement ended with a semicolon, and no node has begun
    /// since.
    pub semicolon: bool,
    /// The last token became a comment node.
    pub commented: bool,
    /// The handle of the next node.
    pub next_id: usize,
}

/// The text begins with `--`, as the name of a custom property does.
pub open spec fn starts_custom(text: Seq<u8>) -> bool {
    text.len() >= 2 && text[0] == HYPHEN && text[1] == HYPHEN
}

/// Whitespace and comments: tokens that never change what a head is.
pub open spec fn is_quiet(kind: TokenKind) -> bool {
    kind == TokenKind::Space || kind == TokenKind::Comment
}

impl Head {
    /// The head is the value of a custom property: braces and semicolons
    /// inside braces belong to the value.
    pub open spec fn opaque(&self) -> bool {
        self.custom && self.colon
    }

    /// The head can end as a statement: it is an at-rule or it has a colon.
    pub open spec fn is_statement(&self) -> bool {
        self.at_rule || self.colon
    }

    /// Where the parameters of an at-rule start: at the first token after
    /// the name, or, without one, where the head ends.
    pub open spec fn params_from(&self) -> usize {
        match self.params_start {
            Some(p) => p,
            None => self.last_end,
        }
    }

    /// Where the value of a declaration starts: at the first token after
    /// the colon, or, without one, where the head ends.
    pub open spec fn value_from(&self) -> usize {
        match self.value_start {
            Some(v) => v,
            None => self.last_end,
        }
    }
}

/// No formatting at all.
pub open spec fn no_raws() -> RawsView {
    RawsView {
        before: None,
        after: None,
        between: None,
        semicolon: false,
        after_name: None,
        left: None,
        right: None,
        important: None,
    }
}

/// What the text holds from `a` up to `b`.
pub open spec fn piece(input: &Input, a: int, b: int) -> Seq<u8> {
    input.css.spec_bytes().subrange(a, b)
}

/// The span from `start` to the offset `end`, if there is one.
pub open spec fn span<'a>(input: &'a Input<'a>, start: Position, end: Option<int>) -> Option<
    Source<'a>,
> {
    Some(
        Source {
            input,
            start,
            end: match end {
                Some(e) => Some(position_at(input.css.spec_bytes(), e)),
                None => None,
            },
        },
    )
}

/// Where a statement ends: behind its semicolon, or, without one, where
/// the last token of its head ends.
pub open spec fn statement_end(h: Head, semi: Option<usize>) -> int {
    match semi {
        Some(s) => s + 1,
        None => h.last_end as int,
    }
}

/// Where the formatting behind a statement ends: before its semicolon, or,
/// without one, where the last token of its head ends.
pub open spec fn statement_stop(h: Head, semi: Option<usize>) -> int {
    match semi {
        Some(s) => s as int,
        None => h.last_end as int,
    }
}

/// The declaration that the head `h` is, ended by the semicolon at `semi`
/// if there is one.
///
/// The property runs from the start of the head to the last token before
/// the colon, the value from the first token after the colon to the last
/// token of the head. What stands between the two is kept as `between`,
/// what stands between the value and the semicolon as `after`.
pub open spec fn declaration_view<'a>(
    input: &'a Input<'a>,
    id: usize,
    mark: usize,
    h: Head,
    semi: Option<usize>,
) -> NodeView<'a> {
    NodeView {
        kind: NodeKind::Declaration,
        id,
        parent: None,
        source: span(input, h.origin, Some(statement_end(h, semi))),
        raws: RawsView {
            before: Some(piece(input, mark as int, h.start as int)),
            between: Some(piece(input, h.prop_end as int, h.value_from() as int)),
            after: Some(piece(input, h.last_end as int, statement_stop(h, semi))),
            semicolon: semi is Some,
            ..no_raws()
        },
        name: piece(input, h.start as int, h.prop_end as int),
        value: piece(input, h.value_from() as int, h.last_end as int),
        has_block: false,
        children: Seq::empty(),
    }
}

/// The at-rule without a block that the head `h` is, ended by the
/// semicolon at `semi` if there is one.
///
/// The name is the at-word without its `@`, the parameters run from the
/// first token after the name to the last token of the head. What stands
/// between the two is kept as `after_name`, what stands between the
/// parameters and the semicolon as `between`.
pub open spec fn at_statement_view<'a>(
    input: &'a Input<'a>,
    id: usize,
    mark: usize,
    h: Head,
    semi: Option<usize>,
) -> NodeView<'a> {
    NodeView {
        kind: NodeKind::AtRule,
        id,
        parent: None,
        source: span(input, h.origin, Some(statement_end(h, semi))),
        raws: RawsView {
            before: Some(piece(input, mark as int, h.start as int)),
            after_name: Some(piece(input, h.name_end as int, h.params_from() as int)),
            between: Some(piece(input, h.last_end as int, statement_stop(h, semi))),
            semicolon: semi is Some,
            ..no_raws()
        },
        name: piece(input, h.start + 1, h.name_end as int),
        value: piece(input, h.params_from() as int, h.last_end as int),
        has_block: false,
        children: Seq::empty(),
    }
}

/// The statement that the head `h` is: an at-rule if the head started with
/// an at-word, a declaration if not.
pub open spec fn statement_view<'a>(
    input: &'a Input<'a>,
    id: usize,
    mark: usize,
    h: Head,
    semi: Option<usize>,
) -> NodeView<'a> {
    if h.at_rule {
        at_statement_view(input, id, mark, h, semi)
    } else {
        declaration_view(input, id, mark, h, semi)
    }
}

/// The rule that the `{` at `brace` opens where no head was read: it has
/// no selector and starts at the brace.
pub open spec fn bare_rule_view<'a>(
    input: &'a Input<'a>,
    id: usize,
    mark: usize,
    brace: usize,
) -> NodeView<'a> {
    NodeView {
        kind: NodeKind::Rule,
        id,
        parent: None,
        source: span(input, position_at(input.css.spec_bytes(), brace as int), None),
        raws: RawsView {
            before: Some(piece(input, mark as int, brace as int)),
            between: Some(piece(input, brace as int, brace as int)),
            ..no_raws()
        },
        name: piece(input, brace as int, brace as int),
        value: Seq::empty(),
        has_block: true,
        children: Seq::empty(),
    }
}

/// The rule whose selector is the head `h` and whose block the `{` at
/// `brace` opens.
///
/// The selector is the whole head, up to its last token that is neither
/// whitespace nor a comment; what stands between that and the `{` is kept
/// as `between`.
pub open spec fn rule_view<'a>(
    input: &'a Input<'a>,
    id: usize,
    mark: usize,
    h: Head,
    brace: usize,
) -> NodeView<'a> {
    NodeView {
        kind: NodeKind::Rule,
        id,
        parent: None,
        source: span(input, h.origin, None),
        raws: RawsView {
            before: Some(piece(input, mark as int, h.start as int)),
            between: Some(piece(input, h.last_end as int, brace as int)),
            ..no_raws()
        },
        name: piece(input, h.start as int, h.last_end as int),
        value: Seq::empty(),
        has_block: true,
        children: Seq::empty(),
    }
}

/// The at-rule that the head `h` is and whose block the `{` at `brace`
/// opens.
pub open spec fn at_rule_view<'a>(
    input: &'a Input<'a>,
    id: usize,
    mark: usize,
    h: Head,
    brace: usize,
) -> NodeView<'a> {
    NodeView {
        kind: NodeKind::AtRule,
        id,
        parent: None,
        source: span(input, h.origin, None),
        raws: RawsView {
            before: Some(piece(input, mark as int, h.start as int)),
            after_name: Some(piece(input, h.name_end as int, h.params_from() as int)),
            between: Some(piece(input, h.last_end as int, brace as int)),
            ..no_raws()
        },
        name: piece(input, h.start + 1, h.name_end as int),
        value: piece(input, h.params_from() as int, h.last_end as int),
        has_block: true,
        children: Seq::empty(),
    }
}

/// The block that the `{` at `brace` opens, still without children: an
/// at-rule if the head started with an at-word, a rule if not, and a rule
/// without a selector where there is no head.
pub open spec fn block_view<'a>(
    input: &'a Input<'a>,
    id: usize,
    mark: usize,
    head: Option<Head>,
    brace: usize,
) -> NodeView<'a> {
    match head {
        None => bare_rule_view(input, id, mark, brace),
        Some(h) => if h.at_rule {
            at_rule_view(input, id, mark, h, brace)
        } else {
            rule_view(input, id, mark, h, brace)
        },
    }
}

/// Where the whitespace ends that follows the `/*` of the comment from `s`
/// to `e`.
pub open spec fn comment_left_end(css: Seq<u8>, s: int, e: int) -> int {
    let run = spaces_end(css, s + 2);
    if run < e - 2 {
        run
    } else {
        e - 2
    }
}

/// Where the whitespace starts that precedes the `*/` of the comment from
/// `s` to `e`.
pub open spec fn comment_right_start(css: Seq<u8>, s: int, e: int) -> int {
    trailing_spaces_start(css, comment_left_end(css, s, e), e - 2)
}

/// The comment that the token from `s` to `e` is.
///
/// The whitespace behind `/*` is kept as `left`, the whitespace before `*/`
/// as `right`, and the text is what stands between them. A comment of
/// nothing but whitespace has it all on the left.
pub open spec fn comment_view<'a>(
    input: &'a Input<'a>,
    id: usize,
    mark: usize,
    s: int,
    e: int,
) -> NodeView<'a> {
    let css = input.css.spec_bytes();
    let l = comment_left_end(css, s, e);
    let r = comment_right_start(css, s, e);
    NodeView {
        kind: NodeKind::Comment,
        id,
        parent: None,
        source: span(input, position_at(css, s), Some(e)),
        raws: RawsView {
            before: Some(piece(input, mark as int, s)),
            left: Some(piece(input, s + 2, l)),
            right: Some(piece(input, r, e - 2)),
            ..no_raws()
        },
        name: piece(input, l, r),
        value: Seq::empty(),
        has_block: false,
        children: Seq::empty(),
    }
}

/// The block `top`, closed at the offset `e`: what stands between the mark
/// and `s` is kept as `after`.
pub open spec fn closed_view<'a>(
    top: NodeView<'a>,
    input: &'a Input<'a>,
    mark: usize,
    s: int,
    e: int,
    semicolon: bool,
) -> NodeView<'a> {
    NodeView {
        raws: RawsView { after: Some(piece(input, mark as int, s)), semicolon, ..top.raws },
        source: match top.source {
            Some(source) => Some(
                Source { end: Some(position_at(input.css.spec_bytes(), e)), ..source },
            ),
            None => None,
        },
        ..top
    }
}

/// The root of a tree that has nothing in it yet.
pub open spec fn root_open<'a>(input: &'a Input<'a>) -> NodeView<'a> {
    NodeView {
        kind: NodeKind::Root,
        id: 0,
        parent: None,
        source: span(input, position_at(input.css.spec_bytes(), 0), None),
        raws: no_raws(),
        name: Seq::empty(),
        value: Seq::empty(),
        has_block: true,
        children: Seq::empty(),
    }
}

/// The root, closed at the end of the text: what stands behind its last
/// child is kept as `after`.
pub open spec fn root_closed<'a>(
    root: NodeView<'a>,
    input: &'a Input<'a>,
    mark: usize,
    semicolon: bool,
) -> NodeView<'a> {
    let n = input.css.spec_bytes().len() as int;
    closed_view(root, input, mark, n, n, semicolon)
}

/// The root and the open blocks after `child` went into the innermost open
/// block, or into the root where no block is open.
pub open spec fn attached<'a>(
    root: NodeView<'a>,
    stack: Seq<NodeView<'a>>,
    child: NodeView<'a>,
) -> (NodeView<'a>, Seq<NodeView<'a>>) {
    if stack.len() == 0 {
        (with_child(root, child), stack)
    } else {
        (root, stack.drop_last().push(with_child(stack.last(), child)))
    }
}

impl<'a> Build<'a> {
    /// Before the first token: an empty root, and nothing open.
    pub open spec fn start(input: &'a Input<'a>) -> Build<'a> {
        Build {
            root: root_open(input),
            stack: Seq::empty(),
            mark: 0,
            head: None,
            semicolon: false,
            commented: false,
            next_id: 1,
        }
    }

    /// The state of the builder, as one of five.
    pub open spec fn state(&self) -> ParserState {
        match self.head {
            Some(h) => if h.colon {
                ParserState::InDeclarationValue
            } else {
                ParserState::InSelectorOrAtRuleHead
            },
            None => if self.commented {
                ParserState::InComment
            } else if self.stack.len() == 0 {
                ParserState::AwaitingNode
            } else {
                ParserState::InBlock
            },
        }
    }

    /// The builder with `child` as the last child of the innermost open
    /// block, or of the root where no block is open.
    pub open spec fn attach(self, child: NodeView<'a>) -> Build<'a> {
        Build {
            root: attached(self.root, self.stack, child).0,
            stack: attached(self.root, self.stack, child).1,
            ..self
        }
    }

    /// The builder after the head `h` ended as a statement.
    pub open spec fn end_statement(
        self,
        input: &'a Input<'a>,
        h: Head,
        semi: Option<usize>,
    ) -> Build<'a> {
        let child = statement_view(input, self.next_id, self.mark, h, semi);
        Build {
            mark: statement_end(h, semi) as usize,
            head: None,
            semicolon: semi is Some,
            commented: false,
            next_id: (self.next_id + 1) as usize,
            ..self.attach(child)
        }
    }

    /// The builder after the `{` from `s` to `e` opened a block.
    pub open spec fn open_block(self, input: &'a Input<'a>, s: int, e: int) -> Build<'a> {
        Build {
            stack: self.stack.push(
                block_view(input, self.next_id, self.mark, self.head, s as usize),
            ),
            mark: e as usize,
            head: None,
            semicolon: false,
            commented: false,
            next_id: (self.next_id + 1) as usize,
            ..self
        }
    }

    /// The builder after the `}` from `s` to `e` closed the innermost
    /// block; where no block is open, the `}` is out of place.
    pub open spec fn close_block(self, input: &'a Input<'a>, s: int, e: int) -> Result<
        Build<'a>,
        (ErrorKind, int),
    > {
        if self.stack.len() == 0 {
            Err((ErrorKind::UnexpectedToken, s))
        } else {
            let closed = closed_view(self.stack.last(), input, self.mark, s, e, self.semicolon);
            let rest = Build { stack: self.stack.drop_last(), ..self };
            Ok(
                Build {
                    mark: e as usize,
                    head: None,
                    semicolon: false,
                    commented: false,
                    ..rest.attach(closed)
                },
            )
        }
    }

    /// The builder after the comment from `s` to `e` became a node.
    pub open spec fn comment(self, input: &'a Input<'a>, s: int, e: int) -> Build<'a> {
        let child = comment_view(input, self.next_id, self.mark, s, e);
        Build {
            mark: e as usize,
            commented: true,
            next_id: (self.next_id + 1) as usize,
            ..self.attach(child)
        }
    }
}

/// The head that begins with the token `t`.
pub open spec fn head_of(input: &Input, t: TokenView) -> Head {
    Head {
        start: t.start as usize,
        origin: position_at(input.css.spec_bytes(), t.start),
        at_rule: t.kind == TokenKind::AtWord,
        name_end: (t.end + 1) as usize,
        params_start: None,
        colon: t.kind == TokenKind::Colon,
        prop_end: t.start as usize,
        value_start: None,
        last_end: (t.end + 1) as usize,
        custom: t.kind == TokenKind::Word && starts_custom(t.text),
        depth: 0,
    }
}

/// The head `h` with the token `t` taken into it. The first colon of a
/// head that did not start with an at-word ends the property; any other
/// token starts the parameters or the value if they have not started yet.
pub open spec fn head_with(h: Head, t: TokenView, depth: usize) -> Head {
    if t.kind == TokenKind::Colon && !h.at_rule && !h.colon {
        Head {
            colon: true,
            prop_end: h.last_end,
            value_start: None,
            last_end: (t.end + 1) as usize,
            depth,
            ..h
        }
    } else {
        Head {
            params_start: if h.at_rule && h.params_start is None {
                Some(t.start as usize)
            } else {
                h.params_start
            },
            value_start: if h.colon && h.value_start is None {
                Some(t.start as usize)
            } else {
                h.value_start
            },
            last_end: (t.end + 1) as usize,
            depth,
            ..h
        }
    }
}

/// What the token `t` does where no head is being read.
///
/// Whitespace and a stray semicolon are formatting. A comment becomes a
/// node. `{` opens a rule without a selector; `}` closes the innermost
/// block, and is out of place where none is open. Any other token begins a
/// head.
pub open spec fn step_outside<'a>(b: Build<'a>, input: &'a Input<'a>, t: TokenView) -> Result<
    Build<'a>,
    (ErrorKind, int),
> {
    if t.kind == TokenKind::Space || t.kind == TokenKind::Semicolon {
        Ok(Build { commented: false, ..b })
    } else if t.kind == TokenKind::Comment {
        Ok(b.comment(input, t.start, t.end + 1))
    } else if t.kind == TokenKind::OpenCurly {
        Ok(b.open_block(input, t.start, t.end + 1))
    } else if t.kind == TokenKind::CloseCurly {
        b.close_block(input, t.start, t.end + 1)
    } else {
        Ok(Build { head: Some(head_of(input, t)), commented: false, ..b })
    }
}

/// What the token `t` does to the head `h` that is being read.
///
/// `{` turns the head into the start of a block. `;` ends it as a
/// statement. `}` ends it as a statement too and then closes the innermost
/// block. A head that is no statement, neither an at-rule nor a
/// declaration, cannot end at `;` or `}`: its first token is out of place.
/// In the value of a custom property, braces nest and a `;` inside them is
/// part of the value. Every other token is part of the head.
pub open spec fn step_inside<'a>(
    b: Build<'a>,
    input: &'a Input<'a>,
    h: Head,
    t: TokenView,
) -> Result<Build<'a>, (ErrorKind, int)> {
    if is_quiet(t.kind) {
        Ok(b)
    } else if t.kind == TokenKind::OpenCurly {
        if h.opaque() {
            Ok(Build { head: Some(head_with(h, t, (h.depth + 1) as usize)), ..b })
        } else {
            Ok(b.open_block(input, t.start, t.end + 1))
        }
    } else if t.kind == TokenKind::Semicolon {
        if h.opaque() && h.depth > 0 {
            Ok(Build { head: Some(head_with(h, t, h.depth)), ..b })
        } else if h.is_statement() {
            Ok(b.end_statement(input, h, Some(t.start as usize)))
        } else {
            Err((ErrorKind::UnexpectedToken, h.start as int))
        }
    } else if t.kind == TokenKind::CloseCurly {
        if h.opaque() && h.depth > 0 {
            Ok(Build { head: Some(head_with(h, t, (h.depth - 1) as usize)), ..b })
        } else if !h.is_statement() {
            Err((ErrorKind::UnexpectedToken, h.start as int))
        } else {
            b.end_statement(input, h, None).close_block(input, t.start, t.end + 1)
        }
    } else {
        Ok(Build { head: Some(head_with(h, t, h.depth)), ..b })
    }
}

/// What the token `t` does: the builder after it, or the failure it is.
pub open spec fn step<'a>(b: Build<'a>, input: &'a Input<'a>, t: TokenView) -> Result<
    Build<'a>,
    (ErrorKind, int),
> {
    match b.head {
        None => step_outside(b, input, t),
        Some(h) => step_inside(b, input, h, t),
    }
}

/// Where the node starts: the offset of the start of its span.
pub open spec fn start_offset(n: NodeView) -> int {
    n.source->0.start.offset as int
}

/// What the end of the text makes of the builder: a head ends as a
/// statement, no block may be open, and the root is closed. An open block,
/// or an open brace in the value of a custom property, is reported where
/// the block or the declaration starts.
pub open spec fn finish<'a>(b: Build<'a>, input: &'a Input<'a>) -> Result<
    NodeView<'a>,
    (ErrorKind, int),
> {
    match b.head {
        Some(h) if h.opaque() && h.depth > 0 => Err((ErrorKind::UnclosedBlock, h.start as int)),
        Some(h) if !h.is_statement() => Err((ErrorKind::UnexpectedToken, h.start as int)),
        _ => {
            let done = match b.head {
                Some(h) => b.end_statement(input, h, None),
                None => b,
            };
            if done.stack.len() > 0 {
                Err((ErrorKind::UnclosedBlock, start_offset(done.stack.last())))
            } else {
                Ok(root_closed(done.root, input, done.mark, done.semicolon))
            }
        },
    }
}

/// The tree that the builder `b` ends with when it reads the rest of the
/// text, from `cursor` on, with a lexer whose word buffer is `words`; or
/// the first failure and the offset it is reported at.
pub open spec fn tree_from<'a>(
    input: &'a Input<'a>,
    cursor: int,
    words: Seq<TokenView>,
    b: Build<'a>,
) -> Result<NodeView<'a>, (ErrorKind, int)>
    decreases input.css.spec_bytes().len() - cursor,
    via tree_from_decreases
{
    let css = input.css.spec_bytes();
    if cursor < 0 || cursor >= css.len() {
        finish(b, input)
    } else {
        match lex_at(css, cursor, after_url(words), false) {
            Err(kind) => Err((kind, cursor)),
            Ok((kind, end)) => {
                let t = token_at(css, kind, cursor, end);
                match step(b, input, t) {
                    Err(e) => Err(e),
                    Ok(next) => tree_from(input, end, words_after(css, words, cursor, t), next),
                }
            },
        }
    }
}

#[via_fn]
proof fn tree_from_decreases<'a>(
    input: &'a Input<'a>,
    cursor: int,
    words: Seq<TokenView>,
    b: Build<'a>,
) {
    let css = input.css.spec_bytes();
    if 0 <= cursor < css.len() {
        lemma_lex_progress(css, cursor, after_url(words), false);
    }
}

/// The tree of the text of `input`; or, where the text does not parse, its
/// first failure and the offset it is reported at.
pub open spec fn tree_of<'a>(input: &'a Input<'a>) -> Result<NodeView<'a>, (ErrorKind, int)> {
    tree_from(input, 0, Seq::empty(), Build::start(input))
}

} // verus!
