//! Positions, spans, and what every node of the tree has.

use crate::bytes::NEWLINE;
use crate::input::Input;
use vstd::prelude::*;
use vstd::string::StringSliceAdditionalSpecFns;

verus! {

/// A place in the source text.
///
/// `offset` counts bytes from zero; `line` and `column` count from one.
#[derive(Clone, Copy, Debug, PartialEq, Eq, Structural)]
pub struct Position {
    pub offset: usize,
    pub column: usize,
    pub line: usize,
}

/// The line of the byte at `offset`: one more than the number of newlines
/// before it.
pub open spec fn line_at(css: Seq<u8>, offset: int) -> int
    decreases offset,
{
    if offset <= 0 || offset > css.len() {
        1
    } else if css[offset - 1] == NEWLINE {
        line_at(css, offset - 1) + 1
    } else {
        line_at(css, offset - 1)
    }
}

/// The column of the byte at `offset`: one more than the number of bytes
/// between it and the newline before it, or the start of the text.
pub open spec fn column_at(css: Seq<u8>, offset: int) -> int
    decreases offset,
{
    if offset <= 0 || offset > css.len() {
        1
    } else if css[offset - 1] == NEWLINE {
        1
    } else {
        column_at(css, offset - 1) + 1
    }
}

/// The position of `offset` in `css`.
pub open spec fn position_at(css: Seq<u8>, offset: int) -> Position {
    Position {
        offset: offset as usize,
        column: column_at(css, offset) as usize,
        line: line_at(css, offset) as usize,
    }
}

/// Lines and columns start at one and grow by at most one with each byte.
pub proof fn lemma_position_bounds(css: Seq<u8>, offset: int)
    requires
        0 <= offset <= css.len(),
    ensures
        1 <= line_at(css, offset) <= offset + 1,
        1 <= column_at(css, offset) <= offset + 1,
    decreases offset,
{
    if offset > 0 {
        lemma_position_bounds(css, offset - 1);
    }
}

impl Position {
    /// Builds a position from its three coordinates.
    pub fn new(offset: usize, column: usize, line: usize) -> (p: Position)
        ensures
            p.offset == offset,
            p.column == column,
            p.line == line,
    {
        Position { offset, column, line }
    }

    /// The position of the first byte of any text.
    pub fn origin() -> (p: Position)
        ensures
            p == (Position { offset: 0, column: 1, line: 1 }),
            forall|css: Seq<u8>| p == #[trigger] position_at(css, 0),
    {
        Position { offset: 0, column: 1, line: 1 }
    }

    /// Moves a position of `css` forward to the offset `to`, counting the
    /// newlines on the way.
    pub fn advance(self, css: &[u8], to: usize) -> (p: Position)
        requires
            self == position_at(css@, self.offset as int),
            self.offset <= to <= css.len(),
            to < usize::MAX,
        ensures
            p == position_at(css@, to as int),
    {
        let mut line: usize = self.line;
        let mut column: usize = self.column;
        let mut i: usize = self.offset;
        proof {
            lemma_position_bounds(css@, i as int);
        }
        while i < to
            invariant
                self.offset <= i <= to <= css.len(),
                to < usize::MAX,
                line == line_at(css@, i as int),
                column == column_at(css@, i as int),
                line <= i + 1,
                column <= i + 1,
            decreases to - i,
        {
            if css[i] == NEWLINE {
                line += 1;
                column = 1;
            } else {
                column += 1;
            }
            i += 1;
        }
        Position { offset: to, column, line }
    }

    /// The position of the offset `to` in `css`.
    pub fn locate(css: &[u8], to: usize) -> (p: Position)
        requires
            to <= css.len(),
            to < usize::MAX,
        ensures
            p == position_at(css@, to as int),
    {
        Position::origin().advance(css, to)
    }
}

/// A span with both ends known.
#[derive(Clone, Copy, Debug, PartialEq, Eq, Structural)]
pub struct Range {
    /// Start, inclusive.
    pub start: Position,
    /// End, exclusive.
    pub end: Position,
}

/// The span of a node in the text of an input.
///
/// The end is exclusive, and absent while the node is still open.
#[derive(Clone, Copy, Debug)]
pub struct Source<'a> {
    pub input: &'a Input<'a>,
    pub start: Position,
    pub end: Option<Position>,
}

impl<'a> Source<'a> {
    /// The start does not lie behind the end, and both lie in the text.
    pub open spec fn wf(&self) -> bool {
        &&& self.start.offset <= self.input.css.spec_bytes().len()
        &&& self.end matches Some(e) ==> self.start.offset <= e.offset
            <= self.input.css.spec_bytes().len()
    }

    pub fn new(input: &'a Input<'a>, start: Position, end: Option<Position>) -> (s: Source<'a>)
        ensures
            s.input == input,
            s.start == start,
            s.end == end,
    {
        Source { input, start, end }
    }
}

/// The five kinds of node.
#[derive(Clone, Copy, Debug, PartialEq, Eq, Structural)]
pub enum NodeKind {
    /// The whole document.
    Root,
    /// A selector with a block of declarations.
    Rule,
    /// An `@` name with parameters, with or without a block.
    AtRule,
    /// A property with its value.
    Declaration,
    /// A comment.
    Comment,
}

/// The formatting around and inside a node, verbatim, so that an untouched
/// tree can be written out byte for byte.
#[derive(Clone, Copy, Debug)]
pub struct Raws<'a> {
    /// What stands before the node: whitespace, and stray semicolons.
    pub before: Option<&'a str>,
    /// Of a block: what stands between its last child and its `}`. Of the
    /// root: what stands after its last child. Of a declaration: what stands
    /// between its value and its `;`.
    pub after: Option<&'a str>,
    /// Of a rule: what stands between the selector and `{`. Of an at-rule:
    /// what stands between the parameters and `{` or `;`. Of a declaration:
    /// what stands between the property and the value, the colon included.
    pub between: Option<&'a str>,
    /// Of a declaration or an at-rule without a block: a `;` ends it. Of a
    /// block or the root: a `;` ends its last statement.
    pub semicolon: bool,
    /// Of an at-rule: what stands between the name and the parameters.
    pub after_name: Option<&'a str>,
    /// Of a comment: the whitespace between `/*` and the text.
    pub left: Option<&'a str>,
    /// Of a comment: the whitespace between the text and `*/`.
    pub right: Option<&'a str>,
    /// Of a declaration: the text of its `!important`, where that is to be
    /// kept apart from the value. The parser keeps it in the value.
    pub important: Option<&'a str>,
}

impl<'a> Raws<'a> {
    /// No formatting at all.
    pub open spec fn is_empty(&self) -> bool {
        &&& self.before is None
        &&& self.after is None
        &&& self.between is None
        &&& !self.semicolon
        &&& self.after_name is None
        &&& self.left is None
        &&& self.right is None
        &&& self.important is None
    }

    pub fn new() -> (r: Raws<'a>)
        ensures
            r.is_empty(),
    {
        Raws {
            before: None,
            after: None,
            between: None,
            semicolon: false,
            after_name: None,
            left: None,
            right: None,
            important: None,
        }
    }
}

/// What every member of the tree has: its kind, its handle and that of the
/// container that owns it, its span in the source, and its formatting.
///
/// A handle is a number that stands for a node. The parser numbers the nodes
/// of a tree in the order in which they start in the text, the root being 0.
#[derive(Clone, Copy, Debug)]
pub struct Node<'a> {
    pub node_type: NodeKind,
    /// The handle of this node.
    pub id: usize,
    /// The handle of the container that owns this node.
    pub parent: Option<usize>,
    pub source: Option<Source<'a>>,
    pub raws: Raws<'a>,
}

impl<'a> Node<'a> {
    /// A node of the given kind that is in no tree yet: it has no source, no
    /// parent and no formatting.
    pub fn new(node_type: NodeKind) -> (n: Node<'a>)
        ensures
            n.node_type == node_type,
            n.id == 0,
            n.parent is None,
            n.source is None,
            n.raws.is_empty(),
    {
        Node { node_type, id: 0, parent: None, source: None, raws: Raws::new() }
    }

    /// Records where the node starts in `input`. The end stays open.
    pub fn open_source(&mut self, input: &'a Input<'a>, start: Position)
        ensures
            final(self).source == Some(Source { input, start, end: None }),
            final(self).node_type == old(self).node_type,
            final(self).id == old(self).id,
            final(self).parent == old(self).parent,
            final(self).raws == old(self).raws,
    {
        self.source = Some(Source::new(input, start, None));
    }

    /// Records where the node ends. A node whose start was never recorded
    /// stays without a source.
    pub fn close_source(&mut self, end: Position)
        ensures
            final(self).source == (match old(self).source {
                Some(s) => Some(Source { end: Some(end), ..s }),
                None => None,
            }),
            final(self).node_type == old(self).node_type,
            final(self).id == old(self).id,
            final(self).parent == old(self).parent,
            final(self).raws == old(self).raws,
    {
        match self.source {
            Some(s) => {
                self.source = Some(Source::new(s.input, s.start, Some(end)));
            },
            None => {},
        }
    }
}

} // verus!
