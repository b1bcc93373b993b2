//! A lossless CSS lexer and tree builder.
//!
//! [`tokenize::Tokenizer`] cuts a text into tokens; [`parser::Parser`]
//! assembles the tokens into a tree of rules, at-rules, declarations and
//! comments that keeps every byte of the text, so that the tree, written
//! out, is the text again.
//!
//! What the lexer does is stated on bytes in [`lexis`], what the tree
//! builder does is stated on tokens in [`grammar`]; the code in
//! [`tokenize`] and [`parser`] is proved against these statements.
//! [`render`] says which text a tree stands for, [`sound`] what holds of
//! every node of a tree, and [`view`] what a tree is to the contracts.

pub mod bytes;
pub mod container;
pub mod error;
pub mod grammar;
pub mod input;
pub mod lexis;
pub mod node;
pub mod node_type;
pub mod parser;
pub mod render;
pub mod root;
pub mod sound;
pub mod text;
pub mod tokenize;
pub mod view;

use crate::error::ParseError;
use crate::grammar::tree_of;
use crate::input::Input;
use crate::node::position_at;
use crate::parser::{is_tree_of, Parser};
use crate::root::Root;
use crate::tokenize::reports;
use crate::view::root_view;
use vstd::prelude::*;
use vstd::string::StringSliceAdditionalSpecFns;

verus! {

/// Parses the text of `input` into a tree.
///
/// Which tree the text has is what [`tree_of`] says of it. The tree is
/// sound, and, written out, it is the text again, byte for byte. Where the
/// text has no tree, the failure is the first that the lexer or the grammar
/// meets, reported at the offset where the construct starts that is
/// unterminated, unclosed or out of place.
pub fn parse<'a>(input: &'a Input<'a>) -> (r: Result<Root<'a>, ParseError<'a>>)
    requires
        input.css.spec_bytes().len() < usize::MAX,
    ensures
        match tree_of(input) {
            Ok(tree) => r matches Ok(root) && root_view(root) == tree && is_tree_of(root, input),
            Err((kind, at)) => r matches Err(e) && reports(
                e,
                input,
                kind,
                position_at(input.css.spec_bytes(), at),
            ),
        },
{
    match Parser::new(input) {
        Ok(parser) => Ok(parser.into_root()),
        Err(e) => Err(e),
    }
}

} // verus!
