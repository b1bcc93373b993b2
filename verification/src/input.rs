//! The text that is parsed, and the name it goes by.

use vstd::prelude::*;
use vstd::string::StringExecFns;

verus! {

/// A place in a named source file, as a diagnostic shows it.
#[derive(Debug, Clone, Copy)]
pub struct FilePosition<'a> {
    /// URL of the source file.
    pub url: &'a str,
    /// Absolute path of the source file.
    pub file: Option<&'a str>,
    /// Line of the inclusive start.
    pub line: usize,
    /// Column of the inclusive start.
    pub column: usize,
    /// Line of the exclusive end.
    pub end_line: Option<usize>,
    /// Column of the exclusive end.
    pub end_column: Option<usize>,
    /// The source text.
    pub source: Option<&'a str>,
}

/// The source text of one parse, with its identity.
///
/// A text that came from a file is known by the file's path. A text that
/// came from memory is known by an id, which is made of a token that the
/// caller draws at random, so that two texts in memory can be told apart.
#[derive(Debug)]
pub struct Input<'a> {
    /// The CSS text.
    pub css: &'a str,
    /// Path of the file the text came from.
    pub file: Option<&'a str>,
    /// Identity of a text that came from no file.
    pub id: Option<String>,
}

/// The id that is made of `token`: the token between `<input css ` and `>`.
pub open spec fn id_of(token: Seq<char>) -> Seq<char> {
    "<input css "@ + token + ">"@
}

impl<'a> Input<'a> {
    /// The id is present exactly when the file is absent.
    pub open spec fn wf(&self) -> bool {
        self.id is Some <==> self.file is None
    }

    /// Wraps `css`. With a `file` the input has no id; without one its id is
    /// made of `token`, which the caller draws afresh for every input.
    pub fn new(css: &'a str, file: Option<&'a str>, token: &str) -> (input: Input<'a>)
        ensures
            input.css == css,
            input.file == file,
            file is Some ==> input.id is None,
            file is None ==> input.id is Some && input.id->0@ == id_of(token@),
            input.wf(),
    {
        let id: Option<String> = match file {
            Some(_) => None,
            None => Some(String::from_str("<input css ").concat(token).concat(">")),
        };
        Input { css, file, id }
    }

    /// The id as a borrowed text.
    pub fn id_str(&self) -> (r: Option<&str>)
        ensures
            r is Some <==> self.id is Some,
            r is Some ==> r->0@ == self.id->0@,
    {
        match &self.id {
            Some(s) => Some(s.as_str()),
            None => None,
        }
    }
}

} // verus!
