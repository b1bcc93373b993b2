//! The tokenizer: a pull-based lexer with a pushback buffer.

use crate::bytes::{
    scan_bad_bracket, scan_byte, scan_closing, scan_comment, scan_escape, scan_spaces, scan_word,
    is_space_byte, ASTERISK, AT, BACKSLASH, CLOSE_CURLY, CLOSE_PARENTHESES, CLOSE_SQUARE, COLON,
    DOUBLE_QUOTE, OPEN_CURLY, OPEN_PARENTHESES, OPEN_SQUARE, SEMICOLON, SINGLE_QUOTE, SLASH,
};
use crate::error::{ErrorKind, ParseError};
use crate::input::Input;
use crate::lexis::{
    after_url, concat_texts, lemma_lex_boundary, lemma_lex_progress, lemma_relex,
    lemma_scan_tiles, lex_at, scan_from, tiles, token_at, tokens_of, url_bytes, words_after,
    TokenKind, TokenView,
};
use crate::node::{position_at, Position};
use crate::text::{is_boundary, lemma_boundary_ends, lemma_str_valid, slice};
use vstd::prelude::*;
use vstd::string::StringSliceAdditionalSpecFns;

verus! {

/// A token: its kind, the text it covers, and the offsets of its first and
/// of its last byte in the source.
#[derive(Clone, Copy, Debug, PartialEq, Eq)]
pub struct Token<'a> {
    pub kind: TokenKind,
    pub text: &'a str,
    pub start_offset: usize,
    pub end_offset: usize,
}

impl<'a> View for Token<'a> {
    type V = TokenView;

    open spec fn view(&self) -> TokenView {
        TokenView {
            kind: self.kind,
            text: self.text.spec_bytes(),
            start: self.start_offset as int,
            end: self.end_offset as int,
        }
    }
}

/// The views of a sequence of tokens.
pub open spec fn views<'a>(tokens: Seq<Token<'a>>) -> Seq<TokenView> {
    tokens.map_values(|t: Token<'a>| t@)
}

/// The state of a tokenizer as the contracts see it.
pub struct TokenizerView {
    /// The bytes of the text that is lexed.
    pub css: Seq<u8>,
    /// Whether an unterminated construct runs to the end of the text instead
    /// of failing.
    pub ignore: bool,
    /// The offset of the first byte that no token covers yet.
    pub cursor: int,
    /// The tokens that were pushed back, the last of them on top.
    pub returned: Seq<TokenView>,
    /// The words lexed so far that no `(` has taken, the last of them on
    /// top.
    pub words: Seq<TokenView>,
}

/// The state after `t` was pushed back.
pub open spec fn spec_back(v: TokenizerView, t: TokenView) -> TokenizerView {
    TokenizerView { returned: v.returned.push(t), ..v }
}

/// The state after the next token was asked for, and the answer.
///
/// A token that was pushed back comes first and leaves the scan where it
/// was. With none, the end of the text gives no token; before the end the
/// token is the one that [`lex_at`] finds at the cursor, and a failure there
/// leaves the state as it was.
pub open spec fn spec_next(v: TokenizerView) -> (
    TokenizerView,
    Result<Option<TokenView>, ErrorKind>,
) {
    if v.returned.len() > 0 {
        (TokenizerView { returned: v.returned.drop_last(), ..v }, Ok(Some(v.returned.last())))
    } else if v.cursor >= v.css.len() {
        (v, Ok(None))
    } else {
        match lex_at(v.css, v.cursor, after_url(v.words), v.ignore) {
            Ok((kind, end)) => {
                let t = token_at(v.css, kind, v.cursor, end);
                (
                    TokenizerView {
                        cursor: end,
                        words: words_after(v.css, v.words, v.cursor, t),
                        ..v
                    },
                    Ok(Some(t)),
                )
            },
            Err(kind) => (v, Err(kind)),
        }
    }
}

/// A token that is pushed back is the next one handed out, with its kind,
/// text and offsets as they were, and the tokenizer is then as it was before
/// the token was pushed back.
pub proof fn lemma_back_then_next(v: TokenizerView, t: TokenView)
    ensures
        spec_next(spec_back(v, t)).1 == Ok::<Option<TokenView>, ErrorKind>(Some(t)),
        spec_next(spec_back(v, t)).0 == v,
{
    assert(v.returned.push(t).drop_last() =~= v.returned);
}

/// The error `e` reports a failure of kind `kind` at `position` in `input`.
pub open spec fn reports(
    e: ParseError,
    input: &Input,
    kind: ErrorKind,
    position: Position,
) -> bool {
    &&& e.kind == kind
    &&& e.position == position
    &&& e.file == input.file
    &&& e.id is Some <==> input.id is Some
    &&& e.id is Some ==> e.id->0@ == input.id->0@
}

/// Builds the error that reports `kind` at `position` in `input`.
pub(crate) fn error_at<'a>(
    input: &'a Input<'a>,
    kind: ErrorKind,
    position: Position,
) -> (e: ParseError<'a>)
    ensures
        reports(e, input, kind, position),
{
    ParseError { kind, position, file: input.file, id: input.id_str() }
}

/// Lexes the token that starts with the `(` at `pos`.
fn lex_parentheses(css: &[u8], pos: usize, after_url: bool, ignore: bool) -> (r: Result<
    (TokenKind, usize),
    ErrorKind,
>)
    requires
        pos < css.len(),
        css[pos as int] == OPEN_PARENTHESES,
    ensures
        r matches Ok((kind, end)) ==> lex_at(css@, pos as int, after_url, ignore) == Ok::<
            (TokenKind, int),
            ErrorKind,
        >((kind, end as int)),
        r matches Err(kind) ==> lex_at(css@, pos as int, after_url, ignore) == Err::<
            (TokenKind, int),
            ErrorKind,
        >(kind),
{
    let n: usize = css.len();
    let quoted: bool = pos + 1 < n && (css[pos + 1] == SINGLE_QUOTE || css[pos + 1] == DOUBLE_QUOTE
        || is_space_byte(css[pos + 1]));
    if after_url && !quoted {
        let c: usize = scan_closing(css, pos + 1, CLOSE_PARENTHESES);
        if c < n {
            Ok((TokenKind::Brackets, c + 1))
        } else if ignore {
            Ok((TokenKind::Brackets, n))
        } else {
            Err(ErrorKind::UnterminatedBrackets)
        }
    } else {
        let c: usize = scan_byte(css, pos + 1, CLOSE_PARENTHESES);
        if c < n && !scan_bad_bracket(css, pos, c) {
            Ok((TokenKind::Brackets, c + 1))
        } else {
            Ok((TokenKind::OpenParentheses, pos + 1))
        }
    }
}

/// Lexes the token that starts at `pos`: gives its kind and the offset
/// after its last byte, or the failure that stops the lexer there.
pub fn lex(css: &[u8], pos: usize, after_url: bool, ignore: bool) -> (r: Result<
    (TokenKind, usize),
    ErrorKind,
>)
    requires
        pos < css.len(),
    ensures
        r matches Ok((kind, end)) ==> lex_at(css@, pos as int, after_url, ignore) == Ok::<
            (TokenKind, int),
            ErrorKind,
        >((kind, end as int)) && pos < end <= css.len(),
        r matches Err(kind) ==> lex_at(css@, pos as int, after_url, ignore) == Err::<
            (TokenKind, int),
            ErrorKind,
        >(kind),
{
    let n: usize = css.len();
    let b: u8 = css[pos];
    proof {
        lemma_lex_progress(css@, pos as int, after_url, ignore);
    }
    if is_space_byte(b) {
        Ok((TokenKind::Space, scan_spaces(css, pos + 1)))
    } else if b == OPEN_SQUARE {
        Ok((TokenKind::OpenSquare, pos + 1))
    } else if b == CLOSE_SQUARE {
        Ok((TokenKind::CloseSquare, pos + 1))
    } else if b == OPEN_CURLY {
        Ok((TokenKind::OpenCurly, pos + 1))
    } else if b == CLOSE_CURLY {
        Ok((TokenKind::CloseCurly, pos + 1))
    } else if b == COLON {
        Ok((TokenKind::Colon, pos + 1))
    } else if b == SEMICOLON {
        Ok((TokenKind::Semicolon, pos + 1))
    } else if b == CLOSE_PARENTHESES {
        Ok((TokenKind::CloseParentheses, pos + 1))
    } else if b == OPEN_PARENTHESES {
        lex_parentheses(css, pos, after_url, ignore)
    } else if b == SINGLE_QUOTE || b == DOUBLE_QUOTE {
        let c: usize = scan_closing(css, pos + 1, b);
        if c < n {
            Ok((TokenKind::Str, c + 1))
        } else if ignore {
            Ok((TokenKind::Str, n))
        } else {
            Err(ErrorKind::UnterminatedString)
        }
    } else if b == AT {
        Ok((TokenKind::AtWord, scan_word(css, pos + 1)))
    } else if b == SLASH && pos + 1 < n && css[pos + 1] == ASTERISK {
        let c: usize = scan_comment(css, pos + 2);
        if c < n {
            Ok((TokenKind::Comment, c + 2))
        } else if ignore {
            Ok((TokenKind::Comment, n))
        } else {
            Err(ErrorKind::UnterminatedComment)
        }
    } else if b == BACKSLASH {
        Ok((TokenKind::Word, scan_escape(css, pos)))
    } else {
        Ok((TokenKind::Word, scan_word(css, pos + 1)))
    }
}

/// Scans a text and hands out its tokens one by one.
#[derive(Debug)]
pub struct Tokenizer<'a> {
    input: &'a Input<'a>,
    ignore: bool,
    pos: usize,
    returned: Vec<Token<'a>>,
    buffer: Vec<Token<'a>>,
}

impl<'a> View for Tokenizer<'a> {
    type V = TokenizerView;

    closed spec fn view(&self) -> TokenizerView {
        TokenizerView {
            css: self.input.css.spec_bytes(),
            ignore: self.ignore,
            cursor: self.pos as int,
            returned: views(self.returned@),
            words: views(self.buffer@),
        }
    }
}

impl<'a> Tokenizer<'a> {
    /// The cursor stands where a character starts. Every tokenizer that
    /// this module hands out is well-formed, and every method keeps it so.
    pub closed spec fn wf(&self) -> bool {
        is_boundary(self.input.css.spec_bytes(), self.pos as int)
    }

    /// The input whose text is lexed.
    pub closed spec fn input(&self) -> &'a Input<'a> {
        self.input
    }

    /// The state of a tokenizer that has not started on `input` yet.
    pub open spec fn fresh(input: &Input, ignore: bool) -> TokenizerView {
        TokenizerView {
            css: input.css.spec_bytes(),
            ignore,
            cursor: 0,
            returned: Seq::empty(),
            words: Seq::empty(),
        }
    }

    /// A tokenizer at the start of the text of `input`. It fails on an
    /// unterminated construct.
    pub fn new(input: &'a Input<'a>) -> (t: Tokenizer<'a>)
        ensures
            t.wf(),
            t@ == Self::fresh(input, false),
            t.input() == input,
    {
        Self::with_ignore(input, false)
    }

    /// A tokenizer at the start of the text of `input`. With `ignore` set, a
    /// string, comment or URL literal that is not terminated ends with the
    /// text instead of failing.
    pub fn with_ignore(input: &'a Input<'a>, ignore: bool) -> (t: Tokenizer<'a>)
        ensures
            t.wf(),
            t@ == Self::fresh(input, ignore),
            t.input() == input,
    {
        proof {
            lemma_str_valid(input.css);
            lemma_boundary_ends(input.css.spec_bytes());
        }
        let t = Tokenizer { input, ignore, pos: 0, returned: Vec::new(), buffer: Vec::new() };
        assert(t@.returned =~= Seq::empty());
        assert(t@.words =~= Seq::empty());
        t
    }

    /// The offset of the first byte that the scan has not covered yet.
    pub fn position(&self) -> (p: usize)
        ensures
            p == self@.cursor,
    {
        self.pos
    }

    /// Builds the error that reports `kind` at the cursor.
    pub fn unclosed(&self, kind: ErrorKind) -> (e: ParseError<'a>)
        requires
            self.wf(),
            self@.cursor < usize::MAX,
        ensures
            reports(e, self.input(), kind, position_at(self@.css, self@.cursor)),
    {
        let position = Position::locate(self.input.css.as_bytes(), self.pos);
        error_at(self.input, kind, position)
    }

    /// Tells whether no token is left: nothing was pushed back and the scan
    /// has reached the end of the text.
    pub fn end_of_file(&self) -> (b: bool)
        ensures
            b == (self@.returned.len() == 0 && self@.cursor >= self@.css.len()),
    {
        assert(self@.returned.len() == self.returned@.len());
        self.returned.len() == 0 && self.pos >= self.input.css.as_bytes().len()
    }

    /// Tells whether the word on top of the word buffer is `url`.
    fn after_url(&self) -> (b: bool)
        ensures
            b == after_url(self@.words),
    {
        let n: usize = self.buffer.len();
        if n == 0 {
            return false;
        }
        let text = self.buffer[n - 1].text.as_bytes();
        assert(self@.words.last() == self.buffer@[n - 1]@);
        let b: bool = text.len() == 3 && text[0] == 0x75 && text[1] == 0x72 && text[2] == 0x6C;
        assert(b == (text@ =~= url_bytes()));
        b
    }

    /// Hands out the next token.
    ///
    /// The state changes and the answer is given as [`spec_next`] says: a
    /// token that was pushed back comes first, unchanged; else the token at
    /// the cursor, past which the cursor moves; `None` at the end of the
    /// text. An unterminated string, comment or URL literal is reported at
    /// the offset where it starts, and leaves the tokenizer as it was.
    pub fn next_token(&mut self) -> (r: Result<Option<Token<'a>>, ParseError<'a>>)
        requires
            old(self).wf(),
        ensures
            final(self).wf(),
            final(self)@ == spec_next(old(self)@).0,
            final(self).input() == old(self).input(),
            match spec_next(old(self)@).1 {
                Ok(Some(t)) => r matches Ok(Some(token)) && token@ == t,
                Ok(None) => r matches Ok(None),
                Err(kind) => r matches Err(e) && reports(
                    e,
                    old(self).input(),
                    kind,
                    position_at(old(self)@.css, old(self)@.cursor),
                ),
            },
    {
        if self.returned.len() > 0 {
            let ghost before = self.returned@;
            let token = self.returned.pop();
            assert(views(self.returned@) =~= views(before).drop_last());
            assert(views(before).last() == before.last()@);
            return Ok(token);
        }
        assert(views(self.returned@) =~= Seq::empty());
        let css: &'a str = self.input.css;
        let bytes = css.as_bytes();
        if self.pos >= bytes.len() {
            return Ok(None);
        }
        let after: bool = self.after_url();
        match lex(bytes, self.pos, after, self.ignore) {
            Err(kind) => Err(self.unclosed(kind)),
            Ok((kind, end)) => {
                proof {
                    lemma_str_valid(css);
                    lemma_lex_boundary(bytes@, self.pos as int, after, self.ignore);
                }
                let text = slice(css, self.pos, end);
                let token = Token { kind, text, start_offset: self.pos, end_offset: end - 1 };
                let b: u8 = bytes[self.pos];
                let ghost words = self.buffer@;
                if kind == TokenKind::Word && b != BACKSLASH {
                    self.buffer.push(token);
                    assert(views(self.buffer@) =~= views(words).push(token@));
                } else if b == OPEN_PARENTHESES && self.buffer.len() > 0 {
                    self.buffer.pop();
                    assert(views(self.buffer@) =~= views(words).drop_last());
                }
                self.pos = end;
                Ok(Some(token))
            },
        }
    }

    /// Pushes a token back: the next call of `next_token` hands it out
    /// again, unchanged, before the scan goes on.
    pub fn back(&mut self, token: Token<'a>)
        requires
            old(self).wf(),
        ensures
            final(self).wf(),
            final(self)@ == spec_back(old(self)@, token@),
            final(self).input() == old(self).input(),
    {
        let ghost before = self.returned@;
        self.returned.push(token);
        assert(views(self.returned@) =~= views(before).push(token@));
    }
}

/// Lexes the whole text of `input`.
///
/// Gives the tokens of the text in order, or the first failure, reported at
/// the offset where the unterminated construct starts. The tokens lie end to
/// end over the whole text, and their texts, put together, are the text.
pub fn tokenize<'a>(input: &'a Input<'a>) -> (r: Result<Vec<Token<'a>>, ParseError<'a>>)
    ensures
        r matches Ok(v) ==> tiles(
            input.css.spec_bytes(),
            views(v@),
            0,
            input.css.spec_bytes().len() as int,
        ) && concat_texts(views(v@)) == input.css.spec_bytes(),
        match tokens_of(input.css.spec_bytes(), false) {
            Ok(tokens) => r matches Ok(v) && views(v@) == tokens,
            Err((kind, at)) => r matches Err(e) && reports(
                e,
                input,
                kind,
                position_at(input.css.spec_bytes(), at),
            ),
        },
{
    let mut tokenizer = Tokenizer::new(input);
    let mut out: Vec<Token<'a>> = Vec::new();
    let ghost css = input.css.spec_bytes();
    assert(views(out@) =~= Seq::empty());
    loop
        invariant
            tokenizer.wf(),
            tokenizer.input() == input,
            css == input.css.spec_bytes(),
            tokenizer@.css == css,
            tokenizer@.ignore == false,
            tokenizer@.returned.len() == 0,
            tokens_of(css, false) == (match scan_from(
                css,
                tokenizer@.cursor,
                tokenizer@.words,
                false,
            ) {
                Ok(rest) => Ok::<Seq<TokenView>, (ErrorKind, int)>(views(out@) + rest),
                Err(e) => Err(e),
            }),
            0 <= tokenizer@.cursor <= css.len(),
        decreases css.len() - tokenizer@.cursor,
    {
        let ghost before = tokenizer@;
        let ghost seen = views(out@);
        proof {
            if before.cursor < css.len() {
                lemma_lex_progress(css, before.cursor, after_url(before.words), false);
            }
        }
        match tokenizer.next_token() {
            Err(e) => {
                return Err(e);
            },
            Ok(None) => {
                proof {
                    assert(views(out@) + Seq::<TokenView>::empty() =~= views(out@));
                    lemma_relex(css, false);
                    lemma_scan_tiles(css, 0, Seq::empty(), false);
                }
                return Ok(out);
            },
            Ok(Some(token)) => {
                out.push(token);
                proof {
                    let rest = scan_from(css, tokenizer@.cursor, tokenizer@.words, false);
                    assert(views(out@) =~= seen.push(token@));
                    if let Ok(more) = rest {
                        assert(seen + (seq![token@] + more) =~= seen.push(token@) + more);
                    }
                }
            },
        }
    }
}

} // verus!
