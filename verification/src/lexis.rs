//! The lexical rules, stated on bytes.
//!
//! [`lex_at`] says, for every position of every text, which token starts
//! there and where it ends. [`scan_from`] chains these steps into the token
//! sequence of a whole text. The tokenizer is proved against both.

use crate::bytes::{
    byte_index, closes, closing_index, comment_closes, comment_end,
    bad_bracket_at, escape_end, has_bad_bracket, hex_end, is_bad_bracket_byte, is_hex, is_space,
    lemma_byte_index_bounds, lemma_closing_index_bounds, lemma_comment_end_bounds,
    lemma_continuation_end_bounds, lemma_escape_end_bounds, lemma_hex_end_bounds,
    lemma_spaces_end_bounds, lemma_word_end_bounds, spaces_end, word_end, ASTERISK, AT, BACKSLASH,
    NEWLINE, CLOSE_CURLY, CLOSE_PARENTHESES, CLOSE_SQUARE, COLON, DOUBLE_QUOTE, OPEN_CURLY,
    OPEN_PARENTHESES, OPEN_SQUARE, SEMICOLON, SINGLE_QUOTE, SLASH,
};
use crate::error::ErrorKind;
use crate::text::{is_boundary, lemma_boundary_after_ascii, lemma_boundary_at, lemma_boundary_ends};
use vstd::prelude::*;
use vstd::utf8::valid_utf8;

verus! {

/// The kinds of token.
#[derive(Clone, Copy, Debug, PartialEq, Eq, Structural)]
pub enum TokenKind {
    /// A run of whitespace.
    Space,
    /// A run of bytes that ends before a word-end byte, or an escape
    /// sequence.
    Word,
    /// A quoted string, both quotes included.
    Str,
    /// A parenthesised span, both parentheses included.
    Brackets,
    /// A comment, `/*` and `*/` included.
    Comment,
    /// `{`
    OpenCurly,
    /// `}`
    CloseCurly,
    /// `[`
    OpenSquare,
    /// `]`
    CloseSquare,
    /// `(`
    OpenParentheses,
    /// `)`
    CloseParentheses,
    /// `:`
    Colon,
    /// `;`
    Semicolon,
    /// `@` and the name after it.
    AtWord,
}

/// A token as the contracts see it.
///
/// `start` is the offset of its first byte and `end` the offset of its last
/// byte; `text` is what the source holds from the one to the other.
pub struct TokenView {
    pub kind: TokenKind,
    pub text: Seq<u8>,
    pub start: int,
    pub end: int,
}

/// The byte is one of the seven that are tokens by themselves.
pub open spec fn is_solitary(b: u8) -> bool {
    b == OPEN_SQUARE || b == CLOSE_SQUARE || b == OPEN_CURLY || b == CLOSE_CURLY || b == COLON
        || b == SEMICOLON || b == CLOSE_PARENTHESES
}

/// The kind of the token that a solitary byte is.
pub open spec fn solitary_kind(b: u8) -> TokenKind {
    if b == OPEN_SQUARE {
        TokenKind::OpenSquare
    } else if b == CLOSE_SQUARE {
        TokenKind::CloseSquare
    } else if b == OPEN_CURLY {
        TokenKind::OpenCurly
    } else if b == CLOSE_CURLY {
        TokenKind::CloseCurly
    } else if b == COLON {
        TokenKind::Colon
    } else if b == SEMICOLON {
        TokenKind::Semicolon
    } else {
        TokenKind::CloseParentheses
    }
}

/// The text `url`.
pub open spec fn url_bytes() -> Seq<u8> {
    seq![0x75u8, 0x72u8, 0x6Cu8]
}

/// The byte after the `(` at `pos` keeps a `url(` from being read as a URL
/// literal: it is a quote or whitespace.
pub open spec fn url_is_quoted(css: Seq<u8>, pos: int) -> bool {
    pos + 1 < css.len() && (css[pos + 1] == SINGLE_QUOTE || css[pos + 1] == DOUBLE_QUOTE
        || is_space(css[pos + 1]))
}

/// The token that starts with the `(` at `pos`.
///
/// After the word `url`, and unless a quote or whitespace follows, the token
/// is a URL literal: it runs to the first unescaped `)`, and without one the
/// text is unterminated. Otherwise the token runs to the first `)` if there
/// is one and nothing between is bad; if not, the `(` is a token by itself.
pub open spec fn lex_parentheses(css: Seq<u8>, pos: int, after_url: bool, ignore: bool) -> Result<
    (TokenKind, int),
    ErrorKind,
> {
    let n = css.len() as int;
    if after_url && !url_is_quoted(css, pos) {
        let c = closing_index(css, pos + 1, CLOSE_PARENTHESES);
        if c < n {
            Ok((TokenKind::Brackets, c + 1))
        } else if ignore {
            Ok((TokenKind::Brackets, n))
        } else {
            Err(ErrorKind::UnterminatedBrackets)
        }
    } else {
        let c = byte_index(css, pos + 1, CLOSE_PARENTHESES);
        if c < n && !has_bad_bracket(css, pos, c) {
            Ok((TokenKind::Brackets, c + 1))
        } else {
            Ok((TokenKind::OpenParentheses, pos + 1))
        }
    }
}

/// The token that starts with the quote at `pos`: it runs to the first
/// unescaped quote of the same sort.
pub open spec fn lex_string(css: Seq<u8>, pos: int, ignore: bool) -> Result<
    (TokenKind, int),
    ErrorKind,
> {
    let n = css.len() as int;
    let c = closing_index(css, pos + 1, css[pos]);
    if c < n {
        Ok((TokenKind::Str, c + 1))
    } else if ignore {
        Ok((TokenKind::Str, n))
    } else {
        Err(ErrorKind::UnterminatedString)
    }
}

/// The token that starts with the `/*` at `pos`: it runs to the first `*/`
/// after the opening.
pub open spec fn lex_comment(css: Seq<u8>, pos: int, ignore: bool) -> Result<
    (TokenKind, int),
    ErrorKind,
> {
    let n = css.len() as int;
    let c = comment_end(css, pos + 2);
    if c < n {
        Ok((TokenKind::Comment, c + 2))
    } else if ignore {
        Ok((TokenKind::Comment, n))
    } else {
        Err(ErrorKind::UnterminatedComment)
    }
}

/// A comment opens at `pos`.
pub open spec fn comment_opens(css: Seq<u8>, pos: int) -> bool {
    css[pos] == SLASH && pos + 1 < css.len() && css[pos + 1] == ASTERISK
}

/// The byte at `pos` starts a plain word: none of the other rules takes it.
pub open spec fn starts_plain_word(css: Seq<u8>, pos: int) -> bool {
    let b = css[pos];
    !is_space(b) && !is_solitary(b) && b != OPEN_PARENTHESES && b != SINGLE_QUOTE && b
        != DOUBLE_QUOTE && b != AT && !comment_opens(css, pos) && b != BACKSLASH
}

/// The token that starts at `pos`: its kind and the offset after its last
/// byte, or the failure that stops the lexer there.
///
/// `after_url` says that the word on top of the word buffer is `url`;
/// `ignore` says that an unterminated construct runs to the end of the text
/// instead of failing.
pub open spec fn lex_at(css: Seq<u8>, pos: int, after_url: bool, ignore: bool) -> Result<
    (TokenKind, int),
    ErrorKind,
> {
    let b = css[pos];
    if is_space(b) {
        Ok((TokenKind::Space, spaces_end(css, pos + 1)))
    } else if is_solitary(b) {
        Ok((solitary_kind(b), pos + 1))
    } else if b == OPEN_PARENTHESES {
        lex_parentheses(css, pos, after_url, ignore)
    } else if b == SINGLE_QUOTE || b == DOUBLE_QUOTE {
        lex_string(css, pos, ignore)
    } else if b == AT {
        Ok((TokenKind::AtWord, word_end(css, pos + 1)))
    } else if comment_opens(css, pos) {
        lex_comment(css, pos, ignore)
    } else if b == BACKSLASH {
        Ok((TokenKind::Word, escape_end(css, pos)))
    } else {
        Ok((TokenKind::Word, word_end(css, pos + 1)))
    }
}

/// The token of kind `kind` that covers `css` from `start` up to `end`.
pub open spec fn token_at(css: Seq<u8>, kind: TokenKind, start: int, end: int) -> TokenView {
    TokenView { kind, text: css.subrange(start, end), start, end: end - 1 }
}

/// The word on top of the word buffer is `url`.
pub open spec fn after_url(words: Seq<TokenView>) -> bool {
    words.len() > 0 && words.last().text == url_bytes()
}

/// The word buffer after the token `t` was lexed at `pos`: a plain word goes
/// on top, and a `(` takes the top off.
pub open spec fn words_after(css: Seq<u8>, words: Seq<TokenView>, pos: int, t: TokenView) -> Seq<
    TokenView,
> {
    if starts_plain_word(css, pos) {
        words.push(t)
    } else if css[pos] == OPEN_PARENTHESES && words.len() > 0 {
        words.drop_last()
    } else {
        words
    }
}

/// Every token holds at least one byte and ends inside the text.
pub proof fn lemma_lex_progress(css: Seq<u8>, pos: int, after_url: bool, ignore: bool)
    requires
        0 <= pos < css.len(),
    ensures
        lex_at(css, pos, after_url, ignore) matches Ok((_, end)) ==> pos < end <= css.len(),
{
    let b = css[pos];
    lemma_spaces_end_bounds(css, pos + 1);
    lemma_word_end_bounds(css, pos + 1);
    lemma_closing_index_bounds(css, pos + 1, CLOSE_PARENTHESES);
    lemma_closing_index_bounds(css, pos + 1, b);
    lemma_byte_index_bounds(css, pos + 1, CLOSE_PARENTHESES);
    lemma_escape_end_bounds(css, pos);
    if comment_opens(css, pos) {
        lemma_comment_end_bounds(css, pos + 2);
    }
}

/// A token ends where a character ends, so that its text can be cut out of
/// the source.
pub(crate) proof fn lemma_lex_boundary(css: Seq<u8>, pos: int, after_url: bool, ignore: bool)
    requires
        valid_utf8(css),
        0 <= pos < css.len(),
    ensures
        lex_at(css, pos, after_url, ignore) matches Ok((_, end)) ==> is_boundary(css, end),
{
    let b = css[pos];
    let n = css.len() as int;
    lemma_lex_progress(css, pos, after_url, ignore);
    lemma_boundary_ends(css);
    if let Ok((_, end)) = lex_at(css, pos, after_url, ignore) {
        if end == n {
        } else if is_space(b) {
            lemma_spaces_end_bounds(css, pos + 1);
            assert(is_space(css[end - 1]));
            lemma_boundary_after_ascii(css, end);
        } else if is_solitary(b) {
            lemma_boundary_after_ascii(css, end);
        } else if b == OPEN_PARENTHESES {
            lemma_closing_index_bounds(css, pos + 1, CLOSE_PARENTHESES);
            lemma_byte_index_bounds(css, pos + 1, CLOSE_PARENTHESES);
            lemma_boundary_after_ascii(css, end);
        } else if b == SINGLE_QUOTE || b == DOUBLE_QUOTE {
            lemma_closing_index_bounds(css, pos + 1, b);
            lemma_boundary_after_ascii(css, end);
        } else if b == AT {
            lemma_word_end_bounds(css, pos + 1);
            lemma_boundary_at(css, end);
        } else if comment_opens(css, pos) {
            lemma_comment_end_bounds(css, pos + 2);
            lemma_boundary_after_ascii(css, end);
        } else if b == BACKSLASH {
            if is_hex(css[pos + 1]) {
                lemma_hex_end_bounds(css, pos + 1, pos + 7);
                lemma_hex_end_bounds(css, pos + 2, pos + 7);
                let h = hex_end(css, pos + 1, pos + 7);
                assert(h >= pos + 2);
                assert(is_hex(css[h - 1]));
                lemma_boundary_after_ascii(css, end);
            } else {
                lemma_continuation_end_bounds(css, pos + 2);
                lemma_boundary_at(css, end);
            }
        } else {
            lemma_word_end_bounds(css, pos + 1);
            lemma_boundary_at(css, end);
        }
    }
}

/// The tokens of `css` from `cursor` on, for a lexer whose word buffer is
/// `words`; or the first failure and the offset at which it occurs.
pub open spec fn scan_from(
    css: Seq<u8>,
    cursor: int,
    words: Seq<TokenView>,
    ignore: bool,
) -> Result<Seq<TokenView>, (ErrorKind, int)>
    decreases css.len() - cursor,
    via scan_from_decreases
{
    if cursor < 0 || cursor >= css.len() {
        Ok(Seq::empty())
    } else {
        match lex_at(css, cursor, after_url(words), ignore) {
            Err(kind) => Err((kind, cursor)),
            Ok((kind, end)) => {
                let t = token_at(css, kind, cursor, end);
                match scan_from(css, end, words_after(css, words, cursor, t), ignore) {
                    Ok(rest) => Ok(seq![t] + rest),
                    Err(e) => Err(e),
                }
            },
        }
    }
}

#[via_fn]
proof fn scan_from_decreases(css: Seq<u8>, cursor: int, words: Seq<TokenView>, ignore: bool) {
    if 0 <= cursor < css.len() {
        lemma_lex_progress(css, cursor, after_url(words), ignore);
    }
}

/// The tokens of a whole text, lexed from its start with an empty word
/// buffer.
pub open spec fn tokens_of(css: Seq<u8>, ignore: bool) -> Result<Seq<TokenView>, (ErrorKind, int)> {
    scan_from(css, 0, Seq::empty(), ignore)
}

/// The texts of `tokens`, one after the other.
pub open spec fn concat_texts(tokens: Seq<TokenView>) -> Seq<u8>
    decreases tokens.len(),
{
    if tokens.len() == 0 {
        Seq::empty()
    } else {
        tokens[0].text + concat_texts(tokens.drop_first())
    }
}

/// The tokens lie end to end from `from` to `to`: each holds at least one
/// byte, starts where the one before it ended, and has the text that `css`
/// holds between its offsets.
pub open spec fn tiles(css: Seq<u8>, tokens: Seq<TokenView>, from: int, to: int) -> bool
    decreases tokens.len(),
{
    if tokens.len() == 0 {
        from == to
    } else {
        let t = tokens[0];
        &&& t.start == from
        &&& from <= t.end < to
        &&& t.text == css.subrange(t.start, t.end + 1)
        &&& tiles(css, tokens.drop_first(), t.end + 1, to)
    }
}

/// Behind a byte that is no newline, a bad byte is found wherever any of
/// the bad bytes stands: the first of them does not follow a newline, a
/// newline being a bad byte itself.
proof fn lemma_first_bad_byte(css: Seq<u8>, lo: int, k: int)
    requires
        0 <= lo < k < css.len(),
        css[lo] != NEWLINE,
        is_bad_bracket_byte(css[k]),
    ensures
        exists|j: int| lo < j <= k && #[trigger] bad_bracket_at(css, j),
    decreases k - lo,
{
    if css[k - 1] != NEWLINE {
        assert(bad_bracket_at(css, k));
    } else {
        lemma_first_bad_byte(css, lo, k - 1);
    }
}

/// After a `(`, a span is unfit to be one token exactly when it holds a
/// newline, a quote, a `(`, a `/` or a backslash.
pub proof fn lemma_bad_bracket_any(css: Seq<u8>, pos: int, close: int)
    requires
        0 <= pos < css.len(),
        css[pos] == OPEN_PARENTHESES,
        close <= css.len(),
    ensures
        has_bad_bracket(css, pos, close) <==> exists|j: int|
            pos < j < close && is_bad_bracket_byte(#[trigger] css[j]),
{
    if exists|j: int| pos < j < close && is_bad_bracket_byte(#[trigger] css[j]) {
        let k = choose|j: int| pos < j < close && is_bad_bracket_byte(#[trigger] css[j]);
        lemma_first_bad_byte(css, pos, k);
    }
    if has_bad_bracket(css, pos, close) {
        let j = choose|j: int| pos < j < close && #[trigger] bad_bracket_at(css, j);
        assert(is_bad_bracket_byte(css[j]));
    }
}

/// The token is delimited as its kind demands: a string starts with a quote
/// and ends with the same quote, unescaped; a parenthesised span starts with
/// `(` and ends with `)`; a comment starts with `/*` and ends with `*/`.
pub open spec fn well_delimited(css: Seq<u8>, t: TokenView) -> bool {
    &&& t.kind == TokenKind::Str ==> {
        &&& t.start < t.end
        &&& css[t.start] == SINGLE_QUOTE || css[t.start] == DOUBLE_QUOTE
        &&& closes(css, t.end, css[t.start])
        &&& forall|k: int| t.start < k < t.end ==> !#[trigger] closes(css, k, css[t.start])
    }
    &&& t.kind == TokenKind::Brackets ==> {
        &&& t.start < t.end
        &&& css[t.start] == OPEN_PARENTHESES
        &&& css[t.end] == CLOSE_PARENTHESES
    }
    &&& t.kind == TokenKind::Comment ==> {
        &&& t.start + 3 <= t.end
        &&& comment_opens(css, t.start)
        &&& comment_closes(css, t.end - 1)
        &&& forall|k: int| t.start + 2 <= k < t.end - 1 ==> !#[trigger] comment_closes(css, k)
    }
}

/// A string ends at the first quote of its own sort that an even number of
/// backslashes precedes: it does not close at an escaped quote, and it does
/// close at a quote that follows an escaped backslash.
pub proof fn lemma_string_closes_unescaped(css: Seq<u8>, pos: int, after_url: bool, ignore: bool)
    requires
        0 <= pos < css.len(),
        css[pos] == SINGLE_QUOTE || css[pos] == DOUBLE_QUOTE,
    ensures
        lex_at(css, pos, after_url, ignore) matches Ok((kind, end)) ==> {
            &&& kind == TokenKind::Str
            &&& pos < end <= css.len()
            &&& forall|k: int| pos < k < end - 1 ==> !#[trigger] closes(css, k, css[pos])
            &&& !ignore ==> pos + 1 < end && closes(css, end - 1, css[pos])
        },
        lex_at(css, pos, after_url, ignore) is Err <==> !ignore && forall|k: int|
            pos < k < css.len() ==> !#[trigger] closes(css, k, css[pos]),
{
    lemma_closing_index_bounds(css, pos + 1, css[pos]);
}

/// Without the option to ignore what is unterminated, every token that the
/// lexer finds is delimited as its kind demands.
pub proof fn lemma_lex_well_delimited(css: Seq<u8>, pos: int, after_url: bool)
    requires
        0 <= pos < css.len(),
    ensures
        lex_at(css, pos, after_url, false) matches Ok((kind, end)) ==> well_delimited(
            css,
            token_at(css, kind, pos, end),
        ),
{
    let b = css[pos];
    lemma_lex_progress(css, pos, after_url, false);
    lemma_closing_index_bounds(css, pos + 1, CLOSE_PARENTHESES);
    lemma_closing_index_bounds(css, pos + 1, b);
    lemma_byte_index_bounds(css, pos + 1, CLOSE_PARENTHESES);
    if comment_opens(css, pos) {
        lemma_comment_end_bounds(css, pos + 2);
    }
}

/// The tokens that a scan finds lie end to end from the cursor to the end of
/// the text, and, where nothing unterminated is ignored, each is delimited as
/// its kind demands.
pub proof fn lemma_scan_tiles(css: Seq<u8>, cursor: int, words: Seq<TokenView>, ignore: bool)
    requires
        0 <= cursor <= css.len(),
    ensures
        scan_from(css, cursor, words, ignore) matches Ok(tokens) ==> {
            &&& tiles(css, tokens, cursor, css.len() as int)
            &&& !ignore ==> forall|i: int|
                0 <= i < tokens.len() ==> well_delimited(css, #[trigger] tokens[i])
        },
    decreases css.len() - cursor,
{
    if cursor < css.len() {
        lemma_lex_progress(css, cursor, after_url(words), ignore);
        if let Ok((kind, end)) = lex_at(css, cursor, after_url(words), ignore) {
            let t = token_at(css, kind, cursor, end);
            let next = words_after(css, words, cursor, t);
            lemma_scan_tiles(css, end, next, ignore);
            if let Ok(rest) = scan_from(css, end, next, ignore) {
                let tokens = seq![t] + rest;
                assert(tokens[0] == t);
                assert(tokens.drop_first() =~= rest);
                if !ignore {
                    lemma_lex_well_delimited(css, cursor, after_url(words));
                    assert forall|i: int| 0 <= i < tokens.len() implies well_delimited(
                        css,
                        #[trigger] tokens[i],
                    ) by {
                        if i > 0 {
                            assert(tokens[i] == rest[i - 1]);
                        }
                    }
                }
            }
        }
    }
}

/// Tokens that lie end to end spell out the text they lie on.
pub proof fn lemma_tiles_concat(css: Seq<u8>, tokens: Seq<TokenView>, from: int, to: int)
    requires
        0 <= from,
        to <= css.len(),
        tiles(css, tokens, from, to),
    ensures
        from <= to,
        concat_texts(tokens) == css.subrange(from, to),
    decreases tokens.len(),
{
    if tokens.len() == 0 {
        assert(css.subrange(from, to) =~= Seq::<u8>::empty());
    } else {
        let t = tokens[0];
        lemma_tiles_concat(css, tokens.drop_first(), t.end + 1, to);
        assert(css.subrange(from, t.end + 1) + css.subrange(t.end + 1, to) =~= css.subrange(
            from,
            to,
        ));
    }
}

/// Of tokens that lie end to end, an earlier one ends before a later one
/// starts: no two overlap, and the start offsets strictly increase.
pub proof fn lemma_tiles_ordered(
    css: Seq<u8>,
    tokens: Seq<TokenView>,
    from: int,
    to: int,
    i: int,
    j: int,
)
    requires
        tiles(css, tokens, from, to),
        0 <= i < j < tokens.len(),
    ensures
        from <= tokens[i].start <= tokens[i].end < tokens[j].start <= tokens[j].end < to,
    decreases tokens.len(),
{
    let rest = tokens.drop_first();
    let t = tokens[0];
    assert(rest[j - 1] == tokens[j]);
    if i == 0 {
        lemma_tiles_first_in(css, rest, t.end + 1, to, j - 1);
    } else {
        assert(rest[i - 1] == tokens[i]);
        lemma_tiles_ordered(css, rest, t.end + 1, to, i - 1, j - 1);
    }
}

/// Every one of the tokens that lie end to end lies between the two ends.
proof fn lemma_tiles_first_in(css: Seq<u8>, tokens: Seq<TokenView>, from: int, to: int, j: int)
    requires
        tiles(css, tokens, from, to),
        0 <= j < tokens.len(),
    ensures
        from <= tokens[j].start <= tokens[j].end < to,
    decreases tokens.len(),
{
    if j > 0 {
        let rest = tokens.drop_first();
        assert(rest[j - 1] == tokens[j]);
        lemma_tiles_first_in(css, rest, tokens[0].end + 1, to, j - 1);
    }
}

/// The texts of the tokens of a text, put together in order, are the text
/// again; so lexing what they spell gives the same tokens.
pub proof fn lemma_relex(css: Seq<u8>, ignore: bool)
    ensures
        tokens_of(css, ignore) matches Ok(tokens) ==> {
            &&& concat_texts(tokens) == css
            &&& tokens_of(concat_texts(tokens), ignore) == tokens_of(css, ignore)
        },
{
    if let Ok(tokens) = tokens_of(css, ignore) {
        lemma_scan_tiles(css, 0, Seq::empty(), ignore);
        lemma_tiles_concat(css, tokens, 0, css.len() as int);
        assert(css.subrange(0, css.len() as int) =~= css);
    }
}

/// The tokens of a text do not overlap and come in the order of their
/// offsets; strings, parenthesised spans and comments among them have both
/// their delimiters.
pub proof fn lemma_tokens_balanced(css: Seq<u8>, i: int, j: int)
    ensures
        tokens_of(css, false) matches Ok(tokens) ==> {
            &&& 0 <= i < j < tokens.len() ==> 0 <= tokens[i].start <= tokens[i].end
                < tokens[j].start <= tokens[j].end < css.len()
            &&& 0 <= i < tokens.len() ==> well_delimited(css, tokens[i])
        },
{
    if let Ok(tokens) = tokens_of(css, false) {
        lemma_scan_tiles(css, 0, Seq::empty(), false);
        if 0 <= i < j < tokens.len() {
            lemma_tiles_ordered(css, tokens, 0, css.len() as int, i, j);
        }
    }
}

} // verus!
