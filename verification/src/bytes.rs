//! Byte classes of CSS source text and the scans the lexer is made of.
//!
//! Every scan is stated twice: as a recursive `spec` function that says where
//! the scan stops, and as a loop that is proved to stop there.

use vstd::prelude::*;

verus! {

pub const TAB: u8 = 0x09;

pub const NEWLINE: u8 = 0x0A;

pub const FEED: u8 = 0x0C;

pub const CR: u8 = 0x0D;

pub const SPACE: u8 = 0x20;

pub const BANG: u8 = 0x21;

pub const DOUBLE_QUOTE: u8 = 0x22;

pub const HASH: u8 = 0x23;

pub const SINGLE_QUOTE: u8 = 0x27;

pub const OPEN_PARENTHESES: u8 = 0x28;

pub const CLOSE_PARENTHESES: u8 = 0x29;

pub const ASTERISK: u8 = 0x2A;

pub const HYPHEN: u8 = 0x2D;

pub const SLASH: u8 = 0x2F;

pub const COLON: u8 = 0x3A;

pub const SEMICOLON: u8 = 0x3B;

pub const AT: u8 = 0x40;

pub const OPEN_SQUARE: u8 = 0x5B;

pub const BACKSLASH: u8 = 0x5C;

pub const CLOSE_SQUARE: u8 = 0x5D;

pub const OPEN_CURLY: u8 = 0x7B;

pub const CLOSE_CURLY: u8 = 0x7D;

/// The five whitespace bytes: space, tab, newline, form feed, carriage return.
pub open spec fn is_space(b: u8) -> bool {
    b == SPACE || b == NEWLINE || b == TAB || b == CR || b == FEED
}

/// An ASCII hexadecimal digit.
pub open spec fn is_hex(b: u8) -> bool {
    (0x30 <= b <= 0x39) || (0x41 <= b <= 0x46) || (0x61 <= b <= 0x66)
}

/// A byte that continues a multi-byte character.
pub open spec fn is_continuation(b: u8) -> bool {
    0x80 <= b <= 0xBF
}

/// The bytes that end a word wherever they stand.
pub open spec fn is_word_stop(b: u8) -> bool {
    is_space(b) || b == BANG || b == DOUBLE_QUOTE || b == HASH || b == SINGLE_QUOTE
        || b == OPEN_PARENTHESES || b == CLOSE_PARENTHESES || b == COLON || b == SEMICOLON
        || b == AT || b == OPEN_SQUARE || b == BACKSLASH || b == OPEN_CURLY || b == CLOSE_CURLY
}

/// A word ends before index `i`: the byte there is a stop byte, or it is a
/// `/` that opens a comment.
pub open spec fn is_word_end(css: Seq<u8>, i: int) -> bool {
    is_word_stop(css[i]) || (css[i] == SLASH && i + 1 < css.len() && css[i + 1] == ASTERISK)
}

/// The bytes that make a parenthesised span unfit to be one token.
pub open spec fn is_bad_bracket_byte(b: u8) -> bool {
    b == NEWLINE || b == DOUBLE_QUOTE || b == SINGLE_QUOTE || b == OPEN_PARENTHESES || b == SLASH
        || b == BACKSLASH
}

/// Index `j` holds a bad byte whose predecessor is not a newline.
pub open spec fn bad_bracket_at(css: Seq<u8>, j: int) -> bool {
    0 < j < css.len() && is_bad_bracket_byte(css[j]) && css[j - 1] != NEWLINE
}

/// Some index strictly between `lo` and `hi` is bad in the sense of
/// [`bad_bracket_at`].
pub open spec fn has_bad_bracket(css: Seq<u8>, lo: int, hi: int) -> bool {
    exists|j: int| lo < j < hi && #[trigger] bad_bracket_at(css, j)
}

/// The first index at or after `i` that holds no whitespace byte, or the
/// length of `css`.
pub open spec fn spaces_end(css: Seq<u8>, i: int) -> int
    decreases css.len() - i,
{
    if 0 <= i < css.len() && is_space(css[i]) {
        spaces_end(css, i + 1)
    } else {
        i
    }
}

/// The first index at or after `i` at which a word ends, or the length of
/// `css`.
pub open spec fn word_end(css: Seq<u8>, i: int) -> int
    decreases css.len() - i,
{
    if 0 <= i < css.len() && !is_word_end(css, i) {
        word_end(css, i + 1)
    } else {
        i
    }
}

/// The first index at or after `i` that holds `b`, or the length of `css`.
pub open spec fn byte_index(css: Seq<u8>, i: int, b: u8) -> int
    decreases css.len() - i,
{
    if 0 <= i < css.len() && css[i] != b {
        byte_index(css, i + 1, b)
    } else {
        i
    }
}

/// How many backslashes stand in an unbroken run immediately before `i`.
pub open spec fn backslashes_before(css: Seq<u8>, i: int) -> nat
    decreases i,
{
    if 0 < i <= css.len() && css[i - 1] == BACKSLASH {
        1 + backslashes_before(css, i - 1)
    } else {
        0
    }
}

/// Index `i` holds `delim`, and an even number of backslashes stands before
/// it: the delimiter is not escaped.
pub open spec fn closes(css: Seq<u8>, i: int, delim: u8) -> bool {
    css[i] == delim && backslashes_before(css, i) % 2 == 0
}

/// The first index at or after `i` that holds an unescaped `delim`, or the
/// length of `css`.
pub open spec fn closing_index(css: Seq<u8>, i: int, delim: u8) -> int
    decreases css.len() - i,
{
    if 0 <= i < css.len() && !closes(css, i, delim) {
        closing_index(css, i + 1, delim)
    } else {
        i
    }
}

/// The two bytes at `i` are `*/`.
pub open spec fn comment_closes(css: Seq<u8>, i: int) -> bool {
    i + 1 < css.len() && css[i] == ASTERISK && css[i + 1] == SLASH
}

/// The first index at or after `i` at which `*/` stands, or the length of
/// `css`.
pub open spec fn comment_end(css: Seq<u8>, i: int) -> int
    decreases css.len() - i,
{
    if 0 <= i < css.len() && !comment_closes(css, i) {
        comment_end(css, i + 1)
    } else {
        i
    }
}

/// The end of a run of hexadecimal digits that starts at `i` and stops
/// before `limit` at the latest.
pub open spec fn hex_end(css: Seq<u8>, i: int, limit: int) -> int
    decreases limit - i,
{
    if 0 <= i < css.len() && i < limit && is_hex(css[i]) {
        hex_end(css, i + 1, limit)
    } else {
        i
    }
}

/// The first index at or after `i` that holds no continuation byte, or the
/// length of `css`.
pub open spec fn continuation_end(css: Seq<u8>, i: int) -> int
    decreases css.len() - i,
{
    if 0 <= i < css.len() && is_continuation(css[i]) {
        continuation_end(css, i + 1)
    } else {
        i
    }
}

/// Where the escape sequence that starts with the backslash at `pos` ends.
///
/// A hexadecimal escape takes up to six digits and one whitespace byte after
/// them; any other escape takes the one character after the backslash. A
/// backslash that ends the text stands alone.
pub open spec fn escape_end(css: Seq<u8>, pos: int) -> int {
    if pos + 1 >= css.len() {
        pos + 1
    } else if is_hex(css[pos + 1]) {
        let h = hex_end(css, pos + 1, pos + 7);
        if h < css.len() && is_space(css[h]) {
            h + 1
        } else {
            h
        }
    } else {
        continuation_end(css, pos + 2)
    }
}

/// The start of the whitespace that ends the span from `lo` to `hi`: the
/// least index at or after `lo` from which only whitespace follows up to
/// `hi`.
pub open spec fn trailing_spaces_start(css: Seq<u8>, lo: int, hi: int) -> int
    decreases hi - lo,
{
    if lo < hi && 0 < hi <= css.len() && is_space(css[hi - 1]) {
        trailing_spaces_start(css, lo, hi - 1)
    } else {
        hi
    }
}

/// A run of whitespace ends in the text, before a byte that is no
/// whitespace, and holds nothing but whitespace.
pub proof fn lemma_spaces_end_bounds(css: Seq<u8>, i: int)
    requires
        0 <= i <= css.len(),
    ensures
        i <= spaces_end(css, i) <= css.len(),
        spaces_end(css, i) < css.len() ==> !is_space(css[spaces_end(css, i)]),
        forall|k: int| i <= k < spaces_end(css, i) ==> is_space(#[trigger] css[k]),
    decreases css.len() - i,
{
    if i < css.len() && is_space(css[i]) {
        lemma_spaces_end_bounds(css, i + 1);
    }
}

/// A word ends in the text, where a word can end, and at no earlier place.
pub proof fn lemma_word_end_bounds(css: Seq<u8>, i: int)
    requires
        0 <= i <= css.len(),
    ensures
        i <= word_end(css, i) <= css.len(),
        word_end(css, i) < css.len() ==> is_word_end(css, word_end(css, i)),
        forall|k: int| i <= k < word_end(css, i) ==> !#[trigger] is_word_end(css, k),
    decreases css.len() - i,
{
    if i < css.len() && !is_word_end(css, i) {
        lemma_word_end_bounds(css, i + 1);
    }
}

/// The first `b` at or after `i` is a `b`, and no `b` stands before it.
pub proof fn lemma_byte_index_bounds(css: Seq<u8>, i: int, b: u8)
    requires
        0 <= i <= css.len(),
    ensures
        i <= byte_index(css, i, b) <= css.len(),
        byte_index(css, i, b) < css.len() ==> css[byte_index(css, i, b)] == b,
        forall|k: int| i <= k < byte_index(css, i, b) ==> #[trigger] css[k] != b,
    decreases css.len() - i,
{
    if i < css.len() && css[i] != b {
        lemma_byte_index_bounds(css, i + 1, b);
    }
}

/// The first unescaped `delim` at or after `i` closes, and nothing before it
/// does.
pub proof fn lemma_closing_index_bounds(css: Seq<u8>, i: int, delim: u8)
    requires
        0 <= i <= css.len(),
    ensures
        i <= closing_index(css, i, delim) <= css.len(),
        closing_index(css, i, delim) < css.len() ==> closes(
            css,
            closing_index(css, i, delim),
            delim,
        ),
        forall|k: int| i <= k < closing_index(css, i, delim) ==> !#[trigger] closes(css, k, delim),
    decreases css.len() - i,
{
    if i < css.len() && !closes(css, i, delim) {
        lemma_closing_index_bounds(css, i + 1, delim);
    }
}

/// The first `*/` at or after `i` is one, and none stands before it.
pub proof fn lemma_comment_end_bounds(css: Seq<u8>, i: int)
    requires
        0 <= i <= css.len(),
    ensures
        i <= comment_end(css, i) <= css.len(),
        comment_end(css, i) < css.len() ==> comment_closes(css, comment_end(css, i)),
        forall|k: int| i <= k < comment_end(css, i) ==> !#[trigger] comment_closes(css, k),
    decreases css.len() - i,
{
    if i < css.len() && !comment_closes(css, i) {
        lemma_comment_end_bounds(css, i + 1);
    }
}

/// A run of hexadecimal digits ends in the text and before `limit`, and
/// holds nothing but such digits.
pub proof fn lemma_hex_end_bounds(css: Seq<u8>, i: int, limit: int)
    requires
        0 <= i <= css.len(),
        i <= limit,
    ensures
        i <= hex_end(css, i, limit) <= css.len(),
        hex_end(css, i, limit) <= limit,
        forall|k: int| i <= k < hex_end(css, i, limit) ==> is_hex(#[trigger] css[k]),
    decreases limit - i,
{
    if i < css.len() && i < limit && is_hex(css[i]) {
        lemma_hex_end_bounds(css, i + 1, limit);
    }
}

/// A run of continuation bytes ends in the text, before a byte that is
/// none.
pub proof fn lemma_continuation_end_bounds(css: Seq<u8>, i: int)
    requires
        0 <= i <= css.len(),
    ensures
        i <= continuation_end(css, i) <= css.len(),
        continuation_end(css, i) < css.len() ==> !is_continuation(css[continuation_end(css, i)]),
    decreases css.len() - i,
{
    if i < css.len() && is_continuation(css[i]) {
        lemma_continuation_end_bounds(css, i + 1);
    }
}

/// An escape sequence holds its backslash and ends in the text.
pub proof fn lemma_escape_end_bounds(css: Seq<u8>, pos: int)
    requires
        0 <= pos < css.len(),
    ensures
        pos < escape_end(css, pos) <= css.len(),
{
    if pos + 1 < css.len() {
        if is_hex(css[pos + 1]) {
            lemma_hex_end_bounds(css, pos + 1, pos + 7);
        } else {
            lemma_continuation_end_bounds(css, pos + 2);
        }
    }
}

/// The whitespace that ends a span starts in the span, behind a byte that
/// is no whitespace, and holds nothing but whitespace.
pub proof fn lemma_trailing_spaces_start_bounds(css: Seq<u8>, lo: int, hi: int)
    requires
        0 <= lo <= hi <= css.len(),
    ensures
        lo <= trailing_spaces_start(css, lo, hi) <= hi,
        forall|k: int|
            trailing_spaces_start(css, lo, hi) <= k < hi ==> is_space(#[trigger] css[k]),
        lo < trailing_spaces_start(css, lo, hi) ==> !is_space(
            css[trailing_spaces_start(css, lo, hi) - 1],
        ),
    decreases hi - lo,
{
    if lo < hi && is_space(css[hi - 1]) {
        lemma_trailing_spaces_start_bounds(css, lo, hi - 1);
    }
}

pub(crate) fn is_space_byte(b: u8) -> (r: bool)
    ensures
        r == is_space(b),
{
    b == SPACE || b == NEWLINE || b == TAB || b == CR || b == FEED
}

pub(crate) fn is_hex_byte(b: u8) -> (r: bool)
    ensures
        r == is_hex(b),
{
    (0x30 <= b && b <= 0x39) || (0x41 <= b && b <= 0x46) || (0x61 <= b && b <= 0x66)
}

/// Tells whether a word ends before index `i`.
pub(crate) fn word_ends_at(css: &[u8], i: usize) -> (r: bool)
    requires
        i < css.len(),
    ensures
        r == is_word_end(css@, i as int),
{
    let b: u8 = css[i];
    if is_space_byte(b) || b == BANG || b == DOUBLE_QUOTE || b == HASH || b == SINGLE_QUOTE || b
        == OPEN_PARENTHESES || b == CLOSE_PARENTHESES || b == COLON || b == SEMICOLON || b == AT
        || b == OPEN_SQUARE || b == BACKSLASH || b == OPEN_CURLY || b == CLOSE_CURLY {
        true
    } else if b == SLASH {
        i < css.len() - 1 && css[i + 1] == ASTERISK
    } else {
        false
    }
}

/// Skips the whitespace that starts at `from`.
pub(crate) fn scan_spaces(css: &[u8], from: usize) -> (end: usize)
    requires
        from <= css.len(),
    ensures
        end == spaces_end(css@, from as int),
        from <= end <= css.len(),
{
    let mut i: usize = from;
    while i < css.len() && is_space_byte(css[i])
        invariant
            from <= i <= css.len(),
            spaces_end(css@, i as int) == spaces_end(css@, from as int),
        decreases css.len() - i,
    {
        i += 1;
    }
    i
}

/// Finds where the word that runs over `from` ends.
pub(crate) fn scan_word(css: &[u8], from: usize) -> (end: usize)
    requires
        from <= css.len(),
    ensures
        end == word_end(css@, from as int),
        from <= end <= css.len(),
{
    let mut i: usize = from;
    while i < css.len() && !word_ends_at(css, i)
        invariant
            from <= i <= css.len(),
            word_end(css@, i as int) == word_end(css@, from as int),
        decreases css.len() - i,
    {
        i += 1;
    }
    i
}

/// Finds the first `b` at or after `from`.
pub(crate) fn scan_byte(css: &[u8], from: usize, b: u8) -> (end: usize)
    requires
        from <= css.len(),
    ensures
        end == byte_index(css@, from as int, b),
        from <= end <= css.len(),
{
    let mut i: usize = from;
    while i < css.len() && css[i] != b
        invariant
            from <= i <= css.len(),
            byte_index(css@, i as int, b) == byte_index(css@, from as int, b),
        decreases css.len() - i,
    {
        i += 1;
    }
    i
}

/// Tells whether an odd number of backslashes stands immediately before `i`.
pub(crate) fn is_escaped(css: &[u8], i: usize) -> (r: bool)
    requires
        i <= css.len(),
    ensures
        r == (backslashes_before(css@, i as int) % 2 == 1),
{
    let mut k: usize = i;
    let mut odd: bool = false;
    while k > 0 && css[k - 1] == BACKSLASH
        invariant
            k <= i <= css.len(),
            odd == ((backslashes_before(css@, i as int) - backslashes_before(css@, k as int)) % 2
                == 1),
            backslashes_before(css@, k as int) <= backslashes_before(css@, i as int),
        decreases k,
    {
        k -= 1;
        odd = !odd;
    }
    odd
}

/// Finds the first unescaped `delim` at or after `from`.
pub(crate) fn scan_closing(css: &[u8], from: usize, delim: u8) -> (end: usize)
    requires
        from <= css.len(),
    ensures
        end == closing_index(css@, from as int, delim),
        from <= end <= css.len(),
{
    let mut i: usize = from;
    let mut odd: bool = is_escaped(css, from);
    while i < css.len() && (css[i] != delim || odd)
        invariant
            from <= i <= css.len(),
            odd == (backslashes_before(css@, i as int) % 2 == 1),
            closing_index(css@, i as int, delim) == closing_index(css@, from as int, delim),
        decreases css.len() - i,
    {
        if css[i] == BACKSLASH {
            odd = !odd;
        } else {
            odd = false;
        }
        i += 1;
    }
    i
}

/// Finds the first `*/` at or after `from`.
pub(crate) fn scan_comment(css: &[u8], from: usize) -> (end: usize)
    requires
        from <= css.len(),
    ensures
        end == comment_end(css@, from as int),
        from <= end <= css.len(),
{
    let mut i: usize = from;
    while i < css.len() && !(css[i] == ASTERISK && i < css.len() - 1 && css[i + 1] == SLASH)
        invariant
            from <= i <= css.len(),
            comment_end(css@, i as int) == comment_end(css@, from as int),
        decreases css.len() - i,
    {
        i += 1;
    }
    i
}

/// Tells whether the span strictly between `lo` and `hi` holds a bad byte
/// that does not follow a newline.
pub(crate) fn scan_bad_bracket(css: &[u8], lo: usize, hi: usize) -> (r: bool)
    requires
        lo <= hi <= css.len(),
    ensures
        r == has_bad_bracket(css@, lo as int, hi as int),
{
    if lo == hi {
        return false;
    }
    let mut j: usize = lo + 1;
    while j < hi
        invariant
            lo < j <= hi <= css.len(),
            forall|k: int| lo < k < j ==> !#[trigger] bad_bracket_at(css@, k),
        decreases hi - j,
    {
        let b: u8 = css[j];
        if (b == NEWLINE || b == DOUBLE_QUOTE || b == SINGLE_QUOTE || b == OPEN_PARENTHESES || b
            == SLASH || b == BACKSLASH) && css[j - 1] != NEWLINE {
            assert(bad_bracket_at(css@, j as int));
            return true;
        }
        j += 1;
    }
    false
}

/// Finds where the escape sequence that starts at the backslash at `pos`
/// ends.
pub(crate) fn scan_escape(css: &[u8], pos: usize) -> (end: usize)
    requires
        pos < css.len(),
    ensures
        end == escape_end(css@, pos as int),
        pos < end <= css.len(),
{
    let n: usize = css.len();
    if pos + 1 >= n {
        return pos + 1;
    }
    if is_hex_byte(css[pos + 1]) {
        let mut i: usize = pos + 1;
        let ghost limit: int = pos + 7;
        let mut taken: usize = 0;
        while i < n && taken < 6 && is_hex_byte(css[i])
            invariant
                pos + 1 <= i <= n,
                n == css.len(),
                i == pos + 1 + taken,
                taken <= 6,
                limit == pos + 7,
                hex_end(css@, i as int, limit) == hex_end(css@, pos + 1, limit),
            decreases n - i,
        {
            i += 1;
            taken += 1;
        }
        if i < n && is_space_byte(css[i]) {
            i + 1
        } else {
            i
        }
    } else {
        let mut i: usize = pos + 2;
        while i < n && 0x80 <= css[i] && css[i] <= 0xBF
            invariant
                pos + 2 <= i <= n,
                n == css.len(),
                continuation_end(css@, i as int) == continuation_end(css@, pos + 2),
            decreases n - i,
        {
            i += 1;
        }
        i
    }
}

/// Finds where the whitespace that ends the span from `lo` to `hi` starts.
pub(crate) fn scan_trailing_spaces(css: &[u8], lo: usize, hi: usize) -> (start: usize)
    requires
        lo <= hi <= css.len(),
    ensures
        start == trailing_spaces_start(css@, lo as int, hi as int),
        lo <= start <= hi,
{
    let mut i: usize = hi;
    while lo < i && is_space_byte(css[i - 1])
        invariant
            lo <= i <= hi <= css.len(),
            trailing_spaces_start(css@, lo as int, i as int) == trailing_spaces_start(
                css@,
                lo as int,
                hi as int,
            ),
        decreases i,
    {
        i -= 1;
    }
    i
}

} // verus!
