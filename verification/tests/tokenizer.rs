use postcss::error::ErrorKind;
use postcss::input::Input;
use postcss::lexis::TokenKind;
use postcss::node::Position;
use postcss::tokenize::{lex, tokenize, Token, Tokenizer};

fn lexed(css: &str) -> Vec<(TokenKind, String, usize, usize)> {
    let input = Input::new(css, None, "t");
    let tokens = tokenize(&input).expect("the text lexes");
    tokens
        .iter()
        .map(|t| (t.kind, t.text.to_string(), t.start_offset, t.end_offset))
        .collect()
}

fn kinds(css: &str) -> Vec<TokenKind> {
    lexed(css).iter().map(|t| t.0).collect()
}

fn texts(css: &str) -> Vec<String> {
    lexed(css).iter().map(|t| t.1.clone()).collect()
}

fn failure(css: &str) -> (ErrorKind, Position) {
    let input = Input::new(css, None, "t");
    let e = tokenize(&input).expect_err("the text does not lex");
    (e.kind, e.position)
}

#[test]
fn empty_text_has_no_tokens() {
    assert_eq!(lexed(""), vec![]);
    let input = Input::new("", None, "t");
    let mut t = Tokenizer::new(&input);
    assert!(t.end_of_file());
    assert!(matches!(t.next_token(), Ok(None)));
}

#[test]
fn whitespace_run_is_one_space_token() {
    assert_eq!(
        lexed(" \t\n\x0c\r a"),
        vec![
            (TokenKind::Space, " \t\n\x0c\r ".to_string(), 0, 5),
            (TokenKind::Word, "a".to_string(), 6, 6),
        ]
    );
}

#[test]
fn solitary_punctuation_is_one_byte_each() {
    assert_eq!(
        kinds("[]{}:;)"),
        vec![
            TokenKind::OpenSquare,
            TokenKind::CloseSquare,
            TokenKind::OpenCurly,
            TokenKind::CloseCurly,
            TokenKind::Colon,
            TokenKind::Semicolon,
            TokenKind::CloseParentheses,
        ]
    );
    let all = lexed("[]{}:;)");
    for (i, t) in all.iter().enumerate() {
        assert_eq!(t.2, i);
        assert_eq!(t.3, i);
        assert_eq!(t.1.len(), 1);
    }
}

#[test]
fn rule_with_declaration_lexes_token_by_token() {
    assert_eq!(
        lexed("a { color: red; }"),
        vec![
            (TokenKind::Word, "a".to_string(), 0, 0),
            (TokenKind::Space, " ".to_string(), 1, 1),
            (TokenKind::OpenCurly, "{".to_string(), 2, 2),
            (TokenKind::Space, " ".to_string(), 3, 3),
            (TokenKind::Word, "color".to_string(), 4, 8),
            (TokenKind::Colon, ":".to_string(), 9, 9),
            (TokenKind::Space, " ".to_string(), 10, 10),
            (TokenKind::Word, "red".to_string(), 11, 13),
            (TokenKind::Semicolon, ";".to_string(), 14, 14),
            (TokenKind::Space, " ".to_string(), 15, 15),
            (TokenKind::CloseCurly, "}".to_string(), 16, 16),
        ]
    );
}

#[test]
fn url_literal_is_one_brackets_token() {
    assert_eq!(
        lexed("url(foo.png)"),
        vec![
            (TokenKind::Word, "url".to_string(), 0, 2),
            (TokenKind::Brackets, "(foo.png)".to_string(), 3, 11),
        ]
    );
}

#[test]
fn url_literal_does_not_balance_parentheses() {
    // Inside a URL literal `(` and `/` are ordinary bytes.
    assert_eq!(texts("url(a(b/c)d)"), vec!["url", "(a(b/c)", "d", ")"]);
    // Elsewhere they keep the span from being one token.
    assert_eq!(texts("x(a/b)"), vec!["x", "(", "a/b", ")"]);
}

#[test]
fn url_literal_skips_escaped_parenthesis() {
    assert_eq!(texts("url(a\\)b) c"), vec!["url", "(a\\)b)", " ", "c"]);
    assert_eq!(texts("url(a\\\\) c"), vec!["url", "(a\\\\)", " ", "c"]);
}

#[test]
fn quoted_url_is_not_a_literal() {
    assert_eq!(
        lexed("url(\"a\")"),
        vec![
            (TokenKind::Word, "url".to_string(), 0, 2),
            (TokenKind::OpenParentheses, "(".to_string(), 3, 3),
            (TokenKind::Str, "\"a\"".to_string(), 4, 6),
            (TokenKind::CloseParentheses, ")".to_string(), 7, 7),
        ]
    );
    assert_eq!(kinds("url( a)")[1], TokenKind::Brackets);
    assert_eq!(texts("url( a)"), vec!["url", "( a)"]);
}

#[test]
fn plain_parentheses_are_one_brackets_token() {
    assert_eq!(
        lexed("rgb(0, 0, 0)"),
        vec![
            (TokenKind::Word, "rgb".to_string(), 0, 2),
            (TokenKind::Brackets, "(0, 0, 0)".to_string(), 3, 11),
        ]
    );
}

#[test]
fn parenthesis_without_close_is_punctuation() {
    assert_eq!(
        lexed("(a"),
        vec![
            (TokenKind::OpenParentheses, "(".to_string(), 0, 0),
            (TokenKind::Word, "a".to_string(), 1, 1),
        ]
    );
    assert_eq!(lexed("("), vec![(TokenKind::OpenParentheses, "(".to_string(), 0, 0)]);
}

#[test]
fn bad_bracket_degrades_to_punctuation() {
    assert_eq!(texts("(a'b')"), vec!["(", "a", "'b'", ")"]);
    assert_eq!(texts("(a(b))"), vec!["(", "a", "(b)", ")"]);
    assert_eq!(texts("(a\\b)"), vec!["(", "a", "\\b", ")"]);
    assert_eq!(texts("(a\"b\")"), vec!["(", "a", "\"b\"", ")"]);
    assert_eq!(kinds("(a\nb)")[0], TokenKind::OpenParentheses);
}

#[test]
fn newline_inside_parentheses_is_bad() {
    // A newline is a bad byte wherever it follows another byte, and inside
    // parentheses the first one always does.
    assert_eq!(kinds("(\n)")[0], TokenKind::OpenParentheses);
    assert_eq!(kinds("(a\n/)")[0], TokenKind::OpenParentheses);
    assert_eq!(kinds("(\n\n)")[0], TokenKind::OpenParentheses);
    // The first byte inside counts: the `(` before it is not a newline.
    assert_eq!(kinds("(/)")[0], TokenKind::OpenParentheses);
    assert_eq!(kinds("(a)")[0], TokenKind::Brackets);
    assert_eq!(kinds("()")[0], TokenKind::Brackets);
}

#[test]
fn second_parenthesis_sees_the_word_below() {
    // Each `(` takes one word off the buffer: the second `(` meets `url`.
    assert_eq!(
        kinds("url b (x) (y/z)"),
        vec![
            TokenKind::Word,
            TokenKind::Space,
            TokenKind::Word,
            TokenKind::Space,
            TokenKind::Brackets,
            TokenKind::Space,
            TokenKind::Brackets,
        ]
    );
    // Without `url` below, the `/` keeps the second span from being a token.
    assert_eq!(kinds("a b (x) (y/z)")[6], TokenKind::OpenParentheses);
}

#[test]
fn strings_include_both_quotes() {
    assert_eq!(
        lexed("'a' \"b c\""),
        vec![
            (TokenKind::Str, "'a'".to_string(), 0, 2),
            (TokenKind::Space, " ".to_string(), 3, 3),
            (TokenKind::Str, "\"b c\"".to_string(), 4, 8),
        ]
    );
    assert_eq!(texts("'a\"b'"), vec!["'a\"b'"]);
}

#[test]
fn escaped_quote_does_not_close_string() {
    assert_eq!(lexed("'a\\'b'"), vec![(TokenKind::Str, "'a\\'b'".to_string(), 0, 5)]);
    assert_eq!(texts("\"a\\\"b\" c"), vec!["\"a\\\"b\"", " ", "c"]);
}

#[test]
fn quote_after_escaped_backslash_closes_string() {
    assert_eq!(
        lexed("'a\\\\' b"),
        vec![
            (TokenKind::Str, "'a\\\\'".to_string(), 0, 4),
            (TokenKind::Space, " ".to_string(), 5, 5),
            (TokenKind::Word, "b".to_string(), 6, 6),
        ]
    );
    // Three backslashes: the quote is escaped again.
    assert_eq!(texts("'a\\\\\\'b'"), vec!["'a\\\\\\'b'"]);
}

#[test]
fn unterminated_string_fails_at_its_start() {
    assert_eq!(
        failure("\"abc"),
        (ErrorKind::UnterminatedString, Position { offset: 0, column: 1, line: 1 })
    );
    assert_eq!(
        failure("a {\n  b: 'c"),
        (ErrorKind::UnterminatedString, Position { offset: 9, column: 6, line: 2 })
    );
    assert_eq!(failure("'a\\'").0, ErrorKind::UnterminatedString);
}

#[test]
fn unterminated_comment_fails_at_its_start() {
    assert_eq!(
        failure("a\n\n /* b"),
        (ErrorKind::UnterminatedComment, Position { offset: 4, column: 2, line: 3 })
    );
    assert_eq!(failure("/*/").0, ErrorKind::UnterminatedComment);
}

#[test]
fn unterminated_url_fails_at_its_parenthesis() {
    assert_eq!(
        failure("url(a"),
        (ErrorKind::UnterminatedBrackets, Position { offset: 3, column: 4, line: 1 })
    );
    assert_eq!(failure("url(").0, ErrorKind::UnterminatedBrackets);
    assert_eq!(failure("url(a\\)").0, ErrorKind::UnterminatedBrackets);
}

#[test]
fn failure_leaves_tokenizer_in_place() {
    let input = Input::new("a 'b", None, "t");
    let mut t = Tokenizer::new(&input);
    assert_eq!(t.next_token().unwrap().unwrap().text, "a");
    assert_eq!(t.next_token().unwrap().unwrap().text, " ");
    assert_eq!(t.position(), 2);
    let first = t.next_token().unwrap_err();
    assert_eq!(t.position(), 2);
    let second = t.next_token().unwrap_err();
    assert_eq!(first.kind, ErrorKind::UnterminatedString);
    assert_eq!(second.kind, ErrorKind::UnterminatedString);
    assert_eq!(first.position, second.position);
}

#[test]
fn ignore_mode_closes_at_end_of_text() {
    for (css, kind) in [
        ("'abc", TokenKind::Str),
        ("/* abc", TokenKind::Comment),
    ] {
        let input = Input::new(css, None, "t");
        let mut t = Tokenizer::with_ignore(&input, true);
        let token = t.next_token().unwrap().unwrap();
        assert_eq!(token.kind, kind);
        assert_eq!(token.text, css);
        assert_eq!(token.start_offset, 0);
        assert_eq!(token.end_offset, css.len() - 1);
        assert!(t.end_of_file());
        assert!(matches!(t.next_token(), Ok(None)));
    }
    let input = Input::new("url(abc", None, "t");
    let mut t = Tokenizer::with_ignore(&input, true);
    assert_eq!(t.next_token().unwrap().unwrap().text, "url");
    let token = t.next_token().unwrap().unwrap();
    assert_eq!(token.kind, TokenKind::Brackets);
    assert_eq!(token.text, "(abc");
    assert!(t.end_of_file());
}

#[test]
fn at_word_runs_to_word_end() {
    assert_eq!(
        lexed("@media screen"),
        vec![
            (TokenKind::AtWord, "@media".to_string(), 0, 5),
            (TokenKind::Space, " ".to_string(), 6, 6),
            (TokenKind::Word, "screen".to_string(), 7, 12),
        ]
    );
    assert_eq!(texts("@a:b"), vec!["@a", ":", "b"]);
    assert_eq!(kinds("@ x"), vec![TokenKind::AtWord, TokenKind::Space, TokenKind::Word]);
    assert_eq!(kinds("@@"), vec![TokenKind::AtWord, TokenKind::AtWord]);
    assert_eq!(lexed("@"), vec![(TokenKind::AtWord, "@".to_string(), 0, 0)]);
}

#[test]
fn word_stops_at_every_word_end_byte() {
    for stop in [
        " ", "\t", "\n", "\x0c", "\r", "\"q\"", "'q'", "(", ")", ":", ";", "@", "[", "{", "}",
    ] {
        let css = format!("ab{}", stop);
        let all = texts(&css);
        assert_eq!(all[0], "ab");
    }
    // `!`, `#` and `\` end a word and begin the next one.
    assert_eq!(texts("ab!cd"), vec!["ab", "!cd"]);
    assert_eq!(texts("ab#cd"), vec!["ab", "#cd"]);
    assert_eq!(texts("ab\\xy"), vec!["ab", "\\x", "y"]);
    // `]` and a `/` that opens no comment do not end a word.
    assert_eq!(texts("a]b/c"), vec!["a]b/c"]);
    assert_eq!(texts("a/*c*/"), vec!["a", "/*c*/"]);
}

#[test]
fn word_takes_its_first_byte_whatever_it_is() {
    assert_eq!(lexed("!important"), vec![(TokenKind::Word, "!important".to_string(), 0, 9)]);
    assert_eq!(lexed("#id"), vec![(TokenKind::Word, "#id".to_string(), 0, 2)]);
    assert_eq!(texts("!!"), vec!["!", "!"]);
    assert_eq!(lexed("/"), vec![(TokenKind::Word, "/".to_string(), 0, 0)]);
}

#[test]
fn word_runs_to_end_of_text() {
    assert_eq!(lexed("abc"), vec![(TokenKind::Word, "abc".to_string(), 0, 2)]);
    assert_eq!(lexed("a"), vec![(TokenKind::Word, "a".to_string(), 0, 0)]);
}

#[test]
fn attribute_selector_lexes_by_word_end_class() {
    assert_eq!(
        lexed("a[href^=\"x\"]"),
        vec![
            (TokenKind::Word, "a".to_string(), 0, 0),
            (TokenKind::OpenSquare, "[".to_string(), 1, 1),
            (TokenKind::Word, "href^=".to_string(), 2, 7),
            (TokenKind::Str, "\"x\"".to_string(), 8, 10),
            (TokenKind::CloseSquare, "]".to_string(), 11, 11),
        ]
    );
}

#[test]
fn comment_runs_to_first_close() {
    assert_eq!(
        lexed("/* a */b/**/"),
        vec![
            (TokenKind::Comment, "/* a */".to_string(), 0, 6),
            (TokenKind::Word, "b".to_string(), 7, 7),
            (TokenKind::Comment, "/**/".to_string(), 8, 11),
        ]
    );
    assert_eq!(texts("/* '\" ( */x"), vec!["/* '\" ( */", "x"]);
}

#[test]
fn backslash_takes_the_next_character() {
    assert_eq!(
        lexed("\\{a"),
        vec![
            (TokenKind::Word, "\\{".to_string(), 0, 1),
            (TokenKind::Word, "a".to_string(), 2, 2),
        ]
    );
    assert_eq!(lexed("\\"), vec![(TokenKind::Word, "\\".to_string(), 0, 0)]);
    assert_eq!(texts("\\\\\\"), vec!["\\\\", "\\"]);
    assert_eq!(texts("\\ a"), vec!["\\ ", "a"]);
}

#[test]
fn backslash_takes_a_whole_multibyte_character() {
    assert_eq!(
        lexed("\\\u{e9}a"),
        vec![
            (TokenKind::Word, "\\\u{e9}".to_string(), 0, 2),
            (TokenKind::Word, "a".to_string(), 3, 3),
        ]
    );
    assert_eq!(texts("\\\u{1F600}{"), vec!["\\\u{1F600}", "{"]);
}

#[test]
fn hex_escape_takes_six_digits_and_one_space() {
    assert_eq!(texts("\\41 b"), vec!["\\41 ", "b"]);
    assert_eq!(texts("\\41  b"), vec!["\\41 ", " ", "b"]);
    assert_eq!(texts("\\00004141"), vec!["\\000041", "41"]);
    assert_eq!(texts("\\000041 1"), vec!["\\000041 ", "1"]);
    assert_eq!(texts("\\aFg"), vec!["\\aF", "g"]);
    assert_eq!(texts("\\9\n;"), vec!["\\9\n", ";"]);
}

#[test]
fn multibyte_text_is_cut_between_characters() {
    assert_eq!(
        lexed("\u{e9}t\u{e9} { \u{4e2d}: '\u{6587}' }"),
        vec![
            (TokenKind::Word, "\u{e9}t\u{e9}".to_string(), 0, 4),
            (TokenKind::Space, " ".to_string(), 5, 5),
            (TokenKind::OpenCurly, "{".to_string(), 6, 6),
            (TokenKind::Space, " ".to_string(), 7, 7),
            (TokenKind::Word, "\u{4e2d}".to_string(), 8, 10),
            (TokenKind::Colon, ":".to_string(), 11, 11),
            (TokenKind::Space, " ".to_string(), 12, 12),
            (TokenKind::Str, "'\u{6587}'".to_string(), 13, 17),
            (TokenKind::Space, " ".to_string(), 18, 18),
            (TokenKind::CloseCurly, "}".to_string(), 19, 19),
        ]
    );
}

#[test]
fn token_texts_spell_the_input() {
    for css in [
        "",
        "a { color: red; }",
        "@media (min-width: 100px) { a[href^=\"x\"]:hover { b: url(c.png) !important } }",
        "/* c */ a{b:'\\'';--x: { y: z };}\n\n.k\\{ #i > p + q ~ r {}",
        "(((( a \\ ",
        "\u{e9}\\\u{e9}(\u{e9})'\u{e9}'/*\u{e9}*/@\u{e9}",
    ] {
        let all = lexed(css);
        let joined: String = all.iter().map(|t| t.1.as_str()).collect();
        assert_eq!(joined, css);
        let again: Vec<String> = texts(&joined);
        assert_eq!(again, all.iter().map(|t| t.1.clone()).collect::<Vec<_>>());
    }
}

#[test]
fn tokens_lie_end_to_end() {
    let css = "@media (min-width: 100px) { a[href^=\"x\"]:hover { b: url(c.png) } } /* d */";
    let all = lexed(css);
    assert_eq!(all[0].2, 0);
    assert_eq!(all[all.len() - 1].3, css.len() - 1);
    for pair in all.windows(2) {
        assert!(pair[0].2 <= pair[0].3);
        assert_eq!(pair[0].3 + 1, pair[1].2);
        assert!(pair[0].2 < pair[1].2);
    }
    for t in all.iter() {
        assert_eq!(&css[t.2..t.3 + 1], t.1);
    }
}

#[test]
fn delimited_tokens_have_both_delimiters() {
    let css = "a('b') \"c\\\"d\" (e) url(f) /* g */ 'h'";
    let all = lexed(css);
    let strings = all.iter().filter(|t| t.0 == TokenKind::Str).count();
    let brackets = all.iter().filter(|t| t.0 == TokenKind::Brackets).count();
    let comments = all.iter().filter(|t| t.0 == TokenKind::Comment).count();
    assert_eq!(strings, 3);
    assert_eq!(brackets, 2);
    assert_eq!(comments, 1);
    for t in all.iter() {
        match t.0 {
            TokenKind::Str => {
                assert!(t.1.len() >= 2);
                assert_eq!(t.1.as_bytes()[0], t.1.as_bytes()[t.1.len() - 1]);
            }
            TokenKind::Brackets => {
                assert!(t.1.starts_with('(') && t.1.ends_with(')'));
            }
            TokenKind::Comment => {
                assert!(t.1.starts_with("/*") && t.1.ends_with("*/"));
            }
            _ => {}
        }
    }
}

#[test]
fn back_returns_the_same_token() {
    let input = Input::new("a { b: c }", None, "t");
    let mut t = Tokenizer::new(&input);
    loop {
        let position = t.position();
        let token = match t.next_token().unwrap() {
            Some(token) => token,
            None => break,
        };
        let after = t.position();
        t.back(token);
        assert!(!t.end_of_file());
        assert_eq!(t.position(), after);
        let again = t.next_token().unwrap().unwrap();
        assert_eq!(again, token);
        assert_eq!(again.kind, token.kind);
        assert_eq!(again.text, token.text);
        assert_eq!(again.start_offset, position);
        assert_eq!(again.end_offset, token.end_offset);
        assert_eq!(t.position(), after);
    }
    assert!(t.end_of_file());
}

#[test]
fn pushback_is_last_in_first_out() {
    let input = Input::new("a b", None, "t");
    let mut t = Tokenizer::new(&input);
    let a = t.next_token().unwrap().unwrap();
    let space = t.next_token().unwrap().unwrap();
    t.back(space);
    t.back(a);
    assert_eq!(t.next_token().unwrap().unwrap(), a);
    assert_eq!(t.next_token().unwrap().unwrap(), space);
    assert_eq!(t.next_token().unwrap().unwrap().text, "b");
    assert!(matches!(t.next_token(), Ok(None)));
}

#[test]
fn back_hands_out_any_token_without_lexing() {
    let input = Input::new("a", None, "t");
    let mut t = Tokenizer::new(&input);
    let made = Token { kind: TokenKind::Semicolon, text: ";", start_offset: 40, end_offset: 40 };
    t.back(made);
    assert!(!t.end_of_file());
    assert_eq!(t.position(), 0);
    assert_eq!(t.next_token().unwrap().unwrap(), made);
    assert_eq!(t.next_token().unwrap().unwrap().text, "a");
    assert!(t.end_of_file());
}

#[test]
fn pushed_back_word_is_not_recorded_twice() {
    // The word buffer holds `url` once: pushing the word back and reading
    // it again adds nothing, so the second `(` finds no `url` below.
    let input = Input::new("url(a/b)(c/d)", None, "t");
    let mut t = Tokenizer::new(&input);
    let word = t.next_token().unwrap().unwrap();
    t.back(word);
    assert_eq!(t.next_token().unwrap().unwrap(), word);
    assert_eq!(t.next_token().unwrap().unwrap().kind, TokenKind::Brackets);
    assert_eq!(t.next_token().unwrap().unwrap().kind, TokenKind::OpenParentheses);
}

#[test]
fn position_follows_the_scan() {
    let input = Input::new("ab  cd", None, "t");
    let mut t = Tokenizer::new(&input);
    assert_eq!(t.position(), 0);
    t.next_token().unwrap();
    assert_eq!(t.position(), 2);
    t.next_token().unwrap();
    assert_eq!(t.position(), 4);
    assert!(!t.end_of_file());
    t.next_token().unwrap();
    assert_eq!(t.position(), 6);
    assert!(t.end_of_file());
}

#[test]
fn unclosed_reports_the_cursor() {
    let input = Input::new("a\nbc d", Some("x.css"), "t");
    let mut t = Tokenizer::new(&input);
    t.next_token().unwrap();
    t.next_token().unwrap();
    t.next_token().unwrap();
    let e = t.unclosed(ErrorKind::UnclosedBlock);
    assert_eq!(e.kind, ErrorKind::UnclosedBlock);
    assert_eq!(e.position, Position { offset: 4, column: 3, line: 2 });
    assert_eq!(e.file, Some("x.css"));
    assert_eq!(e.id, None);
}

#[test]
fn error_carries_the_identity_of_the_input() {
    let named = Input::new("'", Some("/tmp/a.css"), "unused");
    let e = tokenize(&named).unwrap_err();
    assert_eq!(e.file, Some("/tmp/a.css"));
    assert_eq!(e.id, None);
    let anonymous = Input::new("'", None, "8LZeVF");
    let e = tokenize(&anonymous).unwrap_err();
    assert_eq!(e.file, None);
    assert_eq!(e.id, Some("<input css 8LZeVF>"));
}

#[test]
fn lex_gives_kind_and_end_of_one_token() {
    let css = b"ab cd";
    assert_eq!(lex(css, 0, false, false), Ok((TokenKind::Word, 2)));
    assert_eq!(lex(css, 2, false, false), Ok((TokenKind::Space, 3)));
    assert_eq!(lex(css, 4, false, false), Ok((TokenKind::Word, 5)));
    assert_eq!(lex(b"(a/b)", 0, true, false), Ok((TokenKind::Brackets, 5)));
    assert_eq!(lex(b"(a/b)", 0, false, false), Ok((TokenKind::OpenParentheses, 1)));
    assert_eq!(lex(b"(a", 0, true, false), Err(ErrorKind::UnterminatedBrackets));
    assert_eq!(lex(b"(a", 0, true, true), Ok((TokenKind::Brackets, 2)));
    assert_eq!(lex(b"'a", 0, false, false), Err(ErrorKind::UnterminatedString));
    assert_eq!(lex(b"/*a", 0, false, false), Err(ErrorKind::UnterminatedComment));
}

#[test]
fn error_kinds_have_messages() {
    assert_eq!(ErrorKind::UnterminatedString.message(), "Unclosed string");
    assert_eq!(ErrorKind::UnterminatedComment.message(), "Unclosed comment");
    assert_eq!(ErrorKind::UnterminatedBrackets.message(), "Unclosed bracket");
    assert_eq!(ErrorKind::UnclosedBlock.message(), "Unclosed block");
    assert_eq!(ErrorKind::UnexpectedToken.message(), "Unexpected token");
}
