use onig::Regex;
use postcss::input::Input;
use postcss::lexis::TokenKind;
use postcss::tokenize::{tokenize, Tokenizer};

// The lexer's two byte rules, written as patterns. The word-end class is the
// one the lexer states; in Oniguruma a `[` inside a class has to be escaped
// to stand for itself.
const WORD_END: &str = r#"[\t\n\f\r !"\#'():;@\[\\{}]|/(?=\*)"#;
const BAD_BRACKET: &str = r#".[\n"'(/\\]"#;

const SAMPLES: [&str; 14] = [
    "abc",
    "abc def",
    "a[href^=\"x\"]",
    "a]b/c d",
    "a/*b*/",
    "a/b*c",
    "x:y;z",
    "k!important",
    "p#q r",
    "one\ttwo\nthree\x0cfour\rfive",
    "m@n",
    "u{v}w",
    "s'q'\"r\"",
    "b\\c(d)e",
];

#[test]
fn first_word_ends_where_the_pattern_matches() {
    let re = Regex::new(WORD_END).unwrap();
    for css in SAMPLES {
        let input = Input::new(css, None, "t");
        let tokens = tokenize(&input).unwrap();
        assert_eq!(tokens[0].kind, TokenKind::Word);
        let expected = match re.find(&css[1..]) {
            Some((start, _)) => start + 1,
            None => css.len(),
        };
        assert_eq!(tokens[0].end_offset + 1, expected, "in {:?}", css);
        assert_eq!(tokens[0].text, &css[..expected]);
    }
}

#[test]
fn every_word_ends_where_the_pattern_matches() {
    let re = Regex::new(WORD_END).unwrap();
    let css = "a b:c;d!e#f@g[h]{i}(j)'k'\"l\"m/*n*/o/p\tq\nr";
    let input = Input::new(css, None, "t");
    let tokens = tokenize(&input).unwrap();
    let mut words = 0;
    for t in tokens.iter() {
        if t.kind == TokenKind::Word && !t.text.starts_with('\\') {
            words += 1;
            let from = t.start_offset + 1;
            let expected = match re.find(&css[from..]) {
                Some((start, _)) => from + start,
                None => css.len(),
            };
            assert_eq!(t.end_offset + 1, expected, "for {:?}", t.text);
        }
    }
    assert_eq!(words, 12);
}

#[test]
fn parentheses_are_brackets_unless_the_pattern_matches() {
    let re = Regex::new(BAD_BRACKET).unwrap();
    for inner in [
        "", "a", "a b", "0, 0, 0", "a/b", "/", "a'b'", "\"", "a(b", "a\\b", "\n", "a\nb", "\n/",
        "\n\n", "a:b", "a;b", "a{b}", "a[b]", "\u{e9}", "\u{e9}/", "\u{4e2d}\n",
    ] {
        let css = format!("({})", inner);
        let close = css.find(')').unwrap();
        let content = &css[..close + 1];
        let bad = re.find(content).is_some();
        let input = Input::new(&css, None, "t");
        let first = Tokenizer::new(&input).next_token().unwrap().unwrap();
        if bad {
            assert_eq!(first.kind, TokenKind::OpenParentheses, "in {:?}", css);
            assert_eq!(first.text, "(");
        } else {
            assert_eq!(first.kind, TokenKind::Brackets, "in {:?}", css);
            assert_eq!(first.text, content);
        }
    }
}
