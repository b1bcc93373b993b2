use postcss::input::Input;
use postcss::lexis::TokenKind;
use postcss::parse;
use postcss::tokenize::{tokenize, Tokenizer};

const ALPHABET: [&str; 24] = [
    "a", "b", "-", " ", "\n", "{", "}", "(", ")", "[", "]", ":", ";", "@", "'", "\"", "\\", "/",
    "*", "!", "url", "\u{e9}", "\u{4e2d}", "0",
];

fn texts(count: usize, length: usize) -> Vec<String> {
    let mut state: u64 = 0x2545F4914F6CDD1D;
    let mut out = Vec::new();
    for _ in 0..count {
        let mut text = String::new();
        for _ in 0..length {
            state = state
                .wrapping_mul(6364136223846793005)
                .wrapping_add(1442695040888963407);
            let pick = ((state >> 33) % (ALPHABET.len() as u64 + 3)) as usize;
            if pick < ALPHABET.len() {
                text.push_str(ALPHABET[pick]);
            }
        }
        out.push(text);
    }
    out
}

#[test]
fn generated_texts_lex_into_tiles() {
    let mut lexed = 0;
    for css in texts(20000, 10) {
        let input = Input::new(&css, None, "t");
        if let Ok(tokens) = tokenize(&input) {
            lexed += 1;
            let mut at = 0;
            let mut joined = String::new();
            for t in tokens.iter() {
                assert_eq!(t.start_offset, at, "in {:?}", css);
                assert!(t.end_offset >= t.start_offset);
                assert_eq!(t.text, &css[t.start_offset..t.end_offset + 1]);
                match t.kind {
                    TokenKind::Str => {
                        let bytes = t.text.as_bytes();
                        assert!(bytes.len() >= 2 && bytes[0] == bytes[bytes.len() - 1]);
                    }
                    TokenKind::Brackets => {
                        assert!(t.text.starts_with('(') && t.text.ends_with(')'));
                    }
                    TokenKind::Comment => {
                        assert!(t.text.len() >= 4);
                        assert!(t.text.starts_with("/*") && t.text.ends_with("*/"));
                    }
                    _ => {}
                }
                joined.push_str(t.text);
                at = t.end_offset + 1;
            }
            assert_eq!(at, css.len());
            assert_eq!(joined, css);
        }
    }
    assert!(lexed > 1000);
}

#[test]
fn generated_texts_lex_in_ignore_mode() {
    for css in texts(20000, 10) {
        let input = Input::new(&css, None, "t");
        let mut t = Tokenizer::with_ignore(&input, true);
        let mut joined = String::new();
        loop {
            match t.next_token() {
                Ok(Some(token)) => joined.push_str(token.text),
                Ok(None) => break,
                Err(e) => panic!("{:?} fails on {:?}", e, css),
            }
        }
        assert_eq!(joined, css);
    }
}

#[test]
fn generated_texts_that_parse_write_out_the_same() {
    let mut parsed = 0;
    for css in texts(20000, 12) {
        let input = Input::new(&css, None, "t");
        if let Ok(root) = parse(&input) {
            parsed += 1;
            assert_eq!(root.to_bytes(), css.as_bytes().to_vec(), "for {:?}", css);
        }
    }
    assert!(parsed > 100);
}

#[test]
fn generated_failures_lie_in_the_text() {
    for css in texts(20000, 8) {
        let input = Input::new(&css, None, "t");
        if let Err(e) = parse(&input) {
            assert!(e.position.offset < css.len(), "for {:?}", css);
            assert!(e.position.line >= 1 && e.position.column >= 1);
            let before = &css.as_bytes()[..e.position.offset];
            let newlines = before.iter().filter(|b| **b == b'\n').count();
            assert_eq!(e.position.line, newlines + 1);
            assert_eq!(e.id, Some("<input css t>"));
        }
    }
}
