use postcss::error::ErrorKind;
use postcss::input::Input;
use postcss::node::{NodeKind, Position};
use postcss::node_type::NodeType;
use postcss::parse;
use postcss::parser::Parser;
use postcss::root::Root;

fn written(css: &str) -> String {
    let input = Input::new(css, None, "t");
    let root = parse(&input).expect("the text parses");
    String::from_utf8(root.to_bytes()).expect("the tree writes out text")
}

fn failure(css: &str) -> (ErrorKind, usize, usize, usize) {
    let input = Input::new(css, None, "t");
    let e = parse(&input).expect_err("the text does not parse");
    (e.kind, e.position.offset, e.position.line, e.position.column)
}

fn shape(node: &NodeType) -> String {
    match node {
        NodeType::Root(r) => format!("root[{}]", shapes(&r.container.nodes)),
        NodeType::Rule(r) => format!("rule({})[{}]", r.selector, shapes(&r.container.nodes)),
        NodeType::AtRule(a) => {
            if a.has_block {
                format!("at({}|{})[{}]", a.name, a.params, shapes(&a.container.nodes))
            } else {
                format!("at({}|{})", a.name, a.params)
            }
        }
        NodeType::Declaration(d) => format!("decl({}|{})", d.prop, d.value),
        NodeType::Comment(c) => format!("comment({})", c.text),
    }
}

fn shapes(nodes: &Vec<NodeType>) -> String {
    nodes.iter().map(shape).collect::<Vec<_>>().join(" ")
}

fn outline(css: &str) -> String {
    let input = Input::new(css, None, "t");
    let root = parse(&input).expect("the text parses");
    shapes(&root.container.nodes)
}

#[test]
fn rule_with_one_declaration() {
    let input = Input::new("a { color: red; }", None, "t");
    let root: Root = parse(&input).unwrap();
    assert_eq!(root.container.node.node_type, NodeKind::Root);
    assert_eq!(root.container.node.parent, None);
    assert_eq!(root.container.nodes.len(), 1);
    let rule = match &root.container.nodes[0] {
        NodeType::Rule(rule) => rule,
        other => panic!("not a rule: {:?}", other),
    };
    assert_eq!(rule.selector, "a");
    assert_eq!(rule.container.node.node_type, NodeKind::Rule);
    assert_eq!(rule.container.node.raws.before, Some(""));
    assert_eq!(rule.container.node.raws.between, Some(" "));
    assert_eq!(rule.container.node.raws.after, Some(" "));
    assert_eq!(rule.container.node.raws.semicolon, true);
    assert_eq!(rule.container.nodes.len(), 1);
    let decl = match &rule.container.nodes[0] {
        NodeType::Declaration(decl) => decl,
        other => panic!("not a declaration: {:?}", other),
    };
    assert_eq!(decl.prop, "color");
    assert_eq!(decl.value, "red");
    assert_eq!(decl.node.node_type, NodeKind::Declaration);
    assert_eq!(decl.node.raws.before, Some(" "));
    assert_eq!(decl.node.raws.between, Some(": "));
    assert_eq!(decl.node.raws.after, Some(""));
    assert_eq!(decl.node.raws.semicolon, true);
    assert_eq!(decl.node.raws.important, None);
    assert_eq!(root.container.node.raws.after, Some(""));
    assert_eq!(root.container.node.raws.semicolon, false);
}

#[test]
fn parents_are_the_handles_of_the_owners() {
    let input = Input::new("a { b: c; d { e: f } } g { }", None, "t");
    let root = parse(&input).unwrap();
    assert_eq!(root.container.node.id, 0);
    let a = match &root.container.nodes[0] {
        NodeType::Rule(rule) => rule,
        other => panic!("not a rule: {:?}", other),
    };
    let g = match &root.container.nodes[1] {
        NodeType::Rule(rule) => rule,
        other => panic!("not a rule: {:?}", other),
    };
    assert_eq!(a.container.node.parent, Some(0));
    assert_eq!(g.container.node.parent, Some(0));
    assert_eq!(a.container.node.id, 1);
    let b = match &a.container.nodes[0] {
        NodeType::Declaration(decl) => decl,
        other => panic!("not a declaration: {:?}", other),
    };
    let d = match &a.container.nodes[1] {
        NodeType::Rule(rule) => rule,
        other => panic!("not a rule: {:?}", other),
    };
    assert_eq!(b.node.parent, Some(1));
    assert_eq!(b.node.id, 2);
    assert_eq!(d.container.node.parent, Some(1));
    assert_eq!(d.container.node.id, 3);
    let e = match &d.container.nodes[0] {
        NodeType::Declaration(decl) => decl,
        other => panic!("not a declaration: {:?}", other),
    };
    assert_eq!(e.node.parent, Some(3));
    assert_eq!(e.node.id, 4);
    assert_eq!(g.container.node.id, 5);
}

#[test]
fn sources_span_the_nodes() {
    let css = "a {\n  b: c;\n}\n";
    let input = Input::new(css, None, "t");
    let root = parse(&input).unwrap();
    let source = root.container.node.source.unwrap();
    assert_eq!(source.start, Position { offset: 0, column: 1, line: 1 });
    assert_eq!(source.end, Some(Position { offset: 14, column: 1, line: 4 }));
    assert_eq!(source.input.css, css);
    let rule = match &root.container.nodes[0] {
        NodeType::Rule(rule) => rule,
        other => panic!("not a rule: {:?}", other),
    };
    let source = rule.container.node.source.unwrap();
    assert_eq!(source.start, Position { offset: 0, column: 1, line: 1 });
    assert_eq!(source.end, Some(Position { offset: 13, column: 2, line: 3 }));
    let decl = match &rule.container.nodes[0] {
        NodeType::Declaration(decl) => decl,
        other => panic!("not a declaration: {:?}", other),
    };
    let source = decl.node.source.unwrap();
    assert_eq!(source.start, Position { offset: 6, column: 3, line: 2 });
    assert_eq!(source.end, Some(Position { offset: 11, column: 8, line: 2 }));
}

#[test]
fn empty_text_is_an_empty_root() {
    let input = Input::new("", None, "t");
    let root = parse(&input).unwrap();
    assert_eq!(root.container.nodes.len(), 0);
    assert_eq!(root.container.node.raws.after, Some(""));
    assert_eq!(root.to_bytes(), Vec::<u8>::new());
}

#[test]
fn whitespace_only_text_is_after_of_root() {
    let input = Input::new(" \n\t", None, "t");
    let root = parse(&input).unwrap();
    assert_eq!(root.container.nodes.len(), 0);
    assert_eq!(root.container.node.raws.after, Some(" \n\t"));
}

#[test]
fn declarations_split_at_first_colon() {
    assert_eq!(outline("a{b:c}"), "rule(a)[decl(b|c)]");
    assert_eq!(outline("a{b:c:d;e: f g }"), "rule(a)[decl(b|c:d) decl(e|f g)]");
    assert_eq!(outline("b: c"), "decl(b|c)");
    assert_eq!(outline("b:"), "decl(b|)");
    assert_eq!(outline(":b;"), "decl(|b)");
    assert_eq!(outline("a{b : url(x.png) 'y' [z] !important;}"), "rule(a)[decl(b|url(x.png) 'y' [z] !important)]");
}

#[test]
fn declaration_keeps_its_formatting() {
    let input = Input::new("a{ b /*x*/ : /*y*/ c d /*z*/ ;}", None, "t");
    let root = parse(&input).unwrap();
    let rule = match &root.container.nodes[0] {
        NodeType::Rule(rule) => rule,
        other => panic!("not a rule: {:?}", other),
    };
    let decl = match &rule.container.nodes[0] {
        NodeType::Declaration(decl) => decl,
        other => panic!("not a declaration: {:?}", other),
    };
    assert_eq!(decl.node.raws.before, Some(" "));
    assert_eq!(decl.prop, "b");
    assert_eq!(decl.node.raws.between, Some(" /*x*/ : /*y*/ "));
    assert_eq!(decl.value, "c d");
    assert_eq!(decl.node.raws.after, Some(" /*z*/ "));
    assert_eq!(decl.node.raws.semicolon, true);
    assert_eq!(rule.container.node.raws.after, Some(""));
    assert_eq!(rule.container.node.raws.semicolon, true);
}

#[test]
fn last_declaration_needs_no_semicolon() {
    let input = Input::new("a{b:c;d:e }", None, "t");
    let root = parse(&input).unwrap();
    let rule = match &root.container.nodes[0] {
        NodeType::Rule(rule) => rule,
        other => panic!("not a rule: {:?}", other),
    };
    let first = match &rule.container.nodes[0] {
        NodeType::Declaration(decl) => decl,
        other => panic!("not a declaration: {:?}", other),
    };
    let last = match &rule.container.nodes[1] {
        NodeType::Declaration(decl) => decl,
        other => panic!("not a declaration: {:?}", other),
    };
    assert_eq!(first.node.raws.semicolon, true);
    assert_eq!(last.node.raws.semicolon, false);
    assert_eq!(last.value, "e");
    assert_eq!(last.node.raws.after, Some(""));
    assert_eq!(rule.container.node.raws.semicolon, false);
    assert_eq!(rule.container.node.raws.after, Some(" "));
}

#[test]
fn stray_semicolons_are_formatting() {
    let input = Input::new(";a{;;b:c;;};", None, "t");
    let root = parse(&input).unwrap();
    assert_eq!(shapes(&root.container.nodes), "rule(a)[decl(b|c)]");
    let rule = match &root.container.nodes[0] {
        NodeType::Rule(rule) => rule,
        other => panic!("not a rule: {:?}", other),
    };
    assert_eq!(rule.container.node.raws.before, Some(";"));
    assert_eq!(rule.container.node.raws.after, Some(";"));
    let decl = match &rule.container.nodes[0] {
        NodeType::Declaration(decl) => decl,
        other => panic!("not a declaration: {:?}", other),
    };
    assert_eq!(decl.node.raws.before, Some(";;"));
    assert_eq!(root.container.node.raws.after, Some(";"));
}

#[test]
fn rules_nest() {
    assert_eq!(outline("a{b{c{d:e}}f:g}"), "rule(a)[rule(b)[rule(c)[decl(d|e)]] decl(f|g)]");
    assert_eq!(outline("a:hover, b > c {}"), "rule(a:hover, b > c)[]");
    assert_eq!(outline("a[href^=\"x\"] { }"), "rule(a[href^=\"x\"])[]");
    assert_eq!(outline("{}"), "rule()[]");
    assert_eq!(outline("a{}b{}"), "rule(a)[] rule(b)[]");
}

#[test]
fn at_rules_with_and_without_block() {
    assert_eq!(outline("@import url(a.css);"), "at(import|url(a.css))");
    assert_eq!(outline("@charset 'utf-8'"), "at(charset|'utf-8')");
    assert_eq!(
        outline("@media screen and (min-width: 1px) { a { b: c } }"),
        "at(media|screen and (min-width: 1px))[rule(a)[decl(b|c)]]"
    );
    assert_eq!(outline("@font-face{a:b}"), "at(font-face|)[decl(a|b)]");
    assert_eq!(outline("a{@apply x;b:c}"), "rule(a)[at(apply|x) decl(b|c)]");
    assert_eq!(outline("@a:b;"), "at(a|:b)");
}

#[test]
fn at_rule_keeps_its_formatting() {
    let input = Input::new(" @media  screen  { }@x  y  ;@z;", None, "t");
    let root = parse(&input).unwrap();
    let media = match &root.container.nodes[0] {
        NodeType::AtRule(at) => at,
        other => panic!("not an at-rule: {:?}", other),
    };
    assert_eq!(media.name, "media");
    assert_eq!(media.params, "screen");
    assert_eq!(media.has_block, true);
    assert_eq!(media.container.node.raws.before, Some(" "));
    assert_eq!(media.container.node.raws.after_name, Some("  "));
    assert_eq!(media.container.node.raws.between, Some("  "));
    assert_eq!(media.container.node.raws.after, Some(" "));
    let x = match &root.container.nodes[1] {
        NodeType::AtRule(at) => at,
        other => panic!("not an at-rule: {:?}", other),
    };
    assert_eq!(x.name, "x");
    assert_eq!(x.params, "y");
    assert_eq!(x.has_block, false);
    assert_eq!(x.container.nodes.len(), 0);
    assert_eq!(x.container.node.raws.after_name, Some("  "));
    assert_eq!(x.container.node.raws.between, Some("  "));
    assert_eq!(x.container.node.raws.semicolon, true);
    let z = match &root.container.nodes[2] {
        NodeType::AtRule(at) => at,
        other => panic!("not an at-rule: {:?}", other),
    };
    assert_eq!(z.name, "z");
    assert_eq!(z.params, "");
    assert_eq!(z.container.node.raws.after_name, Some(""));
    assert_eq!(z.container.node.raws.between, Some(""));
    assert_eq!(root.container.node.raws.semicolon, true);
}

#[test]
fn comments_between_nodes_are_nodes() {
    assert_eq!(outline("/* a */"), "comment(a)");
    assert_eq!(outline("a{/*b*/c:d;/* e */}/**/"), "rule(a)[comment(b) decl(c|d) comment(e)] comment()");
    let input = Input::new(" /* \t two words \n*/", None, "t");
    let root = parse(&input).unwrap();
    let comment = match &root.container.nodes[0] {
        NodeType::Comment(comment) => comment,
        other => panic!("not a comment: {:?}", other),
    };
    assert_eq!(comment.text, "two words");
    assert_eq!(comment.node.raws.before, Some(" "));
    assert_eq!(comment.node.raws.left, Some(" \t "));
    assert_eq!(comment.node.raws.right, Some(" \n"));
}

#[test]
fn blank_comment_is_all_left_padding() {
    let input = Input::new("/*   */", None, "t");
    let root = parse(&input).unwrap();
    let comment = match &root.container.nodes[0] {
        NodeType::Comment(comment) => comment,
        other => panic!("not a comment: {:?}", other),
    };
    assert_eq!(comment.text, "");
    assert_eq!(comment.node.raws.left, Some("   "));
    assert_eq!(comment.node.raws.right, Some(""));
}

#[test]
fn comments_inside_heads_stay_in_the_text() {
    assert_eq!(outline("a /*x*/ b {}"), "rule(a /*x*/ b)[]");
    assert_eq!(outline("a{b: c /*x*/ d}"), "rule(a)[decl(b|c /*x*/ d)]");
}

#[test]
fn comment_keeps_the_semicolon_flag() {
    let input = Input::new("a{b:c;/*d*/}", None, "t");
    let root = parse(&input).unwrap();
    let rule = match &root.container.nodes[0] {
        NodeType::Rule(rule) => rule,
        other => panic!("not a rule: {:?}", other),
    };
    assert_eq!(rule.container.node.raws.semicolon, true);
}

#[test]
fn custom_property_value_is_opaque() {
    assert_eq!(outline("a{--x: { b: c; d: e };f:g}"), "rule(a)[decl(--x|{ b: c; d: e }) decl(f|g)]");
    assert_eq!(outline("a{--x:{{;}};}"), "rule(a)[decl(--x|{{;}})]");
    assert_eq!(outline("a{--x: {b}}"), "rule(a)[decl(--x|{b})]");
    assert_eq!(outline("--x:{a:b}"), "decl(--x|{a:b})");
    // Before its colon a head that starts with `--` is a selector like any other.
    assert_eq!(outline("--x {a:b}"), "rule(--x)[decl(a|b)]");
    // Without `--` the brace opens a block.
    assert_eq!(outline("x: {a:b}"), "rule(x:)[decl(a|b)]");
}

#[test]
fn unclosed_block_fails_at_its_start() {
    assert_eq!(failure("a {"), (ErrorKind::UnclosedBlock, 0, 1, 1));
    assert_eq!(failure("a{}\n b { c {"), (ErrorKind::UnclosedBlock, 9, 2, 6));
    assert_eq!(failure("\n{"), (ErrorKind::UnclosedBlock, 1, 2, 1));
    assert_eq!(failure("@media x { a: b"), (ErrorKind::UnclosedBlock, 0, 1, 1));
    assert_eq!(failure("a{ --x: { b"), (ErrorKind::UnclosedBlock, 3, 1, 4));
}

#[test]
fn stray_close_fails_at_the_brace() {
    assert_eq!(failure("}"), (ErrorKind::UnexpectedToken, 0, 1, 1));
    assert_eq!(failure("a{}\n}"), (ErrorKind::UnexpectedToken, 4, 2, 1));
    assert_eq!(failure("a:b}"), (ErrorKind::UnexpectedToken, 3, 1, 4));
}

#[test]
fn head_that_is_no_statement_fails_at_its_start() {
    assert_eq!(failure("a"), (ErrorKind::UnexpectedToken, 0, 1, 1));
    assert_eq!(failure("a{ b }"), (ErrorKind::UnexpectedToken, 3, 1, 4));
    assert_eq!(failure("a{\nb c;}"), (ErrorKind::UnexpectedToken, 3, 2, 1));
    assert_eq!(failure("a{b:c}d"), (ErrorKind::UnexpectedToken, 6, 1, 7));
}

#[test]
fn unterminated_string_fails_the_parse() {
    assert_eq!(failure("\"abc"), (ErrorKind::UnterminatedString, 0, 1, 1));
    let input = Input::new("\"abc", None, "t");
    let e = Parser::new(&input).unwrap_err();
    assert_eq!(e.kind, ErrorKind::UnterminatedString);
    assert_eq!(e.position, Position { offset: 0, column: 1, line: 1 });
}

#[test]
fn first_failure_wins() {
    // The stray brace comes before the unterminated string.
    assert_eq!(failure("} 'a"), (ErrorKind::UnexpectedToken, 0, 1, 1));
    // The unterminated string comes before the end of the open block.
    assert_eq!(failure("a { 'b"), (ErrorKind::UnterminatedString, 4, 1, 5));
    assert_eq!(failure("a { /* b"), (ErrorKind::UnterminatedComment, 4, 1, 5));
    assert_eq!(failure("a { b: url(c"), (ErrorKind::UnterminatedBrackets, 10, 1, 11));
}

#[test]
fn tree_writes_out_the_text() {
    for css in [
        "",
        " ",
        "a { color: red; }",
        "a{b:c}",
        "\n\n/* head */\n\na , b > c {\n  color : red ;\n  background: url( 'x.png' ) no-repeat ;;\n}\n\n",
        "@charset \"utf-8\";\n@import url(a.css) screen;\n@media (min-width: 100px) and (max-width: 200px) {\n  a:hover { b: c !important }\n  @supports (display: grid) { d { e: f } }\n}\n",
        "a{--x: { b: c; d: { e } };--y:;f:g}",
        "a[href^=\"x\"]::before{content:'\\'';content:\"\\\"\"}",
        ";;a{;};;",
        "{}{{}}",
        "@a;@b {}@c d;@e",
        "/**//* */a/*b*/{/*c*/d/*e*/:/*f*/g/*h*/;/*i*/}/*j*/",
        "\u{e9}{\u{4e2d}\u{6587}:'\u{1F600}' \\\u{e9}}",
        ".a\\{b{c:d}",
        "a{b:(c;d)}",
        "a { b: c }  ",
    ] {
        assert_eq!(written(css), css);
    }
}

#[test]
fn parser_hands_out_its_tree() {
    let input = Input::new("a{b:c}", None, "t");
    let parser = Parser::new(&input).unwrap();
    let root = parser.into_root();
    assert_eq!(shapes(&root.container.nodes), "rule(a)[decl(b|c)]");
    let input = Input::new("a{", Some("a.css"), "t");
    let e = Parser::new(&input).unwrap_err();
    assert_eq!(e.kind, ErrorKind::UnclosedBlock);
    assert_eq!(e.file, Some("a.css"));
    assert_eq!(e.id, None);
}
