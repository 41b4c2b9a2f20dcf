use alejandra::directive::BuildContext;
use alejandra::directive::Directive;
use alejandra::rules::apply;
use alejandra::rules::key_value;
use alejandra::syntax::Element;
use alejandra::syntax::Kind;
use alejandra::syntax::Node;
use alejandra::syntax::Token;

fn token(kind: Kind, text: &str) -> Element {
    Element::Token(Token { kind, text: text.to_string() })
}

fn ident(name: &str) -> Element {
    Element::Node(Node { kind: Kind::NodeIdent, children: vec![token(Kind::TokenIdent, name)] })
}

fn comment(text: &str) -> Element {
    token(Kind::TokenComment, text)
}

fn space(text: &str) -> Element {
    token(Kind::TokenWhitespace, text)
}

fn wrapped(inner: Vec<Element>) -> Element {
    let mut children = vec![token(Kind::TokenParenOpen, "(")];
    children.extend(inner);
    children.push(token(Kind::TokenParenClose, ")"));
    Element::Node(Node { kind: Kind::NodeParen, children })
}

fn of_kind(kind: Kind) -> Element {
    Element::Node(Node { kind, children: vec![] })
}

fn binding(between: [Vec<Element>; 3], value: Element) -> Node {
    let [after_key, before_value, after_value] = between;
    let mut children = vec![ident("a")];
    children.extend(after_key);
    children.push(token(Kind::TokenAssign, "="));
    children.extend(before_value);
    children.push(value);
    children.extend(after_value);
    children.push(token(Kind::TokenSemicolon, ";"));
    Node { kind: Kind::NodeKeyValue, children }
}

fn application(between: Vec<Element>, argument: Element) -> Node {
    let mut children = vec![ident("f")];
    children.extend(between);
    children.push(argument);
    Node { kind: Kind::NodeApply, children }
}

fn comments_in(element: &Element, out: &mut Vec<String>) {
    match element {
        Element::Token(token) => {
            if token.kind == Kind::TokenComment {
                out.push(token.text.clone());
            }
        }
        Element::Node(node) => {
            for child in &node.children {
                comments_in(child, out);
            }
        }
    }
}

fn comments_of(node: &Node) -> Vec<String> {
    let mut out = Vec::new();
    for child in &node.children {
        comments_in(child, &mut out);
    }
    out
}

fn comments_written(directives: &[Directive]) -> Vec<String> {
    let mut out = Vec::new();
    for directive in directives {
        match directive {
            Directive::Comment(text) => out.push((*text).clone()),
            Directive::FormatCompact(element) => comments_in(element, &mut out),
            Directive::FormatWide(element) => comments_in(element, &mut out),
            _ => {}
        }
    }
    out
}

fn depths(directives: &[Directive], base: i64) -> Vec<i64> {
    let mut depth = base;
    let mut out = vec![depth];
    for directive in directives {
        match directive {
            Directive::Indent => depth += 1,
            Directive::Dedent => depth -= 1,
            _ => {}
        }
        out.push(depth);
    }
    out
}

fn trivia_samples() -> Vec<Vec<Element>> {
    vec![
        vec![],
        vec![space(" ")],
        vec![space("\n  ")],
        vec![space(" "), comment("# one"), space("\n")],
        vec![comment("/* one */")],
        vec![space(" "), comment("/*\n one\n*/"), space(" ")],
        vec![comment("# one"), space("\n\n"), comment("/*\n two\n*/"), space("\n")],
        vec![space("\n"), comment("/* one */"), comment("# two"), space("\n")],
    ]
}

fn value_samples() -> Vec<Element> {
    vec![
        ident("b"),
        of_kind(Kind::NodeApply),
        of_kind(Kind::NodeAttrSet),
        wrapped(vec![ident("b")]),
        wrapped(vec![comment("/* in */"), ident("b")]),
        wrapped(vec![wrapped(vec![comment("# deep"), space("\n"), ident("b")])]),
        Element::Node(Node {
            kind: Kind::NodeList,
            children: vec![
                token(Kind::TokenSquareBOpen, "["),
                comment("# first"),
                space("\n"),
                ident("x"),
                comment("/* second */"),
                token(Kind::TokenSquareBClose, "]"),
            ],
        }),
    ]
}

fn binding_samples() -> Vec<Node> {
    let mut nodes = Vec::new();
    for i in 0..trivia_samples().len() {
        for j in 0..trivia_samples().len() {
            for k in 0..value_samples().len() {
                let trivia = trivia_samples();
                let before = trivia[i].iter().map(copy).collect();
                let after = trivia[j].iter().map(copy).collect();
                let after_key = trivia[(i + j) % trivia.len()].iter().map(copy).collect();
                nodes.push(binding([after_key, before, after], copy(&value_samples()[k])));
            }
        }
    }
    nodes
}

fn copy(element: &Element) -> Element {
    match element {
        Element::Token(token) => Element::Token(token.clone()),
        Element::Node(node) => Element::Node(Node {
            kind: node.kind,
            children: node.children.iter().map(copy).collect(),
        }),
    }
}

fn contexts() -> [BuildContext; 2] {
    [BuildContext { vertical: false, indent: 0 }, BuildContext { vertical: true, indent: 3 }]
}

#[test]
fn every_binding_keeps_its_comments() {
    for node in binding_samples() {
        for ctx in contexts() {
            for answer in [false, true] {
                let directives = key_value::rule(ctx, &node, answer).unwrap();
                assert_eq!(comments_written(&directives), comments_of(&node));
            }
        }
    }
}

#[test]
fn a_binding_keeps_its_comments_in_order() {
    let node = binding(
        [
            vec![comment("# 1"), space("\n")],
            vec![comment("# 2"), space("\n"), comment("/* 3 */")],
            vec![comment("# 5"), space("\n")],
        ],
        wrapped(vec![comment("/* 4 */"), ident("b")]),
    );
    let directives =
        key_value::rule(BuildContext { vertical: false, indent: 0 }, &node, false).unwrap();
    assert_eq!(comments_written(&directives), vec!["# 1", "# 2", "/* 3 */", "/* 4 */", "# 5"]);
}

#[test]
fn every_application_keeps_its_comments() {
    for between in trivia_samples() {
        for argument in value_samples() {
            let node = application(between.iter().map(copy).collect(), argument);
            for ctx in contexts() {
                let directives = apply::rule(ctx, &node).unwrap();
                assert_eq!(comments_written(&directives), comments_of(&node));
            }
        }
    }
}

#[test]
fn an_application_keeps_its_comments_in_order() {
    let node = application(
        vec![comment("# 1"), space("\n"), comment("/* 2 */"), space("\n"), comment("# 3")],
        wrapped(vec![comment("/* 4 */"), ident("x")]),
    );
    let directives = apply::rule(BuildContext { vertical: false, indent: 0 }, &node).unwrap();
    assert_eq!(comments_written(&directives), vec!["# 1", "/* 2 */", "# 3", "/* 4 */"]);
}

#[test]
fn a_comment_after_the_argument_is_not_written() {
    let node = Node {
        kind: Kind::NodeApply,
        children: vec![ident("f"), space(" "), ident("x"), space(" "), comment("# late")],
    };
    let directives = apply::rule(BuildContext { vertical: false, indent: 0 }, &node).unwrap();
    assert_eq!(comments_written(&directives), Vec::<String>::new());
    assert_eq!(comments_of(&node), vec!["# late"]);
}

#[test]
fn a_comment_outside_the_binding_is_not_written() {
    let ctx = BuildContext { vertical: false, indent: 0 };
    let late = Node {
        kind: Kind::NodeKeyValue,
        children: vec![
            ident("a"),
            token(Kind::TokenAssign, "="),
            ident("b"),
            token(Kind::TokenSemicolon, ";"),
            comment("# late"),
        ],
    };
    let directives = key_value::rule(ctx, &late, false).unwrap();
    assert_eq!(comments_written(&directives), Vec::<String>::new());
    assert_eq!(comments_of(&late), vec!["# late"]);

    let early = Node {
        kind: Kind::NodeKeyValue,
        children: vec![
            comment("/* early */"),
            ident("a"),
            token(Kind::TokenAssign, "="),
            ident("b"),
            token(Kind::TokenSemicolon, ";"),
        ],
    };
    let directives = key_value::rule(ctx, &early, false).unwrap();
    assert_eq!(comments_written(&directives), Vec::<String>::new());
    assert_eq!(
        directives,
        vec![
            Directive::FormatWide(&early.children[1]),
            Directive::Space,
            Directive::FormatCompact(&early.children[2]),
            Directive::Indent,
            Directive::NewLine,
            Directive::Pad,
            Directive::FormatWide(&early.children[3]),
            Directive::FormatCompact(&early.children[4]),
            Directive::Dedent,
        ]
    );
}

#[test]
fn the_same_input_gives_the_same_directives() {
    for node in binding_samples() {
        for ctx in contexts() {
            assert_eq!(key_value::rule(ctx, &node, true), key_value::rule(ctx, &node, true));
            let twin = Node {
                kind: Kind::NodeKeyValue,
                children: node.children.iter().map(copy).collect(),
            };
            let there = key_value::rule(ctx, &twin, true).unwrap();
            let here = key_value::rule(ctx, &node, true).unwrap();
            assert_eq!(here, there);
        }
    }
    for between in trivia_samples() {
        let node = application(between, ident("x"));
        for ctx in contexts() {
            assert_eq!(apply::rule(ctx, &node), apply::rule(ctx, &node));
        }
    }
}

#[test]
fn redundant_parens_never_show() {
    for before in trivia_samples() {
        for after in trivia_samples() {
            for inner in [ident("b"), of_kind(Kind::NodeApply), of_kind(Kind::NodeList)] {
                let plain = binding(
                    [vec![], before.iter().map(copy).collect(), after.iter().map(copy).collect()],
                    copy(&inner),
                );
                let parens = binding(
                    [vec![], before.iter().map(copy).collect(), after.iter().map(copy).collect()],
                    wrapped(vec![inner]),
                );
                for ctx in contexts() {
                    for answer in [false, true] {
                        assert_eq!(
                            key_value::rule(ctx, &parens, answer),
                            key_value::rule(ctx, &plain, answer)
                        );
                    }
                }
            }
        }
    }
}

#[test]
fn two_pairs_of_parens_are_not_one() {
    let one = binding([vec![], vec![], vec![]], wrapped(vec![ident("b")]));
    let two = binding([vec![], vec![], vec![]], wrapped(vec![wrapped(vec![ident("b")])]));
    let ctx = BuildContext { vertical: false, indent: 0 };
    assert_ne!(key_value::rule(ctx, &one, false), key_value::rule(ctx, &two, false));
}

#[test]
fn a_comment_always_forces_the_vertical_layout() {
    for node in binding_samples() {
        let holds_comment = node.children.iter().any(|child| child.is_comment());
        if !holds_comment {
            continue;
        }
        for answer in [false, true] {
            let free = key_value::rule(BuildContext { vertical: false, indent: 0 }, &node, answer)
                .unwrap();
            let forced =
                key_value::rule(BuildContext { vertical: true, indent: 0 }, &node, answer).unwrap();
            assert_eq!(free, forced);
            assert!(matches!(free[0], Directive::FormatWide(_)));
            assert!(!free.iter().any(|directive| matches!(directive, Directive::FormatCompact(
                element,
            ) if !matches!(element.kind(), Kind::TokenAssign | Kind::TokenSemicolon))));
        }
    }
}

#[test]
fn a_horizontal_binding_writes_no_comment_directive() {
    for node in binding_samples() {
        let directives =
            key_value::rule(BuildContext { vertical: false, indent: 0 }, &node, false).unwrap();
        if matches!(directives[0], Directive::FormatCompact(_)) {
            assert!(!node.children.iter().any(|child| child.is_comment()));
            assert!(!directives.iter().any(|directive| matches!(directive, Directive::Comment(_))));
        }
    }
}

#[test]
fn indent_and_dedent_always_balance() {
    for node in binding_samples() {
        for ctx in contexts() {
            for answer in [false, true] {
                let directives = key_value::rule(ctx, &node, answer).unwrap();
                let indents =
                    directives.iter().filter(|d| matches!(d, Directive::Indent)).count();
                let dedents =
                    directives.iter().filter(|d| matches!(d, Directive::Dedent)).count();
                assert_eq!(indents, dedents);
                assert!(indents <= 1);
                let profile = depths(&directives, 5);
                assert_eq!(*profile.last().unwrap(), 5);
                assert!(profile.iter().all(|depth| *depth == 5 || *depth == 6));
                if indents == 1 {
                    assert_eq!(directives.last(), Some(&Directive::Dedent));
                    let opened =
                        directives.iter().position(|d| matches!(d, Directive::Indent)).unwrap();
                    for (i, depth) in profile.iter().enumerate() {
                        let inside = opened < i && i < directives.len();
                        assert_eq!(*depth, if inside { 6 } else { 5 });
                    }
                }
            }
        }
    }
}

#[test]
fn pads_of_an_indented_value_are_one_level_deeper() {
    let node = binding(
        [vec![comment("# k"), space("\n")], vec![comment("# v"), space("\n")], vec![]],
        ident("b"),
    );
    let directives =
        key_value::rule(BuildContext { vertical: false, indent: 0 }, &node, false).unwrap();
    let profile = depths(&directives, 2);
    let pads: Vec<i64> = directives
        .iter()
        .enumerate()
        .filter(|(_, d)| matches!(d, Directive::Pad))
        .map(|(i, _)| profile[i])
        .collect();
    assert_eq!(pads, vec![2, 2, 3, 3]);
}

#[test]
fn an_application_never_changes_the_depth() {
    for between in trivia_samples() {
        let node = application(between, ident("x"));
        for ctx in contexts() {
            let directives = apply::rule(ctx, &node).unwrap();
            assert!(!directives
                .iter()
                .any(|d| matches!(d, Directive::Indent | Directive::Dedent)));
        }
    }
}
