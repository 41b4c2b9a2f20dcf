use alejandra::directive::BuildContext;
use alejandra::directive::Directive;
use alejandra::rules::apply;
use alejandra::rules::key_value;
use alejandra::syntax::Element;
use alejandra::syntax::Kind;
use alejandra::syntax::Node;
use alejandra::syntax::Token;
use rnix::SyntaxKind;

fn kind_of(kind: SyntaxKind) -> Kind {
    match kind {
        SyntaxKind::TOKEN_COMMENT => Kind::TokenComment,
        SyntaxKind::TOKEN_ERROR => Kind::TokenError,
        SyntaxKind::TOKEN_WHITESPACE => Kind::TokenWhitespace,
        SyntaxKind::TOKEN_ASSERT => Kind::TokenAssert,
        SyntaxKind::TOKEN_ELSE => Kind::TokenElse,
        SyntaxKind::TOKEN_IF => Kind::TokenIf,
        SyntaxKind::TOKEN_IN => Kind::TokenIn,
        SyntaxKind::TOKEN_INHERIT => Kind::TokenInherit,
        SyntaxKind::TOKEN_LET => Kind::TokenLet,
        SyntaxKind::TOKEN_REC => Kind::TokenRec,
        SyntaxKind::TOKEN_THEN => Kind::TokenThen,
        SyntaxKind::TOKEN_WITH => Kind::TokenWith,
        SyntaxKind::TOKEN_CURLY_B_OPEN => Kind::TokenCurlyBOpen,
        SyntaxKind::TOKEN_CURLY_B_CLOSE => Kind::TokenCurlyBClose,
        SyntaxKind::TOKEN_SQUARE_B_OPEN => Kind::TokenSquareBOpen,
        SyntaxKind::TOKEN_SQUARE_B_CLOSE => Kind::TokenSquareBClose,
        SyntaxKind::TOKEN_ASSIGN => Kind::TokenAssign,
        SyntaxKind::TOKEN_AT => Kind::TokenAt,
        SyntaxKind::TOKEN_COLON => Kind::TokenColon,
        SyntaxKind::TOKEN_COMMA => Kind::TokenComma,
        SyntaxKind::TOKEN_DOT => Kind::TokenDot,
        SyntaxKind::TOKEN_ELLIPSIS => Kind::TokenEllipsis,
        SyntaxKind::TOKEN_QUESTION => Kind::TokenQuestion,
        SyntaxKind::TOKEN_SEMICOLON => Kind::TokenSemicolon,
        SyntaxKind::TOKEN_PAREN_OPEN => Kind::TokenParenOpen,
        SyntaxKind::TOKEN_PAREN_CLOSE => Kind::TokenParenClose,
        SyntaxKind::TOKEN_CONCAT => Kind::TokenConcat,
        SyntaxKind::TOKEN_INVERT => Kind::TokenInvert,
        SyntaxKind::TOKEN_UPDATE => Kind::TokenUpdate,
        SyntaxKind::TOKEN_ADD => Kind::TokenAdd,
        SyntaxKind::TOKEN_SUB => Kind::TokenSub,
        SyntaxKind::TOKEN_MUL => Kind::TokenMul,
        SyntaxKind::TOKEN_DIV => Kind::TokenDiv,
        SyntaxKind::TOKEN_AND => Kind::TokenAnd,
        SyntaxKind::TOKEN_EQUAL => Kind::TokenEqual,
        SyntaxKind::TOKEN_IMPLICATION => Kind::TokenImplication,
        SyntaxKind::TOKEN_LESS => Kind::TokenLess,
        SyntaxKind::TOKEN_LESS_OR_EQ => Kind::TokenLessOrEq,
        SyntaxKind::TOKEN_MORE => Kind::TokenMore,
        SyntaxKind::TOKEN_MORE_OR_EQ => Kind::TokenMoreOrEq,
        SyntaxKind::TOKEN_NOT_EQUAL => Kind::TokenNotEqual,
        SyntaxKind::TOKEN_OR => Kind::TokenOr,
        SyntaxKind::TOKEN_DYNAMIC_END => Kind::TokenDynamicEnd,
        SyntaxKind::TOKEN_DYNAMIC_START => Kind::TokenDynamicStart,
        SyntaxKind::TOKEN_FLOAT => Kind::TokenFloat,
        SyntaxKind::TOKEN_IDENT => Kind::TokenIdent,
        SyntaxKind::TOKEN_INTEGER => Kind::TokenInteger,
        SyntaxKind::TOKEN_INTERPOL_END => Kind::TokenInterpolEnd,
        SyntaxKind::TOKEN_INTERPOL_START => Kind::TokenInterpolStart,
        SyntaxKind::TOKEN_PATH => Kind::TokenPath,
        SyntaxKind::TOKEN_URI => Kind::TokenUri,
        SyntaxKind::TOKEN_STRING_CONTENT => Kind::TokenStringContent,
        SyntaxKind::TOKEN_STRING_END => Kind::TokenStringEnd,
        SyntaxKind::TOKEN_STRING_START => Kind::TokenStringStart,
        SyntaxKind::NODE_APPLY => Kind::NodeApply,
        SyntaxKind::NODE_ASSERT => Kind::NodeAssert,
        SyntaxKind::NODE_KEY => Kind::NodeKey,
        SyntaxKind::NODE_DYNAMIC => Kind::NodeDynamic,
        SyntaxKind::NODE_ERROR => Kind::NodeError,
        SyntaxKind::NODE_IDENT => Kind::NodeIdent,
        SyntaxKind::NODE_IF_ELSE => Kind::NodeIfElse,
        SyntaxKind::NODE_SELECT => Kind::NodeSelect,
        SyntaxKind::NODE_INHERIT => Kind::NodeInherit,
        SyntaxKind::NODE_INHERIT_FROM => Kind::NodeInheritFrom,
        SyntaxKind::NODE_STRING => Kind::NodeString,
        SyntaxKind::NODE_STRING_INTERPOL => Kind::NodeStringInterpol,
        SyntaxKind::NODE_LAMBDA => Kind::NodeLambda,
        SyntaxKind::NODE_LEGACY_LET => Kind::NodeLegacyLet,
        SyntaxKind::NODE_LET_IN => Kind::NodeLetIn,
        SyntaxKind::NODE_LIST => Kind::NodeList,
        SyntaxKind::NODE_BIN_OP => Kind::NodeBinOp,
        SyntaxKind::NODE_OR_DEFAULT => Kind::NodeOrDefault,
        SyntaxKind::NODE_PAREN => Kind::NodeParen,
        SyntaxKind::NODE_PATTERN => Kind::NodePattern,
        SyntaxKind::NODE_PAT_BIND => Kind::NodePatBind,
        SyntaxKind::NODE_PAT_ENTRY => Kind::NodePatEntry,
        SyntaxKind::NODE_ROOT => Kind::NodeRoot,
        SyntaxKind::NODE_ATTR_SET => Kind::NodeAttrSet,
        SyntaxKind::NODE_KEY_VALUE => Kind::NodeKeyValue,
        SyntaxKind::NODE_UNARY_OP => Kind::NodeUnaryOp,
        SyntaxKind::NODE_LITERAL => Kind::NodeLiteral,
        SyntaxKind::NODE_WITH => Kind::NodeWith,
        SyntaxKind::NODE_PATH_WITH_INTERPOL => Kind::NodePathWithInterpol,
        _ => panic!("not a kind of the grammar"),
    }
}

fn lower_node(node: &rnix::SyntaxNode) -> Node {
    Node {
        kind: kind_of(node.kind()),
        children: node.children_with_tokens().map(|child| lower(&child)).collect(),
    }
}

fn lower(element: &rnix::SyntaxElement) -> Element {
    match element {
        rnix::NodeOrToken::Node(node) => Element::Node(lower_node(node)),
        rnix::NodeOrToken::Token(token) => {
            Element::Token(Token { kind: kind_of(token.kind()), text: token.text().to_string() })
        }
    }
}

fn first(source: &str, kind: SyntaxKind) -> Node {
    let root = rnix::parse(source).node();
    let found = root.descendants().find(|node| node.kind() == kind);
    match found {
        Some(node) => lower_node(&node),
        None => panic!("the source holds no such node"),
    }
}

fn source_of(element: &Element, out: &mut String) {
    match element {
        Element::Token(token) => out.push_str(&token.text),
        Element::Node(node) => {
            for child in &node.children {
                source_of(child, out);
            }
        }
    }
}

fn show(directives: &[Directive]) -> Vec<String> {
    directives
        .iter()
        .map(|directive| match directive {
            Directive::FormatCompact(element) => {
                let mut text = String::from("compact ");
                source_of(element, &mut text);
                text
            }
            Directive::FormatWide(element) => {
                let mut text = String::from("wide ");
                source_of(element, &mut text);
                text
            }
            Directive::Space => String::from("space"),
            Directive::NewLine => String::from("newline"),
            Directive::Pad => String::from("pad"),
            Directive::Indent => String::from("indent"),
            Directive::Dedent => String::from("dedent"),
            Directive::Comment(text) => format!("comment {}", text),
        })
        .collect()
}

fn horizontal() -> BuildContext {
    BuildContext { vertical: false, indent: 0 }
}

fn vertical() -> BuildContext {
    BuildContext { vertical: true, indent: 0 }
}

#[test]
fn parsed_binding_has_the_shape_the_rule_reads() {
    let node = first("{ a = b; }", SyntaxKind::NODE_KEY_VALUE);
    let kinds: Vec<Kind> = node.children.iter().map(|child| child.kind()).collect();
    assert_eq!(
        kinds,
        vec![
            Kind::NodeKey,
            Kind::TokenWhitespace,
            Kind::TokenAssign,
            Kind::TokenWhitespace,
            Kind::NodeIdent,
            Kind::TokenSemicolon,
        ]
    );
}

#[test]
fn parsed_plain_binding() {
    let node = first("{ a = b; }", SyntaxKind::NODE_KEY_VALUE);
    let directives = key_value::rule(horizontal(), &node, false).unwrap();
    assert_eq!(show(&directives), ["compact a", "space", "compact =", "space", "compact b", "compact ;"]);
}

#[test]
fn parsed_binding_with_three_line_block_comment() {
    let node = first("{ a = /*\n  x\n*/ b; }", SyntaxKind::NODE_KEY_VALUE);
    let directives = key_value::rule(horizontal(), &node, false).unwrap();
    assert_eq!(
        show(&directives),
        ["wide a", "space", "compact =", "space", "comment /*\n  x\n*/", "space", "wide b", "compact ;"]
    );
}

#[test]
fn parsed_binding_with_line_comment() {
    let node = first("{ a = # trailing\nb; }", SyntaxKind::NODE_KEY_VALUE);
    let directives = key_value::rule(horizontal(), &node, false).unwrap();
    assert_eq!(
        show(&directives),
        [
            "wide a",
            "space",
            "compact =",
            "indent",
            "newline",
            "pad",
            "newline",
            "pad",
            "comment # trailing",
            "wide b",
            "compact ;",
            "dedent",
        ]
    );
}

#[test]
fn parsed_binding_with_parens() {
    let node = first("{ a = (b); }", SyntaxKind::NODE_KEY_VALUE);
    let directives = key_value::rule(horizontal(), &node, false).unwrap();
    assert_eq!(show(&directives), ["compact a", "space", "compact =", "space", "compact b", "compact ;"]);
    let plain = first("{ a = b; }", SyntaxKind::NODE_KEY_VALUE);
    assert_eq!(show(&directives), show(&key_value::rule(horizontal(), &plain, false).unwrap()));
}

#[test]
fn parsed_binding_with_spaced_parens_keeps_them() {
    let node = first("{ a = ( b ); }", SyntaxKind::NODE_KEY_VALUE);
    let directives = key_value::rule(horizontal(), &node, false).unwrap();
    assert_eq!(
        show(&directives),
        ["compact a", "space", "compact =", "space", "compact ( b )", "compact ;"]
    );
}

#[test]
fn parsed_binding_over_two_lines() {
    let node = first("{\n  a =\n    [ 1 2 ];\n}", SyntaxKind::NODE_KEY_VALUE);
    let directives = key_value::rule(horizontal(), &node, false).unwrap();
    assert_eq!(
        show(&directives),
        ["wide a", "space", "compact =", "space", "wide [ 1 2 ]", "compact ;"]
    );
}

#[test]
fn parsed_binding_of_an_application_asks_for_inspection() {
    let node = first("{ a = f x; }", SyntaxKind::NODE_KEY_VALUE);
    assert_eq!(key_value::inspected_value(horizontal(), &node), None);
    let asked = key_value::inspected_value(vertical(), &node);
    assert_eq!(asked.map(|value| value.kind()), Some(Kind::NodeApply));
    assert_eq!(
        show(&key_value::rule(vertical(), &node, true).unwrap()),
        ["wide a", "space", "compact =", "space", "wide f x", "compact ;"]
    );
    assert_eq!(
        show(&key_value::rule(vertical(), &node, false).unwrap()),
        [
            "wide a",
            "space",
            "compact =",
            "indent",
            "newline",
            "pad",
            "wide f x",
            "compact ;",
            "dedent",
        ]
    );
}

#[test]
fn parsed_plain_application() {
    let node = first("f (x)", SyntaxKind::NODE_APPLY);
    let directives = apply::rule(horizontal(), &node).unwrap();
    assert_eq!(show(&directives), ["compact f", "space", "compact (x)"]);
}

#[test]
fn parsed_application_with_blank_line_and_comment() {
    let node = first("f\n\n  # note\n  x", SyntaxKind::NODE_APPLY);
    let directives = apply::rule(horizontal(), &node).unwrap();
    assert_eq!(
        show(&directives),
        ["wide f", "newline", "pad", "comment # note", "newline", "pad", "wide x"]
    );
}

#[test]
fn parsed_application_with_trailing_comment() {
    let node = first("f # note\n  x", SyntaxKind::NODE_APPLY);
    let directives = apply::rule(horizontal(), &node).unwrap();
    assert_eq!(
        show(&directives),
        [
            "wide f",
            "space",
            "comment # note",
            "newline",
            "pad",
            "newline",
            "pad",
            "wide x",
        ]
    );
}

#[test]
fn parsed_application_in_vertical_context() {
    let node = first("f { }", SyntaxKind::NODE_APPLY);
    assert_eq!(
        show(&apply::rule(vertical(), &node).unwrap()),
        ["wide f", "space", "wide { }"]
    );
    let node = first("f x", SyntaxKind::NODE_APPLY);
    assert_eq!(
        show(&apply::rule(vertical(), &node).unwrap()),
        ["wide f", "newline", "pad", "wide x"]
    );
}
