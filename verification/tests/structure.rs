use math_cst::builder::TreeBuilder;
use math_cst::eval::{eval, parse_i32};
use math_cst::kinds::{MathLanguage, SyntaxKind};
use math_cst::parser::find_top_level_operator;
use math_cst::render::render;
use math_cst::tree::{source_text, SyntaxElement, SyntaxNode, SyntaxToken};

fn literal(text: &str) -> SyntaxElement {
    SyntaxElement::Node(SyntaxNode {
        kind: SyntaxKind::LiteralExpr,
        children: vec![SyntaxElement::Token(SyntaxToken {
            kind: SyntaxKind::Number,
            text: String::from(text),
        })],
    })
}

fn binary(left: &str, op: SyntaxKind, op_text: &str, right: &str) -> SyntaxNode {
    SyntaxNode {
        kind: SyntaxKind::BinaryExpr,
        children: vec![
            literal(left),
            SyntaxElement::Token(SyntaxToken { kind: op, text: String::from(op_text) }),
            literal(right),
        ],
    }
}

#[test]
fn kind_raw_conversions() {
    assert_eq!(MathLanguage::kind_to_raw(SyntaxKind::Number), 0);
    assert_eq!(MathLanguage::kind_to_raw(SyntaxKind::Error), 8);
    assert_eq!(MathLanguage::kind_to_raw(SyntaxKind::Root), 12);
    assert_eq!(MathLanguage::kind_from_raw(9), SyntaxKind::BinaryExpr);
    assert_eq!(MathLanguage::kind_from_raw(0), SyntaxKind::Number);
    for raw in 0..=12u16 {
        assert_eq!(MathLanguage::kind_to_raw(MathLanguage::kind_from_raw(raw)), raw);
    }
}

#[test]
fn find_operator_outside_parentheses() {
    assert_eq!(find_top_level_operator("2+(3-4)", &['+', '-']), Some(1));
    assert_eq!(find_top_level_operator("(3-4)", &['+', '-']), None);
    assert_eq!(find_top_level_operator("2*3+4", &['+', '-']), Some(3));
    assert_eq!(find_top_level_operator("2*3+4", &['*', '/']), Some(1));
    assert_eq!(find_top_level_operator("1-2-3", &['+', '-']), Some(3));
    assert_eq!(find_top_level_operator("", &['+', '-']), None);
}

#[test]
fn builder_protocol_produces_the_tree() {
    let mut builder = TreeBuilder::new();
    builder.start_node(SyntaxKind::Root);
    builder.start_node(SyntaxKind::LiteralExpr);
    builder.token(SyntaxKind::Number, "7");
    builder.finish_node();
    builder.finish_node();
    let tree = builder.finish();
    assert_eq!(tree.kind, SyntaxKind::Root);
    assert_eq!(tree.children.len(), 1);
    assert_eq!(source_text(&tree), "7");
    assert_eq!(eval(&tree), Some(7));
}

#[test]
fn negative_division_truncates_towards_zero() {
    let tree = binary("-7", SyntaxKind::Slash, "/", "2");
    assert_eq!(eval(&tree), Some(-3));
    let tree = binary("7", SyntaxKind::Slash, "/", "-2");
    assert_eq!(eval(&tree), Some(-3));
    let tree = binary("-7", SyntaxKind::Slash, "/", "-2");
    assert_eq!(eval(&tree), Some(3));
}

#[test]
fn division_overflow_fails() {
    let tree = binary("-2147483648", SyntaxKind::Slash, "/", "-1");
    assert_eq!(eval(&tree), None);
    let tree = binary("-2147483648", SyntaxKind::Slash, "/", "1");
    assert_eq!(eval(&tree), Some(-2147483648));
}

#[test]
fn malformed_binary_node_fails() {
    let missing_right = SyntaxNode {
        kind: SyntaxKind::BinaryExpr,
        children: vec![
            literal("1"),
            SyntaxElement::Token(SyntaxToken { kind: SyntaxKind::Plus, text: String::from("+") }),
        ],
    };
    assert_eq!(eval(&missing_right), None);
    let missing_operator = SyntaxNode {
        kind: SyntaxKind::BinaryExpr,
        children: vec![literal("1"), literal("2")],
    };
    assert_eq!(eval(&missing_operator), None);
}

#[test]
fn empty_root_fails() {
    let empty = SyntaxNode { kind: SyntaxKind::Root, children: vec![] };
    assert_eq!(eval(&empty), None);
    let token_kind_node = SyntaxNode { kind: SyntaxKind::Whitespace, children: vec![] };
    assert_eq!(eval(&token_kind_node), None);
}

#[test]
fn parse_i32_accepts_signs_and_rejects_junk() {
    assert_eq!(parse_i32("123"), Some(123));
    assert_eq!(parse_i32("+7"), Some(7));
    assert_eq!(parse_i32("-45"), Some(-45));
    assert_eq!(parse_i32("2147483647"), Some(2147483647));
    assert_eq!(parse_i32("-2147483648"), Some(-2147483648));
    assert_eq!(parse_i32("2147483648"), None);
    assert_eq!(parse_i32("-2147483649"), None);
    assert_eq!(parse_i32(""), None);
    assert_eq!(parse_i32("+"), None);
    assert_eq!(parse_i32("12a"), None);
    assert_eq!(parse_i32(" 3"), None);
}

#[test]
fn render_lists_every_element_in_document_order() {
    let mut parser = math_cst::parser::AstParser::new();
    let tree = parser.parse("2+3");
    let lines = render(&tree, 0);
    assert_eq!(lines.len(), 7);
    assert_eq!(lines[0].kind, SyntaxKind::Root);
    assert_eq!(lines[0].indent, 0);
    assert!(!lines[0].token);
    assert_eq!(lines[1].kind, SyntaxKind::BinaryExpr);
    assert_eq!(lines[1].indent, 2);
    assert_eq!(lines[2].kind, SyntaxKind::LiteralExpr);
    assert_eq!(lines[2].indent, 4);
    assert_eq!(lines[3].kind, SyntaxKind::Number);
    assert!(lines[3].token);
    assert_eq!(lines[3].text, "2");
    assert_eq!(lines[4].kind, SyntaxKind::Plus);
    assert_eq!(lines[4].indent, 2);
    assert_eq!(lines[4].text, "+");
    assert_eq!(lines[5].kind, SyntaxKind::LiteralExpr);
    assert_eq!(lines[6].kind, SyntaxKind::Number);
    assert_eq!(lines[6].text, "3");
}

#[test]
fn parser_is_reusable() {
    let mut parser = math_cst::parser::AstParser::new();
    let first = parser.parse("1+1");
    let second = parser.parse("2*2");
    assert_eq!(eval(&first), Some(2));
    assert_eq!(eval(&second), Some(4));
}
