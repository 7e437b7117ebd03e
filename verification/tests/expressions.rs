use math_cst::eval::eval;
use math_cst::kinds::SyntaxKind;
use math_cst::parser::AstParser;
use math_cst::tree::{source_text, SyntaxElement, SyntaxNode};

fn eval_str(input: &str) -> Option<i32> {
    let mut parser = AstParser::new();
    let tree = parser.parse(input);
    eval(&tree)
}

fn parse_str(input: &str) -> SyntaxNode {
    let mut parser = AstParser::new();
    parser.parse(input)
}

fn first_node_child(node: &SyntaxNode) -> &SyntaxNode {
    for child in node.children.iter() {
        if let SyntaxElement::Node(m) = child {
            return m;
        }
    }
    panic!("no node child");
}

#[test]
fn left_associativity_structure() {
    let tree = parse_str("8 - 3 - 2");
    assert_eq!(tree.kind, SyntaxKind::Root);
    let top = first_node_child(&tree);
    assert_eq!(top.kind, SyntaxKind::BinaryExpr);
    let left = first_node_child(top);
    assert_eq!(left.kind, SyntaxKind::BinaryExpr);
    assert_eq!(source_text(left), "8 - 3");
    assert_eq!(eval_str("8 - 3 - 2"), Some(3));
}

#[test]
fn precedence_multiplication_binds_tighter() {
    assert_eq!(eval_str("2 + 3 * 4"), Some(14));
}

#[test]
fn parenthesis_override() {
    assert_eq!(eval_str("(2 + 3) * 4"), Some(20));
}

#[test]
fn given_example() {
    assert_eq!(eval_str("22 * (42 + 33)"), Some(1650));
}

#[test]
fn division_by_zero_fails() {
    assert_eq!(eval_str("5 / 0"), None);
}

#[test]
fn division_truncates() {
    assert_eq!(eval_str("7 / 2"), Some(3));
    assert_eq!(eval_str("9 / 3"), Some(3));
}

#[test]
fn evaluation_is_idempotent() {
    let tree = parse_str("2 + 3 * 4");
    let first = eval(&tree);
    let second = eval(&tree);
    assert_eq!(first, Some(14));
    assert_eq!(first, second);
}

#[test]
fn whitespace_insensitive_value_sensitive_text() {
    let spaced = parse_str(" 2 + 3 ");
    let tight = parse_str("2+3");
    assert_eq!(eval(&spaced), Some(5));
    assert_eq!(eval(&tight), Some(5));
    let spaced_text = source_text(&spaced);
    let tight_text = source_text(&tight);
    assert_eq!(spaced_text, "2 + 3");
    assert_eq!(tight_text, "2+3");
    assert_ne!(spaced_text, tight_text);
}

#[test]
fn round_trip_without_whitespace() {
    for input in ["8-3-2", "2+3*4", "(2+3)*4", "22*(42+33)", "((7))", "5/0", "123"] {
        let tree = parse_str(input);
        assert_eq!(source_text(&tree), *input);
    }
}

#[test]
fn nested_operand_whitespace_is_dropped_from_text() {
    let tree = parse_str("22 * (42 + 33)");
    assert_eq!(source_text(&tree), "22 *(42 + 33)");
}

#[test]
fn single_number() {
    assert_eq!(eval_str("42"), Some(42));
    assert_eq!(eval_str("  42  "), Some(42));
}

#[test]
fn empty_input_fails_evaluation() {
    assert_eq!(eval_str(""), None);
    assert_eq!(eval_str("   "), None);
}

#[test]
fn non_numeric_literal_fails() {
    assert_eq!(eval_str("abc"), None);
    assert_eq!(eval_str("2 + abc"), None);
}

#[test]
fn addition_overflow_fails() {
    assert_eq!(eval_str("2147483647 + 1"), None);
    assert_eq!(eval_str("2147483647 + 0"), Some(2147483647));
}

#[test]
fn multiplication_overflow_fails() {
    assert_eq!(eval_str("65536 * 65536"), None);
    assert_eq!(eval_str("65536 * 32767"), Some(2147418112));
}

#[test]
fn literal_overflow_fails() {
    assert_eq!(eval_str("2147483648"), None);
    assert_eq!(eval_str("99999999999999999999"), None);
}

#[test]
fn deep_nesting() {
    assert_eq!(eval_str("((((5))))"), Some(5));
    assert_eq!(eval_str("(1 + (2 * (3 + 4)))"), Some(15));
}

#[test]
fn chained_operators() {
    assert_eq!(eval_str("1 + 2 + 3 + 4"), Some(10));
    assert_eq!(eval_str("100 / 5 / 2"), Some(10));
    assert_eq!(eval_str("2 * 3 * 4"), Some(24));
}
