use expr_eval::ast::{Node, Value};
use expr_eval::interpreter::evaluate;
use expr_eval::parser::{parse_from_input, Parser};
use expr_eval::tokens::{Token, TokenType};

fn bits(x: f64) -> u64 {
    x.to_bits()
}

fn number(text: &str) -> u64 {
    match Value::from_input(text) {
        Ok(Value::Number(b)) => b,
        other => panic!("expected a number for {:?}, got {:?}", text, other),
    }
}

fn boolean(text: &str) -> bool {
    match Value::from_input(text) {
        Ok(Value::Boolean(b)) => b,
        other => panic!("expected a boolean for {:?}, got {:?}", text, other),
    }
}

#[test]
fn test() {
    assert_eq!(Value::from_input("1+1"), Ok(Value::Number(bits(2.0))));
}

#[test]
fn test_numeric_literals() {
    assert_eq!(number("42"), bits(42.0));
    assert_eq!(number("1.5"), bits(1.5));
    assert_eq!(number(".5"), bits(0.5));
    assert_eq!(number("3."), bits(3.0));
    assert_eq!(number("0"), bits(0.0));
    assert_eq!(number("0.1"), bits(0.1));
    assert_eq!(number("123456789.25"), bits(123456789.25));
}

#[test]
fn test_precedence() {
    assert_eq!(number("1+2*3"), bits(7.0));
    assert_eq!(number("(1+2)*3"), bits(9.0));
}

#[test]
fn test_power_left_associative() {
    assert_eq!(number("2^3^2"), bits(64.0));
    assert_ne!(number("2^3^2"), bits(512.0));
}

#[test]
fn test_unary_binds_tighter_than_power() {
    assert_eq!(number("-2^2"), bits(4.0));
}

#[test]
fn test_relational() {
    assert_eq!(boolean("1==1"), true);
    assert_eq!(boolean("1<2"), true);
    assert_eq!(boolean("2<1"), false);
    assert_eq!(boolean("1<=1"), true);
    assert_eq!(boolean("2>1"), true);
    assert_eq!(boolean("1>=2"), false);
    assert_eq!(boolean("1!=1"), false);
    assert_eq!(boolean("0!=1"), true);
    assert_eq!(boolean("0==1"), false);
}

#[test]
fn test_boolean_operators() {
    assert_eq!(boolean("true == true"), true);
    assert_eq!(boolean("true != false"), true);
    assert_eq!(boolean("true || false"), true);
    assert_eq!(boolean("true && false"), false);
    assert_eq!(boolean("!false"), true);
    assert_eq!(boolean("!!true"), true);
}

#[test]
fn test_arithmetic() {
    assert_eq!(number("5-2"), bits(3.0));
    assert_eq!(number("2*3"), bits(6.0));
    assert_eq!(number("7/2"), bits(3.5));
    assert_eq!(number("2^10"), bits(1024.0));
    assert_eq!(number("4^0.5"), bits(2.0));
    assert_eq!(number("-3"), bits(-3.0));
    assert_eq!(number("--2"), bits(2.0));
    assert_eq!(number("1.5+1.25"), bits(2.75));
}

#[test]
fn test_division_by_zero_is_infinite_or_nan() {
    assert_eq!(number("1/0"), bits(f64::INFINITY));
    assert_eq!(number("-1/0"), bits(f64::NEG_INFINITY));
    assert!(f64::from_bits(number("0/0")).is_nan());
}

#[test]
fn test_nan_compares_unequal() {
    assert_eq!(boolean("0/0 == 0/0"), false);
    assert_eq!(boolean("0/0 != 0/0"), true);
    assert_eq!(boolean("0/0 < 1"), false);
    assert_eq!(boolean("0/0 >= 1"), false);
}

#[test]
fn test_grouping_is_transparent() {
    assert_eq!(number("(((5)))"), bits(5.0));
    assert_eq!(number("2*(3+4)"), bits(14.0));
}

#[test]
fn test_trailing_tokens_are_ignored() {
    assert_eq!(number("1 2"), bits(1.0));
    assert_eq!(number("1)"), bits(1.0));
}

#[test]
fn test_repeat_evaluation() {
    let a = Value::from_input("2^3^2 - 1/0");
    let b = Value::from_input("2^3^2 - 1/0");
    assert_eq!(a, b);
    let c = Value::from_input("(1+2");
    let d = Value::from_input("(1+2");
    assert_eq!(c, d);
}

#[test]
fn test_whitespace_is_skipped() {
    assert_eq!(number("  1\t+\r2  "), bits(3.0));
    assert_eq!(number("1\n+\n2"), bits(3.0));
}

#[test]
fn test_parse_from_input_builds_a_tree() {
    let node = parse_from_input("1+2").unwrap();
    assert!(matches!(node, Node::BinaryExpr { operator: TokenType::Plus, .. }));
    let node = parse_from_input("(1)").unwrap();
    assert!(matches!(node, Node::GroupingExpr { .. }));
    let node = parse_from_input("-1").unwrap();
    assert!(matches!(node, Node::UnaryExpr { operator: TokenType::Minus, .. }));
}

#[test]
fn test_parser_on_hand_built_tokens() {
    let tokens = vec![
        Token::new(TokenType::Number(bits(2.0)), "2".to_string(), 1),
        Token::new(TokenType::Plus, "+".to_string(), 1),
        Token::new(TokenType::Number(bits(3.0)), "3".to_string(), 1),
        Token::new(TokenType::Eof, String::new(), 1),
    ];
    let mut parser = Parser::new(tokens);
    let node = parser.parse().unwrap();
    assert_eq!(evaluate(&node), Ok(Value::Number(bits(5.0))));
}

#[test]
fn test_evaluate_hand_built_tree() {
    let tree = Node::BinaryExpr {
        operator: TokenType::Star,
        lhs: Box::new(Node::Number(bits(6.0))),
        rhs: Box::new(Node::Number(bits(7.0))),
    };
    assert_eq!(evaluate(&tree), Ok(Value::Number(bits(42.0))));
    assert_eq!(evaluate(&Node::Boolean(true)), Ok(Value::Boolean(true)));
}
