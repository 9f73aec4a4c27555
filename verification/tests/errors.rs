use expr_eval::ast::Value;
use expr_eval::scanner::{scan_from_input, Scanner};
use expr_eval::tokens::TokenType;

fn message(text: &str) -> String {
    match Value::from_input(text) {
        Err(m) => m,
        Ok(v) => panic!("expected an error for {:?}, got {:?}", text, v),
    }
}

#[test]
fn test_stray_equals() {
    assert_eq!(message("1 = 2"), "Expected '=' to follow '=' character.");
}

#[test]
fn test_stray_ampersand() {
    assert_eq!(message("true & false"), "Expected '&' to follow '&' character.");
}

#[test]
fn test_stray_pipe() {
    assert_eq!(message("true | false"), "Expected '|' to follow '|' character.");
}

#[test]
fn test_two_decimal_points() {
    assert_eq!(message("1.2.3"), "Numbers may only have one decimal point.");
    assert_eq!(message("1.."), "Numbers may only have one decimal point.");
}

#[test]
fn test_lone_decimal_point() {
    assert_eq!(message("."), "Something went wrong when scanning number token.");
}

#[test]
fn test_unexpected_character() {
    assert_eq!(message("1 + @"), "Unexpected character '@' on line 1.");
    assert_eq!(message("#"), "Unexpected character '#' on line 1.");
}

#[test]
fn test_unexpected_character_line_counts_newlines() {
    assert_eq!(message("1 +\n@"), "Unexpected character '@' on line 2.");
    assert_eq!(message("1\n2\n\n$"), "Unexpected character '$' on line 4.");
}

#[test]
fn test_unknown_identifier() {
    assert_eq!(message("x"), "Identifiers are not supported yet. 'x' on line 1.");
    assert_eq!(message("1 + total"), "Identifiers are not supported yet. 'total' on line 1.");
}

#[test]
fn test_unknown_identifier_on_later_line() {
    assert_eq!(message("\n\nfoo"), "Identifiers are not supported yet. 'foo' on line 3.");
}

#[test]
fn test_unterminated_grouping() {
    assert_eq!(message("(1+2"), "Expected ')' after grouping expression.");
    assert_eq!(message("((1)"), "Expected ')' after grouping expression.");
}

#[test]
fn test_unexpected_token() {
    assert_eq!(message(""), "Unexpected token 'Eof' at line 1");
    assert_eq!(message("*2"), "Unexpected token 'Star' at line 1");
    assert_eq!(message("+1"), "Unexpected token 'Plus' at line 1");
    assert_eq!(message("1+"), "Unexpected token 'Eof' at line 1");
    assert_eq!(message("1+\n*"), "Unexpected token 'Star' at line 2");
}

#[test]
fn test_mixed_operand_types() {
    assert_eq!(
        message("1 + true"),
        "Left hand and right hand side of the expression are not of the same type.",
    );
    assert_eq!(
        message("false * 2"),
        "Left hand and right hand side of the expression are not of the same type.",
    );
}

#[test]
fn test_incompatible_unary_operand() {
    assert_eq!(message("-true"), "Incompatible operand type (Boolean) for operation 'Minus'.");
    assert_eq!(message("!1"), "Incompatible operand type (Number) for operation 'Not'.");
}

#[test]
fn test_wrong_operator_for_two_numbers() {
    assert_eq!(message("1 && 2"), "Cannot apply operator 'And' to two Numbers.");
    assert_eq!(message("1 || 2"), "Cannot apply operator 'Or' to two Numbers.");
}

#[test]
fn test_wrong_operator_for_two_booleans() {
    assert_eq!(message("true * false"), "Cannot apply operator 'Star' to two Booleans.");
    assert_eq!(message("true < false"), "Cannot apply operator 'LessThan' to two Booleans.");
}

#[test]
fn test_right_side_error_surfaces_first() {
    assert_eq!(message("(1&&2)+(true*false)"), "Cannot apply operator 'Star' to two Booleans.");
}

#[test]
fn test_shared_relational_level_folds_left() {
    // All seven logical/relational operators share one left-associative
    // level, so this folds to ((1<2)&&3)>2 and fails on mixed operands.
    assert_eq!(
        message("1<2 && 3>2"),
        "Left hand and right hand side of the expression are not of the same type.",
    );
}

#[test]
fn test_scanner_tokens_and_lines() {
    let tokens = scan_from_input("1 <=\ntwo").unwrap();
    let kinds: Vec<TokenType> = tokens.iter().map(|t| t.token_type).collect();
    assert_eq!(
        kinds,
        vec![
            TokenType::Number(1f64.to_bits()),
            TokenType::LessThanEqual,
            TokenType::Identifier,
            TokenType::Eof,
        ],
    );
    assert_eq!(tokens[0].lexeme, "1");
    assert_eq!(tokens[0].line, 1);
    assert_eq!(tokens[1].lexeme, "<=");
    assert_eq!(tokens[1].line, 1);
    assert_eq!(tokens[2].lexeme, "two");
    assert_eq!(tokens[2].line, 2);
    assert_eq!(tokens[3].lexeme, "");
    assert_eq!(tokens[3].line, 2);
}

#[test]
fn test_scanner_new_then_scan() {
    let mut scanner = Scanner::new("(,)");
    let tokens = scanner.scan_tokens().unwrap();
    let kinds: Vec<TokenType> = tokens.iter().map(|t| t.token_type).collect();
    assert_eq!(
        kinds,
        vec![TokenType::LeftParen, TokenType::Comma, TokenType::RightParen, TokenType::Eof],
    );
}

#[test]
fn test_scan_error_stops_the_pipeline() {
    assert!(scan_from_input("1 ? 2").is_err());
    assert_eq!(message("1 ? 2"), "Unexpected character '?' on line 1.");
}
