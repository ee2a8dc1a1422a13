use sbasic::token::{Associativity, Token};

#[test]
fn keyword_table_maps_spellings() {
    assert!(matches!(Token::to_token("PRINT"), Some(Token::Print)));
    assert!(matches!(Token::to_token("INPUT"), Some(Token::Input)));
    assert!(matches!(Token::to_token("LET"), Some(Token::Let)));
    assert!(matches!(Token::to_token("REM"), Some(Token::Rem)));
    assert!(matches!(Token::to_token("IF"), Some(Token::If)));
    assert!(matches!(Token::to_token("THEN"), Some(Token::Then)));
    assert!(matches!(Token::to_token("GOTO"), Some(Token::Goto)));
    assert!(matches!(Token::to_token("END"), Some(Token::End)));
    assert!(matches!(Token::to_token("SCREEN"), Some(Token::Screen)));
    assert!(matches!(Token::to_token("CLEAR"), Some(Token::Clear)));
    assert!(matches!(Token::to_token("LINE"), Some(Token::Line)));
    assert!(matches!(Token::to_token("DOT"), Some(Token::Dot)));
    assert!(matches!(Token::to_token("CIRCLE"), Some(Token::Circle)));
    assert!(matches!(Token::to_token("TO"), Some(Token::To)));
    assert!(matches!(Token::to_token("To"), None));
    assert!(matches!(Token::to_token("<="), Some(Token::LessThanEqual)));
    assert!(matches!(Token::to_token("<>"), Some(Token::NotEqual)));
    assert!(matches!(Token::to_token("="), Some(Token::Equals)));
    assert!(matches!(Token::to_token("+"), Some(Token::Plus)));
    assert!(matches!(Token::to_token("!"), Some(Token::Bang)));
    assert!(matches!(Token::to_token("x"), None));
    assert!(matches!(Token::to_token(""), None));
}

#[test]
fn value_tokens_are_literals_and_variables() {
    assert!(Token::Number(1).is_value());
    assert!(Token::Text(String::from("t")).is_value());
    assert!(Token::Variable(String::from("v")).is_value());
    assert!(!Token::Plus.is_value());
    assert!(!Token::Print.is_value());
    assert!(!Token::Comment(String::from("c")).is_value());
}

#[test]
fn operator_classification() {
    for op in [
        Token::Plus,
        Token::Minus,
        Token::Multiply,
        Token::Divide,
        Token::Equals,
        Token::NotEqual,
        Token::LessThan,
        Token::GreaterThan,
        Token::LessThanEqual,
        Token::GreaterThanEqual,
        Token::Bang,
        Token::UnaryMinus,
    ] {
        assert!(op.is_operator());
    }
    assert!(!Token::Lparen.is_operator());
    assert!(!Token::Comma.is_operator());
    assert!(!Token::Then.is_operator());

    assert!(Token::Bang.is_unary_operator());
    assert!(Token::UnaryMinus.is_unary_operator());
    assert!(!Token::Minus.is_unary_operator());

    assert!(Token::Plus.is_binary_operator());
    assert!(Token::Equals.is_binary_operator());
    assert!(!Token::Bang.is_binary_operator());

    assert!(Token::Equals.is_comparison_operator());
    assert!(Token::GreaterThanEqual.is_comparison_operator());
    assert!(!Token::Plus.is_comparison_operator());
}

#[test]
fn precedence_orders_unary_above_factor_above_term_above_comparison() {
    let unary = Token::UnaryMinus.operator_precedence().unwrap();
    let bang = Token::Bang.operator_precedence().unwrap();
    let factor = Token::Multiply.operator_precedence().unwrap();
    let divide = Token::Divide.operator_precedence().unwrap();
    let term = Token::Plus.operator_precedence().unwrap();
    let minus = Token::Minus.operator_precedence().unwrap();
    let compare = Token::Equals.operator_precedence().unwrap();
    assert_eq!(unary, bang);
    assert_eq!(factor, divide);
    assert_eq!(term, minus);
    assert!(unary > factor);
    assert!(factor > term);
    assert!(term > compare);
}

#[test]
fn precedence_of_non_operator_is_an_error() {
    assert!(Token::Print.operator_precedence().is_err());
    assert!(Token::Number(3).operator_precedence().is_err());
}

#[test]
fn unary_operators_associate_right_everything_else_left() {
    assert_eq!(
        Token::UnaryMinus.operator_associativity().unwrap(),
        Associativity::Right
    );
    assert_eq!(Token::Bang.operator_associativity().unwrap(), Associativity::Right);
    assert_eq!(Token::Plus.operator_associativity().unwrap(), Associativity::Left);
    assert_eq!(Token::Equals.operator_associativity().unwrap(), Associativity::Left);
}
