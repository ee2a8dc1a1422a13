use sbasic::lexer::tokenize_line;
use sbasic::parser::{parse, parse_and_eval};
use sbasic::token::Token;
use sbasic::value_type::{EvalError, ValueType, VariableStore};

/// The (column, token) pairs of a statement, leading keyword dropped.
fn expr_tokens(line: &str) -> Vec<(u32, Token)> {
    let mut inst = tokenize_line(line).expect("line should tokenize");
    inst.tokens.remove(0);
    inst.tokens
}

fn rpn_kinds(tokens: &[(u32, Token)]) -> Vec<String> {
    let (rpn, _) = parse(tokens, 0).expect("expression should parse");
    rpn.iter().map(|t| format!("{:?}", t)).collect()
}

#[test]
fn multiplication_binds_tighter_than_addition() {
    let toks = expr_tokens("10 PRINT 2 + 3 * 4");
    assert_eq!(
        rpn_kinds(&toks),
        vec!["Number(2)", "Number(3)", "Number(4)", "Multiply", "Plus"]
    );
}

#[test]
fn equal_precedence_associates_left() {
    let toks = expr_tokens("10 PRINT 10 - 4 - 3");
    assert_eq!(
        rpn_kinds(&toks),
        vec!["Number(10)", "Number(4)", "Minus", "Number(3)", "Minus"]
    );
}

#[test]
fn parentheses_override_precedence() {
    let toks = expr_tokens("10 PRINT ( 2 + 3 ) * 4");
    assert_eq!(
        rpn_kinds(&toks),
        vec!["Number(2)", "Number(3)", "Plus", "Number(4)", "Multiply"]
    );
}

#[test]
fn comparison_binds_loosest() {
    let toks = expr_tokens("10 IF 1 + 2 = 3");
    assert_eq!(
        rpn_kinds(&toks),
        vec!["Number(1)", "Number(2)", "Plus", "Number(3)", "Equals"]
    );
}

#[test]
fn rpn_is_invariant_under_whitespace_width() {
    let narrow = expr_tokens("10 PRINT (1 + 2) * 3 = 9");
    let wide = expr_tokens("10   PRINT   (  1   +  2 )   *   3   =   9");
    assert_eq!(rpn_kinds(&narrow), rpn_kinds(&wide));
}

#[test]
fn parsing_stops_at_then_without_consuming_it() {
    let toks = expr_tokens("10 IF 1 = 2 THEN 30");
    let (rpn, stop) = parse(&toks, 0).expect("expression should parse");
    let kinds: Vec<String> = rpn.iter().map(|t| format!("{:?}", t)).collect();
    assert_eq!(kinds, vec!["Number(1)", "Number(2)", "Equals"]);
    assert!(matches!(toks[stop].1, Token::Then));
}

#[test]
fn stray_right_parenthesis_is_mismatched() {
    let toks = expr_tokens("10 PRINT 1 )");
    assert!(matches!(parse(&toks, 0), Err(EvalError::MismatchedParenthesis)));
}

#[test]
fn leftover_left_parenthesis_is_mismatched() {
    let toks = expr_tokens("10 PRINT ( 1");
    assert!(matches!(parse(&toks, 0), Err(EvalError::MismatchedParenthesis)));
}

#[test]
fn keyword_inside_expression_is_unexpected() {
    let toks = expr_tokens("10 PRINT 1 + GOTO");
    assert!(matches!(parse(&toks, 0), Err(EvalError::UnexpectedToken { .. })));
}

#[test]
fn evaluation_uses_the_variable_store() {
    let mut vars = VariableStore::new();
    vars.set("X", ValueType::Number(2));
    let toks = expr_tokens("10 PRINT X + 1");
    let (value, _) = parse_and_eval(&toks, 0, &vars).expect("should evaluate");
    assert!(matches!(value, ValueType::Number(3)));
}

#[test]
fn later_binding_of_a_name_wins() {
    let mut vars = VariableStore::new();
    vars.set("X", ValueType::Number(2));
    vars.set("X", ValueType::Number(9));
    assert!(matches!(vars.get("X"), Some(ValueType::Number(9))));
    assert!(vars.get("Y").is_none());
}

#[test]
fn unbound_variable_fails_with_its_name() {
    let vars = VariableStore::new();
    let toks = expr_tokens("10 PRINT MISSING");
    match parse_and_eval(&toks, 0, &vars) {
        Err(EvalError::UndefinedVariable { name }) => assert_eq!(name, "MISSING"),
        other => panic!("expected an unbound-variable error, got {:?}", other),
    }
}

#[test]
fn unary_operators_evaluate_right_to_left() {
    let vars = VariableStore::new();
    let toks = expr_tokens("10 PRINT - 3 + 10");
    let (value, _) = parse_and_eval(&toks, 0, &vars).expect("should evaluate");
    assert!(matches!(value, ValueType::Number(7)));
}

#[test]
fn empty_expression_is_malformed() {
    let vars = VariableStore::new();
    let toks: Vec<(u32, Token)> = Vec::new();
    assert!(matches!(
        parse_and_eval(&toks, 0, &vars),
        Err(EvalError::MalformedExpression)
    ));
}

#[test]
fn two_values_without_an_operator_are_malformed() {
    let vars = VariableStore::new();
    let toks = expr_tokens("10 PRINT 1 2");
    assert!(matches!(
        parse_and_eval(&toks, 0, &vars),
        Err(EvalError::MalformedExpression)
    ));
}

#[test]
fn operator_without_operands_is_missing_an_operand() {
    let vars = VariableStore::new();
    let toks = expr_tokens("10 PRINT +");
    assert!(matches!(parse_and_eval(&toks, 0, &vars), Err(EvalError::MissingOperand)));
}

#[test]
fn division_by_zero_surfaces_from_evaluation() {
    let vars = VariableStore::new();
    let toks = expr_tokens("10 PRINT 5 / 0");
    assert!(matches!(parse_and_eval(&toks, 0, &vars), Err(EvalError::DivisionByZero)));
}

#[test]
fn logical_not_of_a_comparison() {
    let vars = VariableStore::new();
    let toks = expr_tokens("10 PRINT ! ( 1 = 2 )");
    let (value, _) = parse_and_eval(&toks, 0, &vars).expect("should evaluate");
    assert!(matches!(value, ValueType::Bool(true)));
}

#[test]
fn stacked_operators_all_pop_before_a_looser_one() {
    let vars = VariableStore::new();
    let toks = expr_tokens("10 PRINT 10 - 2 * 3 - 4");
    let (value, _) = parse_and_eval(&toks, 0, &vars).expect("should evaluate");
    assert!(matches!(value, ValueType::Number(0)));
}

#[test]
fn unary_minus_binds_tighter_than_addition() {
    let vars = VariableStore::new();
    let toks = expr_tokens("10 PRINT - 2 + 3");
    let (value, _) = parse_and_eval(&toks, 0, &vars).expect("should evaluate");
    assert!(matches!(value, ValueType::Number(1)));
}
