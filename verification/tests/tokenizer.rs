use sbasic::lexer::{tokenize_line, Instruction, LexError};
use sbasic::token::Token;

fn tokens_of(line: &str) -> Instruction {
    tokenize_line(line).expect("line should tokenize")
}

#[test]
fn reads_back_statement_tokens_losslessly() {
    // tokenizing a statement and reading back its token kinds/values is
    // lossless and order-preserving
    let inst = tokens_of("10 LET X = 2 + 3 * 4");
    assert_eq!(inst.line_number, 10);
    assert_eq!(inst.tokens.len(), 8);
    assert!(matches!(inst.tokens[0].1, Token::Let));
    assert!(matches!(&inst.tokens[1].1, Token::Variable(v) if v == "X"));
    assert!(matches!(inst.tokens[2].1, Token::Equals));
    assert!(matches!(inst.tokens[3].1, Token::Number(2)));
    assert!(matches!(inst.tokens[4].1, Token::Plus));
    assert!(matches!(inst.tokens[5].1, Token::Number(3)));
    assert!(matches!(inst.tokens[6].1, Token::Multiply));
    assert!(matches!(inst.tokens[7].1, Token::Number(4)));
}

#[test]
fn records_columns_of_each_token() {
    let inst = tokens_of("10 PRINT X");
    assert_eq!(inst.tokens.len(), 2);
    assert_eq!(inst.tokens[0].0, 3);
    assert!(matches!(inst.tokens[0].1, Token::Print));
    assert_eq!(inst.tokens[1].0, 9);
    assert!(matches!(&inst.tokens[1].1, Token::Variable(v) if v == "X"));
}

#[test]
fn whitespace_width_changes_nothing_but_columns() {
    let narrow = tokens_of("10 PRINT 1 + 2");
    let wide = tokens_of("10   PRINT    1   +   2");
    assert_eq!(narrow.line_number, wide.line_number);
    assert_eq!(narrow.tokens.len(), wide.tokens.len());
    let narrow_kinds: Vec<String> =
        narrow.tokens.iter().map(|(_, t)| format!("{:?}", t)).collect();
    let wide_kinds: Vec<String> = wide.tokens.iter().map(|(_, t)| format!("{:?}", t)).collect();
    assert_eq!(narrow_kinds, wide_kinds);
}

#[test]
fn string_literal_runs_to_closing_quote() {
    let inst = tokens_of("10 PRINT \"hi there\"");
    assert_eq!(inst.tokens.len(), 2);
    assert!(matches!(&inst.tokens[1].1, Token::Text(t) if t == "hi there"));
}

#[test]
fn unterminated_string_runs_to_end_of_line() {
    let inst = tokens_of("10 PRINT \"abc");
    assert_eq!(inst.tokens.len(), 2);
    assert!(matches!(&inst.tokens[1].1, Token::Text(t) if t == "abc"));
}

#[test]
fn minus_after_value_is_binary() {
    let inst = tokens_of("10 PRINT 5 - 3");
    assert!(matches!(inst.tokens[2].1, Token::Minus));
}

#[test]
fn minus_without_preceding_value_is_unary() {
    let inst = tokens_of("10 PRINT - 3");
    assert!(matches!(inst.tokens[1].1, Token::UnaryMinus));
}

#[test]
fn rem_consumes_rest_of_line_as_comment() {
    let inst = tokens_of("10 REM hello world");
    assert_eq!(inst.tokens.len(), 2);
    assert!(matches!(inst.tokens[0].1, Token::Rem));
    assert_eq!(inst.tokens[1].0, 7);
    assert!(matches!(&inst.tokens[1].1, Token::Comment(c) if c == "hello world"));
}

#[test]
fn empty_line_is_blank_statement_at_address_zero() {
    let inst = tokens_of("");
    assert_eq!(inst.line_number, 0);
    assert!(inst.tokens.is_empty());
}

#[test]
fn line_without_leading_digit_is_rejected() {
    let err = tokenize_line("PRINT 1").unwrap_err();
    assert!(matches!(err, LexError::MissingLineNumber { .. }));
}

#[test]
fn malformed_line_numeral_is_rejected() {
    let err = tokenize_line("10abc PRINT 1").unwrap_err();
    assert!(matches!(err, LexError::MalformedLineNumber { .. }));
}

#[test]
fn line_number_beyond_unsigned_range_is_rejected() {
    assert_eq!(tokens_of("4294967295 END").line_number, 4294967295);
    let err = tokenize_line("4294967296 END").unwrap_err();
    assert!(matches!(err, LexError::MalformedLineNumber { .. }));
}

#[test]
fn unrecognized_run_carries_its_column_and_text() {
    let err = tokenize_line("10 @#$").unwrap_err();
    match err {
        LexError::UnrecognizedToken { column, token } => {
            assert_eq!(column, 3);
            assert_eq!(token, "@#$");
        },
        other => panic!("expected an unrecognized-token error, got {:?}", other),
    }
}

#[test]
fn number_literal_larger_than_i32_is_unrecognized() {
    let err = tokenize_line("10 PRINT 2147483648").unwrap_err();
    assert!(matches!(err, LexError::UnrecognizedToken { column: 9, .. }));
}

#[test]
fn extreme_i32_literal_tokenizes() {
    let inst = tokens_of("10 PRINT 2147483647");
    assert!(matches!(inst.tokens[1].1, Token::Number(2147483647)));
}

#[test]
fn parenthesis_terminates_a_run() {
    let inst = tokens_of("10 PRINT (1 + 2)");
    let kinds: Vec<String> = inst.tokens.iter().map(|(_, t)| format!("{:?}", t)).collect();
    assert_eq!(
        kinds,
        vec!["Print", "Lparen", "Number(1)", "Plus", "Number(2)", "Rparen"]
    );
}

#[test]
fn any_white_space_character_separates_tokens() {
    let inst = tokens_of("10\u{2003}PRINT\u{A0}1");
    assert_eq!(inst.line_number, 10);
    let kinds: Vec<String> = inst.tokens.iter().map(|(_, t)| format!("{:?}", t)).collect();
    assert_eq!(kinds, vec!["Print", "Number(1)"]);
}

#[test]
fn identifier_validity() {
    assert!(sbasic::lexer::is_valid("abc_12"));
    assert!(sbasic::lexer::is_valid("X"));
    assert!(!sbasic::lexer::is_valid("1ab"));
    assert!(!sbasic::lexer::is_valid(""));
    assert!(!sbasic::lexer::is_valid("a-b"));
}
