use sbasic::interpreter::{interpret, DrawCommand, RunErrorKind, RunOutcome};
use sbasic::lexer::{tokenize_line, Instruction};
use sbasic::value_type::EvalError;

const FUEL: u64 = 100_000;

fn load(lines: &[&str]) -> Vec<Instruction> {
    lines.iter().map(|l| tokenize_line(l).expect("line should tokenize")).collect()
}

fn run(lines: &[&str]) -> RunOutcome {
    interpret(load(lines), Vec::new(), FUEL).expect("run should end within the step bound")
}

fn run_with_inputs(lines: &[&str], inputs: &[&str]) -> RunOutcome {
    let owned: Vec<String> = inputs.iter().map(|s| String::from(*s)).collect();
    interpret(load(lines), owned, FUEL).expect("run should end within the step bound")
}

#[test]
fn end_terminates_immediately_with_success_and_no_output() {
    let outcome = run(&["10 END"]);
    assert!(outcome.error.is_none());
    assert!(outcome.printed.is_empty());
    assert!(outcome.drawn.is_empty());
}

#[test]
fn multiplication_binds_tighter_than_addition_in_a_run() {
    let outcome = run(&["10 LET X = 2 + 3 * 4", "20 PRINT X", "30 END"]);
    assert!(outcome.error.is_none());
    assert_eq!(outcome.printed, vec!["14"]);
}

#[test]
fn a_false_condition_falls_through_to_the_next_line() {
    let outcome = run(&["10 IF 1 = 2 THEN 30", "20 PRINT \"no\"", "30 PRINT \"yes\""]);
    assert!(outcome.error.is_none());
    assert_eq!(outcome.printed, vec!["no", "yes"]);
}

#[test]
fn a_true_condition_jumps_over_intermediate_lines() {
    let outcome = run(&["10 IF 1 = 1 THEN 30", "20 PRINT \"no\"", "30 PRINT \"yes\""]);
    assert!(outcome.error.is_none());
    assert_eq!(outcome.printed, vec!["yes"]);
}

#[test]
fn division_by_zero_aborts_the_run_before_later_output() {
    let outcome = interpret(
        load(&["10 LET X = 5 / 0", "20 PRINT \"later\"", "30 END"]),
        Vec::new(),
        FUEL,
    )
    .expect("run should end within the step bound");
    assert!(outcome.printed.is_empty());
    match outcome.error {
        Some(e) => {
            assert_eq!(e.line, 10);
            assert!(matches!(e.kind, RunErrorKind::Eval(EvalError::DivisionByZero)));
        },
        None => panic!("the run should have failed"),
    }
}

#[test]
fn goto_to_an_absent_line_names_line_and_column() {
    let outcome = run(&["10 GOTO 99"]);
    match outcome.error {
        Some(e) => {
            assert_eq!(e.line, 10);
            assert_eq!(e.column, 8);
            assert!(matches!(e.kind, RunErrorKind::JumpTarget { target: 99 }));
        },
        None => panic!("the jump should have failed"),
    }
}

#[test]
fn if_to_an_absent_line_names_line_and_column() {
    let outcome = run(&["10 IF 1 = 1 THEN 99"]);
    match outcome.error {
        Some(e) => {
            assert_eq!(e.line, 10);
            assert_eq!(e.column, 3);
            assert!(matches!(e.kind, RunErrorKind::JumpTarget { target: 99 }));
        },
        None => panic!("the jump should have failed"),
    }
}

#[test]
fn if_with_a_false_condition_never_resolves_its_target() {
    let outcome = run(&["10 IF 1 = 2 THEN 99", "20 END"]);
    assert!(outcome.error.is_none());
}

#[test]
fn goto_jumps_unconditionally() {
    let outcome = run(&["10 GOTO 30", "20 PRINT \"skipped\"", "30 END"]);
    assert!(outcome.error.is_none());
    assert!(outcome.printed.is_empty());
}

#[test]
fn a_backward_jump_loops_until_the_condition_fails() {
    let outcome = run(&[
        "10 LET X = 0",
        "20 LET X = X + 1",
        "30 IF X < 3 THEN 20",
        "40 PRINT X",
        "50 END",
    ]);
    assert!(outcome.error.is_none());
    assert_eq!(outcome.printed, vec!["3"]);
}

#[test]
fn input_binds_the_line_as_text() {
    let outcome = run_with_inputs(&["10 INPUT X", "20 PRINT X", "30 END"], &["hello"]);
    assert!(outcome.error.is_none());
    assert_eq!(outcome.printed, vec!["hello"]);
}

#[test]
fn input_lines_concatenate_as_text_and_coerce_beside_numbers() {
    let concat = run_with_inputs(
        &["10 INPUT A", "20 INPUT B", "30 PRINT A + B", "40 END"],
        &["20", "22"],
    );
    assert!(concat.error.is_none());
    assert_eq!(concat.printed, vec!["2022"]);

    let coerced = run_with_inputs(&["10 INPUT A", "20 PRINT A + 1", "30 END"], &["41"]);
    assert!(coerced.error.is_none());
    assert_eq!(coerced.printed, vec!["42"]);
}

#[test]
fn input_overwrites_an_existing_binding() {
    let outcome = run_with_inputs(
        &["10 LET X = 1", "20 INPUT X", "30 PRINT X", "40 END"],
        &["replaced"],
    );
    assert!(outcome.error.is_none());
    assert_eq!(outcome.printed, vec!["replaced"]);
}

#[test]
fn input_without_a_line_left_aborts() {
    let outcome = run(&["10 INPUT X", "20 END"]);
    match outcome.error {
        Some(e) => {
            assert_eq!(e.line, 10);
            assert!(matches!(e.kind, RunErrorKind::InputExhausted));
        },
        None => panic!("the run should have failed"),
    }
}

#[test]
fn running_past_the_last_statement_succeeds() {
    let outcome = run(&["10 PRINT 1"]);
    assert!(outcome.error.is_none());
    assert_eq!(outcome.printed, vec!["1"]);
}

#[test]
fn a_later_statement_at_the_same_line_number_replaces_the_earlier() {
    let outcome = run(&["10 PRINT 1", "10 PRINT 2", "20 END"]);
    assert!(outcome.error.is_none());
    assert_eq!(outcome.printed, vec!["2"]);
}

#[test]
fn statements_run_in_ascending_line_number_order() {
    let outcome = run(&["30 PRINT 3", "10 PRINT 1", "20 PRINT 2"]);
    assert!(outcome.error.is_none());
    assert_eq!(outcome.printed, vec!["1", "2", "3"]);
}

#[test]
fn a_run_that_never_ends_exhausts_its_step_bound() {
    assert!(interpret(load(&["10 GOTO 10"]), Vec::new(), 50).is_none());
}

#[test]
fn blank_and_comment_statements_are_no_ops() {
    let outcome = run(&["10 REM setup", "20 PRINT \"ok\"", "30 END"]);
    assert!(outcome.error.is_none());
    assert_eq!(outcome.printed, vec!["ok"]);
}

#[test]
fn printing_a_comparison_prints_a_boolean() {
    let outcome = run(&["10 PRINT 1 = 1", "20 PRINT 1 <> 1", "30 END"]);
    assert!(outcome.error.is_none());
    assert_eq!(outcome.printed, vec!["true", "false"]);
}

#[test]
fn cross_type_equality_in_a_program() {
    let outcome = run(&["10 PRINT \"3\" = 3", "20 PRINT 3 = \"3\"", "30 END"]);
    assert!(outcome.error.is_none());
    assert_eq!(outcome.printed, vec!["true", "true"]);
}

#[test]
fn unreadable_text_beside_a_number_is_a_type_error() {
    let outcome = run(&["10 PRINT \"abc\" = 3"]);
    match outcome.error {
        Some(e) => {
            assert_eq!(e.line, 10);
            assert!(matches!(e.kind, RunErrorKind::Eval(EvalError::TypeError { .. })));
        },
        None => panic!("the comparison should have failed"),
    }
}

#[test]
fn non_boolean_if_condition_is_rejected() {
    let outcome = run(&["10 IF 1 + 1 THEN 20", "20 END"]);
    match outcome.error {
        Some(e) => {
            assert_eq!(e.line, 10);
            assert!(matches!(e.kind, RunErrorKind::NonBooleanCondition));
        },
        None => panic!("the condition should have been rejected"),
    }
}

#[test]
fn malformed_let_is_a_syntax_error() {
    let outcome = run(&["10 LET 5 = 3 + 1"]);
    match outcome.error {
        Some(e) => {
            assert_eq!(e.line, 10);
            assert!(matches!(e.kind, RunErrorKind::Syntax));
        },
        None => panic!("the statement should have been rejected"),
    }
}

#[test]
fn value_leading_a_statement_is_a_syntax_error() {
    let outcome = run(&["10 5 + 5"]);
    assert!(matches!(
        outcome.error,
        Some(e) if e.line == 10 && matches!(e.kind, RunErrorKind::Syntax)
    ));
}

#[test]
fn drawing_statements_forward_their_arguments() {
    let outcome = run(&[
        "10 SCREEN 640 , 360",
        "20 CLEAR 10 , 20 , 30",
        "30 DOT 5 , 6",
        "40 LINE 1 , 2 TO 3 , 4",
        "50 CIRCLE 9 , 8 , 7",
        "60 END",
    ]);
    assert!(outcome.error.is_none());
    assert_eq!(
        outcome.drawn,
        vec![
            DrawCommand::Screen { width: 640, height: 360 },
            DrawCommand::Clear { red: 10, green: 20, blue: 30 },
            DrawCommand::Dot { x: 5, y: 6 },
            DrawCommand::Line { x1: 1, y1: 2, x2: 3, y2: 4 },
            DrawCommand::Circle { x: 9, y: 8, radius: 7 },
        ]
    );
}

#[test]
fn malformed_drawing_statement_is_a_syntax_error() {
    let outcome = run(&["10 DOT 5"]);
    assert!(matches!(
        outcome.error,
        Some(e) if e.line == 10 && matches!(e.kind, RunErrorKind::Syntax)
    ));
}

#[test]
fn tokens_trailing_a_drawing_statement_shape_are_a_syntax_error() {
    let outcome = run(&["10 DOT 1 , 2 , 3", "20 END"]);
    assert!(outcome.drawn.is_empty());
    assert!(matches!(
        outcome.error,
        Some(e) if e.line == 10 && matches!(e.kind, RunErrorKind::Syntax)
    ));
    let screen = run(&["10 SCREEN 1 , 2 , 3", "20 END"]);
    assert!(matches!(
        screen.error,
        Some(e) if e.line == 10 && matches!(e.kind, RunErrorKind::Syntax)
    ));
}

#[test]
fn tokens_trailing_an_input_variable_are_a_syntax_error() {
    let outcome = run_with_inputs(&["10 INPUT X Y", "20 END"], &["line"]);
    match outcome.error {
        Some(e) => {
            assert_eq!(e.line, 10);
            assert_eq!(e.column, 11);
            assert!(matches!(e.kind, RunErrorKind::Syntax));
        },
        None => panic!("the statement should have been rejected"),
    }
}

#[test]
fn tokens_trailing_a_goto_target_are_a_syntax_error() {
    let outcome = run(&["10 GOTO 20 30", "20 END", "30 END"]);
    match outcome.error {
        Some(e) => {
            assert_eq!(e.line, 10);
            assert_eq!(e.column, 11);
            assert!(matches!(e.kind, RunErrorKind::Syntax));
        },
        None => panic!("the statement should have been rejected"),
    }
}

#[test]
fn tokens_trailing_a_print_expression_are_a_syntax_error() {
    let outcome = run(&["10 PRINT 1 THEN 30", "30 END"]);
    match outcome.error {
        Some(e) => {
            assert_eq!(e.line, 10);
            assert_eq!(e.column, 11);
            assert!(matches!(e.kind, RunErrorKind::Syntax));
        },
        None => panic!("the statement should have been rejected"),
    }
}

#[test]
fn tokens_trailing_a_let_expression_are_a_syntax_error() {
    let outcome = run(&["10 LET X = 1 THEN 5", "20 END"]);
    match outcome.error {
        Some(e) => {
            assert_eq!(e.line, 10);
            assert_eq!(e.column, 13);
            assert!(matches!(e.kind, RunErrorKind::Syntax));
        },
        None => panic!("the statement should have been rejected"),
    }
}

#[test]
fn tokens_trailing_an_if_target_are_a_syntax_error() {
    let outcome = run(&["10 IF 1 = 1 THEN 30 40", "30 END", "40 END"]);
    match outcome.error {
        Some(e) => {
            assert_eq!(e.line, 10);
            assert!(matches!(e.kind, RunErrorKind::Syntax));
        },
        None => panic!("the statement should have been rejected"),
    }
}
