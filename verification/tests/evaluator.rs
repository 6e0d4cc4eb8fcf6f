use rpn_calc::eval::{Directive, Evaluation, EvaluationError, ValueToken};
use rpn_calc::token::OperatorKind;

fn apply(op: OperatorKind, lhs: f64, rhs: f64) -> f64 {
    match op {
        OperatorKind::Add => lhs + rhs,
        OperatorKind::Sub => lhs - rhs,
        OperatorKind::Mul => lhs * rhs,
        OperatorKind::Div => lhs / rhs,
    }
}

/// Drives one evaluation, computing each requested operation with IEEE-754
/// double arithmetic.
fn run(tokens: Vec<ValueToken>) -> Result<f64, EvaluationError> {
    let mut machine = Evaluation::new(tokens);
    loop {
        match machine.advance() {
            Directive::NeedOp { op, lhs, rhs } => {
                let value = apply(op, f64::from_bits(lhs), f64::from_bits(rhs));
                machine.supply(value.to_bits());
            }
            Directive::Done { value } => return Ok(f64::from_bits(value)),
            Directive::Fail { error } => return Err(error),
        }
    }
}

fn num(value: f64) -> ValueToken {
    ValueToken::Number(value.to_bits())
}

fn op(kind: OperatorKind) -> ValueToken {
    ValueToken::Operator(kind)
}

#[test]
fn addition_of_two_numbers() {
    let r = run(vec![num(3.0), num(4.0), op(OperatorKind::Add)]).unwrap();
    assert_eq!(r, 7.0);
}

#[test]
fn subtraction_uses_operand_order() {
    // The earlier number is the left operand: 3 4 - is 3 - 4.
    let r = run(vec![num(3.0), num(4.0), op(OperatorKind::Sub)]).unwrap();
    assert_eq!(r, -1.0);
}

#[test]
fn multiplication_of_two_numbers() {
    let r = run(vec![num(2.5), num(4.0), op(OperatorKind::Mul)]).unwrap();
    assert_eq!(r, 10.0);
}

#[test]
fn division_uses_operand_order() {
    let r = run(vec![num(1.0), num(8.0), op(OperatorKind::Div)]).unwrap();
    assert_eq!(r, 0.125);
}

#[test]
fn division_by_zero_follows_ieee_semantics() {
    let r = run(vec![num(10.0), num(0.0), op(OperatorKind::Div)]).unwrap();
    assert!(r.is_infinite() && r.is_sign_positive());
    let r = run(vec![num(-10.0), num(0.0), op(OperatorKind::Div)]).unwrap();
    assert!(r.is_infinite() && r.is_sign_negative());
    let r = run(vec![num(0.0), num(0.0), op(OperatorKind::Div)]).unwrap();
    assert!(r.is_nan());
}

#[test]
fn single_number_is_a_minimal_expression() {
    let r = run(vec![num(5.5)]).unwrap();
    assert_eq!(r, 5.5);
}

#[test]
fn operator_without_operands_underflows() {
    let e = run(vec![op(OperatorKind::Add)]).unwrap_err();
    assert_eq!(e, EvaluationError::StackUnderflow);
}

#[test]
fn operator_with_one_operand_underflows() {
    let e = run(vec![num(1.0), op(OperatorKind::Add)]).unwrap_err();
    assert_eq!(e, EvaluationError::StackUnderflow);
}

#[test]
fn two_leftover_values_are_malformed() {
    let e = run(vec![num(1.0), num(2.0)]).unwrap_err();
    assert_eq!(e, EvaluationError::MalformedExpression { remaining_count: 2 });
}

#[test]
fn empty_token_sequence_is_malformed() {
    let e = run(vec![]).unwrap_err();
    assert_eq!(e, EvaluationError::MalformedExpression { remaining_count: 0 });
}

#[test]
fn nested_expression_evaluates_inner_operator_first() {
    // 3 4 5 * + : 4 * 5 is requested first, then 3 + 20.
    let r = run(vec![
        num(3.0),
        num(4.0),
        num(5.0),
        op(OperatorKind::Mul),
        op(OperatorKind::Add),
    ])
    .unwrap();
    assert_eq!(r, 23.0);
}

#[test]
fn requested_operations_come_in_stack_order() {
    let mut machine = Evaluation::new(vec![
        num(3.0),
        num(4.0),
        num(5.0),
        op(OperatorKind::Mul),
        op(OperatorKind::Add),
    ]);
    match machine.advance() {
        Directive::NeedOp { op, lhs, rhs } => {
            assert_eq!(op, OperatorKind::Mul);
            assert_eq!(f64::from_bits(lhs), 4.0);
            assert_eq!(f64::from_bits(rhs), 5.0);
            machine.supply((f64::from_bits(lhs) * f64::from_bits(rhs)).to_bits());
        }
        _ => panic!("expected a requested operation"),
    }
    match machine.advance() {
        Directive::NeedOp { op, lhs, rhs } => {
            assert_eq!(op, OperatorKind::Add);
            assert_eq!(f64::from_bits(lhs), 3.0);
            assert_eq!(f64::from_bits(rhs), 20.0);
            machine.supply((f64::from_bits(lhs) + f64::from_bits(rhs)).to_bits());
        }
        _ => panic!("expected a requested operation"),
    }
    match machine.advance() {
        Directive::Done { value } => assert_eq!(f64::from_bits(value), 23.0),
        _ => panic!("expected the evaluation to finish"),
    }
}

#[test]
fn re_evaluation_yields_the_same_result() {
    let tokens = vec![num(3.0), num(4.0), op(OperatorKind::Add), num(2.0), op(OperatorKind::Mul)];
    let first = run(tokens.clone()).unwrap();
    let second = run(tokens).unwrap();
    assert_eq!(first, second);
    assert_eq!(first, 14.0);
}
