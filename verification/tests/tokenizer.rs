use rpn_calc::token::{tokenize, OperatorKind, Token};

fn expect_single_number(line: &str) {
    let tokens = tokenize(line).unwrap();
    assert_eq!(tokens.len(), 1);
    match &tokens[0] {
        Token::Number(lit) => {
            assert_eq!(lit.as_str(), line);
            // The unit the tokenizer accepted must be parseable as a double.
            assert!(lit.parse::<f64>().is_ok());
        }
        Token::Operator(_) => panic!("expected a number token for {line:?}"),
    }
}

fn expect_rejected(line: &str) {
    let err = tokenize(line).unwrap_err();
    assert_eq!(err.offending_unit.as_str(), line);
    // The unit the tokenizer rejected must not be parseable as a double.
    assert!(line.parse::<f64>().is_err());
}

#[test]
fn decimal_literals_tokenize_as_numbers() {
    expect_single_number("0");
    expect_single_number("42");
    expect_single_number("2.5");
    expect_single_number("-4.25");
    expect_single_number("+10");
    expect_single_number("3.");
    expect_single_number(".5");
    expect_single_number("-.5");
}

#[test]
fn exponential_literals_tokenize_as_numbers() {
    expect_single_number("1e3");
    expect_single_number("1E-3");
    expect_single_number("2.5e+10");
    expect_single_number("3.e2");
    expect_single_number(".5e1");
    expect_single_number("-1.25E2");
}

#[test]
fn special_word_literals_tokenize_as_numbers() {
    expect_single_number("inf");
    expect_single_number("-inf");
    expect_single_number("Infinity");
    expect_single_number("nan");
    expect_single_number("NaN");
    expect_single_number("+NAN");
}

#[test]
fn invalid_units_are_rejected() {
    expect_rejected("xyz");
    expect_rejected("");
    expect_rejected(".");
    expect_rejected("1..2");
    expect_rejected("--5");
    expect_rejected("5e");
    expect_rejected("e5");
    expect_rejected(".e5");
    expect_rejected("1,5");
    expect_rejected("infinit");
    expect_rejected("1.2.3");
    expect_rejected("++");
}

#[test]
fn operator_symbols_tokenize_as_operators() {
    let tokens = tokenize("+ - * /").unwrap();
    assert_eq!(tokens.len(), 4);
    assert!(matches!(tokens[0], Token::Operator(OperatorKind::Add)));
    assert!(matches!(tokens[1], Token::Operator(OperatorKind::Sub)));
    assert!(matches!(tokens[2], Token::Operator(OperatorKind::Mul)));
    assert!(matches!(tokens[3], Token::Operator(OperatorKind::Div)));
}

#[test]
fn mixed_line_tokenizes_in_order() {
    let tokens = tokenize("3 4 +").unwrap();
    assert_eq!(tokens.len(), 3);
    match &tokens[0] {
        Token::Number(lit) => assert_eq!(lit.as_str(), "3"),
        _ => panic!("expected a number"),
    }
    match &tokens[1] {
        Token::Number(lit) => assert_eq!(lit.as_str(), "4"),
        _ => panic!("expected a number"),
    }
    assert!(matches!(tokens[2], Token::Operator(OperatorKind::Add)));
}

#[test]
fn first_invalid_unit_is_reported() {
    let err = tokenize("1 bad worse +").unwrap_err();
    assert_eq!(err.offending_unit.as_str(), "bad");
}

#[test]
fn adjacent_spaces_make_an_empty_unit_that_fails() {
    let err = tokenize("3  4").unwrap_err();
    assert_eq!(err.offending_unit.as_str(), "");
}

#[test]
fn empty_line_fails_with_empty_unit() {
    let err = tokenize("").unwrap_err();
    assert_eq!(err.offending_unit.as_str(), "");
}

#[test]
fn leading_or_trailing_space_makes_an_empty_unit_that_fails() {
    // The caller is expected to trim the line; an untrimmed line has an
    // empty unit at its edge, which fails like any other invalid unit.
    assert_eq!(tokenize(" 3").unwrap_err().offending_unit.as_str(), "");
    assert_eq!(tokenize("3 ").unwrap_err().offending_unit.as_str(), "");
}

#[test]
fn tokenization_is_all_or_nothing() {
    // A trailing invalid unit aborts the whole line even though every
    // earlier unit is valid.
    assert!(tokenize("1 2 + oops").is_err());
}
