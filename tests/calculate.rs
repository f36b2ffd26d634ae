use arithmetic_parser::{EvalError, Op, Parser, Token};

#[test]
fn test_01() {
    let result = Parser::calculate("3b3a0".to_string());
    assert_eq!(result, 0);
}

#[test]
fn acceptance_test_01() {
    let result = Parser::calculate("3a2c4".to_string());
    assert_eq!(result, 20);
}

#[test]
fn acceptance_test_02() {
    let result = Parser::calculate("32a2d2".to_string());
    assert_eq!(result, 17);
}

#[test]
fn acceptance_test_03() {
    let result = Parser::calculate("500a10b66c32".to_string());
    assert_eq!(result, 14208);
}

#[test]
fn acceptance_test_04() {
    let result = Parser::calculate("3ae4c66fb32".to_string());
    assert_eq!(result, 235);
}

#[test]
fn acceptance_test_05() {
    let result = Parser::calculate("3c4d2aee2a4c41fc4f".to_string());
    assert_eq!(result, 990);
}

#[test]
fn repeated_calls_agree() {
    let s = "3c4d2aee2a4c41fc4f".to_string();
    let first = Parser::calculate(s.clone());
    let second = Parser::calculate(s);
    assert_eq!(first, second);
    assert_eq!(Parser::try_calculate("9d0"), Parser::try_calculate("9d0"));
}

#[test]
fn chain_is_left_to_right() {
    // ((7 - 9) * 3) / 2 = -3, rounding toward zero
    assert_eq!(Parser::try_calculate("7b9c3d2"), Ok(-3));
    assert_eq!(Parser::try_calculate("1a2a3a4"), Ok(10));
}

#[test]
fn whitespace_and_unknown_characters_are_ignored() {
    assert_eq!(Parser::try_calculate(" 3 a 2 c 4\n"), Ok(20));
    assert_eq!(Parser::try_calculate("1x2a3"), Ok(15));
}

#[test]
fn multi_digit_and_leading_zeros() {
    assert_eq!(Parser::try_calculate("007a123"), Ok(130));
    assert_eq!(Parser::try_calculate("2147483647"), Ok(i32::MAX));
}

#[test]
fn division_truncates_toward_zero() {
    assert_eq!(Parser::try_calculate("0b7d2"), Ok(-3));
    assert_eq!(Parser::try_calculate("7d2"), Ok(3));
}

#[test]
fn division_by_zero_is_reported() {
    assert_eq!(Parser::try_calculate("5d0"), Err(EvalError::DivisionByZero));
    assert_eq!(Parser::try_calculate("5de3b3f"), Err(EvalError::DivisionByZero));
}

#[test]
fn overflow_is_reported() {
    assert_eq!(Parser::try_calculate("2147483647a1"), Err(EvalError::Overflow));
    assert_eq!(Parser::try_calculate("0b2147483647b2"), Err(EvalError::Overflow));
    assert_eq!(Parser::try_calculate("65536c65536"), Err(EvalError::Overflow));
}

#[test]
fn oversized_literal_is_reported() {
    assert_eq!(Parser::try_calculate("2147483648"), Err(EvalError::NumberTooLarge));
}

#[test]
fn underflow_is_reported() {
    assert_eq!(Parser::try_calculate("a3"), Err(EvalError::StackUnderflow));
    assert_eq!(Parser::try_calculate(""), Err(EvalError::StackUnderflow));
    assert_eq!(Parser::try_calculate("3ab4"), Err(EvalError::StackUnderflow));
}

#[test]
fn unmatched_parentheses_are_tolerated() {
    // an unmatched open parenthesis is dropped at the end
    assert_eq!(Parser::try_calculate("e3a4"), Ok(7));
    assert_eq!(Parser::try_calculate("2ce3a4"), Ok(14));
    // an unmatched close parenthesis empties the operator stack
    assert_eq!(Parser::try_calculate("3a4fc2"), Ok(14));
}

#[test]
fn postfix_keeps_operators_in_input_order() {
    let out = Parser::infix_to_rpn("3a2c4b1d5");
    assert_eq!(
        out,
        vec![
            Token::Number(vec![3]),
            Token::Number(vec![2]),
            Token::Operator(Op::Add),
            Token::Number(vec![4]),
            Token::Operator(Op::Mul),
            Token::Number(vec![1]),
            Token::Operator(Op::Sub),
            Token::Number(vec![5]),
            Token::Operator(Op::Div),
        ]
    );
}

#[test]
fn postfix_of_grouping() {
    let out = Parser::infix_to_rpn("3ae4c66fb32");
    assert_eq!(
        out,
        vec![
            Token::Number(vec![3]),
            Token::Number(vec![4]),
            Token::Number(vec![6, 6]),
            Token::Operator(Op::Mul),
            Token::Operator(Op::Add),
            Token::Number(vec![3, 2]),
            Token::Operator(Op::Sub),
        ]
    );
}

#[test]
fn postfix_evaluation() {
    let ts = vec![Token::Number(vec![1, 2]), Token::Number(vec![5]), Token::Operator(Op::Sub)];
    assert_eq!(Parser::eval_rpn(ts), Ok(7));
    assert_eq!(Parser::eval_rpn(vec![Token::OpenParen]), Err(EvalError::UnexpectedParen));
    // the value on top is the result
    let ts = vec![Token::Number(vec![1]), Token::Number(vec![2])];
    assert_eq!(Parser::eval_rpn(ts), Ok(2));
}

#[test]
fn operator_symbols_and_tiers() {
    for c in ['a', 'b', 'c', 'd'] {
        assert!(Parser::is_operator(c));
    }
    for c in ['e', 'f', '1', ' ', 'x'] {
        assert!(!Parser::is_operator(c));
    }
    assert_eq!(Parser::precedence(&Token::Operator(Op::Div)), 1);
    assert_eq!(Parser::precedence(&Token::OpenParen), 0);
}
