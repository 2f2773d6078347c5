use memcalc::arithmetic::{Operation, Operator};
use memcalc::error::CalcError;
use memcalc::eval::{
    eval_additive_expression, eval_expression, eval_multiplicative_expression,
    eval_primary_expression, eval_token,
};
use memcalc::memory::Memory;
use memcalc::token::Token;

fn number(text: &str) -> Option<f64> {
    text.parse().ok()
}

fn calc(operation: Operation<f64>) -> f64 {
    match operation {
        Operation::Add(a, b) => a + b,
        Operation::Subtract(a, b) => a - b,
        Operation::Multiply(a, b) => a * b,
        Operation::Divide(a, b) => a / b,
        Operation::Negate(a) => -a,
    }
}

fn evaluate(line: &str, memory: &Memory<f64>) -> Result<f64, CalcError> {
    let tokens = Token::split(line, &number)?;
    eval_expression(&tokens, memory, &calc)
}

fn fresh() -> Memory<f64> {
    Memory::new(0.0)
}

#[test]
fn multiplication_binds_tighter_on_the_right() {
    assert_eq!(evaluate("2 + 3 * 4", &fresh()), Ok(14.0));
}

#[test]
fn multiplication_binds_tighter_on_the_left() {
    assert_eq!(evaluate("2 * 3 + 4", &fresh()), Ok(10.0));
}

#[test]
fn operators_of_one_level_group_to_the_left() {
    assert_eq!(evaluate("10 - 4 - 3", &fresh()), Ok(3.0));
    assert_eq!(evaluate("16 / 4 / 2", &fresh()), Ok(2.0));
    assert_eq!(evaluate("2 - 3 + 4", &fresh()), Ok(3.0));
    assert_eq!(evaluate("8 / 4 * 2", &fresh()), Ok(4.0));
}

#[test]
fn division_binds_tighter_than_subtraction() {
    assert_eq!(evaluate("10 - 6 / 2", &fresh()), Ok(7.0));
    assert_eq!(evaluate("1 + 2 * 3 - 8 / 4", &fresh()), Ok(5.0));
}

#[test]
fn single_operand_is_its_own_value() {
    assert_eq!(evaluate("42", &fresh()), Ok(42.0));
    assert_eq!(evaluate("-1.5", &fresh()), Ok(-1.5));
}

#[test]
fn parentheses_override_precedence() {
    assert_eq!(evaluate("( 2 + 3 ) * 4", &fresh()), Ok(20.0));
}

#[test]
fn parentheses_on_the_right() {
    assert_eq!(evaluate("2 * ( 3 + 4 )", &fresh()), Ok(14.0));
    assert_eq!(evaluate("20 / ( 2 + 3 )", &fresh()), Ok(4.0));
    assert_eq!(evaluate("10 - ( 4 - 3 )", &fresh()), Ok(9.0));
}

#[test]
fn redundant_parentheses_change_nothing() {
    assert_eq!(evaluate("( 7 )", &fresh()), Ok(7.0));
    assert_eq!(evaluate("( ( 7 ) )", &fresh()), Ok(7.0));
    assert_eq!(evaluate("( 2 ) + ( 3 )", &fresh()), Ok(5.0));
}

#[test]
fn nested_parentheses_depth_four() {
    assert_eq!(evaluate("( ( ( ( 1 + 1 ) + 1 ) + 1 ) + 1 )", &fresh()), Ok(5.0));
}

#[test]
fn nested_parentheses_depth_ten() {
    let line = "( ( ( ( ( ( ( ( ( ( 1 + 1 ) + 1 ) + 1 ) + 1 ) + 1 ) + 1 ) + 1 ) + 1 ) + 1 ) + 1 )";
    assert_eq!(evaluate(line, &fresh()), Ok(11.0));
}

#[test]
fn nested_parentheses_depth_twelve_on_the_right() {
    let line = "1 + ( 1 + ( 1 + ( 1 + ( 1 + ( 1 + ( 1 + ( 1 + ( 1 + ( 1 + ( 1 + ( 1 + 1 ) ) ) ) ) ) ) ) ) ) )";
    assert_eq!(evaluate(line, &fresh()), Ok(13.0));
}

#[test]
fn division_by_zero_is_positive_infinity() {
    assert_eq!(evaluate("1 / 0", &fresh()), Ok(f64::INFINITY));
}

#[test]
fn negative_division_by_zero_is_negative_infinity() {
    assert_eq!(evaluate("-1 / 0", &fresh()), Ok(f64::NEG_INFINITY));
}

#[test]
fn zero_by_zero_is_nan() {
    let value = evaluate("0 / 0", &fresh());
    assert!(matches!(value, Ok(v) if v.is_nan()));
}

#[test]
fn bare_memory_reference_reads_zero() {
    assert_eq!(evaluate("mem + 1", &fresh()), Ok(1.0));
}

#[test]
fn bare_memory_reference_is_a_slot_like_any_other() {
    let mut memory = fresh();
    memory.add(String::new(), 4.0, &calc);
    memory.add(String::from("x"), 4.0, &calc);
    assert_eq!(evaluate("mem + 1", &memory), Ok(5.0));
    assert_eq!(evaluate("memx + 1", &memory), Ok(5.0));
    assert_eq!(evaluate("mem * memx", &memory), Ok(16.0));
}

#[test]
fn memory_reference_takes_the_place_of_a_number() {
    let mut memory = fresh();
    memory.add(String::from("rate"), 2.5, &calc);
    assert_eq!(evaluate("( memrate + 0.5 ) * 2", &memory), Ok(6.0));
    assert_eq!(evaluate("memunset * 3 + 1", &memory), Ok(1.0));
}

#[test]
fn missing_closing_parenthesis_is_unbalanced() {
    assert_eq!(evaluate("( 1 + 2", &fresh()), Err(CalcError::UnbalancedParens));
    assert_eq!(evaluate("( ( 1 + 2 )", &fresh()), Err(CalcError::UnbalancedParens));
}

#[test]
fn group_not_closed_right_behind_its_value_is_unbalanced() {
    assert_eq!(evaluate("( 1 2 )", &fresh()), Err(CalcError::UnbalancedParens));
    assert_eq!(evaluate("( 1 ( 2 ) )", &fresh()), Err(CalcError::UnbalancedParens));
}

#[test]
fn operator_where_an_operand_is_due_is_unexpected() {
    assert_eq!(evaluate("1 + * 2", &fresh()), Err(CalcError::UnexpectedToken));
    assert_eq!(evaluate("* 2", &fresh()), Err(CalcError::UnexpectedToken));
    assert_eq!(evaluate("2 * / 2", &fresh()), Err(CalcError::UnexpectedToken));
}

#[test]
fn closing_parenthesis_where_an_operand_is_due_is_unexpected() {
    assert_eq!(evaluate(")", &fresh()), Err(CalcError::UnexpectedToken));
    assert_eq!(evaluate("( )", &fresh()), Err(CalcError::UnexpectedToken));
    assert_eq!(evaluate("1 + )", &fresh()), Err(CalcError::UnexpectedToken));
}

#[test]
fn memory_command_inside_an_expression_is_unexpected() {
    assert_eq!(evaluate("1 + memx+", &fresh()), Err(CalcError::UnexpectedToken));
    assert_eq!(evaluate("( memx- )", &fresh()), Err(CalcError::UnexpectedToken));
}

#[test]
fn missing_operand_at_the_end_is_end_of_input() {
    assert_eq!(evaluate("1 +", &fresh()), Err(CalcError::UnexpectedEndOfInput));
    assert_eq!(evaluate("1 + 2 *", &fresh()), Err(CalcError::UnexpectedEndOfInput));
    assert_eq!(evaluate("(", &fresh()), Err(CalcError::UnexpectedEndOfInput));
}

#[test]
fn no_tokens_are_end_of_input() {
    let tokens: Vec<Token<f64>> = Vec::new();
    assert_eq!(
        eval_expression(&tokens, &fresh(), &calc),
        Err(CalcError::UnexpectedEndOfInput)
    );
}

#[test]
fn tokens_behind_a_complete_expression_are_trailing() {
    assert_eq!(evaluate("1 2", &fresh()), Err(CalcError::TrailingTokens));
    assert_eq!(evaluate("1 + 2 )", &fresh()), Err(CalcError::TrailingTokens));
    assert_eq!(evaluate("1 ( 2 )", &fresh()), Err(CalcError::TrailingTokens));
    assert_eq!(evaluate("1 memx+", &fresh()), Err(CalcError::TrailingTokens));
}

#[test]
fn first_error_from_the_left_wins() {
    assert_eq!(evaluate("( 1 + * 2", &fresh()), Err(CalcError::UnexpectedToken));
    assert_eq!(evaluate("( 1 + 2 3", &fresh()), Err(CalcError::UnbalancedParens));
}

#[test]
fn eval_token_reads_operands_only() {
    let mut memory = fresh();
    memory.add(String::from("a"), 9.0, &calc);
    assert_eq!(eval_token(&Token::Number(3.5), &memory), Ok(3.5));
    assert_eq!(eval_token(&Token::MemoryRef(String::from("a")), &memory), Ok(9.0));
    assert_eq!(eval_token(&Token::MemoryRef(String::from("b")), &memory), Ok(0.0));
    assert_eq!(eval_token(&Token::<f64>::Plus, &memory), Err(CalcError::UnexpectedToken));
    assert_eq!(eval_token(&Token::<f64>::LParen, &memory), Err(CalcError::UnexpectedToken));
    assert_eq!(eval_token(&Token::<f64>::RParen, &memory), Err(CalcError::UnexpectedToken));
    assert_eq!(
        eval_token(&Token::<f64>::MemoryPlus(String::from("a")), &memory),
        Err(CalcError::UnexpectedToken)
    );
}

#[test]
fn primary_returns_the_position_behind_it() {
    let tokens = Token::split("( 1 + 2 ) * 3", &number).unwrap();
    let memory = fresh();
    assert_eq!(eval_primary_expression(&tokens, 0, &memory, &calc), Ok((3.0, 5)));
    assert_eq!(eval_primary_expression(&tokens, 1, &memory, &calc), Ok((1.0, 2)));
    assert_eq!(eval_primary_expression(&tokens, 6, &memory, &calc), Ok((3.0, 7)));
    assert_eq!(
        eval_primary_expression(&tokens, 7, &memory, &calc),
        Err(CalcError::UnexpectedEndOfInput)
    );
    assert_eq!(
        eval_primary_expression(&tokens, 2, &memory, &calc),
        Err(CalcError::UnexpectedToken)
    );
}

#[test]
fn multiplicative_stops_before_an_additive_operator() {
    let tokens = Token::split("2 * 3 / 4 + 5 * 6", &number).unwrap();
    let memory = fresh();
    assert_eq!(eval_multiplicative_expression(&tokens, 0, &memory, &calc), Ok((1.5, 5)));
    assert_eq!(eval_multiplicative_expression(&tokens, 6, &memory, &calc), Ok((30.0, 9)));
    assert_eq!(eval_multiplicative_expression(&tokens, 2, &memory, &calc), Ok((0.75, 5)));
}

#[test]
fn additive_stops_before_a_closing_parenthesis() {
    let tokens = Token::split("( 1 + 2 * 3 ) - 4", &number).unwrap();
    let memory = fresh();
    assert_eq!(eval_additive_expression(&tokens, 1, &memory, &calc), Ok((7.0, 6)));
    assert_eq!(eval_additive_expression(&tokens, 0, &memory, &calc), Ok((3.0, 9)));
    assert_eq!(eval_additive_expression(&tokens, 3, &memory, &calc), Ok((6.0, 6)));
}

#[test]
fn operator_pairs_with_its_operands() {
    assert_eq!(Operator::Add.apply_to(1.0, 2.0), Operation::Add(1.0, 2.0));
    assert_eq!(Operator::Subtract.apply_to(1.0, 2.0), Operation::Subtract(1.0, 2.0));
    assert_eq!(Operator::Multiply.apply_to(1.0, 2.0), Operation::Multiply(1.0, 2.0));
    assert_eq!(Operator::Divide.apply_to(1.0, 2.0), Operation::Divide(1.0, 2.0));
}

#[test]
fn arithmetic_on_wrapping_integers() {
    // Values need not be floating-point numbers: here they are integers
    // that wrap around, and 1 - 2 * 3 - 4 wraps below zero.
    let tokens = vec![
        Token::Number(1u64),
        Token::Minus,
        Token::Number(2),
        Token::Asterisk,
        Token::Number(3),
        Token::Minus,
        Token::Number(4),
    ];
    let wrapping = |operation: Operation<u64>| match operation {
        Operation::Add(a, b) => a.wrapping_add(b),
        Operation::Subtract(a, b) => a.wrapping_sub(b),
        Operation::Multiply(a, b) => a.wrapping_mul(b),
        Operation::Divide(a, b) => a.checked_div(b).unwrap_or(0),
        Operation::Negate(a) => a.wrapping_neg(),
    };
    let memory = Memory::new(0u64);
    assert_eq!(
        eval_expression(&tokens, &memory, &wrapping),
        Ok(1u64.wrapping_sub(6).wrapping_sub(4))
    );
}
