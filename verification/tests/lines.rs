use memcalc::arithmetic::Operation;
use memcalc::error::CalcError;
use memcalc::memory::Memory;
use memcalc::session::{dispatch, formula_result, memory_result, process_line, Outcome};
use memcalc::token::Token;

fn number(text: &str) -> Option<f64> {
    text.parse().ok()
}

fn calc(operation: Operation<f64>) -> f64 {
    match operation {
        Operation::Add(a, b) => a + b,
        Operation::Subtract(a, b) => a - b,
        Operation::Multiply(a, b) => a * b,
        Operation::Divide(a, b) => a / b,
        Operation::Negate(a) => -a,
    }
}

fn run(line: &str, memory: &mut Memory<f64>, prev: f64) -> Result<(Outcome<f64>, f64), CalcError> {
    process_line(line, memory, prev, &number, &calc)
}

fn stored(name: &str, value: f64) -> Outcome<f64> {
    Outcome::Stored { name: String::from(name), value }
}

#[test]
fn expression_becomes_the_previous_result() {
    let mut memory = Memory::new(0.0);
    assert_eq!(
        run("1 + 2", &mut memory, 0.0),
        Ok((Outcome::Evaluated { value: 3.0 }, 3.0))
    );
    assert_eq!(
        run("3 * 4", &mut memory, 3.0),
        Ok((Outcome::Evaluated { value: 12.0 }, 12.0))
    );
}

#[test]
fn memory_plus_adds_the_previous_result() {
    let mut memory = Memory::new(0.0);
    assert_eq!(run("memx+", &mut memory, 12.0), Ok((stored("x", 12.0), 12.0)));
    assert_eq!(run("memx+", &mut memory, 5.0), Ok((stored("x", 17.0), 5.0)));
    assert_eq!(memory.get("x"), 17.0);
}

#[test]
fn memory_minus_takes_the_previous_result() {
    let mut memory = Memory::new(0.0);
    assert_eq!(run("memx+", &mut memory, 17.0), Ok((stored("x", 17.0), 17.0)));
    assert_eq!(run("memx-", &mut memory, 2.0), Ok((stored("x", 15.0), 2.0)));
    assert_eq!(memory.get("x"), 15.0);
}

#[test]
fn memory_minus_on_an_unset_slot_stores_the_negation() {
    let mut memory = Memory::new(0.0);
    assert_eq!(run("memy-", &mut memory, 4.0), Ok((stored("y", -4.0), 4.0)));
    assert_eq!(memory.get("y"), -4.0);

    let mut zero = Memory::new(0.0);
    let (outcome, _) = run("memz-", &mut zero, 0.0).unwrap();
    assert!(matches!(outcome, Outcome::Stored { value, .. } if value.to_bits() == (-0.0f64).to_bits()));
}

#[test]
fn memory_command_leaves_the_previous_result() {
    let mut memory = Memory::new(0.0);
    let (_, after_plus) = run("mema+", &mut memory, 8.0).unwrap();
    assert_eq!(after_plus, 8.0);
    let (_, after_minus) = run("mema-", &mut memory, 3.0).unwrap();
    assert_eq!(after_minus, 3.0);
    assert_eq!(memory.get("a"), 5.0);
}

#[test]
fn bare_memory_command_uses_the_empty_name() {
    let mut memory = Memory::new(0.0);
    assert_eq!(run("mem+", &mut memory, 5.0), Ok((stored("", 5.0), 5.0)));
    assert_eq!(run("mem-", &mut memory, 2.0), Ok((stored("", 3.0), 2.0)));
    assert_eq!(
        run("mem + 1", &mut memory, 2.0),
        Ok((Outcome::Evaluated { value: 4.0 }, 4.0))
    );
}

#[test]
fn tokens_behind_a_memory_command_are_ignored() {
    let mut memory = Memory::new(0.0);
    assert_eq!(run("memx+ 5", &mut memory, 17.0), Ok((stored("x", 17.0), 17.0)));
    assert_eq!(run("memx- ) ) * +", &mut memory, 2.0), Ok((stored("x", 15.0), 2.0)));
    assert_eq!(memory.get("x"), 15.0);
}

#[test]
fn malformed_piece_behind_a_memory_command_fails_the_line() {
    let mut memory = Memory::new(0.0);
    assert_eq!(run("memx+ abc", &mut memory, 17.0), Err(CalcError::MalformedNumber));
    assert_eq!(memory.get("x"), 0.0);
}

#[test]
fn malformed_input_changes_nothing() {
    let mut memory = Memory::new(0.0);
    run("memx+", &mut memory, 7.0).unwrap();
    let prev = 7.0;
    assert_eq!(run("abc + 1", &mut memory, prev), Err(CalcError::MalformedNumber));
    assert_eq!(memory.get("x"), 7.0);
    assert_eq!(memory.get("abc"), 0.0);
    // The caller keeps its previous result: the next line still sees it.
    assert_eq!(run("memx+", &mut memory, prev), Ok((stored("x", 14.0), 7.0)));
}

#[test]
fn failed_expression_changes_nothing() {
    let mut memory = Memory::new(0.0);
    run("memx+", &mut memory, 7.0).unwrap();
    assert_eq!(run("( memx + 1", &mut memory, 7.0), Err(CalcError::UnbalancedParens));
    assert_eq!(run("memx + *", &mut memory, 7.0), Err(CalcError::UnexpectedToken));
    assert_eq!(run("memx +", &mut memory, 7.0), Err(CalcError::UnexpectedEndOfInput));
    assert_eq!(run("memx 1", &mut memory, 7.0), Err(CalcError::TrailingTokens));
    assert_eq!(memory.get("x"), 7.0);
}

#[test]
fn expression_leaves_the_store() {
    let mut memory = Memory::new(0.0);
    run("memx+", &mut memory, 7.0).unwrap();
    assert_eq!(
        run("memx * 2 + memy", &mut memory, 7.0),
        Ok((Outcome::Evaluated { value: 14.0 }, 14.0))
    );
    assert_eq!(memory.get("x"), 7.0);
    assert_eq!(memory.get("y"), 0.0);
}

#[test]
fn empty_line_ends_the_session() {
    let mut memory = Memory::new(0.0);
    run("memx+", &mut memory, 7.0).unwrap();
    assert_eq!(run("", &mut memory, 7.0), Ok((Outcome::Finished, 7.0)));
    assert_eq!(memory.get("x"), 7.0);
}

#[test]
fn empty_line_is_not_evaluated() {
    let asked = std::cell::Cell::new(0);
    let counting_number = |text: &str| {
        asked.set(asked.get() + 1);
        text.parse::<f64>().ok()
    };
    let counting_calc = |operation: Operation<f64>| {
        asked.set(asked.get() + 1);
        calc(operation)
    };
    let mut memory = Memory::new(0.0);
    assert_eq!(
        process_line("", &mut memory, 1.0, &counting_number, &counting_calc),
        Ok((Outcome::Finished, 1.0))
    );
    assert_eq!(asked.get(), 0);
}

#[test]
fn blank_line_is_an_expression_without_tokens() {
    let mut memory = Memory::new(0.0);
    assert_eq!(run(" ", &mut memory, 7.0), Err(CalcError::UnexpectedEndOfInput));
    assert_eq!(run("\t", &mut memory, 7.0), Err(CalcError::UnexpectedEndOfInput));
}

#[test]
fn memory_command_behind_the_first_token_is_no_command() {
    let mut memory = Memory::new(0.0);
    assert_eq!(run("1 memx+", &mut memory, 7.0), Err(CalcError::TrailingTokens));
    assert_eq!(run("( memx+ )", &mut memory, 7.0), Err(CalcError::UnexpectedToken));
    assert_eq!(memory.get("x"), 0.0);
}

#[test]
fn session_of_several_lines() {
    let mut memory = Memory::new(0.0);
    let mut prev = 0.0;
    let mut seen = Vec::new();
    for line in ["1 + 2", "3 * 4", "mem+", "2 + 3", "mem-", "mem * 2", ""] {
        let (outcome, next) = run(line, &mut memory, prev).unwrap();
        prev = next;
        seen.push(outcome);
    }
    assert_eq!(
        seen,
        vec![
            Outcome::Evaluated { value: 3.0 },
            Outcome::Evaluated { value: 12.0 },
            stored("", 12.0),
            Outcome::Evaluated { value: 5.0 },
            stored("", 7.0),
            Outcome::Evaluated { value: 14.0 },
            Outcome::Finished,
        ]
    );
    assert_eq!(prev, 14.0);
}

#[test]
fn dispatch_goes_by_the_first_token() {
    let mut memory = Memory::new(0.0);
    let plus = vec![Token::MemoryPlus(String::from("k")), Token::Number(1.0)];
    assert_eq!(dispatch(&plus, &mut memory, 6.0, &calc), Ok((stored("k", 6.0), 6.0)));
    let minus = vec![Token::MemoryMinus(String::from("k"))];
    assert_eq!(dispatch(&minus, &mut memory, 2.0, &calc), Ok((stored("k", 4.0), 2.0)));
    let reference = vec![Token::MemoryRef(String::from("k")), Token::Plus, Token::Number(1.0)];
    assert_eq!(
        dispatch(&reference, &mut memory, 2.0, &calc),
        Ok((Outcome::Evaluated { value: 5.0 }, 5.0))
    );
    let none: Vec<Token<f64>> = Vec::new();
    assert_eq!(
        dispatch(&none, &mut memory, 2.0, &calc),
        Err(CalcError::UnexpectedEndOfInput)
    );
    assert_eq!(memory.get("k"), 4.0);
}

#[test]
fn report_of_an_expression() {
    assert_eq!(formula_result("1 + 2", "3"), "1 + 2 equal 3");
    assert_eq!(formula_result("  1  /  0 ", "inf"), "  1  /  0  equal inf");
    assert_eq!(formula_result("", ""), " equal ");
}

#[test]
fn report_of_a_memory_command() {
    assert_eq!(memory_result("x", "17"), "set memoryx equal 17");
    assert_eq!(memory_result("", "-0"), "set memory equal -0");
    assert_eq!(memory_result("total", "1.5"), "set memorytotal equal 1.5");
}

#[test]
fn reports_with_displayed_values() {
    let mut memory = Memory::new(0.0);
    let line = "1 / 0";
    let (outcome, prev) = run(line, &mut memory, 0.0).unwrap();
    let text = match outcome {
        Outcome::Evaluated { value } => formula_result(line, &format!("{}", value)),
        _ => unreachable!(),
    };
    assert_eq!(text, "1 / 0 equal inf");
    let (outcome, _) = run("memhuge+", &mut memory, prev).unwrap();
    let text = match outcome {
        Outcome::Stored { name, value } => memory_result(&name, &format!("{}", value)),
        _ => unreachable!(),
    };
    assert_eq!(text, "set memoryhuge equal inf");
}

#[test]
fn every_error_has_its_message() {
    assert_eq!(CalcError::MalformedNumber.message(), "malformed number");
    assert_eq!(CalcError::UnbalancedParens.message(), "unbalanced parentheses");
    assert_eq!(CalcError::UnexpectedToken.message(), "unexpected token");
    assert_eq!(CalcError::UnexpectedEndOfInput.message(), "unexpected end of input");
    assert_eq!(CalcError::TrailingTokens.message(), "trailing tokens");
}
