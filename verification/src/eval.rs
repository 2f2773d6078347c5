use crate::arithmetic::{gives, total, Operation, Operator};
use crate::error::CalcError;
use crate::grammar::{
    additive_operator, more_factors, more_terms, multiplicative_operator, parse_additive,
    parse_expression, parse_multiplicative, parse_primary, remaining, yields, Expr, Parsed,
};
use crate::memory::Memory;
use crate::token::{views, Token, TokenView};
use vstd::prelude::*;

verus! {

/// `outcome` evaluates what the grammar reads at `index`: a value of the
/// expression together with the position behind it, or the grammar's error.
pub open spec fn evaluates<V: Copy, F: Fn(Operation<V>) -> V>(
    calc: F,
    memory: Memory<V>,
    tokens: Seq<TokenView<V>>,
    index: nat,
    parsed: Parsed<V>,
    outcome: Result<(V, usize), CalcError>,
) -> bool {
    match parsed {
        Ok((tree, used)) => {
            &&& outcome matches Ok((value, next))
            &&& next == index + used
            &&& next <= tokens.len()
            &&& yields(calc, memory, tree, value)
        },
        Err(error) => outcome == Err::<(V, usize), CalcError>(error),
    }
}

/// The value of an operand token: a number's own value, or what `memory`
/// reads a referenced slot as. No other token is an operand.
pub fn eval_token<V: Copy>(token: &Token<V>, memory: &Memory<V>) -> (value: Result<V, CalcError>)
    ensures
        value == (match token@ {
            TokenView::Number(number) => Ok::<V, CalcError>(number),
            TokenView::MemoryRef(name) => Ok(memory.value_of(name)),
            _ => Err(CalcError::UnexpectedToken),
        }),
{
    match token {
        Token::Number(number) => Ok(*number),
        Token::MemoryRef(name) => Ok(memory.get(name.as_str())),
        _ => Err(CalcError::UnexpectedToken),
    }
}

/// Evaluates all of `tokens` as one expression.
pub fn eval_expression<V: Copy, F: Fn(Operation<V>) -> V>(
    tokens: &[Token<V>],
    memory: &Memory<V>,
    calc: &F,
) -> (result: Result<V, CalcError>)
    requires
        total(*calc),
    ensures
        (match parse_expression(views(tokens@)) {
            Ok(tree) => result matches Ok(value) && yields(*calc, *memory, tree, value),
            Err(error) => result == Err::<V, CalcError>(error),
        }),
{
    match eval_additive_expression(tokens, 0, memory, calc) {
        Ok((result, index)) => {
            if index == tokens.len() {
                Ok(result)
            } else {
                Err(CalcError::TrailingTokens)
            }
        },
        Err(error) => Err(error),
    }
}

/// Evaluates the additive expression that begins at `index`, and says where
/// it ends.
pub fn eval_additive_expression<V: Copy, F: Fn(Operation<V>) -> V>(
    tokens: &[Token<V>],
    index: usize,
    memory: &Memory<V>,
    calc: &F,
) -> (result: Result<(V, usize), CalcError>)
    requires
        total(*calc),
    ensures
        evaluates(
            *calc,
            *memory,
            views(tokens@),
            index as nat,
            parse_additive(views(tokens@), index as nat),
            result,
        ),
    decreases remaining(views(tokens@), index as nat), 2nat,
{
    let ghost all = views(tokens@);
    let (mut result, mut position) = match eval_multiplicative_expression(
        tokens,
        index,
        memory,
        calc,
    ) {
        Ok(first) => first,
        Err(error) => return Err(error),
    };
    let ghost mut tree: Expr<V> = parse_multiplicative(all, index as nat).unwrap().0;
    loop
        invariant
            total(*calc),
            all == views(tokens@),
            index <= position <= tokens.len(),
            parse_additive(all, index as nat) == more_terms(
                all,
                index as nat,
                (position - index) as nat,
                tree,
            ),
            yields(*calc, *memory, tree, result),
        decreases tokens.len() - position,
    {
        if position >= tokens.len() {
            return Ok((result, position));
        }
        let operator = match &tokens[position] {
            Token::Plus => Operator::Add,
            Token::Minus => Operator::Subtract,
            _ => {
                assert(additive_operator(all[position as int]) is None);
                return Ok((result, position));
            },
        };
        assert(additive_operator(all[position as int]) == Some(operator));
        match eval_multiplicative_expression(tokens, position + 1, memory, calc) {
            Ok((value, next)) => {
                let combined = calc(operator.apply_to(result, value));
                proof {
                    let right = parse_multiplicative(all, (position + 1) as nat).unwrap().0;
                    let joined = Expr::Binary(operator, Box::new(tree), Box::new(right));
                    assert(gives(*calc, operator.applied(result, value), combined));
                    assert(yields(*calc, *memory, joined, combined));
                    tree = joined;
                }
                result = combined;
                position = next;
            },
            Err(error) => {
                return Err(error);
            },
        }
    }
}

/// Evaluates the multiplicative expression that begins at `index`, and says
/// where it ends.
pub fn eval_multiplicative_expression<V: Copy, F: Fn(Operation<V>) -> V>(
    tokens: &[Token<V>],
    index: usize,
    memory: &Memory<V>,
    calc: &F,
) -> (result: Result<(V, usize), CalcError>)
    requires
        total(*calc),
    ensures
        evaluates(
            *calc,
            *memory,
            views(tokens@),
            index as nat,
            parse_multiplicative(views(tokens@), index as nat),
            result,
        ),
    decreases remaining(views(tokens@), index as nat), 1nat,
{
    let ghost all = views(tokens@);
    let (mut result, mut position) = match eval_primary_expression(tokens, index, memory, calc) {
        Ok(first) => first,
        Err(error) => return Err(error),
    };
    let ghost mut tree: Expr<V> = parse_primary(all, index as nat).unwrap().0;
    loop
        invariant
            total(*calc),
            all == views(tokens@),
            index <= position <= tokens.len(),
            parse_multiplicative(all, index as nat) == more_factors(
                all,
                index as nat,
                (position - index) as nat,
                tree,
            ),
            yields(*calc, *memory, tree, result),
        decreases tokens.len() - position,
    {
        if position >= tokens.len() {
            return Ok((result, position));
        }
        let operator = match &tokens[position] {
            Token::Asterisk => Operator::Multiply,
            Token::Slash => Operator::Divide,
            _ => {
                assert(multiplicative_operator(all[position as int]) is None);
                return Ok((result, position));
            },
        };
        assert(multiplicative_operator(all[position as int]) == Some(operator));
        match eval_primary_expression(tokens, position + 1, memory, calc) {
            Ok((value, next)) => {
                let combined = calc(operator.apply_to(result, value));
                proof {
                    let right = parse_primary(all, (position + 1) as nat).unwrap().0;
                    let joined = Expr::Binary(operator, Box::new(tree), Box::new(right));
                    assert(gives(*calc, operator.applied(result, value), combined));
                    assert(yields(*calc, *memory, joined, combined));
                    tree = joined;
                }
                result = combined;
                position = next;
            },
            Err(error) => {
                return Err(error);
            },
        }
    }
}

/// Evaluates the primary expression that begins at `index`, and says where
/// it ends: an operand token, or a parenthesised expression up to and with
/// its closing parenthesis.
pub fn eval_primary_expression<V: Copy, F: Fn(Operation<V>) -> V>(
    tokens: &[Token<V>],
    index: usize,
    memory: &Memory<V>,
    calc: &F,
) -> (result: Result<(V, usize), CalcError>)
    requires
        total(*calc),
    ensures
        evaluates(
            *calc,
            *memory,
            views(tokens@),
            index as nat,
            parse_primary(views(tokens@), index as nat),
            result,
        ),
    decreases remaining(views(tokens@), index as nat), 0nat,
{
    if index >= tokens.len() {
        return Err(CalcError::UnexpectedEndOfInput);
    }
    let first_token = &tokens[index];
    match first_token {
        Token::LParen => {
            match eval_additive_expression(tokens, index + 1, memory, calc) {
                Ok((result, next)) => {
                    if next < tokens.len() && matches!(tokens[next], Token::RParen) {
                        Ok((result, next + 1))
                    } else {
                        Err(CalcError::UnbalancedParens)
                    }
                },
                Err(error) => Err(error),
            }
        },
        _ => match eval_token(first_token, memory) {
            Ok(value) => Ok((value, index + 1)),
            Err(error) => Err(error),
        },
    }
}

} // verus!
