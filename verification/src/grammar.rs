use crate::arithmetic::{gives, single_valued, Operation, Operator};
use crate::error::CalcError;
use crate::memory::Memory;
use crate::token::TokenView;
use vstd::prelude::*;

verus! {

/// An expression as the grammar reads it out of a line's tokens:
///
/// ```text
/// additive       := multiplicative ( ('+'|'-') multiplicative )*
/// multiplicative := primary ( ('*'|'/') primary )*
/// primary        := Number | MemoryRef | '(' additive ')'
/// ```
///
/// Operators of one level group to the left. Parentheses leave no node of
/// their own: a group is the expression inside it.
pub enum Expr<V> {
    /// A number, as its token holds it.
    Number(V),
    /// The memory slot of this name.
    Slot(Seq<char>),
    /// An operator with its left and right operand.
    Binary(Operator, Box<Expr<V>>, Box<Expr<V>>),
}

/// What reading part of a token sequence gives: the expression and the
/// number of tokens it fills, or the reason why there is none.
pub type Parsed<V> = Result<(Expr<V>, nat), CalcError>;

/// How many tokens stand at or after `index`.
pub open spec fn remaining<V>(tokens: Seq<TokenView<V>>, index: nat) -> nat {
    if index < tokens.len() {
        (tokens.len() - index) as nat
    } else {
        0
    }
}

/// The operator that a `+` or `-` token stands for.
pub open spec fn additive_operator<V>(token: TokenView<V>) -> Option<Operator> {
    match token {
        TokenView::Plus => Some(Operator::Add),
        TokenView::Minus => Some(Operator::Subtract),
        _ => None,
    }
}

/// The operator that a `*` or `/` token stands for.
pub open spec fn multiplicative_operator<V>(token: TokenView<V>) -> Option<Operator> {
    match token {
        TokenView::Asterisk => Some(Operator::Multiply),
        TokenView::Slash => Some(Operator::Divide),
        _ => None,
    }
}

/// The primary expression that begins at `index`: a number, a memory
/// reference, or a parenthesised additive expression with its closing
/// parenthesis right behind it.
pub open spec fn parse_primary<V>(tokens: Seq<TokenView<V>>, index: nat) -> Parsed<V>
    decreases remaining(tokens, index), 0nat,
{
    if index < tokens.len() {
        match tokens[index as int] {
            TokenView::Number(value) => Ok((Expr::Number(value), 1)),
            TokenView::MemoryRef(name) => Ok((Expr::Slot(name), 1)),
            TokenView::LParen => match parse_additive(tokens, index + 1) {
                Ok((inner, used)) => {
                    let close = index + 1 + used;
                    if close < tokens.len() && tokens[close as int] is RParen {
                        Ok((inner, used + 2))
                    } else {
                        Err(CalcError::UnbalancedParens)
                    }
                },
                Err(error) => Err(error),
            },
            _ => Err(CalcError::UnexpectedToken),
        }
    } else {
        Err(CalcError::UnexpectedEndOfInput)
    }
}

/// The multiplicative expression that begins at `index` and whose first
/// `used` tokens make `left`: `left` itself unless a `*` or `/` follows, and
/// else the operator applied to `left` and the next primary, continued in the
/// same way.
pub open spec fn more_factors<V>(
    tokens: Seq<TokenView<V>>,
    index: nat,
    used: nat,
    left: Expr<V>,
) -> Parsed<V>
    decreases remaining(tokens, index + used), 0nat,
{
    let at = index + used;
    if at < tokens.len() && multiplicative_operator(tokens[at as int]) is Some {
        match parse_primary(tokens, at + 1) {
            Ok((right, more)) => more_factors(
                tokens,
                index,
                used + 1 + more,
                Expr::Binary(
                    multiplicative_operator(tokens[at as int]).unwrap(),
                    Box::new(left),
                    Box::new(right),
                ),
            ),
            Err(error) => Err(error),
        }
    } else {
        Ok((left, used))
    }
}

/// The multiplicative expression that begins at `index`: primaries joined
/// by `*` and `/`, as many as follow one another.
pub open spec fn parse_multiplicative<V>(tokens: Seq<TokenView<V>>, index: nat) -> Parsed<V>
    decreases remaining(tokens, index), 1nat,
{
    match parse_primary(tokens, index) {
        Ok((first, used)) => more_factors(tokens, index, used, first),
        Err(error) => Err(error),
    }
}

/// The additive expression that begins at `index` and whose first `used`
/// tokens make `left`: `left` itself unless a `+` or `-` follows, and else
/// the operator applied to `left` and the next multiplicative expression,
/// continued in the same way.
pub open spec fn more_terms<V>(
    tokens: Seq<TokenView<V>>,
    index: nat,
    used: nat,
    left: Expr<V>,
) -> Parsed<V>
    decreases remaining(tokens, index + used), 0nat,
{
    let at = index + used;
    if at < tokens.len() && additive_operator(tokens[at as int]) is Some {
        match parse_multiplicative(tokens, at + 1) {
            Ok((right, more)) => more_terms(
                tokens,
                index,
                used + 1 + more,
                Expr::Binary(
                    additive_operator(tokens[at as int]).unwrap(),
                    Box::new(left),
                    Box::new(right),
                ),
            ),
            Err(error) => Err(error),
        }
    } else {
        Ok((left, used))
    }
}

/// The additive expression that begins at `index`: multiplicative
/// expressions joined by `+` and `-`, as many as follow one another.
pub open spec fn parse_additive<V>(tokens: Seq<TokenView<V>>, index: nat) -> Parsed<V>
    decreases remaining(tokens, index), 2nat,
{
    match parse_multiplicative(tokens, index) {
        Ok((first, used)) => more_terms(tokens, index, used, first),
        Err(error) => Err(error),
    }
}

/// The expression that `tokens` are as a whole: the additive expression at
/// their start, which has to fill all of them.
pub open spec fn parse_expression<V>(tokens: Seq<TokenView<V>>) -> Result<Expr<V>, CalcError> {
    match parse_additive(tokens, 0) {
        Ok((tree, used)) => if used == tokens.len() {
            Ok(tree)
        } else {
            Err(CalcError::TrailingTokens)
        },
        Err(error) => Err(error),
    }
}

/// `value` is a value of `tree`: a number is its own value, a slot's value
/// is what `memory` reads it as, and an operator's value is what `calc`
/// gives for the operation on a value of its left and a value of its right
/// operand.
pub open spec fn yields<V: Copy, F: Fn(Operation<V>) -> V>(
    calc: F,
    memory: Memory<V>,
    tree: Expr<V>,
    value: V,
) -> bool
    decreases tree,
{
    match tree {
        Expr::Number(number) => value == number,
        Expr::Slot(name) => value == memory.value_of(name),
        Expr::Binary(operator, left, right) => exists|a: V, b: V|
            {
                &&& yields(calc, memory, *left, a)
                &&& yields(calc, memory, *right, b)
                &&& #[trigger] gives(calc, operator.applied(a, b), value)
            },
    }
}

/// Under an arithmetic that gives every operation at most one result, an
/// expression has at most one value.
pub proof fn law_value_is_unique<V: Copy, F: Fn(Operation<V>) -> V>(
    calc: F,
    memory: Memory<V>,
    tree: Expr<V>,
    first: V,
    second: V,
)
    requires
        single_valued(calc),
        yields(calc, memory, tree, first),
        yields(calc, memory, tree, second),
    ensures
        first == second,
    decreases tree,
{
    match tree {
        Expr::Binary(operator, left, right) => {
            let (a, b) = choose|a: V, b: V|
                {
                    &&& yields(calc, memory, *left, a)
                    &&& yields(calc, memory, *right, b)
                    &&& #[trigger] gives(calc, operator.applied(a, b), first)
                };
            let (c, d) = choose|c: V, d: V|
                {
                    &&& yields(calc, memory, *left, c)
                    &&& yields(calc, memory, *right, d)
                    &&& #[trigger] gives(calc, operator.applied(c, d), second)
                };
            law_value_is_unique(calc, memory, *left, a, c);
            law_value_is_unique(calc, memory, *right, b, d);
        },
        _ => {},
    }
}

} // verus!
