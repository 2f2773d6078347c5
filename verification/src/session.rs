use crate::arithmetic::{gives, total, Operation};
use crate::error::CalcError;
use crate::eval::eval_expression;
use crate::grammar::{parse_expression, yields};
use crate::memory::{accumulated, Memory};
use crate::token::{reads_all, tokenized, views, Token, TokenView};
use vstd::prelude::*;
use vstd::string::*;

verus! {

/// What processing one line came to.
#[derive(Debug, Clone, PartialEq)]
pub enum Outcome<V> {
    /// The line was empty, which ends the session. Nothing was evaluated.
    Finished,
    /// The line was a memory command, and the slot `name` now holds `value`.
    Stored { name: String, value: V },
    /// The line was an expression of this value.
    Evaluated { value: V },
}

/// `result` and `after` are what the tokens of one line lead to, by their
/// first token, from the store `before` and the previous result
/// `prev_result`.
///
/// - `MemoryPlus`: `prev_result` is added to the named slot. The previous
///   result stays, and what follows the first token is not looked at.
/// - `MemoryMinus`: the same with the negation of `prev_result`.
/// - Anything else, or no token: the tokens are one expression. Its value is
///   the new previous result, and the store stays as it is. An error leaves
///   the store as it is too.
pub open spec fn dispatched<V: Copy, F: Fn(Operation<V>) -> V>(
    calc: F,
    before: Memory<V>,
    after: Memory<V>,
    prev_result: V,
    tokens: Seq<TokenView<V>>,
    result: Result<(Outcome<V>, V), CalcError>,
) -> bool {
    if tokens.len() > 0 && tokens[0] is MemoryPlus {
        &&& result matches Ok((Outcome::Stored { name, value }, next))
        &&& name@ == tokens[0]->MemoryPlus_0
        &&& next == prev_result
        &&& accumulated(calc, before, after, name@, prev_result, value)
    } else if tokens.len() > 0 && tokens[0] is MemoryMinus {
        &&& result matches Ok((Outcome::Stored { name, value }, next))
        &&& name@ == tokens[0]->MemoryMinus_0
        &&& next == prev_result
        &&& exists|negated: V|
            {
                &&& #[trigger] gives(calc, Operation::Negate(prev_result), negated)
                &&& accumulated(calc, before, after, name@, negated, value)
            }
    } else {
        &&& after == before
        &&& match parse_expression(tokens) {
            Ok(tree) => {
                &&& result matches Ok((Outcome::Evaluated { value }, next))
                &&& next == value
                &&& yields(calc, before, tree, value)
            },
            Err(error) => result matches Err(e) && e == error,
        }
    }
}

/// Carries out the tokens of one line: a memory command if the first token
/// is one, and an expression otherwise. Returns what was done and the
/// previous result for the next line.
pub fn dispatch<V: Copy, F: Fn(Operation<V>) -> V>(
    tokens: &[Token<V>],
    memory: &mut Memory<V>,
    prev_result: V,
    calc: &F,
) -> (result: Result<(Outcome<V>, V), CalcError>)
    requires
        total(*calc),
    ensures
        dispatched(*calc, *old(memory), *final(memory), prev_result, views(tokens@), result),
        result is Err ==> *final(memory) == *old(memory),
{
    if tokens.len() > 0 {
        match &tokens[0] {
            Token::MemoryPlus(memory_name) => {
                let name = memory_name.clone();
                let value = memory.add(memory_name.clone(), prev_result, calc);
                return Ok((Outcome::Stored { name, value }, prev_result));
            },
            Token::MemoryMinus(memory_name) => {
                let name = memory_name.clone();
                let negated = calc(Operation::Negate(prev_result));
                let ghost before = *memory;
                let value = memory.add(memory_name.clone(), negated, calc);
                proof {
                    assert(gives(*calc, Operation::Negate(prev_result), negated));
                    assert(accumulated(*calc, before, *memory, name@, negated, value));
                }
                return Ok((Outcome::Stored { name, value }, prev_result));
            },
            _ => {},
        }
    }
    match eval_expression(tokens, memory, calc) {
        Ok(value) => Ok((Outcome::Evaluated { value }, value)),
        Err(error) => Err(error),
    }
}

/// `result` and `after` are what the line `line` leads to from the store
/// `before` and the previous result `prev_result`.
///
/// - The empty line ends the session, with store and previous result as
///   they are.
/// - Any other line is tokenized in one of the ways that `parse_number`
///   allows. Its tokens are carried out, or the tokenizer's error is the
///   result and the store stays as it is.
pub open spec fn processed<V: Copy, P: Fn(&str) -> Option<V>, F: Fn(Operation<V>) -> V>(
    parse_number: P,
    calc: F,
    before: Memory<V>,
    after: Memory<V>,
    prev_result: V,
    line: Seq<char>,
    result: Result<(Outcome<V>, V), CalcError>,
) -> bool {
    if line.len() == 0 {
        &&& result matches Ok((Outcome::Finished, next))
        &&& next == prev_result
        &&& after == before
    } else {
        exists|tokens: Result<Seq<TokenView<V>>, CalcError>|
            {
                &&& #[trigger] tokenized(parse_number, line, tokens)
                &&& match tokens {
                    Ok(found) => dispatched(calc, before, after, prev_result, found, result),
                    Err(error) => {
                        &&& result matches Err(e)
                        &&& e == error
                        &&& after == before
                    },
                }
            }
    }
}

/// Processes one line of input against the store and the previous result.
///
/// An empty line ends the session: nothing is tokenized or evaluated, and
/// store and previous result stay as they are. Any other line is tokenized
/// and its tokens are carried out. A line that fails, in either step, leaves
/// the store as it is.
pub fn process_line<V: Copy, P: Fn(&str) -> Option<V>, F: Fn(Operation<V>) -> V>(
    line: &str,
    memory: &mut Memory<V>,
    prev_result: V,
    parse_number: &P,
    calc: &F,
) -> (result: Result<(Outcome<V>, V), CalcError>)
    requires
        reads_all(*parse_number),
        total(*calc),
    ensures
        processed(*parse_number, *calc, *old(memory), *final(memory), prev_result, line@, result),
        line@.len() == 0 ==> (result matches Ok((Outcome::Finished, next)) && next == prev_result),
        line@.len() == 0 ==> *final(memory) == *old(memory),
        result is Err ==> *final(memory) == *old(memory),
{
    if line.is_empty() {
        return Ok((Outcome::Finished, prev_result));
    }
    match Token::split(line, parse_number) {
        Ok(tokens) => {
            let result = dispatch(tokens.as_slice(), memory, prev_result, calc);
            proof {
                assert(tokenized(*parse_number, line@, Ok(views(tokens@))));
            }
            result
        },
        Err(error) => {
            proof {
                assert(tokenized(*parse_number, line@, Err::<Seq<TokenView<V>>, CalcError>(error)));
            }
            Err(error)
        },
    }
}

/// The line that reports an evaluated expression: the formula as it was
/// entered, the word `equal`, and the result as `shown` spells it.
pub fn formula_result(formula: &str, shown: &str) -> (text: String)
    ensures
        text@ == formula@ + " equal "@ + shown@,
{
    let mut text = String::from_str(formula);
    text.append(" equal ");
    text.append(shown);
    text
}

/// The line that reports a memory command: the words `set memory` with the
/// slot's name right behind them, the word `equal`, and the slot's new value
/// as `shown` spells it.
pub fn memory_result(name: &str, shown: &str) -> (text: String)
    ensures
        text@ == "set memory"@ + name@ + " equal "@ + shown@,
{
    let mut text = String::from_str("set memory");
    text.append(name);
    text.append(" equal ");
    text.append(shown);
    text
}

} // verus!
