use crate::arithmetic::Operator;
use crate::error::CalcError;
use crate::grammar::{
    additive_operator, more_factors, more_terms, multiplicative_operator, parse_expression,
    parse_multiplicative, parse_primary, Expr,
};
use crate::token::TokenView;
use vstd::prelude::*;

verus! {

/// The expression that an operand token is: a number or a memory slot.
pub open spec fn operand<V>(token: TokenView<V>) -> Option<Expr<V>> {
    match token {
        TokenView::Number(value) => Some(Expr::Number(value)),
        TokenView::MemoryRef(name) => Some(Expr::Slot(name)),
        _ => None,
    }
}

/// The operator that an operator token stands for.
pub open spec fn operator<V>(token: TokenView<V>) -> Option<Operator> {
    match additive_operator(token) {
        Some(found) => Some(found),
        None => multiplicative_operator(token),
    }
}

/// `tokens` are an expression without parentheses: operands and operators
/// in turn, with an operand first and last.
pub open spec fn is_flat<V>(tokens: Seq<TokenView<V>>) -> bool {
    &&& tokens.len() % 2 == 1
    &&& forall|i: int|
        0 <= i < tokens.len() ==> if i % 2 == 0 {
            operand(#[trigger] tokens[i]) is Some
        } else {
            operator(tokens[i]) is Some
        }
}

/// The product that flat `tokens` without `+` and `-` are, taken from left
/// to right: the last operator applied to all before it and the last
/// operand.
pub open spec fn product<V>(tokens: Seq<TokenView<V>>) -> Expr<V>
    decreases tokens.len(),
{
    if tokens.len() < 3 {
        operand(tokens[0]).unwrap()
    } else {
        let last = tokens.len() - 1;
        Expr::Binary(
            operator(tokens[last - 1]).unwrap(),
            Box::new(product(tokens.take(last - 1))),
            Box::new(operand(tokens[last]).unwrap()),
        )
    }
}

/// The position of the last `+` or `-` in `tokens`, or -1 if there is none.
pub open spec fn last_additive<V>(tokens: Seq<TokenView<V>>) -> int
    decreases tokens.len(),
{
    if tokens.len() == 0 {
        -1
    } else if additive_operator(tokens.last()) is Some {
        tokens.len() - 1
    } else {
        last_additive(tokens.drop_last())
    }
}

/// The sum that flat `tokens` are, taken from left to right with `*` and
/// `/` binding tighter than `+` and `-`: the last `+` or `-` applied to the
/// sum before it and the product behind it, or the product that the tokens
/// are where none occurs.
pub open spec fn sum<V>(tokens: Seq<TokenView<V>>) -> Expr<V>
    decreases tokens.len(),
{
    let at = last_additive(tokens);
    if 0 <= at < tokens.len() {
        Expr::Binary(
            additive_operator(tokens[at]).unwrap(),
            Box::new(sum(tokens.take(at))),
            Box::new(product(tokens.skip(at + 1))),
        )
    } else {
        product(tokens)
    }
}

/// The first position at or after `from` that holds a `+` or `-`, or the
/// length of `tokens` if none follows.
pub open spec fn term_end<V>(tokens: Seq<TokenView<V>>, from: int) -> int
    decreases tokens.len() - from,
{
    if 0 <= from < tokens.len() && additive_operator(tokens[from]) is None {
        term_end(tokens, from + 1)
    } else {
        from
    }
}

/// `term_end` moves forward within `tokens`, passes no `+` or `-`, and in
/// flat tokens stops where an operator is due.
pub proof fn lemma_term_end<V>(tokens: Seq<TokenView<V>>, from: int)
    requires
        is_flat(tokens),
        0 <= from < tokens.len(),
        from % 2 == 0,
    ensures
        from < term_end(tokens, from) <= tokens.len(),
        term_end(tokens, from) % 2 == 1,
        forall|i: int|
            from <= i < term_end(tokens, from) ==> additive_operator(#[trigger] tokens[i]) is None,
        term_end(tokens, from) < tokens.len() ==> additive_operator(
            tokens[term_end(tokens, from)],
        ) is Some,
    decreases tokens.len() - from,
{
    assert(operand(tokens[from]) is Some);
    assert(additive_operator(tokens[from]) is None);
    let next = from + 1;
    assert(term_end(tokens, from) == term_end(tokens, next));
    if next < tokens.len() {
        assert(operator(tokens[next]) is Some);
        if additive_operator(tokens[next]) is None {
            assert(term_end(tokens, next) == term_end(tokens, next + 1));
            lemma_term_end(tokens, next + 1);
            assert forall|i: int| from <= i < term_end(tokens, from) implies additive_operator(
                #[trigger] tokens[i],
            ) is None by {
                if i > next {
                    assert(next + 1 <= i < term_end(tokens, next + 1));
                }
            }
        } else {
            assert(term_end(tokens, next) == next);
        }
    } else {
        assert(term_end(tokens, next) == next);
    }
}

/// Without a `+` or `-` in `tokens`, `last_additive` finds none.
pub proof fn lemma_no_additive<V>(tokens: Seq<TokenView<V>>)
    requires
        forall|i: int| 0 <= i < tokens.len() ==> additive_operator(#[trigger] tokens[i]) is None,
    ensures
        last_additive(tokens) == -1,
    decreases tokens.len(),
{
    if tokens.len() > 0 {
        let front = tokens.drop_last();
        assert forall|i: int| 0 <= i < front.len() implies additive_operator(
            #[trigger] front[i],
        ) is None by {
            assert(front[i] == tokens[i]);
        }
        lemma_no_additive(front);
    }
}

/// `last_additive` is the position of a `+` or `-` behind which none
/// follows.
pub proof fn lemma_last_additive_at<V>(tokens: Seq<TokenView<V>>, at: int)
    requires
        0 <= at < tokens.len(),
        additive_operator(tokens[at]) is Some,
        forall|i: int| at < i < tokens.len() ==> additive_operator(#[trigger] tokens[i]) is None,
    ensures
        last_additive(tokens) == at,
    decreases tokens.len(),
{
    if at < tokens.len() - 1 {
        let front = tokens.drop_last();
        assert(front[at] == tokens[at]);
        assert forall|i: int| at < i < front.len() implies additive_operator(
            #[trigger] front[i],
        ) is None by {
            assert(front[i] == tokens[i]);
        }
        lemma_last_additive_at(front, at);
    }
}

/// In flat tokens, the factors from `start` on are read up to the end of
/// their term and make the product of that term.
pub proof fn lemma_factors_of_term<V>(
    tokens: Seq<TokenView<V>>,
    start: nat,
    used: nat,
    end: nat,
)
    requires
        is_flat(tokens),
        start % 2 == 0,
        used % 2 == 1,
        start + used <= end <= tokens.len(),
        end == term_end(tokens, start as int),
    ensures
        more_factors(tokens, start, used, product(tokens.subrange(start as int, (start + used) as int)))
            == Ok::<(Expr<V>, nat), CalcError>(
            (product(tokens.subrange(start as int, end as int)), (end - start) as nat),
        ),
    decreases end - (start + used),
{
    lemma_term_end(tokens, start as int);
    let at = (start + used) as int;
    let left = product(tokens.subrange(start as int, at));
    if at == end {
        if at < tokens.len() {
            assert(additive_operator(tokens[at]) is Some);
            assert(multiplicative_operator(tokens[at]) is None);
        }
    } else {
        assert(additive_operator(tokens[at]) is None);
        assert(operator(tokens[at]) is Some);
        assert(multiplicative_operator(tokens[at]) == operator(tokens[at]));
        assert(operand(tokens[at + 1]) is Some);
        assert(parse_primary(tokens, (at + 1) as nat) == Ok::<(Expr<V>, nat), CalcError>(
            (operand(tokens[at + 1]).unwrap(), 1),
        ));
        let longer = tokens.subrange(start as int, at + 2);
        assert(longer[longer.len() - 1] == tokens[at + 1]);
        assert(longer[longer.len() - 2] == tokens[at]);
        assert(longer.take(longer.len() - 2) =~= tokens.subrange(start as int, at));
        assert(product(longer) == Expr::Binary(
            operator(tokens[at]).unwrap(),
            Box::new(left),
            Box::new(operand(tokens[at + 1]).unwrap()),
        ));
        lemma_factors_of_term(tokens, start, used + 2, end);
    }
}

/// In flat tokens, the multiplicative expression at an operand's position
/// is the product of the term that begins there.
pub proof fn lemma_term<V>(tokens: Seq<TokenView<V>>, start: nat)
    requires
        is_flat(tokens),
        start % 2 == 0,
        start < tokens.len(),
    ensures
        parse_multiplicative(tokens, start) == Ok::<(Expr<V>, nat), CalcError>(
            (
                product(tokens.subrange(start as int, term_end(tokens, start as int))),
                (term_end(tokens, start as int) - start) as nat,
            ),
        ),
{
    lemma_term_end(tokens, start as int);
    assert(operand(tokens[start as int]) is Some);
    assert(parse_primary(tokens, start) == Ok::<(Expr<V>, nat), CalcError>(
        (operand(tokens[start as int]).unwrap(), 1),
    ));
    let single = tokens.subrange(start as int, start as int + 1);
    assert(single[0] == tokens[start as int]);
    lemma_factors_of_term(tokens, start, 1, term_end(tokens, start as int) as nat);
}

/// In flat tokens, the terms from the start on are read up to the end and
/// make the sum that the tokens are.
pub proof fn lemma_terms_of_sum<V>(tokens: Seq<TokenView<V>>, used: nat)
    requires
        is_flat(tokens),
        used % 2 == 1,
        used <= tokens.len(),
        used < tokens.len() ==> additive_operator(tokens[used as int]) is Some,
    ensures
        more_terms(tokens, 0, used, sum(tokens.take(used as int))) == Ok::<(Expr<V>, nat), CalcError>(
            (sum(tokens), tokens.len()),
        ),
    decreases tokens.len() - used,
{
    let at = used as int;
    if used == tokens.len() {
        assert(tokens.take(at) =~= tokens);
    } else {
        let next = (used + 1) as nat;
        lemma_term_end(tokens, next as int);
        lemma_term(tokens, next);
        let end = term_end(tokens, next as int);
        let front = tokens.take(end);
        assert(front[at] == tokens[at]);
        assert forall|i: int| at < i < front.len() implies additive_operator(
            #[trigger] front[i],
        ) is None by {
            assert(front[i] == tokens[i]);
        }
        lemma_last_additive_at(front, at);
        assert(front.take(at) =~= tokens.take(at));
        assert(front.skip(at + 1) =~= tokens.subrange(next as int, end));
        assert(sum(front) == Expr::Binary(
            additive_operator(tokens[at]).unwrap(),
            Box::new(sum(tokens.take(at))),
            Box::new(product(tokens.subrange(next as int, end))),
        ));
        assert(used + 1 + (end - next) as nat == end);
        lemma_terms_of_sum(tokens, end as nat);
    }
}

/// An expression without parentheses is evaluated from left to right, with
/// `*` and `/` binding tighter than `+` and `-`: the grammar reads flat
/// tokens as the sum of their products.
pub proof fn law_flat_expression<V>(tokens: Seq<TokenView<V>>)
    requires
        is_flat(tokens),
    ensures
        parse_expression(tokens) == Ok::<Expr<V>, CalcError>(sum(tokens)),
{
    lemma_term_end(tokens, 0);
    lemma_term(tokens, 0);
    let end = term_end(tokens, 0);
    let front = tokens.take(end);
    assert forall|i: int| 0 <= i < front.len() implies additive_operator(
        #[trigger] front[i],
    ) is None by {
        assert(front[i] == tokens[i]);
    }
    lemma_no_additive(front);
    assert(front =~= tokens.subrange(0, end));
    assert(sum(front) == product(front));
    lemma_terms_of_sum(tokens, end as nat);
}

} // verus!
