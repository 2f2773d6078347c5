use crate::error::CalcError;
use crate::grammar::{
    additive_operator, more_factors, more_terms, multiplicative_operator, parse_additive,
    parse_expression, parse_multiplicative, parse_primary, remaining, Expr, Parsed,
};
use crate::token::TokenView;
use vstd::prelude::*;

verus! {

/// What is read fills at least `least` tokens and ends within `tokens`.
pub open spec fn within<V>(
    tokens: Seq<TokenView<V>>,
    index: nat,
    least: nat,
    parsed: Parsed<V>,
) -> bool {
    parsed matches Ok((_, used)) ==> least <= used && index + used <= tokens.len()
}

/// A primary expression fills at least one token and ends within the
/// tokens.
pub proof fn lemma_primary_within<V>(tokens: Seq<TokenView<V>>, index: nat)
    ensures
        within(tokens, index, 1, parse_primary(tokens, index)),
    decreases remaining(tokens, index), 0nat,
{
    if index < tokens.len() && tokens[index as int] is LParen {
        lemma_additive_within(tokens, index + 1);
    }
}

/// Further factors only add to the tokens that a product fills, and it ends
/// within the tokens.
pub proof fn lemma_more_factors_within<V>(
    tokens: Seq<TokenView<V>>,
    index: nat,
    used: nat,
    left: Expr<V>,
)
    requires
        index + used <= tokens.len(),
    ensures
        within(tokens, index, used, more_factors(tokens, index, used, left)),
    decreases remaining(tokens, index + used), 0nat,
{
    let at = index + used;
    if at < tokens.len() && multiplicative_operator(tokens[at as int]) is Some {
        lemma_primary_within(tokens, at + 1);
        match parse_primary(tokens, at + 1) {
            Ok((right, more)) => {
                lemma_more_factors_within(
                    tokens,
                    index,
                    used + 1 + more,
                    Expr::Binary(
                        multiplicative_operator(tokens[at as int]).unwrap(),
                        Box::new(left),
                        Box::new(right),
                    ),
                );
            },
            Err(_) => {},
        }
    }
}

/// A multiplicative expression fills at least one token and ends within the
/// tokens.
pub proof fn lemma_multiplicative_within<V>(tokens: Seq<TokenView<V>>, index: nat)
    ensures
        within(tokens, index, 1, parse_multiplicative(tokens, index)),
    decreases remaining(tokens, index), 1nat,
{
    lemma_primary_within(tokens, index);
    match parse_primary(tokens, index) {
        Ok((first, used)) => {
            lemma_more_factors_within(tokens, index, used, first);
        },
        Err(_) => {},
    }
}

/// Further terms only add to the tokens that a sum fills, and it ends within
/// the tokens.
pub proof fn lemma_more_terms_within<V>(
    tokens: Seq<TokenView<V>>,
    index: nat,
    used: nat,
    left: Expr<V>,
)
    requires
        index + used <= tokens.len(),
    ensures
        within(tokens, index, used, more_terms(tokens, index, used, left)),
    decreases remaining(tokens, index + used), 0nat,
{
    let at = index + used;
    if at < tokens.len() && additive_operator(tokens[at as int]) is Some {
        lemma_multiplicative_within(tokens, at + 1);
        match parse_multiplicative(tokens, at + 1) {
            Ok((right, more)) => {
                lemma_more_terms_within(
                    tokens,
                    index,
                    used + 1 + more,
                    Expr::Binary(
                        additive_operator(tokens[at as int]).unwrap(),
                        Box::new(left),
                        Box::new(right),
                    ),
                );
            },
            Err(_) => {},
        }
    }
}

/// An additive expression fills at least one token and ends within the
/// tokens.
pub proof fn lemma_additive_within<V>(tokens: Seq<TokenView<V>>, index: nat)
    ensures
        within(tokens, index, 1, parse_additive(tokens, index)),
    decreases remaining(tokens, index), 2nat,
{
    lemma_multiplicative_within(tokens, index);
    match parse_multiplicative(tokens, index) {
        Ok((first, used)) => {
            lemma_more_terms_within(tokens, index, used, first);
        },
        Err(_) => {},
    }
}

/// `whole` holds the tokens `part` from position `offset` on, and nothing
/// behind them that carries an expression on: `whole` ends there, or goes on
/// with a token that is no operator.
pub open spec fn holds<V>(
    whole: Seq<TokenView<V>>,
    offset: nat,
    part: Seq<TokenView<V>>,
) -> bool {
    let end = (offset + part.len()) as int;
    &&& end <= whole.len()
    &&& forall|k: int| 0 <= k < part.len() ==> whole[offset + k] == #[trigger] part[k]
    &&& end < whole.len() ==> {
        &&& additive_operator(whole[end]) is None
        &&& multiplicative_operator(whole[end]) is None
    }
}

/// A primary expression that is read in `part` is read alike where `whole`
/// holds `part`.
pub proof fn lemma_primary_held<V>(
    whole: Seq<TokenView<V>>,
    offset: nat,
    part: Seq<TokenView<V>>,
    index: nat,
)
    requires
        holds(whole, offset, part),
        parse_primary(part, index) is Ok,
    ensures
        parse_primary(whole, offset + index) == parse_primary(part, index),
    decreases remaining(part, index), 0nat,
{
    assert(index < part.len());
    assert(whole[(offset + index) as int] == part[index as int]);
    if part[index as int] is LParen {
        lemma_additive_held(whole, offset, part, index + 1);
        let used = parse_additive(part, index + 1).unwrap().1;
        let close = (index + 1 + used) as int;
        assert(whole[offset + close] == part[close]);
        assert(parse_additive(whole, offset + index + 1) == parse_additive(part, index + 1));
    }
}

/// Further factors that are read in `part` are read alike where `whole`
/// holds `part`.
pub proof fn lemma_more_factors_held<V>(
    whole: Seq<TokenView<V>>,
    offset: nat,
    part: Seq<TokenView<V>>,
    index: nat,
    used: nat,
    left: Expr<V>,
)
    requires
        holds(whole, offset, part),
        index + used <= part.len(),
        more_factors(part, index, used, left) is Ok,
    ensures
        more_factors(whole, offset + index, used, left) == more_factors(part, index, used, left),
    decreases remaining(part, index + used), 0nat,
{
    let at = index + used;
    if at < part.len() {
        assert(whole[(offset + at) as int] == part[at as int]);
        if multiplicative_operator(part[at as int]) is Some {
            lemma_primary_held(whole, offset, part, at + 1);
            lemma_primary_within(part, at + 1);
            let (right, more) = parse_primary(part, at + 1).unwrap();
            assert(parse_primary(whole, offset + index + used + 1) == parse_primary(part, at + 1));
            lemma_more_factors_held(
                whole,
                offset,
                part,
                index,
                used + 1 + more,
                Expr::Binary(
                    multiplicative_operator(part[at as int]).unwrap(),
                    Box::new(left),
                    Box::new(right),
                ),
            );
        }
    }
}

/// A multiplicative expression that is read in `part` is read alike where
/// `whole` holds `part`.
pub proof fn lemma_multiplicative_held<V>(
    whole: Seq<TokenView<V>>,
    offset: nat,
    part: Seq<TokenView<V>>,
    index: nat,
)
    requires
        holds(whole, offset, part),
        parse_multiplicative(part, index) is Ok,
    ensures
        parse_multiplicative(whole, offset + index) == parse_multiplicative(part, index),
    decreases remaining(part, index), 1nat,
{
    lemma_primary_held(whole, offset, part, index);
    lemma_primary_within(part, index);
    let (first, used) = parse_primary(part, index).unwrap();
    lemma_more_factors_held(whole, offset, part, index, used, first);
}

/// Further terms that are read in `part` are read alike where `whole` holds
/// `part`.
pub proof fn lemma_more_terms_held<V>(
    whole: Seq<TokenView<V>>,
    offset: nat,
    part: Seq<TokenView<V>>,
    index: nat,
    used: nat,
    left: Expr<V>,
)
    requires
        holds(whole, offset, part),
        index + used <= part.len(),
        more_terms(part, index, used, left) is Ok,
    ensures
        more_terms(whole, offset + index, used, left) == more_terms(part, index, used, left),
    decreases remaining(part, index + used), 0nat,
{
    let at = index + used;
    if at < part.len() {
        assert(whole[(offset + at) as int] == part[at as int]);
        if additive_operator(part[at as int]) is Some {
            lemma_multiplicative_held(whole, offset, part, at + 1);
            lemma_multiplicative_within(part, at + 1);
            let (right, more) = parse_multiplicative(part, at + 1).unwrap();
            assert(parse_multiplicative(whole, offset + index + used + 1) == parse_multiplicative(
                part,
                at + 1,
            ));
            lemma_more_terms_held(
                whole,
                offset,
                part,
                index,
                used + 1 + more,
                Expr::Binary(
                    additive_operator(part[at as int]).unwrap(),
                    Box::new(left),
                    Box::new(right),
                ),
            );
        }
    }
}

/// An additive expression that is read in `part` is read alike where
/// `whole` holds `part`.
pub proof fn lemma_additive_held<V>(
    whole: Seq<TokenView<V>>,
    offset: nat,
    part: Seq<TokenView<V>>,
    index: nat,
)
    requires
        holds(whole, offset, part),
        parse_additive(part, index) is Ok,
    ensures
        parse_additive(whole, offset + index) == parse_additive(part, index),
    decreases remaining(part, index), 2nat,
{
    lemma_multiplicative_held(whole, offset, part, index);
    lemma_multiplicative_within(part, index);
    let (first, used) = parse_multiplicative(part, index).unwrap();
    lemma_more_terms_held(whole, offset, part, index, used, first);
}

/// Parentheses override precedence: wherever a parenthesised expression
/// stands among `tokens`, it is read as one primary expression, which is the
/// expression that the tokens `inner` between the parentheses are by
/// themselves.
pub proof fn law_group<V>(tokens: Seq<TokenView<V>>, open: int, inner: Seq<TokenView<V>>)
    requires
        0 <= open,
        open + inner.len() + 1 < tokens.len(),
        tokens[open] is LParen,
        tokens.subrange(open + 1, open + 1 + inner.len()) == inner,
        tokens[open + 1 + inner.len()] is RParen,
        parse_expression(inner) is Ok,
    ensures
        parse_primary(tokens, open as nat) == Ok::<(Expr<V>, nat), CalcError>(
            (parse_expression(inner).unwrap(), inner.len() + 2),
        ),
{
    let first = (open + 1) as nat;
    let close = open + 1 + inner.len();
    assert forall|k: int| 0 <= k < inner.len() implies tokens[first + k] == #[trigger] inner[k] by {
        assert(tokens.subrange(open + 1, close)[k] == tokens[open + 1 + k]);
    }
    assert(holds(tokens, first, inner));
    lemma_additive_held(tokens, first, inner, 0);
    assert(parse_additive(tokens, first) == parse_additive(inner, 0));
}

} // verus!
