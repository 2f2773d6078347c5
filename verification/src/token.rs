use crate::error::CalcError;
use crate::words::{characters, find_piece_end, find_piece_start, pieces, pieces_from};
use crate::words::{joined, law_split_is_stable, lemma_piece_end_bounds, lemma_piece_start_bounds};
use vstd::prelude::*;
use vstd::string::*;

verus! {

/// One token of a line.
#[derive(Debug, Clone, PartialEq)]
pub enum Token<V> {
    /// A number.
    Number(V),
    /// A reference to the memory slot of this name.
    MemoryRef(String),
    /// The command that adds to the slot of this name.
    MemoryPlus(String),
    /// The command that takes from the slot of this name.
    MemoryMinus(String),
    Plus,
    Minus,
    Asterisk,
    Slash,
    LParen,
    RParen,
}

/// A token as contracts see it: slot names are sequences of characters.
pub enum TokenView<V> {
    Number(V),
    MemoryRef(Seq<char>),
    MemoryPlus(Seq<char>),
    MemoryMinus(Seq<char>),
    Plus,
    Minus,
    Asterisk,
    Slash,
    LParen,
    RParen,
}

impl<V> View for Token<V> {
    type V = TokenView<V>;

    open spec fn view(&self) -> TokenView<V> {
        match self {
            Token::Number(value) => TokenView::Number(*value),
            Token::MemoryRef(name) => TokenView::MemoryRef(name@),
            Token::MemoryPlus(name) => TokenView::MemoryPlus(name@),
            Token::MemoryMinus(name) => TokenView::MemoryMinus(name@),
            Token::Plus => TokenView::Plus,
            Token::Minus => TokenView::Minus,
            Token::Asterisk => TokenView::Asterisk,
            Token::Slash => TokenView::Slash,
            Token::LParen => TokenView::LParen,
            Token::RParen => TokenView::RParen,
        }
    }
}

/// The views of `tokens`, in order.
pub open spec fn views<V>(tokens: Seq<Token<V>>) -> Seq<TokenView<V>> {
    tokens.map_values(|token: Token<V>| token@)
}

/// `piece` is the one character `c`.
pub open spec fn is_single(piece: Seq<char>, c: char) -> bool {
    piece.len() == 1 && piece[0] == c
}

/// `piece` begins with the letters `mem`.
pub open spec fn has_memory_prefix(piece: Seq<char>) -> bool {
    piece.len() >= 3 && piece[0] == 'm' && piece[1] == 'e' && piece[2] == 'm'
}

/// The token that `piece` is by its spelling alone: an operator, a
/// parenthesis or a memory token. `None` for every other piece, which is a
/// number if it is a token at all.
///
/// Behind the prefix `mem`, a last character `+` or `-` makes the command,
/// and what stands before it is the slot's name; without one the whole rest
/// is the name. The name may be empty.
pub open spec fn spelled<V>(piece: Seq<char>) -> Option<TokenView<V>> {
    if is_single(piece, '+') {
        Some(TokenView::Plus)
    } else if is_single(piece, '-') {
        Some(TokenView::Minus)
    } else if is_single(piece, '*') {
        Some(TokenView::Asterisk)
    } else if is_single(piece, '/') {
        Some(TokenView::Slash)
    } else if is_single(piece, '(') {
        Some(TokenView::LParen)
    } else if is_single(piece, ')') {
        Some(TokenView::RParen)
    } else if has_memory_prefix(piece) {
        let rest = piece.skip(3);
        if rest.len() > 0 && rest.last() == '+' {
            Some(TokenView::MemoryPlus(rest.drop_last()))
        } else if rest.len() > 0 && rest.last() == '-' {
            Some(TokenView::MemoryMinus(rest.drop_last()))
        } else {
            Some(TokenView::MemoryRef(rest))
        }
    } else {
        None
    }
}

/// `parse_number` can be asked about every text.
pub open spec fn reads_all<V, P: Fn(&str) -> Option<V>>(parse_number: P) -> bool {
    forall|text: &str| call_requires(parse_number, (text,))
}

/// `answer` is what `parse_number` may say of a text spelled `piece`: a
/// number, or `None` where the text is none.
pub open spec fn reads<V, P: Fn(&str) -> Option<V>>(
    parse_number: P,
    piece: Seq<char>,
    answer: Option<V>,
) -> bool {
    exists|text: &str| text@ == piece && call_ensures(parse_number, (text,), answer)
}

/// `token` is a token that `piece` may become: the one it spells, or else a
/// number that `parse_number` reads it as.
pub open spec fn token_of<V, P: Fn(&str) -> Option<V>>(
    parse_number: P,
    piece: Seq<char>,
    token: TokenView<V>,
) -> bool {
    match spelled::<V>(piece) {
        Some(fixed) => token == fixed,
        None => token matches TokenView::Number(value) && reads(parse_number, piece, Some(value)),
    }
}

/// `piece` may become a token.
pub open spec fn is_token<V, P: Fn(&str) -> Option<V>>(parse_number: P, piece: Seq<char>) -> bool {
    exists|token: TokenView<V>| token_of(parse_number, piece, token)
}

/// `piece` is no token: it spells none, and `parse_number` refuses it.
pub open spec fn malformed<V, P: Fn(&str) -> Option<V>>(parse_number: P, piece: Seq<char>) -> bool {
    spelled::<V>(piece) is None && reads(parse_number, piece, None::<V>)
}

/// `outcome` is a way to tokenize the line `line`: the tokens of all its
/// pieces, or `MalformedNumber` where a piece is no token and every piece
/// before it is one.
pub open spec fn tokenized<V, P: Fn(&str) -> Option<V>>(
    parse_number: P,
    line: Seq<char>,
    outcome: Result<Seq<TokenView<V>>, CalcError>,
) -> bool {
    match outcome {
        Ok(tokens) => {
            &&& tokens.len() == pieces(line).len()
            &&& forall|i: int|
                0 <= i < tokens.len() ==> token_of(parse_number, pieces(line)[i], #[trigger] tokens[i])
        },
        Err(error) => {
            &&& error == CalcError::MalformedNumber
            &&& exists|bad: int|
                {
                    &&& 0 <= bad < pieces(line).len()
                    &&& malformed::<V, P>(parse_number, #[trigger] pieces(line)[bad])
                    &&& forall|i: int|
                        0 <= i < bad ==> is_token::<V, P>(parse_number, #[trigger] pieces(line)[i])
                }
        },
    }
}

/// How a token is spelled where its spelling is fixed: every token but a
/// number, which has as many spellings as `parse_number` reads.
pub open spec fn spelling<V>(token: TokenView<V>) -> Option<Seq<char>> {
    match token {
        TokenView::Number(_) => None,
        TokenView::MemoryRef(name) => Some(seq!['m', 'e', 'm'] + name),
        TokenView::MemoryPlus(name) => Some(seq!['m', 'e', 'm'] + name + seq!['+']),
        TokenView::MemoryMinus(name) => Some(seq!['m', 'e', 'm'] + name + seq!['-']),
        TokenView::Plus => Some(seq!['+']),
        TokenView::Minus => Some(seq!['-']),
        TokenView::Asterisk => Some(seq!['*']),
        TokenView::Slash => Some(seq!['/']),
        TokenView::LParen => Some(seq!['(']),
        TokenView::RParen => Some(seq![')']),
    }
}

/// A piece that spells a token is the spelling of that token: writing the
/// token down again gives the piece back.
pub proof fn law_spelling_of_spelled<V>(piece: Seq<char>)
    requires
        spelled::<V>(piece) is Some,
    ensures
        spelling(spelled::<V>(piece).unwrap()) == Some(piece),
{
    let token = spelled::<V>(piece).unwrap();
    match token {
        TokenView::MemoryRef(name) => {
            assert(seq!['m', 'e', 'm'] + name =~= piece);
        },
        TokenView::MemoryPlus(name) => {
            assert(seq!['m', 'e', 'm'] + name + seq!['+'] =~= piece);
        },
        TokenView::MemoryMinus(name) => {
            assert(seq!['m', 'e', 'm'] + name + seq!['-'] =~= piece);
        },
        TokenView::Plus => {
            assert(seq!['+'] =~= piece);
        },
        TokenView::Minus => {
            assert(seq!['-'] =~= piece);
        },
        TokenView::Asterisk => {
            assert(seq!['*'] =~= piece);
        },
        TokenView::Slash => {
            assert(seq!['/'] =~= piece);
        },
        TokenView::LParen => {
            assert(seq!['('] =~= piece);
        },
        TokenView::RParen => {
            assert(seq![')'] =~= piece);
        },
        TokenView::Number(_) => {},
    }
}

/// Tokenizing is blind to how the pieces of a line are spaced: a line and
/// its pieces joined by single spaces tokenize in the same ways.
pub proof fn law_tokens_survive_rejoining<V, P: Fn(&str) -> Option<V>>(
    parse_number: P,
    line: Seq<char>,
    outcome: Result<Seq<TokenView<V>>, CalcError>,
)
    ensures
        tokenized(parse_number, joined(pieces(line)), outcome) == tokenized(
            parse_number,
            line,
            outcome,
        ),
{
    law_split_is_stable(line);
}

impl<V> Token<V> {
    /// Reads one piece of a line as a token. The spelling decides first;
    /// a piece that spells no token is handed to `parse_number`, and is a
    /// number if that reads it and malformed if not.
    pub fn parse<P: Fn(&str) -> Option<V>>(value: &str, parse_number: &P) -> (token: Result<
        Token<V>,
        CalcError,
    >)
        requires
            call_requires(*parse_number, (value,)),
        ensures
            (match spelled::<V>(value@) {
                Some(fixed) => token matches Ok(t) && t@ == fixed,
                None => match token {
                    Ok(t) => t matches Token::Number(number) && call_ensures(
                        *parse_number,
                        (value,),
                        Some(number),
                    ),
                    Err(error) => error == CalcError::MalformedNumber && call_ensures(
                        *parse_number,
                        (value,),
                        None::<V>,
                    ),
                },
            }),
    {
        let length = value.unicode_len();
        if length == 1 {
            let c = value.get_char(0);
            if c == '+' {
                return Ok(Token::Plus);
            } else if c == '-' {
                return Ok(Token::Minus);
            } else if c == '*' {
                return Ok(Token::Asterisk);
            } else if c == '/' {
                return Ok(Token::Slash);
            } else if c == '(' {
                return Ok(Token::LParen);
            } else if c == ')' {
                return Ok(Token::RParen);
            }
        }
        if length >= 3 && value.get_char(0) == 'm' && value.get_char(1) == 'e' && value.get_char(2)
            == 'm' {
            if length > 3 {
                let last = value.get_char(length - 1);
                if last == '+' {
                    let name = value.substring_char(3, length - 1);
                    assert(name@ == value@.skip(3).drop_last());
                    return Ok(Token::MemoryPlus(name.to_owned()));
                } else if last == '-' {
                    let name = value.substring_char(3, length - 1);
                    assert(name@ == value@.skip(3).drop_last());
                    return Ok(Token::MemoryMinus(name.to_owned()));
                }
            }
            let name = value.substring_char(3, length);
            assert(name@ == value@.skip(3));
            return Ok(Token::MemoryRef(name.to_owned()));
        }
        match parse_number(value) {
            Some(number) => Ok(Token::Number(number)),
            None => Err(CalcError::MalformedNumber),
        }
    }

    /// Splits a line into its pieces and reads each as a token, from left to
    /// right, up to the first piece that is none.
    pub fn split<P: Fn(&str) -> Option<V>>(text: &str, parse_number: &P) -> (tokens: Result<
        Vec<Token<V>>,
        CalcError,
    >)
        requires
            reads_all(*parse_number),
        ensures
            tokenized(
                *parse_number,
                text@,
                match tokens {
                    Ok(found) => Ok(views(found@)),
                    Err(error) => Err(error),
                },
            ),
    {
        let chars = characters(text);
        let mut tokens: Vec<Token<V>> = Vec::new();
        let mut position: usize = 0;
        loop
            invariant
                chars@ == text@,
                reads_all(*parse_number),
                position <= chars.len(),
                tokens.len() + pieces_from(text@, position as int).len() == pieces(text@).len(),
                pieces_from(text@, position as int) == pieces(text@).skip(tokens.len() as int),
                forall|i: int|
                    0 <= i < tokens.len() ==> token_of(
                        *parse_number,
                        pieces(text@)[i],
                        #[trigger] tokens@[i]@,
                    ),
            decreases chars.len() - position,
        {
            let start = find_piece_start(&chars, position);
            if start >= chars.len() {
                proof {
                    assert(pieces_from(text@, position as int).len() == 0);
                    assert(forall|i: int|
                        0 <= i < tokens.len() ==> #[trigger] views(tokens@)[i] == tokens@[i]@);
                }
                return Ok(tokens);
            }
            let end = find_piece_end(&chars, start);
            proof {
                lemma_piece_start_bounds(text@, position as int);
                lemma_piece_end_bounds(text@, start as int);
            }
            let piece = text.substring_char(start, end);
            let ghost index = tokens.len() as int;
            proof {
                let here = pieces_from(text@, position as int);
                let rest = pieces_from(text@, end as int);
                assert(here == seq![text@.subrange(start as int, end as int)] + rest);
                assert(here[0] == piece@);
                assert(pieces(text@)[index] == piece@);
                assert(rest =~= here.skip(1));
                assert(pieces(text@).skip(index).skip(1) =~= pieces(text@).skip(index + 1));
            }
            match Token::parse(piece, parse_number) {
                Ok(token) => {
                    proof {
                        assert(token_of(*parse_number, piece@, token@));
                    }
                    tokens.push(token);
                },
                Err(error) => {
                    proof {
                        assert(reads(*parse_number, piece@, None::<V>));
                        assert(0 <= index < pieces(text@).len());
                        assert(malformed::<V, P>(*parse_number, pieces(text@)[index]));
                        assert forall|i: int| 0 <= i < index implies is_token::<V, P>(
                            *parse_number,
                            #[trigger] pieces(text@)[i],
                        ) by {
                            assert(token_of(*parse_number, pieces(text@)[i], tokens@[i]@));
                        }
                    }
                    return Err(error);
                },
            }
            position = end;
        }
    }
}

} // verus!
