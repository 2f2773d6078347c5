use vstd::prelude::*;

verus! {

/// Whether `c` has the Unicode property White_Space: what
/// `char::is_whitespace` answers for `c`.
pub uninterp spec fn white_space(c: char) -> bool;

/// Calls `char::is_whitespace`. The answer is the White_Space property of the
/// character, and the space character has it.
#[verifier::external_body]
fn is_whitespace(c: char) -> (answer: bool)
    ensures
        answer == white_space(c),
        c == ' ' ==> answer,
{
    c.is_whitespace()
}

/// A character that parts two pieces of a line: the space, and every other
/// character with the White_Space property.
pub open spec fn is_separator(c: char) -> bool {
    c == ' ' || white_space(c)
}

/// The first position at or after `from` that holds no separator, or the
/// length of `s` if only separators follow.
pub open spec fn piece_start(s: Seq<char>, from: int) -> int
    decreases s.len() - from,
{
    if 0 <= from < s.len() && is_separator(s[from]) {
        piece_start(s, from + 1)
    } else {
        from
    }
}

/// The first position at or after `from` that holds a separator, or the
/// length of `s` if none follows.
pub open spec fn piece_end(s: Seq<char>, from: int) -> int
    decreases s.len() - from,
{
    if 0 <= from < s.len() && !is_separator(s[from]) {
        piece_end(s, from + 1)
    } else {
        from
    }
}

/// The pieces of `s` that begin at or after `from`, in order. A piece is a
/// longest run of characters none of which is a separator.
pub open spec fn pieces_from(s: Seq<char>, from: int) -> Seq<Seq<char>>
    decreases s.len() - from,
{
    let start = piece_start(s, from);
    if 0 <= from && start < s.len() {
        let end = piece_end(s, start);
        proof {
            lemma_piece_start_bounds(s, from);
            lemma_piece_end_bounds(s, start);
        }
        seq![s.subrange(start, end)] + pieces_from(s, end)
    } else {
        Seq::empty()
    }
}

/// The pieces of the line `s`: its longest runs of characters that are no
/// separators, from left to right.
pub open spec fn pieces(s: Seq<char>) -> Seq<Seq<char>> {
    pieces_from(s, 0)
}

/// `piece_start` moves forward, stays within `s`, and stops on a character
/// that is no separator.
pub proof fn lemma_piece_start_bounds(s: Seq<char>, from: int)
    requires
        0 <= from,
    ensures
        from <= piece_start(s, from),
        from <= s.len() ==> piece_start(s, from) <= s.len(),
        piece_start(s, from) < s.len() ==> !is_separator(s[piece_start(s, from)]),
        forall|k: int| from <= k < piece_start(s, from) ==> is_separator(#[trigger] s[k]),
    decreases s.len() - from,
{
    if from < s.len() && is_separator(s[from]) {
        lemma_piece_start_bounds(s, from + 1);
    }
}

/// `piece_end` moves forward, stays within `s`, passes no separator, and
/// stops on one or at the end of `s`.
pub proof fn lemma_piece_end_bounds(s: Seq<char>, from: int)
    requires
        0 <= from,
    ensures
        from <= piece_end(s, from),
        from <= s.len() ==> piece_end(s, from) <= s.len(),
        from < s.len() && !is_separator(s[from]) ==> from < piece_end(s, from),
        piece_end(s, from) < s.len() ==> is_separator(s[piece_end(s, from)]),
        forall|k: int| from <= k < piece_end(s, from) ==> !is_separator(#[trigger] s[k]),
    decreases s.len() - from,
{
    if from < s.len() && !is_separator(s[from]) {
        lemma_piece_end_bounds(s, from + 1);
    }
}

/// `piece` can be a piece of a line: it is not empty and holds no separator.
pub open spec fn is_piece(piece: Seq<char>) -> bool {
    &&& piece.len() > 0
    &&& forall|k: int| 0 <= k < piece.len() ==> !is_separator(#[trigger] piece[k])
}

/// The line made of `parts` with one space between each two neighbours.
pub open spec fn joined(parts: Seq<Seq<char>>) -> Seq<char>
    decreases parts.len(),
{
    if parts.len() == 0 {
        Seq::empty()
    } else if parts.len() == 1 {
        parts[0]
    } else {
        parts[0] + seq![' '] + joined(parts.skip(1))
    }
}

/// `piece_start` is the position `start` where only separators stand
/// between `from` and `start` and `start` holds none.
pub proof fn lemma_piece_start_is(s: Seq<char>, from: int, start: int)
    requires
        0 <= from <= start <= s.len(),
        forall|k: int| from <= k < start ==> is_separator(#[trigger] s[k]),
        start < s.len() ==> !is_separator(s[start]),
    ensures
        piece_start(s, from) == start,
    decreases start - from,
{
    if from < start {
        lemma_piece_start_is(s, from + 1, start);
    }
}

/// `piece_end` is the position `end` where no separator stands between
/// `from` and `end` and `end` holds one or is the end of `s`.
pub proof fn lemma_piece_end_is(s: Seq<char>, from: int, end: int)
    requires
        0 <= from <= end <= s.len(),
        forall|k: int| from <= k < end ==> !is_separator(#[trigger] s[k]),
        end < s.len() ==> is_separator(s[end]),
    ensures
        piece_end(s, from) == end,
    decreases end - from,
{
    if from < end {
        lemma_piece_end_is(s, from + 1, end);
    }
}

/// The pieces of a line behind a prefix are the pieces of what follows the
/// prefix.
pub proof fn lemma_pieces_behind_prefix(prefix: Seq<char>, s: Seq<char>, from: int)
    requires
        0 <= from,
    ensures
        pieces_from(prefix + s, prefix.len() + from) == pieces_from(s, from),
    decreases s.len() - from,
{
    let whole = prefix + s;
    let offset = prefix.len() as int;
    let start = piece_start(s, from);
    lemma_piece_start_bounds(s, from);
    if from > s.len() {
        assert(piece_start(whole, offset + from) == offset + from);
    } else {
        assert forall|k: int| offset + from <= k < offset + start implies is_separator(
            #[trigger] whole[k],
        ) by {
            assert(whole[k] == s[k - offset]);
        }
        if start < s.len() {
            assert(whole[offset + start] == s[start]);
        }
        lemma_piece_start_is(whole, offset + from, offset + start);
    }
    if start < s.len() {
        let end = piece_end(s, start);
        lemma_piece_end_bounds(s, start);
        assert forall|k: int| offset + start <= k < offset + end implies !is_separator(
            #[trigger] whole[k],
        ) by {
            assert(whole[k] == s[k - offset]);
        }
        if end < s.len() {
            assert(whole[offset + end] == s[end]);
        }
        lemma_piece_end_is(whole, offset + start, offset + end);
        assert(whole.subrange(offset + start, offset + end) =~= s.subrange(start, end));
        lemma_pieces_behind_prefix(prefix, s, end);
    }
}

/// Every piece of a line is a piece: not empty, and free of separators.
pub proof fn lemma_pieces_are_pieces(s: Seq<char>, from: int)
    requires
        0 <= from,
    ensures
        forall|i: int|
            0 <= i < pieces_from(s, from).len() ==> is_piece(#[trigger] pieces_from(s, from)[i]),
    decreases s.len() - from,
{
    let start = piece_start(s, from);
    lemma_piece_start_bounds(s, from);
    if start < s.len() {
        let end = piece_end(s, start);
        lemma_piece_end_bounds(s, start);
        lemma_pieces_are_pieces(s, end);
        let first = s.subrange(start, end);
        assert forall|k: int| 0 <= k < first.len() implies !is_separator(#[trigger] first[k]) by {
            assert(first[k] == s[start + k]);
        }
        assert(is_piece(first));
        assert forall|i: int| 0 <= i < pieces_from(s, from).len() implies is_piece(
            #[trigger] pieces_from(s, from)[i],
        ) by {
            if i > 0 {
                assert(pieces_from(s, from)[i] == pieces_from(s, end)[i - 1]);
            }
        }
    }
}

/// Splitting undoes joining: the pieces of `parts` joined by single spaces
/// are `parts`, where each of them can be a piece.
pub proof fn law_split_joined(parts: Seq<Seq<char>>)
    requires
        forall|i: int| 0 <= i < parts.len() ==> is_piece(#[trigger] parts[i]),
    ensures
        pieces(joined(parts)) == parts,
    decreases parts.len(),
{
    let line = joined(parts);
    if parts.len() == 0 {
        assert(pieces(line) =~= parts);
    } else {
        let first = parts[0];
        assert(is_piece(first));
        if parts.len() == 1 {
            lemma_piece_start_is(line, 0, 0);
            lemma_piece_end_is(line, 0, line.len() as int);
            assert(line.subrange(0, line.len() as int) =~= first);
            assert(piece_start(line, line.len() as int) == line.len());
            assert(pieces_from(line, line.len() as int) =~= Seq::<Seq<char>>::empty());
            assert(pieces(line) =~= parts);
        } else {
            let rest = joined(parts.skip(1));
            let head = first + seq![' '];
            assert(line =~= head + rest);
            assert forall|i: int| 0 <= i < parts.skip(1).len() implies is_piece(
                #[trigger] parts.skip(1)[i],
            ) by {
                assert(parts.skip(1)[i] == parts[i + 1]);
            }
            law_split_joined(parts.skip(1));
            assert forall|k: int| 0 <= k < first.len() implies !is_separator(
                #[trigger] line[k],
            ) by {
                assert(line[k] == first[k]);
            }
            assert(line[first.len() as int] == ' ');
            lemma_piece_start_is(line, 0, 0);
            lemma_piece_end_is(line, 0, first.len() as int);
            assert(line.subrange(0, first.len() as int) =~= first);
            // The space behind the first piece is skipped like the prefix.
            assert(piece_start(line, first.len() as int) == piece_start(line, first.len() as int + 1));
            assert(pieces_from(line, first.len() as int) == pieces_from(line, first.len() as int + 1));
            lemma_pieces_behind_prefix(head, rest, 0);
            assert(pieces_from(line, first.len() as int + 1) == parts.skip(1));
            assert(pieces(line) =~= parts);
        }
    }
}

/// Splitting a line, joining its pieces by single spaces and splitting
/// again gives the same pieces.
pub proof fn law_split_is_stable(line: Seq<char>)
    ensures
        pieces(joined(pieces(line))) == pieces(line),
{
    lemma_pieces_are_pieces(line, 0);
    law_split_joined(pieces(line));
}

/// The characters of `text`, in order.
pub fn characters(text: &str) -> (chars: Vec<char>)
    ensures
        chars@ == text@,
{
    let mut chars: Vec<char> = Vec::new();
    for c in iter: text.chars()
        invariant
            iter.seq() == text@,
            chars@ == iter.seq().take(iter.index()),
    {
        chars.push(c);
    }
    chars
}

/// Where the next piece of `chars` at or after `from` begins.
pub fn find_piece_start(chars: &Vec<char>, from: usize) -> (start: usize)
    requires
        from <= chars.len(),
    ensures
        start == piece_start(chars@, from as int),
        from <= start <= chars.len(),
{
    let mut start: usize = from;
    while start < chars.len() && is_whitespace(chars[start])
        invariant
            from <= start <= chars.len(),
            piece_start(chars@, from as int) == piece_start(chars@, start as int),
        decreases chars.len() - start,
    {
        start = start + 1;
    }
    start
}

/// Where the piece of `chars` that begins at `from` ends.
pub fn find_piece_end(chars: &Vec<char>, from: usize) -> (end: usize)
    requires
        from <= chars.len(),
    ensures
        end == piece_end(chars@, from as int),
        from <= end <= chars.len(),
{
    let mut end: usize = from;
    while end < chars.len() && !is_whitespace(chars[end])
        invariant
            from <= end <= chars.len(),
            piece_end(chars@, from as int) == piece_end(chars@, end as int),
        decreases chars.len() - end,
    {
        end = end + 1;
    }
    end
}

} // verus!
