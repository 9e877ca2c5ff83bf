//! The dialect transcoder: a substitution cipher over the instruction
//! alphabet in which the symbol at position `k` of a sequence is rotated
//! through the cyclic order by `k` places, forward to encode and backward to
//! decode.

use vstd::prelude::*;
use crate::alphabet::{
    is_symbol, predecessor, successor, symbol_at, symbol_from_position, symbol_index,
    symbol_position, ALPHABET_SIZE,
};

verus! {

/// The direction of a transcoding.
#[derive(Clone, Copy, Debug, PartialEq, Eq, Structural)]
pub enum Direction {
    /// From the base dialect to the shifted dialect.
    Encode,
    /// From the shifted dialect to the base dialect.
    Decode,
}

impl Direction {
    /// The signed number of places by which the symbol at `position` moves
    /// through the cyclic order.
    pub open spec fn offset(self, position: int) -> int {
        match self {
            Direction::Encode => position,
            Direction::Decode => -position,
        }
    }

    /// The opposite direction.
    pub open spec fn reversed(self) -> Direction {
        match self {
            Direction::Encode => Direction::Decode,
            Direction::Decode => Direction::Encode,
        }
    }
}

/// `c` moved `offset` places through the cyclic order, backward where
/// `offset` is negative. A character outside the alphabet stays for offset 0
/// and becomes a blank for any other.
pub open spec fn rotated(c: char, offset: int) -> char {
    if is_symbol(c) {
        symbol_at((symbol_index(c) + offset) % 8)
    } else if offset == 0 {
        c
    } else {
        ' '
    }
}

/// `c` after `count` single steps through the cyclic order in the given
/// direction.
pub open spec fn stepped(c: char, count: nat, direction: Direction) -> char
    decreases count,
{
    if count == 0 {
        c
    } else {
        let before = stepped(c, (count - 1) as nat, direction);
        match direction {
            Direction::Encode => successor(before),
            Direction::Decode => predecessor(before),
        }
    }
}

/// The sequence in the other dialect: of equal length, the symbol at each
/// position `k` rotated by `k` places in the given direction.
pub open spec fn transcoded(sequence: Seq<char>, direction: Direction) -> Seq<char> {
    Seq::new(sequence.len(), |k: int| rotated(sequence[k], direction.offset(k)))
}

/// Assumed, not proved: `String::push` of the standard library appends `ch`
/// to the end of the string and leaves the characters before it as they were.
pub assume_specification[ String::push ](text: &mut String, ch: char)
    ensures
        final(text)@ == old(text)@.push(ch),
;

/// Rotates `symbol` by `count` places in the given direction.
pub fn cipher_shift(symbol: char, count: usize, direction: Direction) -> (shifted: char)
    ensures
        shifted == rotated(symbol, direction.offset(count as int)),
{
    match symbol_position(symbol) {
        Some(place) => {
            let turn: usize = count % ALPHABET_SIZE;
            match direction {
                Direction::Encode => symbol_from_position(place + turn),
                Direction::Decode => symbol_from_position(place + ALPHABET_SIZE - turn),
            }
        },
        None => if count == 0 {
            symbol
        } else {
            ' '
        },
    }
}

/// Transcodes a sequence into the other dialect. Positions are counted from 0
/// at the start of the sequence and grow by one with every symbol.
pub fn transcode(parsed: &[char], direction: Direction) -> (text: String)
    ensures
        text@ == transcoded(parsed@, direction),
{
    let mut text = String::new();
    let mut counter: usize = 0;
    while counter < parsed.len()
        invariant
            counter <= parsed@.len(),
            text@ == transcoded(parsed@, direction).take(counter as int),
        decreases parsed@.len() - counter,
    {
        let shifted = cipher_shift(parsed[counter], counter, direction);
        text.push(shifted);
        counter += 1;
    }
    text
}

/// Encodes a base-dialect sequence into the shifted dialect.
pub fn convert_to_ultimate_brainfuck(parsed: &[char]) -> (ultimate: String)
    ensures
        ultimate@ == transcoded(parsed@, Direction::Encode),
{
    transcode(parsed, Direction::Encode)
}

/// Decodes a shifted-dialect sequence into the base dialect.
pub fn convert_to_brainfuck(parsed: &[char]) -> (brainfuck: String)
    ensures
        brainfuck@ == transcoded(parsed@, Direction::Decode),
{
    transcode(parsed, Direction::Decode)
}

/// Rotating by the offset of a position is the same as taking that many
/// single steps: the symbol at position `k` goes through the cipher step
/// exactly `k` times.
pub proof fn lemma_rotated_is_stepped(c: char, count: nat, direction: Direction)
    ensures
        rotated(c, direction.offset(count as int)) == stepped(c, count, direction),
    decreases count,
{
    if count > 0 {
        lemma_rotated_is_stepped(c, (count - 1) as nat, direction);
    }
}

/// The cipher never leaves the alphabet.
pub proof fn lemma_rotated_stays_in_alphabet(c: char, offset: int)
    requires
        is_symbol(c),
    ensures
        is_symbol(rotated(c, offset)),
{
}

/// Rotating a symbol back by the same offset restores it.
pub proof fn lemma_rotated_back(c: char, offset: int)
    requires
        is_symbol(c),
    ensures
        rotated(rotated(c, offset), -offset) == c,
{
}

/// A transcoded sequence has the length of its source, and consists of
/// symbols wherever the source does.
pub proof fn lemma_transcoded_shape(sequence: Seq<char>, direction: Direction)
    ensures
        transcoded(sequence, direction).len() == sequence.len(),
        forall|k: int|
            0 <= k < sequence.len() && is_symbol(sequence[k]) ==> is_symbol(
                #[trigger] transcoded(sequence, direction)[k],
            ),
{
}

/// Round trip: decoding an encoded instruction sequence, or encoding a
/// decoded one, gives the sequence back.
pub proof fn lemma_round_trip(sequence: Seq<char>, direction: Direction)
    requires
        forall|k: int| 0 <= k < sequence.len() ==> is_symbol(#[trigger] sequence[k]),
    ensures
        transcoded(transcoded(sequence, direction), direction.reversed()) == sequence,
{
    let there = transcoded(sequence, direction);
    let back = transcoded(there, direction.reversed());
    assert forall|k: int| 0 <= k < sequence.len() implies back[k] == sequence[k] by {
        lemma_rotated_back(sequence[k], direction.offset(k));
        assert(direction.reversed().offset(k) == -direction.offset(k));
    }
    assert(back =~= sequence);
}

/// Position dependence: one symbol at two positions is transcoded to the same
/// symbol exactly when the positions are congruent modulo 8.
pub proof fn lemma_position_dependence(c: char, first: nat, second: nat, direction: Direction)
    requires
        is_symbol(c),
    ensures
        rotated(c, direction.offset(first as int)) == rotated(c, direction.offset(second as int))
            <==> first % 8 == second % 8,
{
}

/// The empty sequence is transcoded to the empty sequence.
pub proof fn lemma_transcoded_empty(direction: Direction)
    ensures
        transcoded(Seq::empty(), direction) == Seq::<char>::empty(),
{
}

} // verus!
