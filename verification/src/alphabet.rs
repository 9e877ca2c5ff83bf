//! The instruction alphabet: eight symbols in a fixed cyclic order.

use vstd::prelude::*;

verus! {

/// Number of symbols in the instruction alphabet.
pub const ALPHABET_SIZE: usize = 8;

/// Whether `c` is one of the eight instruction symbols.
pub open spec fn is_symbol(c: char) -> bool {
    c == '>' || c == '<' || c == '+' || c == '-' || c == '.' || c == ',' || c == '[' || c == ']'
}

/// The symbol at place `i` of the cyclic order `> < + - . , [ ]`, for `0 <= i < 8`.
pub open spec fn symbol_at(i: int) -> char {
    if i == 0 {
        '>'
    } else if i == 1 {
        '<'
    } else if i == 2 {
        '+'
    } else if i == 3 {
        '-'
    } else if i == 4 {
        '.'
    } else if i == 5 {
        ','
    } else if i == 6 {
        '['
    } else {
        ']'
    }
}

/// The place of an instruction symbol in the cyclic order.
pub open spec fn symbol_index(c: char) -> int {
    if c == '>' {
        0
    } else if c == '<' {
        1
    } else if c == '+' {
        2
    } else if c == '-' {
        3
    } else if c == '.' {
        4
    } else if c == ',' {
        5
    } else if c == '[' {
        6
    } else {
        7
    }
}

/// One step forward in the cyclic order. A character outside the alphabet
/// has no successor in it and is mapped to a blank.
pub open spec fn successor(c: char) -> char {
    if is_symbol(c) {
        symbol_at((symbol_index(c) + 1) % 8)
    } else {
        ' '
    }
}

/// One step backward in the cyclic order. A character outside the alphabet
/// is mapped to a blank.
pub open spec fn predecessor(c: char) -> char {
    if is_symbol(c) {
        symbol_at((symbol_index(c) - 1) % 8)
    } else {
        ' '
    }
}

/// Tells whether `c` belongs to the instruction alphabet.
pub fn is_instruction(c: char) -> (known: bool)
    ensures
        known == is_symbol(c),
{
    c == '>' || c == '<' || c == '+' || c == '-' || c == '.' || c == ',' || c == '[' || c == ']'
}

/// The place of `c` in the cyclic order, or `None` for a character outside
/// the alphabet.
pub fn symbol_position(c: char) -> (place: Option<usize>)
    ensures
        is_symbol(c) ==> place == Some(symbol_index(c) as usize),
        !is_symbol(c) ==> place is None,
{
    match c {
        '>' => Some(0),
        '<' => Some(1),
        '+' => Some(2),
        '-' => Some(3),
        '.' => Some(4),
        ',' => Some(5),
        '[' => Some(6),
        ']' => Some(7),
        _ => None,
    }
}

/// The symbol at a place of the cyclic order; places are counted modulo 8.
pub fn symbol_from_position(place: usize) -> (symbol: char)
    ensures
        symbol == symbol_at(place as int % 8),
{
    match place % ALPHABET_SIZE {
        0 => '>',
        1 => '<',
        2 => '+',
        3 => '-',
        4 => '.',
        5 => ',',
        6 => '[',
        _ => ']',
    }
}

/// Moves a symbol one step forward in the cyclic order:
/// `> → < → + → - → . → , → [ → ] → >`.
pub fn increment(bfc: char) -> (next: char)
    ensures
        next == successor(bfc),
{
    match bfc {
        '>' => '<',
        '<' => '+',
        '+' => '-',
        '-' => '.',
        '.' => ',',
        ',' => '[',
        '[' => ']',
        ']' => '>',
        _ => ' ',
    }
}

/// Moves a symbol one step backward in the cyclic order:
/// `] → [ → , → . → - → + → < → > → ]`.
pub fn decrement(bfc: char) -> (previous: char)
    ensures
        previous == predecessor(bfc),
{
    match bfc {
        ']' => '[',
        '[' => ',',
        ',' => '.',
        '.' => '-',
        '-' => '+',
        '+' => '<',
        '<' => '>',
        '>' => ']',
        _ => ' ',
    }
}

/// The alphabet has exactly the eight symbols of the cyclic order, each at
/// its own place.
pub proof fn lemma_places(c: char, i: int)
    ensures
        is_symbol(c) ==> 0 <= symbol_index(c) < 8 && symbol_at(symbol_index(c)) == c,
        0 <= i < 8 ==> is_symbol(symbol_at(i)) && symbol_index(symbol_at(i)) == i,
{
}

/// The alphabet is closed under both steps: a symbol's successor and
/// predecessor are symbols.
pub proof fn lemma_steps_stay_in_alphabet(c: char)
    requires
        is_symbol(c),
    ensures
        is_symbol(successor(c)),
        is_symbol(predecessor(c)),
{
}

/// The two steps are mutual inverses on the alphabet.
pub proof fn lemma_steps_are_inverse(c: char)
    requires
        is_symbol(c),
    ensures
        predecessor(successor(c)) == c,
        successor(predecessor(c)) == c,
{
}

/// Each step is one-to-one on the alphabet: distinct symbols have distinct
/// successors and distinct predecessors.
pub proof fn lemma_steps_are_injective(a: char, b: char)
    requires
        is_symbol(a),
        is_symbol(b),
    ensures
        successor(a) == successor(b) ==> a == b,
        predecessor(a) == predecessor(b) ==> a == b,
{
}

} // verus!
