//! The instruction filter: keeps the instruction symbols of a text, in order,
//! and drops every other character.

use vstd::prelude::*;
use crate::alphabet::{is_instruction, is_symbol};

verus! {

/// The instruction sequence of a text: its characters that belong to the
/// alphabet, in the order in which they stand in the text.
pub open spec fn instructions_of(text: Seq<char>) -> Seq<char> {
    text.filter(|c: char| is_symbol(c))
}

/// Appending one character to a text appends it to the text's instruction
/// sequence if it is a symbol, and leaves that sequence as it was if not.
pub proof fn lemma_instructions_of_push(text: Seq<char>, c: char)
    ensures
        instructions_of(text.push(c)) == if is_symbol(c) {
            instructions_of(text).push(c)
        } else {
            instructions_of(text)
        },
{
    reveal(Seq::filter);
    assert(text.push(c).drop_last() =~= text);
}

/// Keeps the instruction symbols of `text` and discards everything else.
pub fn filter_instructions(text: &str) -> (kept: Vec<char>)
    ensures
        kept@ == instructions_of(text@),
{
    let mut kept: Vec<char> = Vec::new();
    for c in it: text.chars()
        invariant
            it.seq() == text@,
            kept@ == instructions_of(text@.take(it.index())),
    {
        proof {
            lemma_instructions_of_push(text@.take(it.index()), c);
            assert(text@.take(it.index()).push(c) =~= text@.take(it.index() + 1));
        }
        if is_instruction(c) {
            kept.push(c);
        }
    }
    assert(text@.take(text@.len() as int) =~= text@);
    kept
}

/// Nothing but instruction symbols survives the filter.
pub proof fn lemma_filter_keeps_only_symbols(text: Seq<char>)
    ensures
        forall|i: int|
            0 <= i < instructions_of(text).len() ==> is_symbol(#[trigger] instructions_of(text)[i]),
    decreases text.len(),
{
    if text.len() > 0 {
        lemma_filter_keeps_only_symbols(text.drop_last());
        lemma_instructions_of_push(text.drop_last(), text.last());
        assert(text.drop_last().push(text.last()) =~= text);
    } else {
        reveal(Seq::filter);
    }
}

/// Filtering a text that holds instruction symbols only gives the text back.
pub proof fn lemma_filter_identity(text: Seq<char>)
    requires
        forall|i: int| 0 <= i < text.len() ==> is_symbol(#[trigger] text[i]),
    ensures
        instructions_of(text) == text,
    decreases text.len(),
{
    if text.len() > 0 {
        lemma_filter_identity(text.drop_last());
        lemma_instructions_of_push(text.drop_last(), text.last());
        assert(text.drop_last().push(text.last()) =~= text);
    } else {
        reveal(Seq::filter);
    }
}

/// Filtering is idempotent: a second pass changes nothing.
pub proof fn lemma_filter_idempotent(text: Seq<char>)
    ensures
        instructions_of(instructions_of(text)) == instructions_of(text),
{
    lemma_filter_keeps_only_symbols(text);
    lemma_filter_identity(instructions_of(text));
}

/// A text without any instruction symbol, the empty text among them, has the
/// empty instruction sequence.
pub proof fn lemma_filter_noise(text: Seq<char>)
    requires
        forall|i: int| 0 <= i < text.len() ==> !is_symbol(#[trigger] text[i]),
    ensures
        instructions_of(text) == Seq::<char>::empty(),
    decreases text.len(),
{
    if text.len() > 0 {
        lemma_filter_noise(text.drop_last());
        lemma_instructions_of_push(text.drop_last(), text.last());
        assert(text.drop_last().push(text.last()) =~= text);
    } else {
        reveal(Seq::filter);
    }
}

} // verus!
