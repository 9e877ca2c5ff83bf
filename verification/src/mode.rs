//! Mode selection: which way a file is transcoded is read off the end of its
//! name.

use vstd::prelude::*;
use crate::transcoder::Direction;

verus! {

/// `suffix` stands at the end of `text`.
pub open spec fn ends_with(text: Seq<char>, suffix: Seq<char>) -> bool {
    suffix.len() <= text.len() && text.subrange(text.len() - suffix.len(), text.len() as int)
        == suffix
}

/// The name ends in `.bf` or `.brainfuck`: the file holds the base dialect.
pub open spec fn names_base_dialect(name: Seq<char>) -> bool {
    ends_with(name, ".bf"@) || ends_with(name, ".brainfuck"@)
}

/// The name ends in `.ultimate_brainfuck`: the file holds the shifted dialect.
pub open spec fn names_shifted_dialect(name: Seq<char>) -> bool {
    ends_with(name, ".ultimate_brainfuck"@)
}

/// The direction in which a file of this name is transcoded: a base-dialect
/// file is encoded, a shifted-dialect file is decoded, and any other name
/// selects nothing.
pub open spec fn mode_of(name: Seq<char>) -> Option<Direction> {
    if names_base_dialect(name) {
        Some(Direction::Encode)
    } else if names_shifted_dialect(name) {
        Some(Direction::Decode)
    } else {
        None
    }
}

/// Tells whether `suffix` stands at the end of `text`, character by character.
pub fn has_suffix(text: &str, suffix: &str) -> (found: bool)
    ensures
        found == ends_with(text@, suffix@),
{
    let length = text.unicode_len();
    let wanted = suffix.unicode_len();
    if wanted > length {
        return false;
    }
    let start: usize = length - wanted;
    let mut i: usize = 0;
    while i < wanted
        invariant
            length == text@.len(),
            wanted == suffix@.len(),
            start == length - wanted,
            i <= wanted,
            forall|j: int| 0 <= j < i ==> text@[start + j] == suffix@[j],
        decreases wanted - i,
    {
        if text.get_char(start + i) != suffix.get_char(i) {
            assert(text@.subrange(start as int, length as int)[i as int] != suffix@[i as int]);
            return false;
        }
        i += 1;
    }
    assert(text@.subrange(start as int, length as int) =~= suffix@);
    true
}

/// Whether the file name marks a shifted-dialect file.
pub fn has_ubf_extension(filename: &str) -> (marked: bool)
    ensures
        marked == names_shifted_dialect(filename@),
{
    has_suffix(filename, ".ultimate_brainfuck")
}

/// Whether the file name marks a base-dialect file.
pub fn has_bf_extension(filename: &str) -> (marked: bool)
    ensures
        marked == names_base_dialect(filename@),
{
    has_suffix(filename, ".bf") || has_suffix(filename, ".brainfuck")
}

/// Selects the direction of transcoding from a file name, or `None` for a
/// name of neither family.
pub fn select_mode(filename: &str) -> (mode: Option<Direction>)
    ensures
        mode == mode_of(filename@),
{
    if has_bf_extension(filename) {
        Some(Direction::Encode)
    } else if has_ubf_extension(filename) {
        Some(Direction::Decode)
    } else {
        None
    }
}

/// No name belongs to both families.
pub proof fn lemma_families_exclude(name: Seq<char>)
    ensures
        !(names_base_dialect(name) && names_shifted_dialect(name)),
{
    reveal_strlit(".bf");
    reveal_strlit(".brainfuck");
    reveal_strlit(".ultimate_brainfuck");
    let n = name.len() as int;
    if names_shifted_dialect(name) {
        let tail = name.subrange(n - 19, n);
        assert(tail[18] == 'k');
        assert(tail[9] == '_');
        assert(name[n - 1] == 'k');
        assert(name[n - 10] == '_');
        if ends_with(name, ".bf"@) {
            assert(name.subrange(n - 3, n)[2] == 'f');
        }
        if ends_with(name, ".brainfuck"@) {
            assert(name.subrange(n - 10, n)[0] == '.');
        }
    }
}

} // verus!
