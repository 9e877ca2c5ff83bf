//! Bracket matching: finding the partner of a `[` or a `]` by a linear scan
//! that keeps a nesting level.

use vstd::prelude::*;

verus! {

/// What a character adds to the nesting level when read from left to right.
pub open spec fn weight(c: char) -> int {
    if c == '[' {
        1
    } else if c == ']' {
        -1
    } else {
        0
    }
}

/// The net change in nesting over `program[from..to]`: the number of `[`
/// in that range minus the number of `]`.
pub open spec fn net_depth(program: Seq<char>, from: int, to: int) -> int
    decreases to - from,
{
    if to <= from {
        0
    } else {
        net_depth(program, from, to - 1) + weight(program[to - 1])
    }
}

/// The nesting level of a forward scan that left position `open` with level 1
/// and has just read position `at`.
pub open spec fn forward_level(program: Seq<char>, open: int, at: int) -> int {
    1 + net_depth(program, open + 1, at + 1)
}

/// The nesting level of a backward scan that left position `close` with
/// level 1 and has just read position `at`.
pub open spec fn backward_level(program: Seq<char>, close: int, at: int) -> int {
    1 - net_depth(program, at, close)
}

/// `close` is the first position after `open` at which a forward scan's
/// nesting level drops to zero.
pub open spec fn closes(program: Seq<char>, open: int, close: int) -> bool {
    &&& 0 <= open < close < program.len()
    &&& forward_level(program, open, close) == 0
    &&& forall|k: int| open < k < close ==> forward_level(program, open, k) > 0
}

/// `open` is the first position before `close` at which a backward scan's
/// nesting level drops to zero.
pub open spec fn opens(program: Seq<char>, close: int, open: int) -> bool {
    &&& 0 <= open < close < program.len()
    &&& backward_level(program, close, open) == 0
    &&& forall|k: int| open < k < close ==> backward_level(program, close, k) > 0
}

/// The position that closes the bracket at `open`, if the program has one.
pub open spec fn matching_close(program: Seq<char>, open: int) -> Option<int> {
    if exists|close: int| closes(program, open, close) {
        Some(choose|close: int| closes(program, open, close))
    } else {
        None
    }
}

/// The position that opens the bracket at `close`, if the program has one.
pub open spec fn matching_open(program: Seq<char>, close: int) -> Option<int> {
    if exists|open: int| opens(program, close, open) {
        Some(choose|open: int| opens(program, close, open))
    } else {
        None
    }
}

/// Extending a range by one position on the left adds that position's weight.
pub proof fn lemma_net_depth_extend_left(program: Seq<char>, from: int, to: int)
    requires
        from < to,
    ensures
        net_depth(program, from, to) == weight(program[from]) + net_depth(program, from + 1, to),
    decreases to - from,
{
    if from + 1 < to {
        lemma_net_depth_extend_left(program, from, to - 1);
    } else {
        assert(net_depth(program, from, to - 1) == 0);
        assert(net_depth(program, from + 1, to) == 0);
    }
}

/// The net change over a range is the sum of the changes over its two parts.
pub proof fn lemma_net_depth_split(program: Seq<char>, from: int, mid: int, to: int)
    requires
        from <= mid <= to,
    ensures
        net_depth(program, from, to) == net_depth(program, from, mid) + net_depth(
            program,
            mid,
            to,
        ),
    decreases to - mid,
{
    if mid < to {
        lemma_net_depth_split(program, from, mid, to - 1);
    }
}

/// A bracket has at most one closing partner.
pub proof fn lemma_closes_unique(program: Seq<char>, open: int, first: int, second: int)
    requires
        closes(program, open, first),
        closes(program, open, second),
    ensures
        first == second,
{
    if first < second {
        assert(forward_level(program, open, first) > 0);
    } else if second < first {
        assert(forward_level(program, open, second) > 0);
    }
}

/// A bracket has at most one opening partner.
pub proof fn lemma_opens_unique(program: Seq<char>, close: int, first: int, second: int)
    requires
        opens(program, close, first),
        opens(program, close, second),
    ensures
        first == second,
{
    if first < second {
        assert(backward_level(program, close, second) > 0);
    } else if second < first {
        assert(backward_level(program, close, first) > 0);
    }
}

/// The position that closes a bracket holds a `]`.
pub proof fn lemma_close_is_bracket(program: Seq<char>, open: int, close: int)
    requires
        closes(program, open, close),
    ensures
        program[close] == ']',
{
    if open + 1 < close {
        assert(forward_level(program, open, close - 1) > 0);
    } else {
        assert(net_depth(program, open + 1, close) == 0);
    }
}

/// The position that opens a bracket holds a `[`.
pub proof fn lemma_open_is_bracket(program: Seq<char>, close: int, open: int)
    requires
        opens(program, close, open),
    ensures
        program[open] == '[',
{
    lemma_net_depth_extend_left(program, open, close);
    if open + 1 < close {
        assert(backward_level(program, close, open + 1) > 0);
    } else {
        assert(net_depth(program, open + 1, close) == 0);
    }
}

/// The two scans agree: if `close` closes the `[` at `open`, then `open`
/// opens the `]` at `close`, and the other way round.
pub proof fn lemma_partners_agree(program: Seq<char>, open: int, close: int)
    requires
        0 <= open < close < program.len(),
        program[open] == '[',
        program[close] == ']',
    ensures
        closes(program, open, close) <==> opens(program, close, open),
{
    lemma_net_depth_extend_left(program, open, close + 1);
    lemma_net_depth_extend_left(program, open, close);
    if closes(program, open, close) {
        assert forall|k: int| open < k < close implies backward_level(program, close, k) > 0 by {
            lemma_net_depth_split(program, open, k, close);
            lemma_net_depth_extend_left(program, open, k);
            if open + 1 < k {
                assert(forward_level(program, open, k - 1) > 0);
            } else {
                assert(net_depth(program, open + 1, k) == 0);
            }
        }
    }
    if opens(program, close, open) {
        assert forall|k: int| open < k < close implies forward_level(program, open, k) > 0 by {
            lemma_net_depth_split(program, open, k + 1, close);
            lemma_net_depth_extend_left(program, open, k + 1);
            assert(backward_level(program, close, k + 1) > 0 || k + 1 == close);
            if k + 1 == close {
                assert(net_depth(program, close, close) == 0);
            }
        }
    }
}

/// Scans forward from `open` for the position at which the nesting level,
/// which starts at 1, rises on each `[` and falls on each `]`, first reaches
/// zero. Returns `None` when the program ends before that.
pub fn find_matching_close(program: &[char], open: usize) -> (found: Option<usize>)
    ensures
        match found {
            Some(close) => matching_close(program@, open as int) == Some(close as int),
            None => matching_close(program@, open as int) is None,
        },
        found matches Some(close) ==> closes(program@, open as int, close as int),
        found is None ==> forall|k: int|
            open < k < program@.len() ==> forward_level(program@, open as int, k) > 0,
{
    let len = program.len();
    if open >= len {
        return None;
    }
    let mut level: usize = 1;
    let mut at: usize = open;
    while at + 1 < len
        invariant
            len == program@.len(),
            open <= at < len,
            1 <= level <= at - open + 1,
            level as int == forward_level(program@, open as int, at as int),
            forall|k: int| open < k <= at ==> forward_level(program@, open as int, k) > 0,
        decreases len - at,
    {
        at += 1;
        let c = program[at];
        if c == '[' {
            level += 1;
        } else if c == ']' {
            level -= 1;
        }
        if level == 0 {
            proof {
                assert(closes(program@, open as int, at as int));
                let close = choose|close: int| closes(program@, open as int, close);
                lemma_closes_unique(program@, open as int, close, at as int);
            }
            return Some(at);
        }
    }
    assert forall|close: int| !closes(program@, open as int, close) by {
        if open < close < len {
            assert(forward_level(program@, open as int, close) > 0);
        }
    }
    None
}

/// Scans backward from `close` for the position at which the nesting level,
/// which starts at 1, rises on each `]` and falls on each `[`, first reaches
/// zero. Returns `None` when the start of the program is reached before that.
pub fn find_matching_open(program: &[char], close: usize) -> (found: Option<usize>)
    ensures
        match found {
            Some(open) => matching_open(program@, close as int) == Some(open as int),
            None => matching_open(program@, close as int) is None,
        },
        found matches Some(open) ==> opens(program@, close as int, open as int),
        found is None && close < program@.len() ==> forall|k: int|
            0 <= k < close ==> backward_level(program@, close as int, k) > 0,
{
    let len = program.len();
    if close >= len {
        return None;
    }
    let mut level: usize = 1;
    let mut at: usize = close;
    while at > 0
        invariant
            len == program@.len(),
            at <= close < len,
            1 <= level <= close - at + 1,
            level as int == backward_level(program@, close as int, at as int),
            forall|k: int| at <= k < close ==> backward_level(program@, close as int, k) > 0,
        decreases at,
    {
        at -= 1;
        proof {
            lemma_net_depth_extend_left(program@, at as int, close as int);
        }
        let c = program[at];
        if c == ']' {
            level += 1;
        } else if c == '[' {
            level -= 1;
        }
        if level == 0 {
            proof {
                assert(opens(program@, close as int, at as int));
                let open = choose|open: int| opens(program@, close as int, open);
                lemma_opens_unique(program@, close as int, open, at as int);
            }
            return Some(at);
        }
    }
    assert forall|open: int| !opens(program@, close as int, open) by {
        if 0 <= open < close {
            assert(backward_level(program@, close as int, open) > 0);
        }
    }
    None
}

} // verus!
