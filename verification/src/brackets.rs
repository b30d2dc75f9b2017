//! Bracket structure of a program: nesting depth and matching of `[` and `]`.

use vstd::prelude::*;

verus! {

/// What a character adds to the nesting depth: `[` opens a level, `]` closes
/// one, and every other character leaves the depth alone.
pub open spec fn bracket_weight(c: char) -> int {
    if c == '[' {
        1
    } else if c == ']' {
        -1
    } else {
        0
    }
}

/// Nesting depth in front of position `upto`: the number of `[` minus the
/// number of `]` among the first `upto` characters.
pub open spec fn depth(program: Seq<char>, upto: int) -> int
    decreases upto,
{
    if upto <= 0 {
        0
    } else {
        depth(program, upto - 1) + bracket_weight(program[upto - 1])
    }
}

/// The greatest depth in front of any position from 0 to `upto`.
pub open spec fn peak_depth(program: Seq<char>, upto: int) -> int
    decreases upto,
{
    if upto <= 0 {
        0
    } else {
        let before = peak_depth(program, upto - 1);
        let here = depth(program, upto);
        if here > before {
            here
        } else {
            before
        }
    }
}

/// The nesting depth of the program: the greatest depth that its brackets
/// reach in front of any position up to its end.
pub open spec fn nesting_depth(program: Seq<char>) -> int {
    peak_depth(program, program.len() as int)
}

/// No position up to `upto` lies deeper than the peak up to `upto`.
pub proof fn lemma_depth_within_peak(program: Seq<char>, position: int, upto: int)
    requires
        0 <= position <= upto,
    ensures
        depth(program, position) <= peak_depth(program, upto),
    decreases upto,
{
    if position < upto {
        lemma_depth_within_peak(program, position, upto - 1);
    } else if upto > 0 {
    }
}

/// `close` is the matching `]` of the `[` at `open`: the first position after
/// `open` behind which the depth is back at the level in front of `open`.
pub open spec fn is_matching_close(program: Seq<char>, open: int, close: int) -> bool {
    &&& 0 <= open < close < program.len()
    &&& depth(program, close + 1) == depth(program, open)
    &&& forall|j: int| open < j <= close ==> depth(program, j) > depth(program, open)
}

/// The matching `]` of the `[` at `open`, if the program holds one.
pub open spec fn matching_close(program: Seq<char>, open: int) -> Option<int> {
    if exists|close: int| is_matching_close(program, open, close) {
        Some(choose|close: int| is_matching_close(program, open, close))
    } else {
        None
    }
}

/// A `[` has at most one matching `]`.
pub proof fn lemma_matching_close_unique(program: Seq<char>, open: int, a: int, b: int)
    requires
        is_matching_close(program, open, a),
        is_matching_close(program, open, b),
    ensures
        a == b,
{
    if a < b {
        assert(depth(program, a + 1) > depth(program, open));
    } else if b < a {
        assert(depth(program, b + 1) > depth(program, open));
    }
}

/// Any position that meets the definition is the one `matching_close` names.
pub proof fn lemma_matching_close_is(program: Seq<char>, open: int, close: int)
    requires
        is_matching_close(program, open, close),
    ensures
        matching_close(program, open) == Some(close),
{
    let chosen = choose|c: int| is_matching_close(program, open, c);
    lemma_matching_close_unique(program, open, chosen, close);
}

/// Only a `[` has a matching `]`.
pub proof fn lemma_only_open_bracket_matches(program: Seq<char>, open: int, close: int)
    requires
        is_matching_close(program, open, close),
    ensures
        program[open] == '[',
{
    assert(depth(program, open + 1) == depth(program, open) + bracket_weight(program[open]));
}

/// The brackets of the program pair up: every `]` closes a `[` in front of
/// it, and every `[` is closed before the end.
pub open spec fn well_bracketed(program: Seq<char>) -> bool {
    &&& forall|i: int| 0 <= i <= program.len() ==> depth(program, i) >= 0
    &&& depth(program, program.len() as int) == 0
}

/// If the depth stays above the level in front of `open` from `open` up to
/// `from`, and is not above it at the end, it comes back to that level at
/// some position on the way: the `[` at `open` has a matching `]`.
proof fn lemma_depth_comes_back(program: Seq<char>, open: int, from: int)
    requires
        0 <= open < from <= program.len(),
        depth(program, program.len() as int) <= depth(program, open),
        forall|j: int| open < j <= from ==> depth(program, j) > depth(program, open),
    ensures
        exists|close: int| is_matching_close(program, open, close),
    decreases program.len() - from,
{
    assert(depth(program, from + 1) == depth(program, from) + bracket_weight(program[from]));
    if depth(program, from + 1) == depth(program, open) {
        assert(is_matching_close(program, open, from));
    } else {
        lemma_depth_comes_back(program, open, from + 1);
    }
}

/// In a program whose brackets pair up, every `[` has a matching `]`.
pub proof fn lemma_open_bracket_has_match(program: Seq<char>, open: int)
    requires
        well_bracketed(program),
        0 <= open < program.len(),
        program[open] == '[',
    ensures
        matching_close(program, open) is Some,
{
    assert(depth(program, open + 1) == depth(program, open) + 1);
    lemma_depth_comes_back(program, open, open + 1);
}

/// Scans forward from the `[` at `open`, counting the brackets that open and
/// close on the way, and stops at its matching `]`. Where `open` is not the
/// position of a `[`, there is none.
pub fn find_matching_close(program: &Vec<char>, open: usize) -> (found: Option<usize>)
    ensures
        found matches Some(close) ==> matching_close(program@, open as int) == Some(close as int),
        found is None ==> matching_close(program@, open as int) is None,
{
    if open >= program.len() || program[open] != '[' {
        proof {
            assert forall|close: int| !is_matching_close(program@, open as int, close) by {
                if is_matching_close(program@, open as int, close) {
                    lemma_only_open_bracket_matches(program@, open as int, close);
                }
            }
        }
        return None;
    }
    let ghost base: int = depth(program@, open as int);
    let mut pos: usize = open + 1;
    let mut inner: usize = 0;
    assert(depth(program@, open + 1) == base + 1);
    while pos < program.len()
        invariant
            open < pos <= program.len(),
            base == depth(program@, open as int),
            inner == depth(program@, pos as int) - base - 1,
            inner <= pos - open - 1,
            forall|j: int| open < j <= pos ==> depth(program@, j) > base,
        decreases program.len() - pos,
    {
        let c: char = program[pos];
        assert(depth(program@, pos + 1) == depth(program@, pos as int) + bracket_weight(c));
        if c == ']' {
            if inner == 0 {
                proof {
                    lemma_matching_close_is(program@, open as int, pos as int);
                }
                return Some(pos);
            }
            inner = inner - 1;
        } else if c == '[' {
            inner = inner + 1;
        }
        pos = pos + 1;
    }
    proof {
        assert forall|close: int| !is_matching_close(program@, open as int, close) by {
            if is_matching_close(program@, open as int, close) {
                assert(depth(program@, close + 1) > base);
            }
        }
    }
    None
}

} // verus!
