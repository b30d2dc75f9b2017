//! Loops that count the current cell down: how many passes they make and
//! what they leave behind.

use vstd::prelude::*;
use crate::brackets::{bracket_weight, depth, is_matching_close, lemma_matching_close_is};
use crate::laws::{lemma_run_keeps_valid, lemma_run_splits, lemma_step_keeps_valid};
use crate::semantics::{
    advance, at, cell, executions, run, status, valid, with_cell, Session, Status,
};

verus! {

/// `t` stands at the first instruction of the body of the loop whose `[` is
/// at `open`, about to make a pass: the cell is not zero, the `[` is on top
/// of the stack `base` that the loop was entered with, the data pointer is
/// on `pointer`, and `inv` holds.
pub open spec fn pass_ready(
    program: Seq<char>,
    inv: spec_fn(Session) -> bool,
    open: nat,
    base: Seq<nat>,
    pointer: nat,
    t: Session,
) -> bool {
    &&& inv(t)
    &&& valid(program, t.state)
    &&& t.state.ip == open + 1
    &&& t.state.stack == base.push(open)
    &&& t.state.pointer == pointer
    &&& cell(t.state) > 0
}

/// The `steps` transitions from `t` are one pass of the body that counts the
/// cell down: they stay between the loop's brackets and end at its `]` with
/// data pointer and loop stack as they were and the current cell one lower,
/// and `inv` holds again once the `]` is executed.
pub open spec fn pass_decrements(
    program: Seq<char>,
    inv: spec_fn(Session) -> bool,
    open: nat,
    close: nat,
    t: Session,
    steps: nat,
) -> bool {
    let end = run(program, t, steps);
    &&& forall|j: nat| j < steps ==> open < (#[trigger] run(program, t, j)).state.ip < close
    &&& end.state.ip == close
    &&& end.state.stack == t.state.stack
    &&& end.state.pointer == t.state.pointer
    &&& cell(end.state) == cell(t.state) - 1
    &&& inv(advance(program, end))
}

/// The body of the loop between `open` and `close` takes the current cell
/// down by one on each pass: whenever a pass is ready, some number of
/// transitions makes it.
pub open spec fn body_decrements(
    program: Seq<char>,
    inv: spec_fn(Session) -> bool,
    open: nat,
    close: nat,
    base: Seq<nat>,
    pointer: nat,
) -> bool {
    forall|t: Session| #[trigger]
        pass_ready(program, inv, open, base, pointer, t) ==> exists|steps: nat| #[trigger]
            pass_decrements(program, inv, open, close, t, steps)
}

/// Executions within `first + more` transitions are those within the first
/// `first` and those within the `more` that follow.
pub proof fn lemma_executions_split(
    program: Seq<char>,
    t: Session,
    position: nat,
    first: nat,
    more: nat,
)
    ensures
        executions(program, t, position, first + more) == executions(program, t, position, first)
            + executions(program, run(program, t, first), position, more),
    decreases first,
{
    if first > 0 {
        lemma_executions_split(program, advance(program, t), position, (first - 1) as nat, more);
    }
}

/// An instruction that the run never stands at is never executed.
pub proof fn lemma_never_reached_never_executed(
    program: Seq<char>,
    t: Session,
    position: nat,
    steps: nat,
)
    requires
        forall|j: nat| j < steps ==> (#[trigger] run(program, t, j)).state.ip != position,
    ensures
        executions(program, t, position, steps) == 0,
    decreases steps,
{
    if steps > 0 {
        assert(run(program, t, 0) == t);
        let t1 = advance(program, t);
        assert forall|j: nat| j < steps - 1 implies (#[trigger] run(program, t1, j)).state.ip
            != position by {
            assert(run(program, t, j + 1) == run(program, t1, j));
        }
        lemma_never_reached_never_executed(program, t1, position, (steps - 1) as nat);
    }
}

/// The character at a matching `]` is a `]`.
pub proof fn lemma_matching_close_is_bracket(program: Seq<char>, open: int, close: int)
    requires
        is_matching_close(program, open, close),
    ensures
        program[close] == ']',
{
    assert(depth(program, close + 1) == depth(program, close) + bracket_weight(program[close]));
}

/// From a pass that is ready, the loop makes as many passes as the cell
/// holds and then leaves.
proof fn lemma_passes(
    program: Seq<char>,
    inv: spec_fn(Session) -> bool,
    open: nat,
    close: nat,
    base: Seq<nat>,
    pointer: nat,
    t: Session,
) -> (steps: nat)
    requires
        is_matching_close(program, open as int, close as int),
        body_decrements(program, inv, open, close, base, pointer),
        pass_ready(program, inv, open, base, pointer, t),
    ensures
        ({
            let end = run(program, t, steps);
            &&& end.state.ip == close + 1
            &&& cell(end.state) == 0
            &&& end.state.stack == base
            &&& end.state.pointer == pointer
            &&& inv(end)
            &&& executions(program, t, close, steps) == cell(t.state)
        }),
    decreases cell(t.state),
{
    let pass = choose|k: nat| pass_decrements(program, inv, open, close, t, k);
    let mid = run(program, t, pass);
    let next = advance(program, mid);
    lemma_run_keeps_valid(program, t, pass);
    lemma_step_keeps_valid(program, mid.state);
    lemma_matching_close_is_bracket(program, open as int, close as int);
    assert(status(program, mid) == Status::Running);
    assert(run(program, mid, 1) == next) by {
        assert(run(program, next, 0) == next);
    }
    lemma_run_splits(program, t, pass, 1);
    lemma_never_reached_never_executed(program, t, close, pass);
    lemma_executions_split(program, t, close, pass, 1);
    assert(executions(program, mid, close, 1) == 1) by {
        assert(executions(program, next, close, 0) == 0);
    }
    if cell(mid.state) == 0 {
        assert(next.state.stack =~= base);
        pass + 1
    } else {
        let rest = lemma_passes(program, inv, open, close, base, pointer, next);
        lemma_run_splits(program, t, pass + 1, rest);
        lemma_executions_split(program, t, close, pass + 1, rest);
        pass + 1 + rest
    }
}

/// A loop whose body takes the current cell down by one on each pass makes
/// exactly as many passes as the cell holds when the `[` is reached: after
/// the returned number of transitions the machine stands behind the `]`, the
/// cell is zero, data pointer and loop stack are as they were in front of the
/// `[`, and the `]` was executed once for each pass. `inv` is what the body
/// relies on at the start of a pass and restores at its end; it holds at the
/// end if any pass was made.
pub proof fn lemma_counting_loop(
    program: Seq<char>,
    inv: spec_fn(Session) -> bool,
    close: nat,
    t: Session,
) -> (steps: nat)
    requires
        valid(program, t.state),
        t.state.ip < program.len(),
        program[t.state.ip as int] == '[',
        is_matching_close(program, t.state.ip as int, close as int),
        cell(t.state) > 0 ==> inv(advance(program, t)),
        body_decrements(program, inv, t.state.ip, close, t.state.stack, t.state.pointer),
    ensures
        ({
            let end = run(program, t, steps);
            &&& end.state.ip == close + 1
            &&& cell(end.state) == 0
            &&& end.state.stack == t.state.stack
            &&& end.state.pointer == t.state.pointer
            &&& cell(t.state) > 0 ==> inv(end)
            &&& executions(program, t, close, steps) == cell(t.state)
        }),
{
    let next = advance(program, t);
    assert(run(program, t, 1) == next) by {
        assert(run(program, next, 0) == next);
    }
    assert(executions(program, t, close, 1) == 0) by {
        assert(executions(program, next, close, 0) == 0);
    }
    if cell(t.state) == 0 {
        lemma_matching_close_is(program, t.state.ip as int, close as int);
        1
    } else {
        lemma_step_keeps_valid(program, t.state);
        let rest = lemma_passes(
            program,
            inv,
            t.state.ip,
            close,
            t.state.stack,
            t.state.pointer,
            next,
        );
        lemma_run_splits(program, t, 1, rest);
        lemma_executions_split(program, t, close, 1, rest);
        1 + rest
    }
}

/// The loop `[-]` clears the current cell: it makes as many passes as the
/// cell holds and leaves the machine behind the `]` with that cell at zero
/// and nothing else changed, nothing read and nothing written.
pub proof fn lemma_clearing_loop(program: Seq<char>, t: Session) -> (steps: nat)
    requires
        valid(program, t.state),
        t.state.ip + 2 < program.len(),
        program[t.state.ip as int] == '[',
        program[t.state.ip as int + 1] == '-',
        program[t.state.ip as int + 2] == ']',
    ensures
        run(program, t, steps) == (Session {
            state: at(with_cell(t.state, 0), t.state.ip + 3),
            ..t
        }),
        executions(program, t, t.state.ip + 2, steps) == cell(t.state),
{
    let s = t.state;
    let open = s.ip;
    let close = s.ip + 2;
    assert(is_matching_close(program, open as int, close as int)) by {
        let o = open as int;
        assert(depth(program, o + 1) == depth(program, o) + 1);
        assert(depth(program, o + 2) == depth(program, o + 1));
        assert(depth(program, o + 3) == depth(program, o + 2) - 1);
    }
    if cell(s) == 0 {
        lemma_matching_close_is(program, open as int, close as int);
        let next = advance(program, t);
        assert(run(program, t, 1) == next) by {
            assert(run(program, next, 0) == next);
        }
        assert(executions(program, t, close, 1) == 0) by {
            assert(executions(program, next, close, 0) == 0);
        }
        assert(with_cell(s, 0).tape =~= s.tape);
        1
    } else {
        let inv = |u: Session|
            {
                &&& u.input == t.input
                &&& u.taken == t.taken
                &&& u.output == t.output
                &&& u.state.tape =~= s.tape.update(s.pointer as int, cell(u.state))
            };
        assert(inv(advance(program, t)));
        assert forall|u: Session| #[trigger]
            pass_ready(program, inv, open, s.stack, s.pointer, u) implies exists|k: nat| #[trigger]
            pass_decrements(program, inv, open, close, u, k) by {
            let end = advance(program, u);
            assert(run(program, u, 1) == end) by {
                assert(run(program, end, 0) == end);
            }
            assert(run(program, u, 0) == u);
            assert(end.state.tape =~= s.tape.update(s.pointer as int, cell(end.state)));
            assert(advance(program, end).state.tape == end.state.tape);
            assert(pass_decrements(program, inv, open, close, u, 1));
        }
        let steps = lemma_counting_loop(program, inv, close, t);
        let end = run(program, t, steps);
        assert(end.state.tape =~= with_cell(s, 0).tape);
        steps
    }
}

} // verus!
