//! Laws of the semantics: what holds of every program, every state and every
//! run.

use vstd::prelude::*;
use crate::brackets::{
    bracket_weight, depth, is_matching_close, lemma_depth_within_peak, lemma_matching_close_is,
    lemma_open_bracket_has_match, matching_close, nesting_depth, well_bracketed,
};
use crate::semantics::{
    advance, at, cell, executions, initial, opening, run, status, step, supply, valid, with_cell,
    Action, Fault, Session, State, Status,
};

verus! {

/// A session that is not running stays as it is, however many transitions
/// it is given.
pub proof fn lemma_resting_session_stays(program: Seq<char>, t: Session, steps: nat)
    requires
        status(program, t) != Status::Running,
    ensures
        run(program, t, steps) == t,
    decreases steps,
{
    if steps > 0 {
        assert(advance(program, t) == t);
        lemma_resting_session_stays(program, t, (steps - 1) as nat);
    }
}

/// Running `first + more` transitions is running `first` and then `more`.
pub proof fn lemma_run_splits(program: Seq<char>, t: Session, first: nat, more: nat)
    ensures
        run(program, t, first + more) == run(program, run(program, t, first), more),
    decreases first,
{
    if first > 0 {
        lemma_run_splits(program, advance(program, t), (first - 1) as nat, more);
    }
}

/// A run is a function of program, starting state and input script alone:
/// two runs of a program from one starting session that both came to rest
/// end in the same session, with the same output, whatever step budgets
/// they were given.
pub proof fn lemma_finished_runs_agree(program: Seq<char>, t: Session, one: nat, other: nat)
    requires
        status(program, run(program, t, one)) != Status::Running,
        status(program, run(program, t, other)) != Status::Running,
    ensures
        run(program, t, one) == run(program, t, other),
        run(program, t, one).output == run(program, t, other).output,
{
    if one <= other {
        lemma_run_splits(program, t, one, (other - one) as nat);
        lemma_resting_session_stays(program, run(program, t, one), (other - one) as nat);
    } else {
        lemma_run_splits(program, t, other, (one - other) as nat);
        lemma_resting_session_stays(program, run(program, t, other), (one - other) as nat);
    }
}

/// The state a run starts in is valid, given that the data pointer addresses
/// a cell.
pub proof fn lemma_initial_state_valid(program: Seq<char>, tape: Seq<u8>, pointer: nat)
    requires
        pointer < tape.len(),
    ensures
        valid(program, initial(tape, pointer)),
{
}

/// A transition keeps the state valid.
pub proof fn lemma_step_keeps_valid(program: Seq<char>, s: State)
    requires
        valid(program, s),
    ensures
        valid(program, step(program, s).after),
{
    if s.ip < program.len() {
        let c = program[s.ip as int];
        assert(depth(program, (s.ip + 1) as int) == depth(program, s.ip as int) + bracket_weight(c));
        if c == '[' && cell(s) == 0 {
            if let Some(close) = matching_close(program, s.ip as int) {
                assert(is_matching_close(program, s.ip as int, close));
            }
        }
    }
}

/// An input byte keeps the state valid.
pub proof fn lemma_supply_keeps_valid(program: Seq<char>, s: State, byte: u8)
    requires
        valid(program, s),
        s.ip < program.len(),
        program[s.ip as int] == ',',
    ensures
        valid(program, supply(s, byte)),
{
    assert(depth(program, (s.ip + 1) as int) == depth(program, s.ip as int) + bracket_weight(','));
}

/// A run keeps the state valid.
pub proof fn lemma_run_keeps_valid(program: Seq<char>, t: Session, steps: nat)
    requires
        valid(program, t.state),
    ensures
        valid(program, run(program, t, steps).state),
    decreases steps,
{
    if steps > 0 {
        lemma_step_keeps_valid(program, t.state);
        if step(program, t.state).signal == Ok::<Action, Fault>(Action::Read) && t.taken < t.input.len() {
            lemma_supply_keeps_valid(program, t.state, t.input[t.taken as int]);
        }
        lemma_run_keeps_valid(program, advance(program, t), (steps - 1) as nat);
    }
}

/// In a valid state the loop stack is exactly as deep as the brackets in
/// front of the instruction pointer are nested, and so never deeper than the
/// program's nesting depth.
pub proof fn lemma_stack_within_nesting(program: Seq<char>, s: State)
    requires
        valid(program, s),
    ensures
        s.stack.len() == depth(program, s.ip as int),
        s.stack.len() <= nesting_depth(program),
{
    lemma_depth_within_peak(program, s.ip as int, program.len() as int);
}

/// At no point of a run is the loop stack deeper than the program's nesting
/// depth.
pub proof fn lemma_run_stack_within_nesting(
    program: Seq<char>,
    tape: Seq<u8>,
    pointer: nat,
    input: Seq<u8>,
    steps: nat,
)
    requires
        pointer < tape.len(),
    ensures
        run(program, opening(initial(tape, pointer), input), steps).state.stack.len()
            <= nesting_depth(program),
{
    let t = opening(initial(tape, pointer), input);
    lemma_initial_state_valid(program, tape, pointer);
    lemma_run_keeps_valid(program, t, steps);
    lemma_stack_within_nesting(program, run(program, t, steps).state);
}

/// The loop stack changes in two places only: a `[` on a nonzero cell pushes
/// its own position, and a `]` on a zero cell pops the top. Every other
/// transition leaves the stack as it is, the jump back from a `]` on a
/// nonzero cell among them: it reads the top and keeps it.
pub proof fn lemma_stack_discipline(program: Seq<char>, s: State)
    ensures
        ({
            let after = step(program, s).after;
            let running = s.ip < program.len();
            if running && program[s.ip as int] == '[' && cell(s) != 0 {
                after.stack == s.stack.push(s.ip)
            } else if running && program[s.ip as int] == ']' && cell(s) == 0 && s.stack.len() > 0 {
                after.stack == s.stack.drop_last()
            } else {
                after.stack == s.stack
            }
        }),
        step(program, s).signal is Ok && s.ip < program.len() && program[s.ip as int] == ']'
            && cell(s) != 0 ==> step(program, s).after.ip == s.stack.last() + 1,
{
}

/// A program whose brackets pair up raises no bracket fault: in a valid
/// state a transition can fail at the edge of the tape only, and where it
/// halts no loop is left open.
pub proof fn lemma_paired_brackets_never_fault(program: Seq<char>, s: State)
    requires
        well_bracketed(program),
        valid(program, s),
    ensures
        step(program, s).signal matches Err(fault) ==> fault is TapeBounds,
        step(program, s).signal == Ok::<Action, Fault>(Action::Halt) ==> s.stack.len() == 0,
{
    if s.ip < program.len() {
        let c = program[s.ip as int];
        assert(depth(program, (s.ip + 1) as int) == depth(program, s.ip as int) + bracket_weight(c));
        if c == '[' {
            lemma_open_bracket_has_match(program, s.ip as int);
        }
    }
}

/// A run of a program whose brackets pair up never comes to rest on a
/// bracket fault, and where it halts no loop is left open.
pub proof fn lemma_paired_brackets_run(program: Seq<char>, t: Session, steps: nat)
    requires
        well_bracketed(program),
        valid(program, t.state),
    ensures
        status(program, run(program, t, steps)) matches Status::Failed(fault) ==> fault
            is TapeBounds,
        status(program, run(program, t, steps)) == Status::Halted ==> run(
            program,
            t,
            steps,
        ).state.stack.len() == 0,
{
    lemma_run_keeps_valid(program, t, steps);
    lemma_paired_brackets_never_fault(program, run(program, t, steps).state);
}

/// `count` increments in a row raise the current cell by `count` modulo 256
/// and move the instruction pointer behind them; nothing else changes.
pub proof fn lemma_increments_add_up(program: Seq<char>, t: Session, count: nat)
    requires
        valid(program, t.state),
        t.state.ip + count <= program.len(),
        forall|i: int| t.state.ip <= i < t.state.ip + count ==> program[i] == '+',
    ensures
        run(program, t, count) == (Session {
            state: at(
                with_cell(t.state, ((cell(t.state) + count) % 256) as u8),
                t.state.ip + count,
            ),
            ..t
        }),
    decreases count,
{
    let s = t.state;
    if count == 0 {
        assert(s.tape.update(s.pointer as int, cell(s)) =~= s.tape);
    } else {
        let t1 = advance(program, t);
        lemma_step_keeps_valid(program, s);
        lemma_increments_add_up(program, t1, (count - 1) as nat);
        let up = ((cell(s) + count) % 256) as u8;
        assert(with_cell(t1.state, up).tape =~= with_cell(s, up).tape);
    }
}

/// `count` decrements in a row lower the current cell by `count` modulo 256
/// and move the instruction pointer behind them; nothing else changes.
pub proof fn lemma_decrements_add_up(program: Seq<char>, t: Session, count: nat)
    requires
        valid(program, t.state),
        t.state.ip + count <= program.len(),
        forall|i: int| t.state.ip <= i < t.state.ip + count ==> program[i] == '-',
    ensures
        run(program, t, count) == (Session {
            state: at(
                with_cell(t.state, ((cell(t.state) - count) % 256) as u8),
                t.state.ip + count,
            ),
            ..t
        }),
    decreases count,
{
    let s = t.state;
    if count == 0 {
        assert(s.tape.update(s.pointer as int, cell(s)) =~= s.tape);
    } else {
        let t1 = advance(program, t);
        lemma_step_keeps_valid(program, s);
        lemma_decrements_add_up(program, t1, (count - 1) as nat);
        let down = ((cell(s) - count) % 256) as u8;
        assert(with_cell(t1.state, down).tape =~= with_cell(s, down).tape);
    }
}

/// Wrap-around: 256 increments in a row bring every cell back to the value
/// it had. Only the instruction pointer has moved.
pub proof fn lemma_increments_wrap_around(program: Seq<char>, t: Session)
    requires
        valid(program, t.state),
        t.state.ip + 256 <= program.len(),
        forall|i: int| t.state.ip <= i < t.state.ip + 256 ==> program[i] == '+',
    ensures
        run(program, t, 256) == (Session { state: at(t.state, t.state.ip + 256), ..t }),
{
    let s = t.state;
    lemma_increments_add_up(program, t, 256);
    assert(s.tape.update(s.pointer as int, cell(s)) =~= s.tape);
}

/// Wrap-around: 256 decrements in a row bring every cell back to the value
/// it had. Only the instruction pointer has moved.
pub proof fn lemma_decrements_wrap_around(program: Seq<char>, t: Session)
    requires
        valid(program, t.state),
        t.state.ip + 256 <= program.len(),
        forall|i: int| t.state.ip <= i < t.state.ip + 256 ==> program[i] == '-',
    ensures
        run(program, t, 256) == (Session { state: at(t.state, t.state.ip + 256), ..t }),
{
    let s = t.state;
    lemma_decrements_add_up(program, t, 256);
    assert(s.tape.update(s.pointer as int, cell(s)) =~= s.tape);
}

/// A `]` directly behind a `[` is its matching `]`.
pub proof fn lemma_adjacent_brackets_match(program: Seq<char>, open: int)
    requires
        0 <= open,
        open + 1 < program.len(),
        program[open] == '[',
        program[open + 1] == ']',
    ensures
        is_matching_close(program, open, open + 1),
{
    assert(depth(program, open + 1) == depth(program, open) + 1);
    assert(depth(program, open + 2) == depth(program, open + 1) - 1);
}

/// A `[` on a zero cell never enters its loop: one transition takes the
/// machine to the instruction behind the matching `]`, with tape, data
/// pointer and loop stack as they were, nothing read and nothing written,
/// and no instruction of the body or the `]` executed on the way.
pub proof fn lemma_zero_cell_skips_loop(program: Seq<char>, t: Session, close: int)
    requires
        t.state.ip < program.len(),
        program[t.state.ip as int] == '[',
        cell(t.state) == 0,
        is_matching_close(program, t.state.ip as int, close),
    ensures
        status(program, t) == Status::Running,
        run(program, t, 1) == (Session { state: at(t.state, (close + 1) as nat), ..t }),
        forall|position: nat|
            t.state.ip < position <= close ==> #[trigger] executions(program, t, position, 1) == 0,
{
    lemma_matching_close_is(program, t.state.ip as int, close);
    let next = advance(program, t);
    assert(run(program, t, 1) == next) by {
        assert(run(program, next, 0) == next);
    }
    assert forall|position: nat| t.state.ip < position <= close implies #[trigger] executions(
        program,
        t,
        position,
        1,
    ) == 0 by {
        assert(executions(program, next, position, 0) == 0);
    }
}

/// A `[` on a zero cell with its `]` directly behind it: one transition
/// takes the machine behind the `]`, and nothing else changes.
pub proof fn lemma_zero_cell_skips_empty_loop(program: Seq<char>, t: Session)
    requires
        t.state.ip + 1 < program.len(),
        program[t.state.ip as int] == '[',
        program[t.state.ip as int + 1] == ']',
        cell(t.state) == 0,
    ensures
        status(program, t) == Status::Running,
        run(program, t, 1) == (Session { state: at(t.state, t.state.ip + 2), ..t }),
{
    lemma_adjacent_brackets_match(program, t.state.ip as int);
    lemma_zero_cell_skips_loop(program, t, t.state.ip as int + 1);
}

} // verus!
