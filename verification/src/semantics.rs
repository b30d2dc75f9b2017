//! The meaning of a program: one transition per instruction, and runs made of
//! transitions against a script of input bytes.

use vstd::prelude::*;
use crate::brackets::{depth, matching_close};

verus! {

/// A condition that ends a run for good. Each names the position of the
/// instruction that could not be executed.
#[derive(Clone, Copy, Debug, PartialEq, Eq, Structural)]
pub enum Fault {
    /// A `]` was reached while no loop was open.
    UnmatchedClose { position: usize },
    /// A `[` on a zero cell has no matching `]` to continue behind.
    UnmatchedOpen { position: usize },
    /// A `<` on the first cell or a `>` on the last one; at position 0 also a
    /// data pointer that addresses no cell when the machine is loaded.
    TapeBounds { position: usize },
}

/// What the caller has to do after a transition.
#[derive(Clone, Copy, Debug, PartialEq, Eq, Structural)]
pub enum Action {
    /// Nothing: take the next transition.
    Continue,
    /// Write this byte to the output.
    Emit(u8),
    /// Obtain one input byte and supply it; the machine waits at a `,`.
    Read,
    /// Nothing more: the instruction pointer is past the end of the program.
    Halt,
}

/// Whether a session can go on, and if not, why.
#[derive(Clone, Copy, Debug, PartialEq, Eq, Structural)]
pub enum Status {
    /// Another transition can be taken.
    Running,
    /// The program ran to its end.
    Halted,
    /// The machine waits at a `,` and the input script is used up.
    Starved,
    /// The instruction at hand cannot be executed.
    Failed(Fault),
}

/// The control state and memory of the engine.
pub struct State {
    /// Position of the instruction to execute next.
    pub ip: nat,
    /// Index of the current cell.
    pub pointer: nat,
    /// The cells.
    pub tape: Seq<u8>,
    /// Positions of the `[` of the loops that are open, innermost last.
    pub stack: Seq<nat>,
}

/// The result of one transition.
pub struct Transition {
    pub after: State,
    pub signal: Result<Action, Fault>,
}

/// The state a run starts in.
pub open spec fn initial(tape: Seq<u8>, pointer: nat) -> State {
    State { ip: 0, pointer, tape, stack: Seq::empty() }
}

/// The value of the current cell.
pub open spec fn cell(s: State) -> u8 {
    s.tape[s.pointer as int]
}

/// `s` with the current cell set to `value`.
pub open spec fn with_cell(s: State, value: u8) -> State {
    State { tape: s.tape.update(s.pointer as int, value), ..s }
}

/// `s` with the instruction pointer at `ip`.
pub open spec fn at(s: State, ip: nat) -> State {
    State { ip, ..s }
}

/// A cell value one up, 255 wrapping to 0.
pub open spec fn increment(value: u8) -> u8 {
    ((value + 1) % 256) as u8
}

/// A cell value one down, 0 wrapping to 255.
pub open spec fn decrement(value: u8) -> u8 {
    ((value - 1) % 256) as u8
}

/// The invariant of the engine's state: the data pointer addresses a cell,
/// and the loop stack mirrors the bracket nesting in front of the instruction
/// pointer, entry `k` being a `[` at depth `k`.
pub open spec fn valid(program: Seq<char>, s: State) -> bool {
    &&& s.ip <= program.len()
    &&& s.pointer < s.tape.len()
    &&& s.stack.len() == depth(program, s.ip as int)
    &&& forall|k: int|
        0 <= k < s.stack.len() ==> {
            &&& (#[trigger] s.stack[k]) < program.len()
            &&& program[s.stack[k] as int] == '['
            &&& depth(program, s.stack[k] as int) == k
        }
}

/// One transition: the instruction at `s.ip` executed on `s`.
///
/// A fault, a halt and a wait for input leave the state as it is. After a
/// wait the caller's byte enters through `supply`.
pub open spec fn step(program: Seq<char>, s: State) -> Transition {
    if s.ip >= program.len() {
        Transition { after: s, signal: Ok(Action::Halt) }
    } else {
        let c = program[s.ip as int];
        let position = s.ip as usize;
        let next = s.ip + 1;
        if c == '+' {
            Transition { after: at(with_cell(s, increment(cell(s))), next), signal: Ok(Action::Continue) }
        } else if c == '-' {
            Transition { after: at(with_cell(s, decrement(cell(s))), next), signal: Ok(Action::Continue) }
        } else if c == '>' {
            if s.pointer + 1 < s.tape.len() {
                Transition {
                    after: State { ip: next, pointer: s.pointer + 1, ..s },
                    signal: Ok(Action::Continue),
                }
            } else {
                Transition { after: s, signal: Err(Fault::TapeBounds { position }) }
            }
        } else if c == '<' {
            if s.pointer > 0 {
                Transition {
                    after: State { ip: next, pointer: (s.pointer - 1) as nat, ..s },
                    signal: Ok(Action::Continue),
                }
            } else {
                Transition { after: s, signal: Err(Fault::TapeBounds { position }) }
            }
        } else if c == '.' {
            Transition { after: at(s, next), signal: Ok(Action::Emit(cell(s))) }
        } else if c == ',' {
            Transition { after: s, signal: Ok(Action::Read) }
        } else if c == '[' {
            if cell(s) == 0 {
                match matching_close(program, s.ip as int) {
                    Some(close) => Transition { after: at(s, (close + 1) as nat), signal: Ok(Action::Continue) },
                    None => Transition { after: s, signal: Err(Fault::UnmatchedOpen { position }) },
                }
            } else {
                Transition {
                    after: State { ip: next, stack: s.stack.push(s.ip), ..s },
                    signal: Ok(Action::Continue),
                }
            }
        } else if c == ']' {
            if s.stack.len() == 0 {
                Transition { after: s, signal: Err(Fault::UnmatchedClose { position }) }
            } else if cell(s) == 0 {
                Transition {
                    after: State { ip: next, stack: s.stack.drop_last(), ..s },
                    signal: Ok(Action::Continue),
                }
            } else {
                Transition { after: at(s, s.stack.last() + 1), signal: Ok(Action::Continue) }
            }
        } else {
            Transition { after: at(s, next), signal: Ok(Action::Continue) }
        }
    }
}

/// Whether the machine waits at a `,` for a byte.
pub open spec fn awaits_input(program: Seq<char>, s: State) -> bool {
    s.ip < program.len() && program[s.ip as int] == ','
}

/// The state after the `,` at `s.ip` has received `byte`.
pub open spec fn supply(s: State, byte: u8) -> State {
    at(with_cell(s, byte), s.ip + 1)
}

/// A machine state together with its character input and output: the script
/// of input bytes, how many of them were taken, and the bytes written so far.
pub struct Session {
    pub state: State,
    pub input: Seq<u8>,
    pub taken: nat,
    pub output: Seq<u8>,
}

/// A session at its start: nothing taken, nothing written.
pub open spec fn opening(state: State, input: Seq<u8>) -> Session {
    Session { state, input, taken: 0, output: Seq::empty() }
}

/// Whether `t` can take a transition, and if not, why.
pub open spec fn status(program: Seq<char>, t: Session) -> Status {
    match step(program, t.state).signal {
        Ok(Action::Halt) => Status::Halted,
        Ok(Action::Read) => if t.taken < t.input.len() {
            Status::Running
        } else {
            Status::Starved
        },
        Ok(_) => Status::Running,
        Err(fault) => Status::Failed(fault),
    }
}

/// One transition of a session: emitted bytes go to the output, and a `,`
/// takes the next byte of the script. A session that is not running stays as
/// it is.
pub open spec fn advance(program: Seq<char>, t: Session) -> Session {
    let tr = step(program, t.state);
    match tr.signal {
        Ok(Action::Continue) => Session { state: tr.after, ..t },
        Ok(Action::Emit(byte)) => Session { state: tr.after, output: t.output.push(byte), ..t },
        Ok(Action::Read) => if t.taken < t.input.len() {
            Session { state: supply(t.state, t.input[t.taken as int]), taken: t.taken + 1, ..t }
        } else {
            t
        },
        Ok(Action::Halt) => t,
        Err(_) => t,
    }
}

/// The session after at most `steps` transitions.
pub open spec fn run(program: Seq<char>, t: Session, steps: nat) -> Session
    decreases steps,
{
    if steps == 0 {
        t
    } else {
        run(program, advance(program, t), (steps - 1) as nat)
    }
}

/// How often the instruction at `position` is executed in the first `steps`
/// transitions of `t`.
pub open spec fn executions(program: Seq<char>, t: Session, position: nat, steps: nat) -> nat
    decreases steps,
{
    if steps == 0 {
        0
    } else {
        let here: nat = if status(program, t) == Status::Running && t.state.ip == position {
            1
        } else {
            0
        };
        here + executions(program, advance(program, t), position, (steps - 1) as nat)
    }
}

} // verus!
