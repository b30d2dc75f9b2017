//! The executable engine: a machine that owns program, tape and control
//! state, takes one transition at a time, and leaves character input and
//! output to its caller.

use vstd::prelude::*;
use crate::brackets::{
    bracket_weight, depth, find_matching_close, is_matching_close, nesting_depth,
};
use crate::semantics::{
    awaits_input, initial, opening, run, status, step, supply, valid, Action, Fault, Session,
    State, Status,
};
use crate::laws::{lemma_resting_session_stays, lemma_stack_within_nesting};

verus! {

/// Number of cells of a fresh tape.
pub const TAPE_CAPACITY: usize = 30000;

/// A fresh tape: `TAPE_CAPACITY` cells, all zero.
pub open spec fn blank_tape() -> Seq<u8> {
    Seq::new(TAPE_CAPACITY as nat, |i: int| 0u8)
}

/// What a run against a script of input bytes came to.
#[derive(Debug, PartialEq, Eq)]
pub struct Report {
    /// The bytes written, in order.
    pub output: Vec<u8>,
    /// How many bytes of the script were taken.
    pub taken: usize,
    /// Where the machine stands: `Running` if only the step budget ended the
    /// run.
    pub status: Status,
}

/// The instruction pointer with the stack of open loops. The two change
/// together whenever a loop is entered or left.
struct Control {
    ip: usize,
    loops: Vec<usize>,
}

/// An engine loaded with a program.
pub struct Machine {
    program: Vec<char>,
    tape: Vec<u8>,
    pointer: usize,
    control: Control,
}

impl View for Machine {
    type V = State;

    closed spec fn view(&self) -> State {
        State {
            ip: self.control.ip as nat,
            pointer: self.pointer as nat,
            tape: self.tape@,
            stack: self.control.loops@.map_values(|p: usize| p as nat),
        }
    }
}

impl Machine {
    /// The program the machine was loaded with.
    pub closed spec fn program(&self) -> Seq<char> {
        self.program@
    }

    /// Every machine is in a valid state for its program.
    #[verifier::type_invariant]
    spec fn inv(&self) -> bool {
        valid(self.program@, self@)
    }

    /// Loads `program` over `tape`, with the data pointer on cell `pointer`.
    /// A pointer that addresses no cell of the tape is a tape bounds fault.
    pub fn new(program: Vec<char>, tape: Vec<u8>, pointer: usize) -> (made: Result<Machine, Fault>)
        ensures
            made is Ok <==> pointer < tape.len(),
            made matches Err(fault) ==> fault == (Fault::TapeBounds { position: 0 }),
            made matches Ok(machine) ==> machine.program() == program@,
            made matches Ok(machine) ==> machine@ == initial(tape@, pointer as nat),
            made matches Ok(machine) ==> valid(machine.program(), machine@),
    {
        if pointer >= tape.len() {
            return Err(Fault::TapeBounds { position: 0 });
        }
        let machine = Machine { program, tape, pointer, control: Control { ip: 0, loops: Vec::new() } };
        assert(machine@.stack =~= Seq::<nat>::empty());
        Ok(machine)
    }

    /// Loads `program` over a fresh tape, with the data pointer on cell 0.
    pub fn fresh(program: Vec<char>) -> (machine: Machine)
        ensures
            machine.program() == program@,
            machine@ == initial(blank_tape(), 0),
            valid(machine.program(), machine@),
    {
        let tape: Vec<u8> = vec![0u8; TAPE_CAPACITY];
        assert(tape@ =~= blank_tape());
        let machine = Machine { program, tape, pointer: 0, control: Control { ip: 0, loops: Vec::new() } };
        assert(machine@.stack =~= Seq::<nat>::empty());
        machine
    }

    /// Executes the instruction at hand and says what the caller has to do.
    ///
    /// A halt, a fault and a wait for input leave the machine as it is.
    pub fn step(&mut self) -> (signal: Result<Action, Fault>)
        ensures
            final(self).program() == old(self).program(),
            final(self)@ == step(old(self).program(), old(self)@).after,
            signal == step(old(self).program(), old(self)@).signal,
            valid(final(self).program(), final(self)@),
    {
        proof {
            use_type_invariant(&*self);
        }
        let ip: usize = self.control.ip;
        if ip >= self.program.len() {
            return Ok(Action::Halt);
        }
        let c: char = self.program[ip];
        let value: u8 = self.tape[self.pointer];
        assert(depth(self.program@, ip + 1) == depth(self.program@, ip as int) + bracket_weight(c));
        if c == '+' {
            self.tape[self.pointer] = value.wrapping_add(1);
            self.control.ip = ip + 1;
            Ok(Action::Continue)
        } else if c == '-' {
            self.tape[self.pointer] = value.wrapping_sub(1);
            self.control.ip = ip + 1;
            Ok(Action::Continue)
        } else if c == '>' {
            if self.pointer < self.tape.len() - 1 {
                self.pointer = self.pointer + 1;
                self.control.ip = ip + 1;
                Ok(Action::Continue)
            } else {
                Err(Fault::TapeBounds { position: ip })
            }
        } else if c == '<' {
            if self.pointer > 0 {
                self.pointer = self.pointer - 1;
                self.control.ip = ip + 1;
                Ok(Action::Continue)
            } else {
                Err(Fault::TapeBounds { position: ip })
            }
        } else if c == '.' {
            self.control.ip = ip + 1;
            Ok(Action::Emit(value))
        } else if c == ',' {
            Ok(Action::Read)
        } else if c == '[' {
            if value == 0 {
                match find_matching_close(&self.program, ip) {
                    Some(close) => {
                        assert(is_matching_close(self.program@, ip as int, close as int));
                        self.control.ip = close + 1;
                        Ok(Action::Continue)
                    },
                    None => Err(Fault::UnmatchedOpen { position: ip }),
                }
            } else {
                // Entering the loop moves the instruction pointer and the
                // stack at once: the pair is taken out, changed and put back.
                let mut control = Control { ip: 0, loops: Vec::new() };
                std::mem::swap(&mut control, &mut self.control);
                control.loops.push(ip);
                control.ip = ip + 1;
                proof {
                    let before = old(self)@;
                    let stack = control.loops@.map_values(|p: usize| p as nat);
                    assert(stack =~= before.stack.push(ip as nat));
                    assert(valid(self.program@, State { ip: (ip + 1) as nat, stack, ..before }));
                }
                self.control = control;
                Ok(Action::Continue)
            }
        } else if c == ']' {
            if self.control.loops.len() == 0 {
                Err(Fault::UnmatchedClose { position: ip })
            } else if value == 0 {
                // Leaving the loop changes the pair at once as well.
                let mut control = Control { ip: 0, loops: Vec::new() };
                std::mem::swap(&mut control, &mut self.control);
                control.loops.pop();
                control.ip = ip + 1;
                proof {
                    let before = old(self)@;
                    let stack = control.loops@.map_values(|p: usize| p as nat);
                    assert(stack =~= before.stack.drop_last());
                    assert(valid(self.program@, State { ip: (ip + 1) as nat, stack, ..before }));
                }
                self.control = control;
                Ok(Action::Continue)
            } else {
                // Repeating the loop reads the top of the stack and keeps it.
                let top: usize = self.control.loops[self.control.loops.len() - 1];
                self.control.ip = top + 1;
                Ok(Action::Continue)
            }
        } else {
            self.control.ip = ip + 1;
            Ok(Action::Continue)
        }
    }

    /// What `step` would signal, without taking the transition.
    pub fn peek(&self) -> (signal: Result<Action, Fault>)
        ensures
            signal == step(self.program(), self@).signal,
    {
        proof {
            use_type_invariant(self);
        }
        let ip: usize = self.control.ip;
        if ip >= self.program.len() {
            return Ok(Action::Halt);
        }
        let c: char = self.program[ip];
        let value: u8 = self.tape[self.pointer];
        if c == '>' && self.pointer >= self.tape.len() - 1 {
            Err(Fault::TapeBounds { position: ip })
        } else if c == '<' && self.pointer == 0 {
            Err(Fault::TapeBounds { position: ip })
        } else if c == '.' {
            Ok(Action::Emit(value))
        } else if c == ',' {
            Ok(Action::Read)
        } else if c == '[' && value == 0 {
            match find_matching_close(&self.program, ip) {
                Some(_) => Ok(Action::Continue),
                None => Err(Fault::UnmatchedOpen { position: ip }),
            }
        } else if c == ']' && self.control.loops.len() == 0 {
            Err(Fault::UnmatchedClose { position: ip })
        } else {
            Ok(Action::Continue)
        }
    }

    /// Hands over the byte that the machine waits for at a `,`: it goes into
    /// the current cell and the machine moves on. A machine that does not
    /// wait at a `,` refuses the byte and stays as it is.
    pub fn supply(&mut self, byte: u8) -> (accepted: bool)
        ensures
            final(self).program() == old(self).program(),
            accepted == awaits_input(old(self).program(), old(self)@),
            final(self)@ == (if accepted {
                supply(old(self)@, byte)
            } else {
                old(self)@
            }),
            valid(final(self).program(), final(self)@),
    {
        proof {
            use_type_invariant(&*self);
        }
        let ip: usize = self.control.ip;
        if ip < self.program.len() && self.program[ip] == ',' {
            assert(depth(self.program@, ip + 1) == depth(self.program@, ip as int) + bracket_weight(','));
            self.tape[self.pointer] = byte;
            self.control.ip = ip + 1;
            true
        } else {
            false
        }
    }

    /// Runs the machine against the script `input` for at most `max_steps`
    /// transitions, a `,` taking the next byte of the script, and reports
    /// what was written and where the machine came to stand.
    pub fn run(&mut self, input: &[u8], max_steps: u64) -> (report: Report)
        ensures
            final(self).program() == old(self).program(),
            valid(final(self).program(), final(self)@),
            ({
                let end = run(old(self).program(), opening(old(self)@, input@), max_steps as nat);
                &&& final(self)@ == end.state
                &&& report.output@ == end.output
                &&& report.taken == end.taken
                &&& report.status == status(old(self).program(), end)
            }),
    {
        proof {
            use_type_invariant(&*self);
        }
        let ghost program = self.program();
        let ghost goal = run(program, opening(self@, input@), max_steps as nat);
        let mut output: Vec<u8> = Vec::new();
        let mut taken: usize = 0;
        let mut left: u64 = max_steps;
        while left > 0
            invariant
                program == old(self).program(),
                goal == run(program, opening(old(self)@, input@), max_steps as nat),
                self.program() == program,
                valid(program, self@),
                taken <= input.len(),
                goal == run(
                    program,
                    Session { state: self@, input: input@, taken: taken as nat, output: output@ },
                    left as nat,
                ),
            decreases left,
        {
            let ghost now = Session { state: self@, input: input@, taken: taken as nat, output: output@ };
            let mut rest: Option<Status> = None;
            match self.step() {
                Ok(Action::Continue) => {},
                Ok(Action::Emit(byte)) => {
                    output.push(byte);
                },
                Ok(Action::Read) => {
                    if taken < input.len() {
                        self.supply(input[taken]);
                        taken = taken + 1;
                    } else {
                        rest = Some(Status::Starved);
                    }
                },
                Ok(Action::Halt) => {
                    rest = Some(Status::Halted);
                },
                Err(fault) => {
                    rest = Some(Status::Failed(fault));
                },
            }
            if let Some(status) = rest {
                proof {
                    lemma_resting_session_stays(program, now, left as nat);
                }
                return Report { output, taken, status };
            }
            left = left - 1;
        }
        let status = match self.peek() {
            Ok(Action::Halt) => Status::Halted,
            Ok(Action::Read) => if taken < input.len() {
                Status::Running
            } else {
                Status::Starved
            },
            Ok(_) => Status::Running,
            Err(fault) => Status::Failed(fault),
        };
        Report { output, taken, status }
    }

    /// The cells.
    pub fn tape(&self) -> (tape: &Vec<u8>)
        ensures
            tape@ == self@.tape,
    {
        &self.tape
    }

    /// Gives the tape back and drops the rest of the machine.
    pub fn into_tape(self) -> (tape: Vec<u8>)
        ensures
            tape@ == self@.tape,
    {
        self.tape
    }

    /// Index of the current cell.
    pub fn pointer(&self) -> (pointer: usize)
        ensures
            pointer == self@.pointer,
            pointer < self@.tape.len(),
    {
        proof {
            use_type_invariant(self);
        }
        self.pointer
    }

    /// Position of the instruction to execute next.
    pub fn position(&self) -> (position: usize)
        ensures
            position == self@.ip,
            position <= self.program().len(),
    {
        proof {
            use_type_invariant(self);
        }
        self.control.ip
    }

    /// Number of loops that are open. It is the nesting depth in front of
    /// the instruction pointer, and so never more than the nesting depth of
    /// the program.
    pub fn loop_depth(&self) -> (open: usize)
        ensures
            open == self@.stack.len(),
            open == depth(self.program(), self@.ip as int),
            open <= nesting_depth(self.program()),
    {
        proof {
            use_type_invariant(self);
            lemma_stack_within_nesting(self.program@, self@);
        }
        self.control.loops.len()
    }
}

/// Runs `source` on `mem_tape`, starting with the data pointer on cell
/// `initial_pointer_pos`, against the input script `input` and for at most
/// `max_steps` transitions. The tape is left as the run left it.
///
/// A starting position that addresses no cell is a tape bounds fault at
/// position 0, reported before anything is executed.
pub fn execute(
    source: Vec<char>,
    mem_tape: &mut Vec<u8>,
    initial_pointer_pos: usize,
    input: &[u8],
    max_steps: u64,
) -> (report: Report)
    ensures
        initial_pointer_pos >= old(mem_tape).len() ==> ({
            &&& final(mem_tape)@ == old(mem_tape)@
            &&& report.output@ == Seq::<u8>::empty()
            &&& report.taken == 0
            &&& report.status == Status::Failed(Fault::TapeBounds { position: 0 })
        }),
        initial_pointer_pos < old(mem_tape).len() ==> ({
            let start = opening(initial(old(mem_tape)@, initial_pointer_pos as nat), input@);
            let end = run(source@, start, max_steps as nat);
            &&& final(mem_tape)@ == end.state.tape
            &&& report.output@ == end.output
            &&& report.taken == end.taken
            &&& report.status == status(source@, end)
        }),
{
    if initial_pointer_pos >= mem_tape.len() {
        return Report {
            output: Vec::new(),
            taken: 0,
            status: Status::Failed(Fault::TapeBounds { position: 0 }),
        };
    }
    let mut tape: Vec<u8> = Vec::new();
    std::mem::swap(&mut tape, mem_tape);
    match Machine::new(source, tape, initial_pointer_pos) {
        Ok(machine) => {
            let mut machine = machine;
            let report = machine.run(input, max_steps);
            *mem_tape = machine.into_tape();
            report
        },
        Err(fault) => Report { output: Vec::new(), taken: 0, status: Status::Failed(fault) },
    }
}

} // verus!
