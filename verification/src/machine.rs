//! The tape machine: a circular tape of byte cells, a data pointer and a
//! program counter, advanced one instruction at a time.
//!
//! The machine does no input or output of its own. Each step reports what it
//! owes to the outside, and a step that reads takes the byte as an argument,
//! so the caller decides where bytes come from and where they go.

use vstd::prelude::*;
use crate::brackets::{
    backward_level, closes, find_matching_close, find_matching_open, forward_level,
    lemma_closes_unique, lemma_net_depth_extend_left, lemma_opens_unique, matching_close,
    matching_open, net_depth, opens,
};

verus! {

/// Number of cells on the tape.
pub const TAPE_LENGTH: usize = 30000;

/// What a step that went through owes to the outside.
#[derive(Clone, Copy, Debug, PartialEq, Eq, Structural)]
pub enum Signal {
    /// An instruction was carried out and nothing is owed.
    Continue,
    /// A `.` was carried out: this byte is to be written.
    Output(u8),
    /// The program counter stands past the last instruction: nothing was done.
    Finished,
}

/// Why a step could not be carried out.
#[derive(Clone, Copy, Debug, PartialEq, Eq, Structural)]
pub enum Fault {
    /// A `[` on a zero cell has no matching `]` after it.
    UnmatchedOpenBracket,
    /// A `]` on a nonzero cell has no matching `[` before it.
    UnmatchedCloseBracket,
}

/// How a bounded run came to its end.
#[derive(Clone, Copy, Debug, PartialEq, Eq, Structural)]
pub enum Halt {
    /// The program counter passed the last instruction.
    Finished,
    /// A bracket without a partner stopped the run.
    Fault(Fault),
    /// The step limit was used up before the program ended.
    OutOfSteps,
}

/// What a bounded run did.
#[derive(Debug, PartialEq, Eq)]
pub struct Report {
    /// The bytes written by `.`, in order.
    pub output: Vec<u8>,
    /// How many bytes of the input were taken by `,`.
    pub consumed: usize,
    /// Why the run ended.
    pub halt: Halt,
}

/// The machine as a mathematical value.
pub struct MachineState {
    /// The instruction sequence being executed.
    pub program: Seq<char>,
    /// The cells of the tape.
    pub tape: Seq<u8>,
    /// The data pointer, an index into the tape.
    pub pointer: int,
    /// The program counter, an index into the program.
    pub counter: int,
}

impl MachineState {
    /// The state in which execution of `program` starts: every cell zero, the
    /// data pointer and the program counter at 0.
    pub open spec fn fresh(program: Seq<char>) -> MachineState {
        MachineState {
            program,
            tape: Seq::new(TAPE_LENGTH as nat, |i: int| 0u8),
            pointer: 0,
            counter: 0,
        }
    }

    /// The tape has its fixed length, the data pointer is on the tape, and the
    /// program counter is on the program or just past its end.
    pub open spec fn valid(self) -> bool {
        &&& self.tape.len() == TAPE_LENGTH
        &&& 0 <= self.pointer < TAPE_LENGTH
        &&& 0 <= self.counter <= self.program.len()
    }

    /// The program counter has passed the last instruction.
    pub open spec fn finished(self) -> bool {
        self.counter >= self.program.len()
    }

    /// The instruction under the program counter.
    pub open spec fn instruction(self) -> char
        recommends
            !self.finished(),
    {
        self.program[self.counter]
    }

    /// The byte under the data pointer.
    pub open spec fn cell(self) -> u8 {
        self.tape[self.pointer]
    }

    /// The next step is a `,`, which takes a byte from the outside.
    pub open spec fn awaits_input(self) -> bool {
        !self.finished() && self.instruction() == ','
    }

    /// This state with the byte under the data pointer replaced.
    pub open spec fn with_cell(self, value: u8) -> MachineState {
        MachineState { tape: self.tape.update(self.pointer, value), ..self }
    }

    /// This state with the program counter moved to `counter`.
    pub open spec fn at(self, counter: int) -> MachineState {
        MachineState { counter, ..self }
    }

    /// The fault, if any, that keeps the next step from being carried out.
    pub open spec fn fault(self) -> Option<Fault> {
        if self.finished() {
            None
        } else if self.instruction() == '[' && self.cell() == 0 && matching_close(
            self.program,
            self.counter,
        ) is None {
            Some(Fault::UnmatchedOpenBracket)
        } else if self.instruction() == ']' && self.cell() != 0 && matching_open(
            self.program,
            self.counter,
        ) is None {
            Some(Fault::UnmatchedCloseBracket)
        } else {
            None
        }
    }

    /// What one step reports: a fault, the end of the program, a byte to
    /// write, or nothing.
    pub open spec fn signal(self) -> Result<Signal, Fault> {
        match self.fault() {
            Some(fault) => Err(fault),
            None => if self.finished() {
                Ok(Signal::Finished)
            } else if self.instruction() == '.' {
                Ok(Signal::Output(self.cell()))
            } else {
                Ok(Signal::Continue)
            },
        }
    }

    /// The state after one step. `input` is the byte that the outside offers
    /// to a `,`; `None` stands for the end of the input. A finished machine
    /// and a machine at a fault stay as they are.
    pub open spec fn next(self, input: Option<u8>) -> MachineState {
        if self.finished() || self.fault() is Some {
            self
        } else {
            let c = self.instruction();
            let onward = self.at(self.counter + 1);
            if c == '>' {
                MachineState { pointer: (self.pointer + 1) % (TAPE_LENGTH as int), ..onward }
            } else if c == '<' {
                MachineState { pointer: (self.pointer - 1) % (TAPE_LENGTH as int), ..onward }
            } else if c == '+' {
                onward.with_cell(((self.cell() + 1) % 256) as u8)
            } else if c == '-' {
                onward.with_cell(((self.cell() - 1) % 256) as u8)
            } else if c == ',' {
                match input {
                    Some(byte) => onward.with_cell(byte),
                    None => onward,
                }
            } else if c == '[' && self.cell() == 0 {
                self.at(matching_close(self.program, self.counter).unwrap() + 1)
            } else if c == ']' && self.cell() != 0 {
                self.at(matching_open(self.program, self.counter).unwrap() + 1)
            } else {
                onward
            }
        }
    }
}

/// A run in progress as a mathematical value: the machine, what it has
/// written so far, and how much of the input it has taken.
pub struct Trace {
    /// The state of the machine.
    pub state: MachineState,
    /// The bytes written so far.
    pub output: Seq<u8>,
    /// The number of input bytes taken so far.
    pub consumed: int,
}

impl Trace {
    /// The beginning of a run from `state`: nothing written, nothing taken.
    pub open spec fn start(state: MachineState) -> Trace {
        Trace { state, output: Seq::empty(), consumed: 0 }
    }

    /// The byte that `input` hands to the next step: its first byte not yet
    /// taken, if the machine asks for one and one is left.
    pub open spec fn offered(self, input: Seq<u8>) -> Option<u8> {
        if self.state.awaits_input() && 0 <= self.consumed < input.len() {
            Some(input[self.consumed])
        } else {
            None
        }
    }

    /// The run after one more step of the machine.
    pub open spec fn advance(self, input: Seq<u8>) -> Trace {
        Trace {
            state: self.state.next(self.offered(input)),
            output: match self.state.signal() {
                Ok(Signal::Output(byte)) => self.output.push(byte),
                _ => self.output,
            },
            consumed: if self.offered(input) is Some {
                self.consumed + 1
            } else {
                self.consumed
            },
        }
    }

    /// The run after `count` more steps of the machine.
    pub open spec fn steps(self, input: Seq<u8>, count: nat) -> Trace
        decreases count,
    {
        if count == 0 {
            self
        } else {
            self.advance(input).steps(input, (count - 1) as nat)
        }
    }

    /// The run continued until the program is finished, a fault stops it, or
    /// `limit` instructions have been attempted, and the reason for which it
    /// ended.
    pub open spec fn run(self, input: Seq<u8>, limit: nat) -> (Trace, Halt)
        decreases limit,
    {
        if self.state.finished() {
            (self, Halt::Finished)
        } else if limit == 0 {
            (self, Halt::OutOfSteps)
        } else {
            match self.state.fault() {
                Some(fault) => (self, Halt::Fault(fault)),
                None => self.advance(input).run(input, (limit - 1) as nat),
            }
        }
    }
}

/// A tape machine loaded with a program.
pub struct Machine {
    program: Vec<char>,
    tape: Vec<u8>,
    pointer: usize,
    counter: usize,
}

impl View for Machine {
    type V = MachineState;

    closed spec fn view(&self) -> MachineState {
        MachineState {
            program: self.program@,
            tape: self.tape@,
            pointer: self.pointer as int,
            counter: self.counter as int,
        }
    }
}

impl Machine {
    #[verifier::type_invariant]
    spec fn well_formed(self) -> bool {
        self@.valid()
    }

    /// Loads `program` into a machine with a zeroed tape.
    pub fn new(program: Vec<char>) -> (machine: Machine)
        ensures
            machine@ == MachineState::fresh(program@),
    {
        let tape = vec![0u8; TAPE_LENGTH];
        assert(tape@ =~= Seq::new(TAPE_LENGTH as nat, |i: int| 0u8));
        Machine { program, tape, pointer: 0, counter: 0 }
    }

    /// The data pointer.
    pub fn pointer(&self) -> (pointer: usize)
        ensures
            pointer == self@.pointer,
            self@.valid(),
    {
        proof {
            use_type_invariant(self);
        }
        self.pointer
    }

    /// The program counter.
    pub fn counter(&self) -> (counter: usize)
        ensures
            counter == self@.counter,
            self@.valid(),
    {
        proof {
            use_type_invariant(self);
        }
        self.counter
    }

    /// The byte under the data pointer.
    pub fn cell(&self) -> (value: u8)
        ensures
            value == self@.cell(),
    {
        proof {
            use_type_invariant(self);
        }
        self.tape[self.pointer]
    }

    /// The cells of the tape.
    pub fn tape(&self) -> (cells: &[u8])
        ensures
            cells@ == self@.tape,
            self@.valid(),
    {
        proof {
            use_type_invariant(self);
        }
        self.tape.as_slice()
    }

    /// Whether the program counter has passed the last instruction.
    pub fn is_finished(&self) -> (finished: bool)
        ensures
            finished == self@.finished(),
    {
        self.counter >= self.program.len()
    }

    /// Whether the next step is a `,`. The caller then reads one byte and
    /// hands it to `step`.
    pub fn awaits_input(&self) -> (awaited: bool)
        ensures
            awaited == self@.awaits_input(),
    {
        self.counter < self.program.len() && self.program[self.counter] == ','
    }

    /// Carries out the instruction under the program counter.
    ///
    /// `input` is used by `,` alone: `Some` byte is stored under the data
    /// pointer, `None` leaves the cell as it is. On a fault, and once the
    /// program is finished, the machine is left unchanged.
    pub fn step(&mut self, input: Option<u8>) -> (signal: Result<Signal, Fault>)
        ensures
            final(self)@ == old(self)@.next(input),
            signal == old(self)@.signal(),
            signal is Err <==> old(self)@.fault() is Some,
            signal is Err ==> final(self)@ == old(self)@,
    {
        proof {
            use_type_invariant(&*self);
        }
        if self.counter >= self.program.len() {
            return Ok(Signal::Finished);
        }
        let c = self.program[self.counter];
        let value = self.tape[self.pointer];
        let mut signal = Signal::Continue;
        let mut target: usize = self.counter + 1;
        if c == '>' {
            self.pointer = (self.pointer + 1) % TAPE_LENGTH;
        } else if c == '<' {
            self.pointer = (self.pointer + TAPE_LENGTH - 1) % TAPE_LENGTH;
        } else if c == '+' {
            self.tape[self.pointer] = value.wrapping_add(1);
        } else if c == '-' {
            self.tape[self.pointer] = value.wrapping_sub(1);
        } else if c == '.' {
            signal = Signal::Output(value);
        } else if c == ',' {
            if let Some(byte) = input {
                self.tape[self.pointer] = byte;
            }
        } else if c == '[' && value == 0 {
            match find_matching_close(self.program.as_slice(), self.counter) {
                Some(close) => {
                    target = close + 1;
                },
                None => {
                    return Err(Fault::UnmatchedOpenBracket);
                },
            }
        } else if c == ']' && value != 0 {
            match find_matching_open(self.program.as_slice(), self.counter) {
                Some(open) => {
                    target = open + 1;
                },
                None => {
                    return Err(Fault::UnmatchedCloseBracket);
                },
            }
        }
        self.counter = target;
        Ok(signal)
    }

    /// Steps the machine until the program is finished, a fault stops it, or
    /// `limit` instructions have been attempted. Each `,` takes the next byte
    /// of `input`; once `input` is used up, `,` leaves its cell unchanged.
    pub fn run(&mut self, input: &[u8], limit: usize) -> (report: Report)
        ensures
            Trace::start(old(self)@).run(input@, limit as nat) == (
                Trace {
                    state: final(self)@,
                    output: report.output@,
                    consumed: report.consumed as int,
                },
                report.halt,
            ),
    {
        let ghost whole = Trace::start(self@).run(input@, limit as nat);
        let mut output: Vec<u8> = Vec::new();
        let mut consumed: usize = 0;
        let mut remaining: usize = limit;
        loop
            invariant
                consumed <= input@.len(),
                whole == Trace::start(old(self)@).run(input@, limit as nat),
                whole == (Trace {
                    state: self@,
                    output: output@,
                    consumed: consumed as int,
                }).run(input@, remaining as nat),
            decreases remaining,
        {
            if self.is_finished() {
                return Report { output, consumed, halt: Halt::Finished };
            }
            if remaining == 0 {
                return Report { output, consumed, halt: Halt::OutOfSteps };
            }
            let mut offered: Option<u8> = None;
            if self.awaits_input() && consumed < input.len() {
                offered = Some(input[consumed]);
            }
            match self.step(offered) {
                Ok(Signal::Output(byte)) => {
                    output.push(byte);
                },
                Ok(_) => {},
                Err(fault) => {
                    return Report { output, consumed, halt: Halt::Fault(fault) };
                },
            }
            if offered.is_some() {
                consumed += 1;
            }
            remaining -= 1;
        }
    }
}

/// Execution starts in a valid state.
pub proof fn lemma_fresh_is_valid(program: Seq<char>)
    ensures
        MachineState::fresh(program).valid(),
{
}

/// A step takes a valid state to a valid state, and never touches the
/// program.
pub proof fn lemma_next_is_valid(state: MachineState, input: Option<u8>)
    requires
        state.valid(),
    ensures
        state.next(input).valid(),
        state.next(input).program == state.program,
{
}

/// Tape wraparound: `>` on the last cell moves the data pointer to cell 0 and
/// `<` on cell 0 moves it to the last cell; anywhere else they move it by one.
/// Neither changes the tape.
pub proof fn lemma_pointer_wraps(state: MachineState, input: Option<u8>)
    requires
        state.valid(),
        !state.finished(),
    ensures
        state.instruction() == '>' ==> state.next(input).pointer == if state.pointer
            == TAPE_LENGTH - 1 {
            0
        } else {
            state.pointer + 1
        },
        state.instruction() == '<' ==> state.next(input).pointer == if state.pointer == 0 {
            TAPE_LENGTH - 1
        } else {
            state.pointer - 1
        },
        state.instruction() == '>' || state.instruction() == '<' ==> state.next(input).tape
            == state.tape,
{
}

/// Cell wraparound: `+` on a cell holding 255 gives 0 and `-` on a cell
/// holding 0 gives 255; on any other value they add and subtract one. The
/// data pointer and all other cells stay as they are.
pub proof fn lemma_cell_wraps(state: MachineState, input: Option<u8>)
    requires
        state.valid(),
        !state.finished(),
        state.instruction() == '+' || state.instruction() == '-',
    ensures
        state.instruction() == '+' ==> state.next(input).cell() == if state.cell() == 255 {
            0
        } else {
            state.cell() + 1
        },
        state.instruction() == '-' ==> state.next(input).cell() == if state.cell() == 0 {
            255
        } else {
            state.cell() - 1
        },
        state.next(input).pointer == state.pointer,
        forall|i: int|
            0 <= i < TAPE_LENGTH && i != state.pointer ==> state.next(input).tape[i]
                == state.tape[i],
{
}

/// The program counter after a step: the position after the matching
/// bracket when a jump is taken, and one further in every other case.
pub proof fn lemma_counter_moves(state: MachineState, input: Option<u8>)
    requires
        state.valid(),
        !state.finished(),
        state.fault() is None,
    ensures
        state.instruction() == '[' && state.cell() == 0 ==> closes(
            state.program,
            state.counter,
            state.next(input).counter - 1,
        ),
        state.instruction() == ']' && state.cell() != 0 ==> opens(
            state.program,
            state.counter,
            state.next(input).counter - 1,
        ),
        !(state.instruction() == '[' && state.cell() == 0) && !(state.instruction() == ']'
            && state.cell() != 0) ==> state.next(input).counter == state.counter + 1,
{
}

/// A fault is reported exactly when a jump is due and the scan for the
/// partner runs off the program with its nesting level still above zero. The
/// machine then stays as it is: a fault has no effect.
pub proof fn lemma_fault(state: MachineState, input: Option<u8>)
    requires
        state.valid(),
    ensures
        state.fault() == Some(Fault::UnmatchedOpenBracket) <==> !state.finished()
            && state.instruction() == '[' && state.cell() == 0 && forall|k: int|
            state.counter < k < state.program.len() ==> forward_level(
                state.program,
                state.counter,
                k,
            ) > 0,
        state.fault() == Some(Fault::UnmatchedCloseBracket) <==> !state.finished()
            && state.instruction() == ']' && state.cell() != 0 && forall|k: int|
            0 <= k < state.counter ==> backward_level(state.program, state.counter, k) > 0,
        state.fault() matches Some(fault) ==> state.signal() == Err::<Signal, Fault>(fault)
            && state.next(input) == state,
{
    let program = state.program;
    let at = state.counter;
    if !state.finished() {
        if forall|k: int| at < k < program.len() ==> forward_level(program, at, k) > 0 {
            assert forall|close: int| !closes(program, at, close) by {
                if at < close < program.len() {
                    assert(forward_level(program, at, close) > 0);
                }
            }
        } else {
            lemma_first_zero_forward(program, at, program.len() as int);
        }
        if forall|k: int| 0 <= k < at ==> backward_level(program, at, k) > 0 {
            assert forall|open: int| !opens(program, at, open) by {
                if 0 <= open < at {
                    assert(backward_level(program, at, open) > 0);
                }
            }
        } else {
            lemma_first_zero_backward(program, at, 0);
        }
    }
}

/// If a forward scan's level fails to stay above zero somewhere before
/// `bound`, some position closes the bracket.
proof fn lemma_first_zero_forward(program: Seq<char>, open: int, bound: int)
    requires
        0 <= open < bound <= program.len(),
        exists|k: int| open < k < bound && forward_level(program, open, k) <= 0,
    ensures
        exists|close: int| closes(program, open, close),
    decreases bound - open,
{
    if exists|k: int| open < k < bound - 1 && forward_level(program, open, k) <= 0 {
        lemma_first_zero_forward(program, open, bound - 1);
    } else {
        let close = bound - 1;
        assert(forward_level(program, open, close) <= 0);
        if open + 1 < close {
            assert(forward_level(program, open, close - 1) > 0);
        } else {
            assert(net_depth(program, open + 1, close) == 0);
        }
        assert(closes(program, open, close));
    }
}

/// If a backward scan's level fails to stay above zero somewhere at or after
/// `bound`, some position opens the bracket.
proof fn lemma_first_zero_backward(program: Seq<char>, close: int, bound: int)
    requires
        0 <= bound < close < program.len(),
        exists|k: int| bound <= k < close && backward_level(program, close, k) <= 0,
    ensures
        exists|open: int| opens(program, close, open),
    decreases close - bound,
{
    if exists|k: int| bound + 1 <= k < close && backward_level(program, close, k) <= 0 {
        lemma_first_zero_backward(program, close, bound + 1);
    } else {
        let open = bound;
        assert(backward_level(program, close, open) <= 0);
        lemma_net_depth_extend_left(program, open, close);
        if open + 1 < close {
            assert(backward_level(program, close, open + 1) > 0);
        } else {
            assert(net_depth(program, open + 1, close) == 0);
        }
        assert(opens(program, close, open));
    }
}

/// A run of `count` instructions `+` in a row adds `count` to the cell under
/// the data pointer, modulo 256, writes nothing and takes no input. So 256 of
/// them bring every cell back to its value, and 255 of them turn 0 into 255.
pub proof fn lemma_repeated_increment(trace: Trace, input: Seq<u8>, count: nat)
    requires
        trace.state.valid(),
        trace.state.counter + count <= trace.state.program.len(),
        forall|k: int|
            trace.state.counter <= k < trace.state.counter + count ==> trace.state.program[k]
                == '+',
    ensures
        trace.steps(input, count) == (Trace {
            state: trace.state.at(trace.state.counter + count).with_cell(
                ((trace.state.cell() + count) % 256) as u8,
            ),
            ..trace
        }),
    decreases count,
{
    let state = trace.state;
    if count == 0 {
        assert(state.tape.update(state.pointer, state.cell()) =~= state.tape);
    } else {
        let after = trace.advance(input);
        lemma_repeated_increment(after, input, (count - 1) as nat);
        assert(state.tape.update(state.pointer, after.state.cell()).update(
            state.pointer,
            ((after.state.cell() + count - 1) % 256) as u8,
        ) =~= state.tape.update(state.pointer, ((state.cell() + count) % 256) as u8));
    }
}

/// A run of `count` instructions `-` in a row subtracts `count` from the cell
/// under the data pointer, modulo 256, writes nothing and takes no input.
pub proof fn lemma_repeated_decrement(trace: Trace, input: Seq<u8>, count: nat)
    requires
        trace.state.valid(),
        trace.state.counter + count <= trace.state.program.len(),
        forall|k: int|
            trace.state.counter <= k < trace.state.counter + count ==> trace.state.program[k]
                == '-',
    ensures
        trace.steps(input, count) == (Trace {
            state: trace.state.at(trace.state.counter + count).with_cell(
                ((trace.state.cell() - count) % 256) as u8,
            ),
            ..trace
        }),
    decreases count,
{
    let state = trace.state;
    if count == 0 {
        assert(state.tape.update(state.pointer, state.cell()) =~= state.tape);
    } else {
        let after = trace.advance(input);
        lemma_repeated_decrement(after, input, (count - 1) as nat);
        assert(state.tape.update(state.pointer, after.state.cell()).update(
            state.pointer,
            ((after.state.cell() - (count - 1)) % 256) as u8,
        ) =~= state.tape.update(state.pointer, ((state.cell() - count) % 256) as u8));
    }
}

/// The loop `[-]` clears the cell under the data pointer: entered with the
/// value `v` in that cell, it is left after `1 + 2 * v` steps with the program
/// counter behind its `]`, the cell at zero and everything else as it was.
pub proof fn lemma_clearing_loop(trace: Trace, input: Seq<u8>)
    requires
        trace.state.valid(),
        trace.state.counter + 3 <= trace.state.program.len(),
        trace.state.program[trace.state.counter] == '[',
        trace.state.program[trace.state.counter + 1] == '-',
        trace.state.program[trace.state.counter + 2] == ']',
    ensures
        trace.steps(input, (1 + 2 * trace.state.cell()) as nat) == (Trace {
            state: trace.state.at(trace.state.counter + 3).with_cell(0),
            ..trace
        }),
{
    let state = trace.state;
    let open = state.counter;
    lemma_clearing_loop_brackets(state.program, open);
    if state.cell() == 0 {
        assert(state.tape.update(state.pointer, 0u8) =~= state.tape);
        assert(trace.advance(input).steps(input, 0) == trace.advance(input));
    } else {
        lemma_clearing_loop_body(trace.advance(input), input, open);
    }
}

/// In a program that holds `[-]` at `open`, the two brackets are partners.
proof fn lemma_clearing_loop_brackets(program: Seq<char>, open: int)
    requires
        0 <= open,
        open + 3 <= program.len(),
        program[open] == '[',
        program[open + 1] == '-',
        program[open + 2] == ']',
    ensures
        matching_close(program, open) == Some(open + 2),
        matching_open(program, open + 2) == Some(open),
{
    reveal_with_fuel(net_depth, 3);
    assert(forward_level(program, open, open + 1) == 1);
    assert(closes(program, open, open + 2));
    lemma_closes_unique(program, open, matching_close(program, open).unwrap(), open + 2);
    assert(backward_level(program, open + 2, open + 1) == 1);
    assert(opens(program, open + 2, open));
    lemma_opens_unique(program, open + 2, matching_open(program, open + 2).unwrap(), open);
}

/// Inside the loop `[-]`, standing on its `-` with a nonzero cell, the machine
/// needs two steps for each unit in the cell to leave the loop.
proof fn lemma_clearing_loop_body(trace: Trace, input: Seq<u8>, open: int)
    requires
        trace.state.valid(),
        0 <= open,
        open + 3 <= trace.state.program.len(),
        trace.state.program[open] == '[',
        trace.state.program[open + 1] == '-',
        trace.state.program[open + 2] == ']',
        trace.state.counter == open + 1,
        trace.state.cell() != 0,
    ensures
        trace.steps(input, (2 * trace.state.cell()) as nat) == (Trace {
            state: trace.state.at(open + 3).with_cell(0),
            ..trace
        }),
    decreases trace.state.cell(),
{
    let state = trace.state;
    lemma_clearing_loop_brackets(state.program, open);
    let lowered = trace.advance(input);
    let turned = lowered.advance(input);
    assert(lowered.state == state.at(open + 2).with_cell((state.cell() - 1) as u8));
    assert(trace.steps(input, (2 * state.cell()) as nat) == turned.steps(
        input,
        (2 * state.cell() - 2) as nat,
    )) by {
        reveal_with_fuel(Trace::steps, 3);
    }
    if state.cell() == 1 {
        assert(turned.state == state.at(open + 3).with_cell(0));
    } else {
        assert(turned.state == state.at(open + 1).with_cell((state.cell() - 1) as u8));
        lemma_clearing_loop_body(turned, input, open);
        assert(turned.state.tape.update(state.pointer, 0u8) =~= state.tape.update(
            state.pointer,
            0u8,
        ));
    }
}

/// Running the empty program is a no-op: the run is finished at once, with
/// nothing written, nothing taken and the machine untouched.
pub proof fn lemma_empty_program(input: Seq<u8>, limit: nat)
    ensures
        Trace::start(MachineState::fresh(Seq::empty())).run(input, limit) == (
            Trace::start(MachineState::fresh(Seq::empty())),
            Halt::Finished,
        ),
{
}

/// A bounded run is made of single steps: it ends in the trace reached after
/// some number of steps within the limit, none of them at a fault or past the
/// end of the program.
pub proof fn lemma_run_is_steps(trace: Trace, input: Seq<u8>, limit: nat) -> (taken: nat)
    ensures
        taken <= limit,
        trace.run(input, limit).0 == trace.steps(input, taken),
        trace.run(input, limit).1 == Halt::OutOfSteps ==> taken == limit,
        match trace.run(input, limit).1 {
            Halt::Finished => trace.steps(input, taken).state.finished(),
            Halt::Fault(fault) => trace.steps(input, taken).state.signal() == Err::<
                Signal,
                Fault,
            >(fault),
            Halt::OutOfSteps => !trace.steps(input, taken).state.finished(),
        },
    decreases limit,
{
    if trace.state.finished() || limit == 0 || trace.state.fault() is Some {
        0
    } else {
        let rest = lemma_run_is_steps(trace.advance(input), input, (limit - 1) as nat);
        rest + 1
    }
}

} // verus!
