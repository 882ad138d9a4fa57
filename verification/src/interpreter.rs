//! The executable interpreter.

use std::collections::VecDeque;
use vstd::prelude::*;
use crate::brackets::{find_loop_end, find_loop_start};
use crate::instruction::Instruction;
use crate::execution::{Execution, Halt};
use crate::machine::{Fault, Machine};

verus! {

/// Gives write access to one cell of a deque.
///
/// Trusted: this is `VecDeque`'s mutable indexing (`IndexMut::index_mut`),
/// which vstd leaves unspecified.  The contract claims what the standard
/// library documents of it: the reference points at the element at `index`,
/// counted from the front, and whatever is written through it replaces that
/// element and no other.  An index out of bounds panics, so it is excluded.
#[verifier::external_body]
fn deque_index_mut(deque: &mut VecDeque<u8>, index: usize) -> (cell: &mut u8)
    requires
        index < old(deque)@.len(),
    ensures
        *cell == old(deque)@[index as int],
        final(deque)@ == old(deque)@.update(index as int, *final(cell)),
{
    &mut deque[index]
}

/// What a run has to show for itself when it stops.
#[derive(PartialEq, Eq, Debug)]
pub struct Outcome {
    /// The bytes emitted, oldest first.
    pub output: Vec<u8>,
    /// The number of input bytes consumed.
    pub consumed: usize,
    /// Why the run stopped.
    pub halt: Halt,
}

/// An interpreter: a program together with the state of its execution.
#[derive(Debug)]
pub struct Interpreter {
    program: Vec<Instruction>,
    ip: usize,
    tape: VecDeque<u8>,
    cursor: usize,
}

impl View for Interpreter {
    type V = Machine;

    closed spec fn view(&self) -> Machine {
        Machine {
            program: self.program@,
            ip: self.ip as nat,
            tape: self.tape@,
            cursor: self.cursor as nat,
        }
    }
}

impl Interpreter {
    /// An interpreter about to run `inst` from its first instruction, with no
    /// cell allocated yet.
    pub fn new(inst: Vec<Instruction>) -> (r: Self)
        ensures
            r@ == Machine::fresh(inst@),
            r@.wf(),
    {
        Interpreter { program: inst, ip: 0, tape: VecDeque::new(), cursor: 0 }
    }

    /// Runs the program from the current state until it finishes, faults, or
    /// has taken `fuel` steps.
    ///
    /// Input instructions read the bytes of `input` in order.  The interpreter
    /// is left in the state in which the run stopped, so a run that was out of
    /// fuel can be taken up again with the input that it has not consumed.
    pub fn run(&mut self, input: &[u8], fuel: u64) -> (outcome: Outcome)
        requires
            old(self)@.wf(),
        ensures
            final(self)@.wf(),
            final(self)@.program == old(self)@.program,
            outcome.consumed <= input@.len(),
            outcome.halt == Halt::Finished <==> final(self)@.done(),
            ({
                let (end, halt) = Execution::start(old(self)@).run(input@, fuel as nat);
                &&& final(self)@ == end.machine
                &&& outcome.output@ == end.output
                &&& outcome.consumed == end.consumed
                &&& outcome.halt == halt
            }),
    {
        let mut output: Vec<u8> = Vec::new();
        let mut consumed: usize = 0;
        let mut left: u64 = fuel;
        loop
            invariant
                self@.wf(),
                self@.program == old(self)@.program,
                consumed <= input@.len(),
                (Execution { machine: self@, consumed: consumed as nat, output: output@ }).run(
                    input@,
                    left as nat,
                ) == Execution::start(old(self)@).run(input@, fuel as nat),
            decreases left,
        {
            if self.done() {
                return Outcome { output, consumed, halt: Halt::Finished };
            }
            if left == 0 {
                return Outcome { output, consumed, halt: Halt::OutOfFuel };
            }
            let reads = self.program[self.ip] == Instruction::Input;
            let pending = if consumed < input.len() {
                Some(input[consumed])
            } else {
                None
            };
            match self.step(pending) {
                Ok(emitted) => {
                    if reads {
                        consumed += 1;
                    }
                    if let Some(byte) = emitted {
                        output.push(byte);
                    }
                    left -= 1;
                },
                Err(fault) => {
                    return Outcome { output, consumed, halt: Halt::Fault(fault) };
                },
            }
        }
    }

    /// The instruction that the next step will execute, or `None` once the
    /// program has finished.
    pub fn inst(&self) -> (r: Option<Instruction>)
        ensures
            r == if self@.done() {
                None
            } else {
                Some(self@.program[self@.ip as int])
            },
    {
        if self.ip < self.program.len() {
            Some(self.program[self.ip])
        } else {
            None
        }
    }

    /// The value of the current cell.
    pub fn cell(&self) -> (r: u8)
        ensures
            r == self@.cell(),
    {
        if self.cursor < self.tape.len() {
            self.tape[self.cursor]
        } else {
            0
        }
    }

    /// Write access to the current cell, which is allocated first if the
    /// tape is still empty.
    pub fn cell_mut(&mut self) -> (cell: &mut u8)
        requires
            old(self)@.wf(),
        ensures
            *cell == old(self)@.cell(),
            final(self)@ == old(self)@.with_cell(*final(cell)),
            final(self)@.wf(),
    {
        if self.tape.len() == 0 {
            self.tape.push_back(0);
        }
        assert(self.tape@ =~= old(self)@.allocated().tape);
        deque_index_mut(&mut self.tape, self.cursor)
    }

    /// Whether the program has finished.
    pub fn done(&self) -> (r: bool)
        ensures
            r == self@.done(),
    {
        self.ip >= self.program.len()
    }

    /// Whether the cursor is on the rightmost allocated cell.
    pub fn on_right_edge(&self) -> (r: bool)
        ensures
            r == self@.on_right_edge(),
    {
        self.tape.len() == 0 || self.cursor >= self.tape.len() - 1
    }

    /// Whether the cursor is on the leftmost allocated cell.
    pub fn on_left_edge(&self) -> (r: bool)
        ensures
            r == self@.on_left_edge(),
    {
        self.cursor == 0
    }

    /// Executes one instruction.
    ///
    /// `input` is the byte on offer to an input instruction, `None` if there
    /// is none to be had; other instructions ignore it.  The result is the
    /// byte that an output instruction emitted, `None` after any other
    /// instruction.  A step that faults leaves the state as it was, apart
    /// from allocating the tape.
    pub fn step(&mut self, input: Option<u8>) -> (r: Result<Option<u8>, Fault>)
        requires
            old(self)@.wf(),
        ensures
            final(self)@.wf(),
            final(self)@.program == old(self)@.program,
            final(self)@.tape.len() >= 1,
            match old(self)@.step(input) {
                Ok((next, emitted)) => {
                    &&& final(self)@ == next
                    &&& r == Ok::<Option<u8>, Fault>(emitted)
                },
                Err(fault) => {
                    &&& final(self)@ == old(self)@.allocated()
                    &&& r == Err::<Option<u8>, Fault>(fault)
                },
            },
    {
        if self.tape.len() == 0 {
            self.tape.push_back(0);
        }
        assert(self.tape@ =~= old(self)@.allocated().tape);
        if self.ip >= self.program.len() {
            return Ok(None);
        }
        let mut emitted: Option<u8> = None;
        match self.program[self.ip] {
            Instruction::MoveRight => {
                if self.on_right_edge() {
                    self.tape.push_back(0);
                }
                self.cursor += 1;
            },
            Instruction::MoveLeft => {
                if self.on_left_edge() {
                    self.tape.push_front(0);
                } else {
                    self.cursor -= 1;
                }
            },
            Instruction::Increment => {
                let cell = self.cell_mut();
                *cell = cell.wrapping_add(1);
            },
            Instruction::Decrement => {
                let cell = self.cell_mut();
                *cell = cell.saturating_sub(1);
            },
            Instruction::Output => {
                emitted = Some(self.cell());
            },
            Instruction::Input => {
                match input {
                    Some(byte) => {
                        *self.cell_mut() = byte;
                    },
                    None => {
                        return Err(Fault::InputExhausted);
                    },
                }
            },
            Instruction::LoopStart => {
                if self.cell() == 0 {
                    match find_loop_end(self.program.as_slice(), self.ip) {
                        Some(close) => {
                            self.ip = close;
                        },
                        None => {
                            return Err(Fault::UnbalancedBrackets);
                        },
                    }
                }
            },
            Instruction::LoopEnd => {
                if self.cell() != 0 {
                    match find_loop_start(self.program.as_slice(), self.ip) {
                        Some(open) => {
                            self.ip = open;
                        },
                        None => {
                            return Err(Fault::UnbalancedBrackets);
                        },
                    }
                }
            },
        }
        self.ip += 1;
        Ok(emitted)
    }

    /// The position of the next instruction in the program.
    pub fn ip(&self) -> (r: usize)
        ensures
            r == self@.ip,
    {
        self.ip
    }

    /// The position of the current cell on the tape.
    pub fn cursor(&self) -> (r: usize)
        ensures
            r == self@.cursor,
    {
        self.cursor
    }

    /// A copy of the cells allocated so far, leftmost first.
    pub fn tape(&self) -> (r: Vec<u8>)
        ensures
            r@ == self@.tape,
    {
        let mut cells: Vec<u8> = Vec::with_capacity(self.tape.len());
        let mut i: usize = 0;
        while i < self.tape.len()
            invariant
                i <= self.tape@.len(),
                cells@ == self.tape@.take(i as int),
            decreases self.tape@.len() - i,
        {
            cells.push(self.tape[i]);
            i += 1;
        }
        cells
    }
}

impl Default for Interpreter {
    /// An interpreter of the empty program.
    fn default() -> (r: Self)
        ensures
            r@ == Machine::fresh(Seq::empty()),
            r@.wf(),
    {
        Interpreter::new(Vec::new())
    }
}

} // verus!
