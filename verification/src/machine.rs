//! The mathematical model of the interpreter: its state and what one step
//! does to it.

use vstd::prelude::*;
use crate::brackets::{
    is_balanced, is_loop_end, is_loop_start, lemma_balanced_has_loop_end,
    lemma_balanced_has_loop_start, lemma_loop_end_is, lemma_loop_start_is, loop_end, loop_start,
};
use crate::instruction::Instruction;

verus! {

/// A condition that ends a run for good.
#[derive(Copy, Clone, PartialEq, Eq, Debug, Structural)]
pub enum Fault {
    /// A jump found no matching bracket in the program.
    UnbalancedBrackets,
    /// An input instruction was reached and no byte of input was left.
    InputExhausted,
}

/// The value of a cell after an increment: one more, and 0 after 255.
pub open spec fn increment(v: u8) -> u8 {
    ((v + 1) % 256) as u8
}

/// The value of a cell after a decrement: one less, and 0 after 0.
pub open spec fn decrement(v: u8) -> u8 {
    if v == 0 {
        0
    } else {
        (v - 1) as u8
    }
}

/// The value of a cell after `n` increments.
pub open spec fn increment_by(v: u8, n: nat) -> u8
    decreases n,
{
    if n == 0 {
        v
    } else {
        increment(increment_by(v, (n - 1) as nat))
    }
}

/// Incrementing is one-to-one: no two cell values have the same successor.
pub proof fn lemma_increment_injective(a: u8, b: u8)
    requires
        increment(a) == increment(b),
    ensures
        a == b,
{
}

/// Incrementing is onto: every cell value is the successor of one.  With
/// [`lemma_increment_injective`] this makes it a bijection on cell values.
pub proof fn lemma_increment_surjective(v: u8)
    ensures
        exists|u: u8| #[trigger] increment(u) == v,
{
    let u: u8 = if v == 0 {
        255u8
    } else {
        (v - 1) as u8
    };
    assert(increment(u) == v);
}

/// `n` increments add `n` modulo 256.
pub proof fn lemma_increment_by(v: u8, n: nat)
    ensures
        increment_by(v, n) == (v + n) % 256,
    decreases n,
{
    if n > 0 {
        lemma_increment_by(v, (n - 1) as nat);
    }
}

/// 256 increments bring every cell value back to itself.
pub proof fn lemma_increment_cycle(v: u8)
    ensures
        increment_by(v, 256) == v,
{
    lemma_increment_by(v, 256);
}

/// Decrementing stays within a byte and stops at zero: 0 stays 0, and every
/// other value becomes one less.
pub proof fn lemma_decrement_saturates(v: u8)
    ensures
        0 <= decrement(v) <= 255,
        decrement(0) == 0,
        v > 0 ==> decrement(v) == v - 1,
{
}

/// The state of the interpreter.
pub struct Machine {
    /// The program, never changed by execution.
    pub program: Seq<Instruction>,
    /// The instruction pointer: the position of the next instruction.
    pub ip: nat,
    /// The cells allocated so far.  Empty until the first step.
    pub tape: Seq<u8>,
    /// The position of the current cell on the tape.
    pub cursor: nat,
}

impl Machine {
    /// The state before anything has run: at the first instruction, with no
    /// cell allocated yet.
    pub open spec fn fresh(program: Seq<Instruction>) -> Machine {
        Machine { program, ip: 0, tape: Seq::empty(), cursor: 0 }
    }

    /// The instruction pointer is within the program or just past it, and the
    /// cursor is on the tape (at 0 while the tape is not yet allocated).
    pub open spec fn wf(self) -> bool {
        &&& self.ip <= self.program.len()
        &&& if self.tape.len() == 0 {
            self.cursor == 0
        } else {
            self.cursor < self.tape.len()
        }
    }

    /// The instruction pointer has run past the last instruction.
    pub open spec fn done(self) -> bool {
        self.ip >= self.program.len()
    }

    /// The same state with the tape allocated: a tape that is still empty
    /// becomes a single zero cell.
    pub open spec fn allocated(self) -> Machine {
        if self.tape.len() == 0 {
            Machine { tape: seq![0u8], ..self }
        } else {
            self
        }
    }

    /// The value of the current cell.  A cell that is not allocated yet holds 0.
    pub open spec fn cell(self) -> u8 {
        if self.cursor < self.tape.len() {
            self.tape[self.cursor as int]
        } else {
            0
        }
    }

    /// The same state with `v` stored in the current cell.
    pub open spec fn with_cell(self, v: u8) -> Machine {
        Machine { tape: self.allocated().tape.update(self.cursor as int, v), ..self }
    }

    /// The same state with the instruction pointer at `ip`.
    pub open spec fn at(self, ip: nat) -> Machine {
        Machine { ip, ..self }
    }

    /// The cursor is on the leftmost allocated cell.
    pub open spec fn on_left_edge(self) -> bool {
        self.cursor == 0
    }

    /// The cursor is on the rightmost allocated cell.
    pub open spec fn on_right_edge(self) -> bool {
        self.cursor + 1 >= self.tape.len()
    }

    /// The state after the cursor has moved one cell to the right, with a new
    /// zero cell appended if it stood on the rightmost one.
    pub open spec fn moved_right(self) -> Machine {
        let m = self.allocated();
        Machine {
            tape: if m.on_right_edge() {
                m.tape.push(0u8)
            } else {
                m.tape
            },
            cursor: m.cursor + 1,
            ..m
        }
    }

    /// The state after the cursor has moved one cell to the left.  On the
    /// leftmost cell a new zero cell is inserted in front of the tape, and
    /// the cursor, still 0, now stands on it.
    pub open spec fn moved_left(self) -> Machine {
        let m = self.allocated();
        if m.on_left_edge() {
            Machine { tape: seq![0u8] + m.tape, ..m }
        } else {
            Machine { cursor: (m.cursor - 1) as nat, ..m }
        }
    }

    /// What one step does: the next state and the byte emitted, if any, or the
    /// fault that the step ran into.  `input` is the byte available to an
    /// input instruction; no other instruction looks at it.
    ///
    /// A step first allocates the tape.  A machine that is done does nothing
    /// more.
    pub open spec fn step(self, input: Option<u8>) -> Result<(Machine, Option<u8>), Fault> {
        let m = self.allocated();
        let next = m.at(m.ip + 1);
        if self.done() {
            Ok((m, None))
        } else {
            match self.program[self.ip as int] {
                Instruction::MoveRight => Ok((m.moved_right().at(m.ip + 1), None)),
                Instruction::MoveLeft => Ok((m.moved_left().at(m.ip + 1), None)),
                Instruction::Increment => Ok((next.with_cell(increment(m.cell())), None)),
                Instruction::Decrement => Ok((next.with_cell(decrement(m.cell())), None)),
                Instruction::Output => Ok((next, Some(m.cell()))),
                Instruction::Input => match input {
                    Some(byte) => Ok((next.with_cell(byte), None)),
                    None => Err(Fault::InputExhausted),
                },
                Instruction::LoopStart => if m.cell() != 0 {
                    Ok((next, None))
                } else {
                    match loop_end(m.program, m.ip as int) {
                        Some(close) => Ok((m.at((close + 1) as nat), None)),
                        None => Err(Fault::UnbalancedBrackets),
                    }
                },
                Instruction::LoopEnd => if m.cell() == 0 {
                    Ok((next, None))
                } else {
                    match loop_start(m.program, m.ip as int) {
                        Some(open) => Ok((m.at((open + 1) as nat), None)),
                        None => Err(Fault::UnbalancedBrackets),
                    }
                },
            }
        }
    }

    /// The next step will move the cursor off an edge of the tape.
    pub open spec fn leaves_tape(self) -> bool {
        &&& !self.done()
        &&& match self.program[self.ip as int] {
            Instruction::MoveRight => self.on_right_edge(),
            Instruction::MoveLeft => self.on_left_edge(),
            _ => false,
        }
    }

    /// The step goes well, emits nothing and leads to `next`.
    pub open spec fn steps_to(self, input: Option<u8>, next: Machine) -> bool {
        self.step(input) == Ok::<(Machine, Option<u8>), Fault>((next, None))
    }

    /// The next step will consume a byte of input.
    pub open spec fn wants_input(self) -> bool {
        !self.done() && self.program[self.ip as int] == Instruction::Input
    }

    /// The next step is a jump, and the program lacks the bracket that it
    /// would jump to.
    pub open spec fn wants_bracket(self) -> bool {
        &&& !self.done()
        &&& match self.program[self.ip as int] {
            Instruction::LoopStart => self.cell() == 0 && forall|close: int|
                !is_loop_end(self.program, self.ip as int, close),
            Instruction::LoopEnd => self.cell() != 0 && forall|open: int|
                !is_loop_start(self.program, self.ip as int, open),
            _ => false,
        }
    }
}

/// A well-formed state stays well-formed under a step, the program never
/// changes, and the tape is allocated from the first step on and never shrinks.
pub proof fn lemma_step_preserves_wf(m: Machine, input: Option<u8>)
    requires
        m.wf(),
    ensures
        m.allocated().wf(),
        m.step(input) matches Ok((next, _)) ==> {
            &&& next.wf()
            &&& next.program == m.program
            &&& next.tape.len() >= 1
            &&& next.tape.len() >= m.tape.len()
        },
{
}

/// A decrement on a zero cell changes nothing but the instruction pointer.
pub proof fn lemma_decrement_step_on_zero(m: Machine, input: Option<u8>)
    requires
        m.wf(),
        !m.done(),
        m.program[m.ip as int] == Instruction::Decrement,
        m.cell() == 0,
    ensures
        m.steps_to(input, m.allocated().at(m.ip + 1)),
{
    let a = m.allocated();
    assert(a.tape.update(a.cursor as int, 0u8) =~= a.tape);
}

/// The tape grows lazily: once it is allocated, a step adds a cell only when
/// the cursor moves off one of its edges, and then exactly one.
pub proof fn lemma_tape_grows_at_edges_only(m: Machine, input: Option<u8>)
    requires
        m.wf(),
        m.tape.len() >= 1,
    ensures
        m.step(input) matches Ok((next, _)) ==> next.tape.len() == if m.leaves_tape() {
            m.tape.len() + 1
        } else {
            m.tape.len()
        },
{
}

/// Entering a loop on a zero cell skips it: the step goes from the `[` to just
/// past the `]` that ends the loop, and changes nothing else.
pub proof fn lemma_loop_skipped_on_zero(m: Machine, input: Option<u8>, close: int)
    requires
        m.wf(),
        !m.done(),
        m.program[m.ip as int] == Instruction::LoopStart,
        m.cell() == 0,
        is_loop_end(m.program, m.ip as int, close),
    ensures
        m.steps_to(input, m.allocated().at((close + 1) as nat)),
{
    lemma_loop_end_is(m.program, m.ip as int, close);
}

/// Entering a loop on a non-zero cell executes its body: the step goes from
/// the `[` to the instruction after it, and changes nothing else.
pub proof fn lemma_loop_entered_on_nonzero(m: Machine, input: Option<u8>)
    requires
        m.wf(),
        !m.done(),
        m.program[m.ip as int] == Instruction::LoopStart,
        m.cell() != 0,
    ensures
        m.steps_to(input, m.at(m.ip + 1)),
{
}

/// Reaching the end of a loop on a zero cell leaves the loop: the step goes
/// from the `]` to the instruction after it, and changes nothing else.
pub proof fn lemma_loop_left_on_zero(m: Machine, input: Option<u8>)
    requires
        m.wf(),
        !m.done(),
        m.program[m.ip as int] == Instruction::LoopEnd,
        m.cell() == 0,
    ensures
        m.steps_to(input, m.allocated().at(m.ip + 1)),
{
}

/// Reaching the end of a loop on a non-zero cell repeats it: the step goes
/// from the `]` to just past the `[` that begins the loop, and changes nothing
/// else.
pub proof fn lemma_loop_repeated_on_nonzero(m: Machine, input: Option<u8>, open: int)
    requires
        m.wf(),
        !m.done(),
        m.program[m.ip as int] == Instruction::LoopEnd,
        m.cell() != 0,
        is_loop_start(m.program, m.ip as int, open),
    ensures
        m.steps_to(input, m.at((open + 1) as nat)),
{
    lemma_loop_start_is(m.program, m.ip as int, open);
}

/// A jump faults exactly when its bracket has no partner, and an input
/// instruction exactly when no byte is on offer; no other step faults.
pub proof fn lemma_step_faults(m: Machine, input: Option<u8>)
    requires
        m.wf(),
    ensures
        m.step(input) is Err <==> m.wants_input() && input is None || m.wants_bracket(),
        m.step(input) matches Err(fault) ==> (fault == Fault::InputExhausted
            <==> m.wants_input()),
{
}

/// In a program with balanced brackets every jump finds its target: a step
/// never faults for want of a bracket.
pub proof fn lemma_balanced_step(m: Machine, input: Option<u8>)
    requires
        m.wf(),
        is_balanced(m.program),
    ensures
        !m.wants_bracket(),
        m.step(input) matches Err(fault) ==> fault == Fault::InputExhausted,
{
    if !m.done() {
        if m.program[m.ip as int] == Instruction::LoopStart {
            lemma_balanced_has_loop_end(m.program, m.ip as int);
        } else if m.program[m.ip as int] == Instruction::LoopEnd {
            lemma_balanced_has_loop_start(m.program, m.ip as int);
        }
    }
}

} // verus!
