//! Laws of particular instruction sequences: what runs of moves, of
//! increments and of the simplest loop amount to.

use vstd::prelude::*;
use crate::brackets::{depth, is_loop_end, is_loop_start, lemma_loop_end_is, lemma_loop_start_is};
use crate::execution::{lemma_run_resumes, Execution, Halt};
use crate::instruction::Instruction;
use crate::machine::{decrement, increment, increment_by, lemma_increment_by, Machine};

verus! {

/// The tape grows only as far as the cursor goes.  From a fresh state, `n`
/// moves to the right (one at least) leave a tape of exactly `n + 1` cells,
/// all zero, with the cursor on the last of them.  Before the first step no
/// cell is allocated at all.
pub proof fn lemma_moves_right_grow_tape(program: Seq<Instruction>, input: Seq<u8>, n: nat)
    requires
        1 <= n <= program.len(),
        forall|i: int| 0 <= i < n ==> program[i] == Instruction::MoveRight,
    ensures
        Execution::start(Machine::fresh(program)).run(input, n).0 == Execution::start(
            Machine { program, ip: n, tape: Seq::new(n + 1, |i: int| 0u8), cursor: n },
        ),
        Execution::start(Machine::fresh(program)).run(input, 0).0.machine.tape.len() == 0,
{
    let e = Execution::start(Machine::fresh(program));
    lemma_moves_right(e, input, n);
    assert(seq![0u8] + Seq::new(n, |i: int| 0u8) =~= Seq::new(n + 1, |i: int| 0u8));
}

/// `k` moves to the right from the right edge of the tape append `k` zero
/// cells and take the cursor to the last of them.
proof fn lemma_moves_right(e: Execution, input: Seq<u8>, k: nat)
    requires
        e.machine.wf(),
        e.machine.on_right_edge(),
        k >= 1,
        e.machine.ip + k <= e.machine.program.len(),
        forall|i: int|
            e.machine.ip <= i < e.machine.ip + k ==> e.machine.program[i]
                == Instruction::MoveRight,
    ensures
        e.run(input, k).0 == (Execution {
            machine: Machine {
                ip: e.machine.ip + k,
                tape: e.machine.allocated().tape + Seq::new(k, |i: int| 0u8),
                cursor: e.machine.cursor + k,
                ..e.machine
            },
            ..e
        }),
    decreases k,
{
    let m = e.machine;
    let next = m.allocated().moved_right().at(m.ip + 1);
    let e1 = e.advanced(next, None);
    if k == 1 {
        assert(e1.run(input, 0).0 == e1);
        assert(next.tape =~= m.allocated().tape + Seq::new(1, |i: int| 0u8));
    } else {
        lemma_moves_right(e1, input, (k - 1) as nat);
        assert(next.tape + Seq::new((k - 1) as nat, |i: int| 0u8) =~= m.allocated().tape
            + Seq::new(k, |i: int| 0u8));
    }
}

/// The tape grows to the left as it does to the right.  From a fresh state,
/// `n` moves to the left (one at least) leave a tape of exactly `n + 1` cells,
/// all zero, with the cursor on the first of them.
pub proof fn lemma_moves_left_grow_tape(program: Seq<Instruction>, input: Seq<u8>, n: nat)
    requires
        1 <= n <= program.len(),
        forall|i: int| 0 <= i < n ==> program[i] == Instruction::MoveLeft,
    ensures
        Execution::start(Machine::fresh(program)).run(input, n).0 == Execution::start(
            Machine { program, ip: n, tape: Seq::new(n + 1, |i: int| 0u8), cursor: 0 },
        ),
{
    let e = Execution::start(Machine::fresh(program));
    lemma_moves_left(e, input, n);
    assert(Seq::new(n, |i: int| 0u8) + seq![0u8] =~= Seq::new(n + 1, |i: int| 0u8));
}

/// `k` moves to the left from the left edge of the tape put `k` zero cells
/// in front of it and leave the cursor on the first of them.
proof fn lemma_moves_left(e: Execution, input: Seq<u8>, k: nat)
    requires
        e.machine.wf(),
        e.machine.on_left_edge(),
        k >= 1,
        e.machine.ip + k <= e.machine.program.len(),
        forall|i: int|
            e.machine.ip <= i < e.machine.ip + k ==> e.machine.program[i]
                == Instruction::MoveLeft,
    ensures
        e.run(input, k).0 == (Execution {
            machine: Machine {
                ip: e.machine.ip + k,
                tape: Seq::new(k, |i: int| 0u8) + e.machine.allocated().tape,
                ..e.machine
            },
            ..e
        }),
    decreases k,
{
    let m = e.machine;
    let next = m.allocated().moved_left().at(m.ip + 1);
    let e1 = e.advanced(next, None);
    if k == 1 {
        assert(e1.run(input, 0).0 == e1);
        assert(next.tape =~= Seq::new(1, |i: int| 0u8) + m.allocated().tape);
    } else {
        lemma_moves_left(e1, input, (k - 1) as nat);
        assert(Seq::new((k - 1) as nat, |i: int| 0u8) + next.tape =~= Seq::new(k, |i: int| 0u8)
            + m.allocated().tape);
    }
}

/// `k` increments in a row (one at least) add `k` to the current cell,
/// modulo 256, and change nothing else.
pub proof fn lemma_increments(e: Execution, input: Seq<u8>, k: nat)
    requires
        e.machine.wf(),
        k >= 1,
        e.machine.ip + k <= e.machine.program.len(),
        forall|i: int|
            e.machine.ip <= i < e.machine.ip + k ==> e.machine.program[i]
                == Instruction::Increment,
    ensures
        e.run(input, k).0 == (Execution {
            machine: e.machine.at(e.machine.ip + k).with_cell(increment_by(e.machine.cell(), k)),
            ..e
        }),
    decreases k,
{
    let m = e.machine;
    let next = m.allocated().at(m.ip + 1).with_cell(increment_by(m.cell(), 1));
    assert(increment_by(m.cell(), 1) == increment(m.cell())) by {
        reveal_with_fuel(increment_by, 2);
    }
    let e1 = e.advanced(next, None);
    if k == 1 {
        assert(e1.run(input, 0).0 == e1);
    } else {
        lemma_increments(e1, input, (k - 1) as nat);
        lemma_increment_by(m.cell(), 1);
        lemma_increment_by(next.cell(), (k - 1) as nat);
        lemma_increment_by(m.cell(), k);
        assert(next.at(next.ip + (k - 1) as nat).with_cell(
            increment_by(next.cell(), (k - 1) as nat),
        ).tape =~= m.at(m.ip + k).with_cell(increment_by(m.cell(), k)).tape);
    }
}

/// 256 increments in a row bring the current cell back to its value: the run
/// changes nothing but the instruction pointer (and allocates the tape).
pub proof fn lemma_increments_cycle(e: Execution, input: Seq<u8>)
    requires
        e.machine.wf(),
        e.machine.ip + 256 <= e.machine.program.len(),
        forall|i: int|
            e.machine.ip <= i < e.machine.ip + 256 ==> e.machine.program[i]
                == Instruction::Increment,
    ensures
        e.run(input, 256).0 == (Execution {
            machine: e.machine.allocated().at(e.machine.ip + 256),
            ..e
        }),
{
    lemma_increments(e, input, 256);
    lemma_increment_by(e.machine.cell(), 256);
    assert(e.machine.at(e.machine.ip + 256).with_cell(e.machine.cell()).tape
        =~= e.machine.allocated().tape);
}

/// A loop whose body decrements the current cell to zero is over with that
/// iteration: from the decrement, two steps lead past the `]` that follows
/// it, with the cell at zero and nothing else changed.
pub proof fn lemma_loop_exits_after_decrement_to_zero(e: Execution, input: Seq<u8>)
    requires
        e.machine.wf(),
        e.machine.ip + 2 <= e.machine.program.len(),
        e.machine.program[e.machine.ip as int] == Instruction::Decrement,
        e.machine.program[e.machine.ip + 1 as int] == Instruction::LoopEnd,
        decrement(e.machine.cell()) == 0,
    ensures
        e.run(input, 2).0 == (Execution {
            machine: e.machine.at(e.machine.ip + 2).with_cell(0),
            ..e
        }),
{
    reveal_with_fuel(Execution::run, 3);
}

/// The program holds the loop `[-]` at `at`.
pub open spec fn is_clear_loop(program: Seq<Instruction>, at: int) -> bool {
    &&& 0 <= at
    &&& at + 3 <= program.len()
    &&& program[at] == Instruction::LoopStart
    &&& program[at + 1] == Instruction::Decrement
    &&& program[at + 2] == Instruction::LoopEnd
}

/// The loop `[-]` clears the current cell and changes nothing else.  Entered
/// on the value `v` it takes `2 * v + 1` steps: one at the `[`, and a decrement
/// and a test at the `]` for each of `v` iterations.  On zero it is skipped in
/// a single step.
pub proof fn lemma_clear_loop(e: Execution, input: Seq<u8>)
    requires
        e.machine.wf(),
        is_clear_loop(e.machine.program, e.machine.ip as int),
    ensures
        e.run(input, (2 * e.machine.cell() + 1) as nat).0 == (Execution {
            machine: e.machine.at(e.machine.ip + 3).with_cell(0),
            ..e
        }),
{
    let m = e.machine;
    let at = m.ip as int;
    let end = m.at(m.ip + 3).with_cell(0);
    lemma_clear_loop_brackets(m.program, at);
    lemma_loop_end_is(m.program, at, at + 2);
    if m.cell() == 0 {
        let next = m.allocated().at(m.ip + 3);
        assert(next.tape =~= end.tape);
        assert(e.advanced(next, None).run(input, 0).0 == e.advanced(next, None));
    } else {
        let next = m.at(m.ip + 1);
        lemma_clear_loop_iterations(e.advanced(next, None), input);
    }
}

/// In the loop `[-]` each bracket is the partner of the other.
proof fn lemma_clear_loop_brackets(program: Seq<Instruction>, at: int)
    requires
        is_clear_loop(program, at),
    ensures
        is_loop_end(program, at, at + 2),
        is_loop_start(program, at + 2, at),
{
    reveal_with_fuel(depth, 3);
}

/// From the decrement of a loop `[-]`, on a cell that is not zero, two steps
/// for each unit of the cell's value lead out of the loop with the cell at
/// zero.
proof fn lemma_clear_loop_iterations(e: Execution, input: Seq<u8>)
    requires
        e.machine.wf(),
        e.machine.ip >= 1,
        is_clear_loop(e.machine.program, e.machine.ip - 1),
        e.machine.cell() >= 1,
    ensures
        e.run(input, (2 * e.machine.cell()) as nat).0 == (Execution {
            machine: e.machine.at(e.machine.ip + 2).with_cell(0),
            ..e
        }),
    decreases e.machine.cell(),
{
    let m = e.machine;
    let v = m.cell();
    let at = m.ip - 1;
    let end = m.at(m.ip + 2).with_cell(0);
    lemma_clear_loop_brackets(m.program, at);
    lemma_loop_start_is(m.program, at + 2, at);
    let m1 = m.at(m.ip + 1).with_cell((v - 1) as u8);
    let e1 = e.advanced(m1, None);
    if v == 1 {
        lemma_loop_exits_after_decrement_to_zero(e, input);
    } else {
        let m2 = m1.at(m.ip);
        let e2 = e1.advanced(m2, None);
        assert(e.run(input, 2) == (e2, Halt::OutOfFuel)) by {
            reveal_with_fuel(Execution::run, 3);
        }
        lemma_clear_loop_iterations(e2, input);
        lemma_run_resumes(e, input, 2, (2 * (v - 1)) as nat);
        assert(m2.at(m2.ip + 2).with_cell(0).tape =~= end.tape);
    }
}

} // verus!
