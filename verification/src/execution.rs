//! Runs: what a sequence of steps amounts to.

use vstd::prelude::*;
use crate::brackets::is_balanced;
use crate::machine::{lemma_balanced_step, lemma_step_preserves_wf, Fault, Machine};

verus! {

/// Why a run stopped.
#[derive(Copy, Clone, PartialEq, Eq, Debug, Structural)]
pub enum Halt {
    /// The instruction pointer ran past the last instruction.
    Finished,
    /// The step budget was used up before the program finished.
    OutOfFuel,
    /// A fatal condition was met.
    Fault(Fault),
}

/// A run in progress: the machine, how many bytes of input it has consumed,
/// and what it has emitted.
pub struct Execution {
    /// The state reached.
    pub machine: Machine,
    /// The number of input bytes consumed so far.
    pub consumed: nat,
    /// The bytes emitted so far, oldest first.
    pub output: Seq<u8>,
}

impl Execution {
    /// A run that starts at `machine` with nothing consumed or emitted yet.
    pub open spec fn start(machine: Machine) -> Execution {
        Execution { machine, consumed: 0, output: Seq::empty() }
    }

    /// The byte that the next input instruction will read, if one is left.
    pub open spec fn pending(self, input: Seq<u8>) -> Option<u8> {
        if self.consumed < input.len() {
            Some(input[self.consumed as int])
        } else {
            None
        }
    }

    /// The run after one more step that went well: `next` is the new state
    /// and `emitted` the byte that the step gave out.
    pub open spec fn advanced(self, next: Machine, emitted: Option<u8>) -> Execution {
        Execution {
            machine: next,
            consumed: if self.machine.wants_input() {
                self.consumed + 1
            } else {
                self.consumed
            },
            output: match emitted {
                Some(byte) => self.output.push(byte),
                None => self.output,
            },
        }
    }

    /// Where a run ends and why, when it reads its input from `input` and may
    /// take at most `fuel` steps.
    ///
    /// The run takes one step after another until the machine is done, a step
    /// faults, or the fuel is used up.  A step that faults consumes and emits
    /// nothing and leaves the machine as it was, apart from allocating the
    /// tape.
    pub open spec fn run(self, input: Seq<u8>, fuel: nat) -> (Execution, Halt)
        decreases fuel,
    {
        if self.machine.done() {
            (self, Halt::Finished)
        } else if fuel == 0 {
            (self, Halt::OutOfFuel)
        } else {
            match self.machine.step(self.pending(input)) {
                Ok((next, emitted)) => self.advanced(next, emitted).run(input, (fuel - 1) as nat),
                Err(fault) => (
                    Execution { machine: self.machine.allocated(), ..self },
                    Halt::Fault(fault),
                ),
            }
        }
    }
}

/// A run may be taken in two parts: running on `a + b` units of fuel is
/// running on `a` and, if that ran out of fuel, going on from there on `b`.
pub proof fn lemma_run_resumes(e: Execution, input: Seq<u8>, a: nat, b: nat)
    ensures
        e.run(input, a + b) == ({
            let (mid, halt) = e.run(input, a);
            if halt == Halt::OutOfFuel {
                mid.run(input, b)
            } else {
                (mid, halt)
            }
        }),
    decreases a,
{
    if !e.machine.done() && a > 0 {
        if let Ok((next, emitted)) = e.machine.step(e.pending(input)) {
            lemma_run_resumes(e.advanced(next, emitted), input, (a - 1) as nat, b);
        }
    }
}

/// A run depends on the input only from the first byte not yet consumed:
/// it is the run from the start on the rest of the input, with what was
/// consumed and emitted before put in front.
pub proof fn lemma_run_on_rest_of_input(e: Execution, input: Seq<u8>, fuel: nat)
    requires
        e.consumed <= input.len(),
    ensures
        ({
            let (end, halt) = e.run(input, fuel);
            let (rest_end, rest_halt) = Execution::start(e.machine).run(
                input.skip(e.consumed as int),
                fuel,
            );
            &&& halt == rest_halt
            &&& end.machine == rest_end.machine
            &&& end.consumed == e.consumed + rest_end.consumed
            &&& end.output == e.output + rest_end.output
        }),
{
    let rest = input.skip(e.consumed as int);
    assert(rest.skip(0) =~= rest);
    lemma_run_shifted(e, Execution::start(e.machine), input, rest, fuel);
}

/// Two runs from the same state, over inputs that agree from where each run
/// stands, proceed in lockstep.
proof fn lemma_run_shifted(
    e1: Execution,
    e2: Execution,
    input1: Seq<u8>,
    input2: Seq<u8>,
    fuel: nat,
)
    requires
        e1.machine == e2.machine,
        e1.consumed <= input1.len(),
        e2.consumed <= input2.len(),
        input1.skip(e1.consumed as int) == input2.skip(e2.consumed as int),
    ensures
        ({
            let (end1, halt1) = e1.run(input1, fuel);
            let (end2, halt2) = e2.run(input2, fuel);
            &&& halt1 == halt2
            &&& end1.machine == end2.machine
            &&& end1.consumed - e1.consumed == end2.consumed - e2.consumed
            &&& exists|emitted: Seq<u8>|
                end1.output == e1.output + emitted && end2.output == e2.output + emitted
        }),
    decreases fuel,
{
    let rest = input1.skip(e1.consumed as int);
    assert(e2.output == e2.output + Seq::<u8>::empty());
    if !e1.machine.done() && fuel > 0 {
        let rest2 = input2.skip(e2.consumed as int);
        assert(rest2.len() == input2.len() - e2.consumed);
        assert(e1.pending(input1) == e2.pending(input2)) by {
            if e1.consumed < input1.len() {
                assert(rest2[0] == input2[e2.consumed as int]);
            }
        }
        if let Ok((next, emitted)) = e1.machine.step(e1.pending(input1)) {
            let n1 = e1.advanced(next, emitted);
            let n2 = e2.advanced(next, emitted);
            assert(input1.skip(n1.consumed as int) == input2.skip(n2.consumed as int)) by {
                if e1.machine.wants_input() {
                    assert(input2.skip(n2.consumed as int) =~= rest.skip(1));
                }
            }
            lemma_run_shifted(n1, n2, input1, input2, (fuel - 1) as nat);
            let (end1, _) = n1.run(input1, (fuel - 1) as nat);
            let (end2, _) = n2.run(input2, (fuel - 1) as nat);
            let tail = choose|t: Seq<u8>|
                end1.output == n1.output + t && end2.output == n2.output + t;
            let head = match emitted {
                Some(byte) => seq![byte],
                None => Seq::<u8>::empty(),
            };
            assert(end2.output =~= e2.output + (head + tail));
        }
    }
}

/// A run that is out of fuel can be taken up again from the state in which it
/// stopped, on the input that it has not consumed: the two runs together
/// consume and emit what a single run on the sum of their fuel does, and
/// stop in the same state for the same reason.
pub proof fn lemma_run_in_two_parts(m: Machine, input: Seq<u8>, a: nat, b: nat)
    requires
        m.wf(),
    ensures
        ({
            let (mid, first_halt) = Execution::start(m).run(input, a);
            let (end, halt) = Execution::start(mid.machine).run(
                input.skip(mid.consumed as int),
                b,
            );
            first_halt == Halt::OutOfFuel ==> Execution::start(m).run(input, a + b) == (
                Execution {
                    machine: end.machine,
                    consumed: mid.consumed + end.consumed,
                    output: mid.output + end.output,
                },
                halt,
            )
        }),
{
    let start = Execution::start(m);
    let (mid, first_halt) = start.run(input, a);
    lemma_run_resumes(start, input, a, b);
    lemma_run_invariants(start, input, a);
    lemma_run_on_rest_of_input(mid, input, b);
}

/// What holds of every run from a well-formed state: the state it ends in is
/// well-formed and has the same program; input is consumed in order and
/// never beyond its end; output is only ever appended to; the run reports
/// `Finished` exactly when it ends in a state that is done; and the tape is
/// allocated unless the run ended where it began.
pub proof fn lemma_run_invariants(e: Execution, input: Seq<u8>, fuel: nat)
    requires
        e.machine.wf(),
        e.consumed <= input.len(),
    ensures
        ({
            let (end, halt) = e.run(input, fuel);
            &&& end.machine.wf()
            &&& end.machine.program == e.machine.program
            &&& e.consumed <= end.consumed <= input.len()
            &&& e.output.is_prefix_of(end.output)
            &&& halt == Halt::Finished <==> end.machine.done()
            &&& end.machine.tape.len() >= e.machine.tape.len()
            &&& end.machine.tape.len() >= 1 || end == e
        }),
    decreases fuel,
{
    if !e.machine.done() && fuel > 0 {
        lemma_step_preserves_wf(e.machine, e.pending(input));
        if let Ok((next, emitted)) = e.machine.step(e.pending(input)) {
            lemma_run_invariants(e.advanced(next, emitted), input, (fuel - 1) as nat);
        }
    }
}

/// A run of a program with balanced brackets never stops for want of a
/// bracket: it finishes, runs out of fuel, or runs out of input.
pub proof fn lemma_balanced_run(e: Execution, input: Seq<u8>, fuel: nat)
    requires
        e.machine.wf(),
        is_balanced(e.machine.program),
    ensures
        e.run(input, fuel).1 != Halt::Fault(Fault::UnbalancedBrackets),
    decreases fuel,
{
    if !e.machine.done() && fuel > 0 {
        lemma_balanced_step(e.machine, e.pending(input));
        lemma_step_preserves_wf(e.machine, e.pending(input));
        if let Ok((next, emitted)) = e.machine.step(e.pending(input)) {
            lemma_balanced_run(e.advanced(next, emitted), input, (fuel - 1) as nat);
        }
    }
}

/// A program without instructions finishes at once: nothing is emitted,
/// nothing is consumed, and no cell is allocated.
pub proof fn lemma_run_empty_program(input: Seq<u8>, fuel: nat)
    ensures
        Execution::start(Machine::fresh(Seq::empty())).run(input, fuel) == (
            Execution::start(Machine::fresh(Seq::empty())),
            Halt::Finished,
        ),
{
}

} // verus!
