//! Running a program: one opcode at a time, from a machine state and a
//! position to the next.
//!
//! A loop is tested at its `LoopEnd`. `LoopStart` passes control to the
//! matching `LoopEnd` without touching the state; there the cell under the
//! pointer is read, and while it is not zero control goes back to the
//! first opcode of the body. So the test is made before every run of the
//! body, the first included.

use vstd::prelude::*;
use crate::brainfuck::{InterpreterBase, Machine};
use crate::indexed::{Indexed, Tape};
use crate::instructions::{Instruction, Loop, LoopEnd, LoopStart, Opcode};
use crate::program::{lemma_partner_position, matching_end, matching_start, Program};

verus! {

/// The mathematical content of a run at one moment: the machine state and
/// the position of the opcode to perform next.
pub struct Snapshot {
    pub machine: Machine,
    pub position: nat,
}

impl Snapshot {
    /// The moment before the first opcode, with `ram` as the tape and
    /// nothing printed.
    pub open spec fn initial(ram: Tape) -> Snapshot {
        Snapshot { machine: Machine { ram, output: Tape::empty() }, position: 0 }
    }
}

/// Whether the run has passed the last opcode.
pub open spec fn halted(program: Seq<Opcode>, at: Snapshot) -> bool {
    at.position >= program.len()
}

/// The position of the opcode that follows the one at `before.position`.
pub open spec fn next_position(program: Seq<Opcode>, before: Snapshot) -> nat {
    match program[before.position as int] {
        Opcode::LoopStart => matching_end(program, before.position),
        Opcode::LoopEnd => if LoopEnd::repeats(before.machine) {
            (matching_start(program, before.position) + 1) as nat
        } else {
            before.position + 1
        },
        _ => before.position + 1,
    }
}

/// The run one opcode later. A run that has halted stays as it is.
pub open spec fn step(program: Seq<Opcode>, before: Snapshot) -> Snapshot {
    if halted(program, before) {
        before
    } else {
        Snapshot {
            machine: program[before.position as int].effect(before.machine),
            position: next_position(program, before),
        }
    }
}

/// The run `n` opcodes later.
pub open spec fn steps(program: Seq<Opcode>, start: Snapshot, n: nat) -> Snapshot
    decreases n,
{
    if n == 0 {
        start
    } else {
        step(program, steps(program, start, (n - 1) as nat))
    }
}

/// Taking `a` steps and then `b` more is taking `a + b` steps.
pub proof fn lemma_steps_add(program: Seq<Opcode>, start: Snapshot, a: nat, b: nat)
    ensures
        steps(program, steps(program, start, a), b) == steps(program, start, a + b),
    decreases b,
{
    if b > 0 {
        lemma_steps_add(program, start, a, (b - 1) as nat);
    }
}

/// A run that has halted stays as it is, however many steps are taken.
pub proof fn lemma_halted_stays(program: Seq<Opcode>, at: Snapshot, n: nat)
    requires
        halted(program, at),
    ensures
        steps(program, at, n) == at,
    decreases n,
{
    if n > 0 {
        lemma_halted_stays(program, at, (n - 1) as nat);
    }
}

/// Whether the run from `start` halts after some number of steps.
pub open spec fn halts(program: Seq<Opcode>, start: Snapshot) -> bool {
    exists|n: nat| halted(program, #[trigger] steps(program, start, n))
}

/// A number of steps after which the run from `start` has halted, where
/// it halts at all.
pub open spec fn halting_time(program: Seq<Opcode>, start: Snapshot) -> nat {
    choose|n: nat| halted(program, #[trigger] steps(program, start, n))
}

/// The moment at which the run from `start` halts, where it halts at all.
pub open spec fn outcome(program: Seq<Opcode>, start: Snapshot) -> Snapshot {
    steps(program, start, halting_time(program, start))
}

/// Once a run has halted after `n` steps, it is at its outcome: whichever
/// number of steps is found to halt the run, the moment reached is the
/// same.
pub proof fn lemma_outcome(program: Seq<Opcode>, start: Snapshot, n: nat)
    requires
        halted(program, steps(program, start, n)),
    ensures
        halts(program, start),
        halted(program, outcome(program, start)),
        steps(program, start, n) == outcome(program, start),
{
    let time = halting_time(program, start);
    if n <= time {
        lemma_halted_stays(program, steps(program, start, n), (time - n) as nat);
        lemma_steps_add(program, start, n, (time - n) as nat);
    } else {
        lemma_halted_stays(program, steps(program, start, time), (n - time) as nat);
        lemma_steps_add(program, start, time, (n - time) as nat);
    }
}

/// A program in execution: the program, the machine state, and the
/// position of the opcode to perform next.
pub struct Interpreter {
    program: Program,
    state: InterpreterBase,
    position: usize,
}

impl Interpreter {
    /// The opcodes of the program being run.
    pub closed spec fn program(&self) -> Seq<Opcode> {
        self.program@
    }

    /// The run at this moment.
    pub closed spec fn snapshot(&self) -> Snapshot {
        Snapshot { machine: self.state@, position: self.position as nat }
    }

    /// An interpreter about to perform the first opcode of `program` on
    /// the tape `ram`, with nothing printed.
    pub fn new(program: Program, ram: Indexed) -> (interpreter: Interpreter)
        ensures
            interpreter.program() == program@,
            interpreter.snapshot() == Snapshot::initial(ram@),
    {
        Interpreter { program, state: InterpreterBase::new(ram), position: 0 }
    }

    /// Whether the run has passed the last opcode.
    pub fn finished(&self) -> (done: bool)
        ensures
            done == halted(self.program(), self.snapshot()),
    {
        self.position >= self.program.len()
    }

    /// Performs the next opcode. Once the run has halted nothing changes.
    pub fn step(&mut self)
        ensures
            final(self).program() == old(self).program(),
            final(self).snapshot() == step(old(self).program(), old(self).snapshot()),
    {
        if self.position >= self.program.len() {
            return ;
        }
        let op = self.program.opcode(self.position);
        proof {
            lemma_partner_position(self.program@, self.position as nat);
        }
        match op {
            Opcode::LoopStart => {
                LoopStart::exec(&mut self.state);
                self.position = self.program.partner(self.position);
            },
            Opcode::LoopEnd => {
                if LoopEnd::test(&mut self.state) {
                    self.position = self.program.partner(self.position) + 1;
                } else {
                    self.position = self.position + 1;
                }
            },
            _ => {
                op.exec(&mut self.state);
                self.position = self.position + 1;
            },
        }
    }

    /// Performs up to `max_steps` opcodes, stopping when the run halts,
    /// and says whether it has halted.
    pub fn run(&mut self, max_steps: u64) -> (done: bool)
        ensures
            final(self).program() == old(self).program(),
            final(self).snapshot() == steps(
                old(self).program(),
                old(self).snapshot(),
                max_steps as nat,
            ),
            done == halted(final(self).program(), final(self).snapshot()),
    {
        let mut taken: u64 = 0;
        let mut done = self.finished();
        while taken < max_steps && !done
            invariant
                taken <= max_steps,
                self.program() == old(self).program(),
                self.snapshot() == steps(old(self).program(), old(self).snapshot(), taken as nat),
                done == halted(self.program(), self.snapshot()),
            decreases max_steps - taken,
        {
            self.step();
            taken += 1;
            done = self.finished();
        }
        proof {
            if taken < max_steps {
                lemma_halted_stays(self.program(), self.snapshot(), (max_steps - taken) as nat);
                lemma_steps_add(
                    old(self).program(),
                    old(self).snapshot(),
                    taken as nat,
                    (max_steps - taken) as nat,
                );
            }
        }
        done
    }

    /// Performs opcodes until the run halts. This is for a run that does
    /// halt; one that does not is cut short by [`Interpreter::run`].
    pub fn finish(&mut self)
        requires
            halts(old(self).program(), old(self).snapshot()),
        ensures
            final(self).program() == old(self).program(),
            final(self).snapshot() == outcome(old(self).program(), old(self).snapshot()),
            halted(final(self).program(), final(self).snapshot()),
    {
        let ghost time = halting_time(self.program(), self.snapshot());
        let ghost mut taken: nat = 0;
        let mut done = self.finished();
        while !done
            invariant
                taken <= time,
                time == halting_time(old(self).program(), old(self).snapshot()),
                halted(old(self).program(), steps(old(self).program(), old(self).snapshot(), time)),
                self.program() == old(self).program(),
                self.snapshot() == steps(old(self).program(), old(self).snapshot(), taken),
                done == halted(self.program(), self.snapshot()),
            decreases time - taken,
        {
            proof {
                if taken == time {
                    assert(false);
                }
            }
            self.step();
            done = self.finished();
            proof {
                taken = taken + 1;
            }
        }
        proof {
            lemma_outcome(old(self).program(), old(self).snapshot(), taken);
        }
    }

    /// The cell values of the tape, in order.
    pub fn data(&self) -> (values: Vec<usize>)
        requires
            self.snapshot().machine.ram.fits(),
        ensures
            values@.len() == self.snapshot().machine.ram.data.len(),
            forall|k: int|
                0 <= k < values@.len() ==> values@[k] == self.snapshot().machine.ram.data[k],
    {
        crate::indexed::Debug::data(&self.state.ram)
    }

    /// The position of the tape pointer.
    pub fn index(&self) -> (n: usize)
        requires
            self.snapshot().machine.ram.index <= usize::MAX,
        ensures
            n == self.snapshot().machine.ram.index,
    {
        crate::indexed::Debug::index(&self.state.ram)
    }

    /// The position of the opcode to perform next.
    pub fn position(&self) -> (n: usize)
        ensures
            n == self.snapshot().position,
    {
        self.position
    }

    /// The machine state at this moment.
    pub fn state(&self) -> (state: &InterpreterBase)
        ensures
            state@ == self.snapshot().machine,
    {
        &self.state
    }

    /// Ends the run and hands out the machine state.
    pub fn into_state(self) -> (state: InterpreterBase)
        ensures
            state@ == self.snapshot().machine,
    {
        self.state
    }
}

/// Runs `program` on the tape `ram`, with nothing printed at first, for at
/// most `max_steps` opcodes. Where the run halts within that many steps
/// the result is the machine state it halts in; otherwise there is none.
pub fn execute_within(program: Program, ram: Indexed, max_steps: u64) -> (end: Option<
    InterpreterBase,
>)
    ensures
        end is Some <==> halted(
            program@,
            steps(program@, Snapshot::initial(ram@), max_steps as nat),
        ),
        end is Some ==> end->Some_0@ == steps(
            program@,
            Snapshot::initial(ram@),
            max_steps as nat,
        ).machine,
{
    let mut interpreter = Interpreter::new(program, ram);
    if interpreter.run(max_steps) {
        Some(interpreter.into_state())
    } else {
        None
    }
}

/// Runs `program` to its end on the tape `ram`, with nothing printed at
/// first, and hands out the machine state it halts in. This is for a run
/// that does halt; [`execute_within`] cuts short one that does not.
pub fn execute(program: Program, ram: Indexed) -> (end: InterpreterBase)
    requires
        halts(program@, Snapshot::initial(ram@)),
    ensures
        end@ == outcome(program@, Snapshot::initial(ram@)).machine,
        forall|n: nat|
            halted(program@, #[trigger] steps(program@, Snapshot::initial(ram@), n)) ==> end@
                == steps(program@, Snapshot::initial(ram@), n).machine,
{
    let mut interpreter = Interpreter::new(program, ram);
    interpreter.finish();
    proof {
        assert forall|n: nat|
            halted(
                program@,
                #[trigger] steps(program@, Snapshot::initial(ram@), n),
            ) implies interpreter.snapshot() == steps(program@, Snapshot::initial(ram@), n) by {
            lemma_outcome(program@, Snapshot::initial(ram@), n);
        }
    }
    interpreter.into_state()
}

/// Whether `later` begins with all of `earlier`, in the same order.
pub open spec fn extends(later: Seq<nat>, earlier: Seq<nat>) -> bool {
    &&& earlier.len() <= later.len()
    &&& forall|k: int| 0 <= k < earlier.len() ==> later[k] == earlier[k]
}

/// Running a program only ever appends to the output, at most one value
/// per step, and never shortens the tape.
pub proof fn lemma_steps_only_grow(program: Seq<Opcode>, start: Snapshot, n: nat)
    ensures
        extends(steps(program, start, n).machine.output.data, start.machine.output.data),
        steps(program, start, n).machine.output.data.len() <= start.machine.output.data.len()
            + n,
        steps(program, start, n).machine.output.index == start.machine.output.index,
        steps(program, start, n).machine.ram.data.len() >= start.machine.ram.data.len(),
    decreases n,
{
    if n > 0 {
        lemma_steps_only_grow(program, start, (n - 1) as nat);
    }
}

} // verus!
