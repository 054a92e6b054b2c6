//! Loops taken as a whole: what one turn of a loop does to the machine.
//!
//! The interpreter moves through a loop by jumps between its brackets.
//! Here it is shown that this comes to the same as testing the cell under
//! the pointer and, while it is not zero, running the body once as a
//! program of its own on the state that the test left.

use vstd::prelude::*;
use crate::brainfuck::Machine;
use crate::instructions::{Instruction, Loop, LoopEnd, Opcode};
use crate::interpreter::{halted, lemma_steps_add, step, steps, Snapshot};
use crate::numbers::pred;
use crate::program::{
    is_loop, lemma_body_brackets, lemma_partner_position, lemma_partners_pair_up, loop_body,
    matching_end, matching_start, scan_end, scan_start,
};

verus! {

/// A moment of a run of the body of the loop opened at `start`, as a
/// moment of the run of the whole program.
pub open spec fn in_loop(inner: Snapshot, start: nat) -> Snapshot {
    Snapshot { machine: inner.machine, position: inner.position + start + 1 }
}

/// The moment at which the body of a loop is about to run on `machine`,
/// the body taken as a program of its own.
pub open spec fn body_start(machine: Machine) -> Snapshot {
    Snapshot { machine, position: 0 }
}

/// Whether the body, started on `machine`, takes `n` steps: it has not
/// halted at the start, nor after any number of steps below `n`.
pub open spec fn body_runs_for(body: Seq<Opcode>, machine: Machine, n: nat) -> bool {
    forall|k: nat| k < n ==> !halted(body, #[trigger] steps(body, body_start(machine), k))
}

/// A step inside the body of a loop is the same step whether the body is
/// run in its place in the program or as a program of its own, and it
/// leads no further than the end of the body.
pub proof fn lemma_body_step(program: Seq<Opcode>, start: nat, inner: Snapshot)
    requires
        is_loop(program, start),
        !halted(loop_body(program, start), inner),
    ensures
        step(program, in_loop(inner, start)) == in_loop(
            step(loop_body(program, start), inner),
            start,
        ),
        step(loop_body(program, start), inner).position <= loop_body(program, start).len(),
{
    lemma_body_brackets(program, start, inner.position);
    lemma_partner_position(loop_body(program, start), inner.position);
}

/// While the body of a loop is running, the run of the whole program
/// from the first opcode of the body goes through the same machine
/// states, at the same opcodes.
pub proof fn lemma_body_runs_in_place(program: Seq<Opcode>, start: nat, machine: Machine, n: nat)
    requires
        is_loop(program, start),
        body_runs_for(loop_body(program, start), machine, n),
    ensures
        steps(program, in_loop(body_start(machine), start), n) == in_loop(
            steps(loop_body(program, start), body_start(machine), n),
            start,
        ),
        steps(loop_body(program, start), body_start(machine), n).position <= loop_body(
            program,
            start,
        ).len(),
    decreases n,
{
    let body = loop_body(program, start);
    if n > 0 {
        let earlier = (n - 1) as nat;
        lemma_body_runs_in_place(program, start, machine, earlier);
        assert(!halted(body, steps(body, body_start(machine), earlier)));
        lemma_body_step(program, start, steps(body, body_start(machine), earlier));
    } else {
        lemma_partner_position(program, start);
    }
}

/// The start of a loop passes control to the test at its end and leaves
/// the machine as it is.
pub proof fn lemma_loop_entry(program: Seq<Opcode>, start: nat, machine: Machine)
    requires
        is_loop(program, start),
    ensures
        step(program, Snapshot { machine, position: start }) == (Snapshot {
            machine,
            position: matching_end(program, start),
        }),
{
}

/// Where the test at the end of a loop finds zero under the pointer, the
/// loop is left: the next opcode is the one after the loop, and the
/// machine is as the test left it.
pub proof fn lemma_loop_exit(program: Seq<Opcode>, start: nat, machine: Machine)
    requires
        is_loop(program, start),
        !LoopEnd::repeats(machine),
    ensures
        step(program, Snapshot { machine, position: matching_end(program, start) }) == (Snapshot {
            machine: LoopEnd::effect(machine),
            position: matching_end(program, start) + 1,
        }),
{
    lemma_partner_position(program, start);
}

/// One turn of a loop. Where the test at the end of a loop finds a value
/// other than zero under the pointer, and the body, run once as a program
/// of its own on the state that the test left, ends after `n` steps, the
/// run of the whole program is back at the test after `n + 1` steps, in
/// the state in which the body ended.
pub proof fn lemma_loop_turn(program: Seq<Opcode>, start: nat, machine: Machine, n: nat)
    requires
        is_loop(program, start),
        LoopEnd::repeats(machine),
        body_runs_for(loop_body(program, start), LoopEnd::effect(machine), n),
        halted(
            loop_body(program, start),
            steps(loop_body(program, start), body_start(LoopEnd::effect(machine)), n),
        ),
    ensures
        steps(program, Snapshot { machine, position: matching_end(program, start) }, n + 1) == (
        Snapshot {
            machine: steps(
                loop_body(program, start),
                body_start(LoopEnd::effect(machine)),
                n,
            ).machine,
            position: matching_end(program, start),
        }),
{
    let end = matching_end(program, start);
    let at_test = Snapshot { machine, position: end };
    let tested = LoopEnd::effect(machine);
    lemma_partner_position(program, start);
    lemma_partners_pair_up(program, start);
    reveal_with_fuel(steps, 2);
    assert(steps(program, at_test, 1) == in_loop(body_start(tested), start));
    lemma_body_runs_in_place(program, start, tested, n);
    lemma_steps_add(program, at_test, 1, n);
}

/// How many of the first `n` steps from `start` perform the opcode at
/// `position`.
pub open spec fn performed(program: Seq<Opcode>, start: Snapshot, n: nat, position: nat) -> nat
    decreases n,
{
    if n == 0 {
        0
    } else {
        let earlier = performed(program, start, (n - 1) as nat, position);
        if steps(program, start, (n - 1) as nat).position == position {
            earlier + 1
        } else {
            earlier
        }
    }
}

/// What is performed in `a + b` steps is what is performed in the first
/// `a` and in the `b` that follow.
pub proof fn lemma_performed_add(
    program: Seq<Opcode>,
    start: Snapshot,
    a: nat,
    b: nat,
    position: nat,
)
    ensures
        performed(program, start, a + b, position) == performed(program, start, a, position)
            + performed(program, steps(program, start, a), b, position),
    decreases b,
{
    if b > 0 {
        lemma_performed_add(program, start, a, (b - 1) as nat, position);
        lemma_steps_add(program, start, a, (b - 1) as nat);
    }
}

/// The program that steps a cell down once and then down to zero in a
/// loop: `-[-]`.
pub open spec fn countdown() -> Seq<Opcode> {
    seq![Opcode::DecrCell, Opcode::LoopStart, Opcode::DecrCell, Opcode::LoopEnd]
}

/// The state in which the countdown loop leaves `machine`: the cell under
/// the pointer exists and is zero, and nothing else has changed.
pub open spec fn counted_down(machine: Machine) -> Machine {
    Machine { ram: machine.ram.write_at(machine.ram.index, 0), output: machine.output }
}

proof fn lemma_countdown_brackets()
    ensures
        countdown().len() == 4,
        matching_end(countdown(), 1) == 3,
        matching_start(countdown(), 3) == 1,
{
    reveal_with_fuel(scan_end, 3);
    reveal_with_fuel(scan_start, 3);
}

proof fn lemma_countdown_test(machine: Machine, v: nat)
    requires
        machine.ram.current() == v,
    ensures
        steps(countdown(), Snapshot { machine, position: 3 }, 2 * v + 1) == (Snapshot {
            machine: counted_down(machine),
            position: 4,
        }),
        forall|n: nat|
            n < 2 * v + 1 ==> !halted(
                countdown(),
                #[trigger] steps(countdown(), Snapshot { machine, position: 3 }, n),
            ),
        performed(countdown(), Snapshot { machine, position: 3 }, 2 * v + 1, 2) == v,
    decreases v,
{
    let program = countdown();
    let at_test = Snapshot { machine, position: 3 };
    lemma_countdown_brackets();
    reveal_with_fuel(steps, 3);
    reveal_with_fuel(performed, 3);
    let index = machine.ram.index;
    if v == 0 {
        assert(machine.ram.touch(index).data =~= machine.ram.write_at(index, 0).data);
        assert forall|n: nat| n < 1 implies !halted(
            program,
            #[trigger] steps(program, at_test, n),
        ) by {
            assert(steps(program, at_test, 0) == at_test);
        }
    } else {
        let in_body = Snapshot { machine: LoopEnd::effect(machine), position: 2 };
        assert(step(program, at_test) == in_body);
        let next = Opcode::DecrCell.effect(in_body.machine);
        let again = Snapshot { machine: next, position: 3 };
        assert(step(program, in_body) == again);
        assert(steps(program, at_test, 2) == again);
        assert(next.ram.data =~= machine.ram.write_at(index, (v - 1) as nat).data);
        assert(next.ram.current() == v - 1);
        lemma_countdown_test(next, (v - 1) as nat);
        let rest: nat = (2 * (v - 1) + 1) as nat;
        lemma_steps_add(program, at_test, 2, rest);
        lemma_performed_add(program, at_test, 2, rest, 2);
        assert(counted_down(next).ram.data =~= counted_down(machine).ram.data);
        assert(performed(program, at_test, 2, 2) == 1);
        assert forall|n: nat| n < 2 * v + 1 implies !halted(
            program,
            #[trigger] steps(program, at_test, n),
        ) by {
            if n >= 2 {
                lemma_steps_add(program, at_test, 2, (n - 2) as nat);
                assert(!halted(program, steps(program, again, (n - 2) as nat)));
            }
        }
    }
}

/// The loop of the countdown program, reached with `v` in the cell under
/// the pointer, runs its body exactly `v` times and leaves the cell at
/// zero: the run leaves the loop after `2 * v + 2` steps and not before,
/// `v` of them perform the body, and nothing but that cell has changed.
pub proof fn countdown_loop_runs_body_v_times(machine: Machine, v: nat)
    requires
        machine.ram.current() == v,
    ensures
        steps(countdown(), Snapshot { machine, position: 1 }, 2 * v + 2) == (Snapshot {
            machine: counted_down(machine),
            position: 4,
        }),
        halted(countdown(), steps(countdown(), Snapshot { machine, position: 1 }, 2 * v + 2)),
        forall|n: nat|
            n < 2 * v + 2 ==> !halted(
                countdown(),
                #[trigger] steps(countdown(), Snapshot { machine, position: 1 }, n),
            ),
        performed(countdown(), Snapshot { machine, position: 1 }, 2 * v + 2, 2) == v,
        counted_down(machine).ram.current() == 0,
{
    let program = countdown();
    let entry = Snapshot { machine, position: 1 };
    let at_test = Snapshot { machine, position: 3 };
    lemma_countdown_brackets();
    reveal_with_fuel(steps, 2);
    reveal_with_fuel(performed, 2);
    assert(steps(program, entry, 1) == at_test);
    lemma_countdown_test(machine, v);
    lemma_steps_add(program, entry, 1, 2 * v + 1);
    lemma_performed_add(program, entry, 1, 2 * v + 1, 2);
    assert forall|n: nat| n < 2 * v + 2 implies !halted(
        program,
        #[trigger] steps(program, entry, n),
    ) by {
        if n >= 1 {
            lemma_steps_add(program, entry, 1, (n - 1) as nat);
            assert(!halted(program, steps(program, at_test, (n - 1) as nat)));
        }
    }
}

/// The countdown program, started with `c` in the cell under the pointer,
/// halts with that cell at zero and nothing else changed. The first
/// opcode steps the cell down once, so the loop is reached with `c - 1`
/// (or zero) and its body runs that many times.
pub proof fn countdown_program_halts(machine: Machine, c: nat)
    requires
        machine.ram.current() == c,
    ensures
        steps(countdown(), Snapshot { machine, position: 0 }, 2 * pred(c) + 3) == (Snapshot {
            machine: counted_down(machine),
            position: 4,
        }),
        halted(countdown(), steps(countdown(), Snapshot { machine, position: 0 }, 2 * pred(c) + 3)),
        forall|n: nat|
            n < 2 * pred(c) + 3 ==> !halted(
                countdown(),
                #[trigger] steps(countdown(), Snapshot { machine, position: 0 }, n),
            ),
        performed(countdown(), Snapshot { machine, position: 0 }, 2 * pred(c) + 3, 2) == pred(c),
{
    let program = countdown();
    let start = Snapshot { machine, position: 0 };
    let v = pred(c);
    let stepped = Opcode::DecrCell.effect(machine);
    let entry = Snapshot { machine: stepped, position: 1 };
    lemma_countdown_brackets();
    reveal_with_fuel(steps, 2);
    reveal_with_fuel(performed, 2);
    assert(steps(program, start, 1) == entry);
    let index = machine.ram.index;
    assert(stepped.ram.data =~= machine.ram.write_at(index, v).data);
    assert(stepped.ram.current() == v);
    countdown_loop_runs_body_v_times(stepped, v);
    lemma_steps_add(program, start, 1, 2 * v + 2);
    lemma_performed_add(program, start, 1, 2 * v + 2, 2);
    assert(counted_down(stepped).ram.data =~= counted_down(machine).ram.data);
    assert forall|n: nat| n < 2 * v + 3 implies !halted(
        program,
        #[trigger] steps(program, start, n),
    ) by {
        if n >= 1 {
            lemma_steps_add(program, start, 1, (n - 1) as nat);
            assert(!halted(program, steps(program, entry, (n - 1) as nat)));
        }
    }
}

/// The loop body that only steps the cell under the pointer down.
pub open spec fn step_down() -> Seq<Opcode> {
    seq![Opcode::DecrCell]
}

proof fn lemma_clearing_test(program: Seq<Opcode>, start: nat, machine: Machine, v: nat)
    requires
        is_loop(program, start),
        loop_body(program, start) == step_down(),
        machine.ram.current() == v,
    ensures
        steps(program, Snapshot { machine, position: matching_end(program, start) }, 2 * v + 1)
            == (Snapshot {
            machine: counted_down(machine),
            position: matching_end(program, start) + 1,
        }),
    decreases v,
{
    let end = matching_end(program, start);
    let at_test = Snapshot { machine, position: end };
    let index = machine.ram.index;
    let tested = LoopEnd::effect(machine);
    reveal_with_fuel(steps, 2);
    if v == 0 {
        lemma_loop_exit(program, start, machine);
        assert(tested.ram.data =~= counted_down(machine).ram.data);
    } else {
        let body = step_down();
        let next = Opcode::DecrCell.effect(tested);
        assert(steps(body, body_start(tested), 1) == (Snapshot { machine: next, position: 1 }));
        assert(body_runs_for(body, tested, 1)) by {
            assert(steps(body, body_start(tested), 0) == body_start(tested));
        }
        lemma_loop_turn(program, start, machine, 1);
        assert(next.ram.data =~= machine.ram.write_at(index, (v - 1) as nat).data);
        assert(next.ram.current() == v - 1);
        lemma_clearing_test(program, start, next, (v - 1) as nat);
        lemma_steps_add(program, at_test, 2, (2 * (v - 1) + 1) as nat);
        assert(counted_down(next).ram.data =~= counted_down(machine).ram.data);
    }
}

/// A loop whose body only steps the cell under the pointer down clears
/// that cell, wherever in a program the loop stands: reached with `v` in
/// the cell, the loop is left after `2 * v + 2` steps with the cell at
/// zero and nothing else changed.
pub proof fn lemma_clearing_loop(program: Seq<Opcode>, start: nat, machine: Machine, v: nat)
    requires
        is_loop(program, start),
        loop_body(program, start) == step_down(),
        machine.ram.current() == v,
    ensures
        steps(program, Snapshot { machine, position: start }, 2 * v + 2) == (Snapshot {
            machine: counted_down(machine),
            position: matching_end(program, start) + 1,
        }),
        counted_down(machine).ram.current() == 0,
{
    let entry = Snapshot { machine, position: start };
    reveal_with_fuel(steps, 2);
    lemma_loop_entry(program, start, machine);
    lemma_clearing_test(program, start, machine, v);
    lemma_steps_add(program, entry, 1, 2 * v + 1);
}

} // verus!
