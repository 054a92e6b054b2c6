//! The instruction set. Each instruction is a unit type that knows its
//! effect on a machine state; [`Opcode`] names them in a program.

use vstd::prelude::*;
use crate::brainfuck::{InterpreterBase, Machine};
use crate::indexed::{Get, IndexOp, VecOp};
use crate::operators::{Add, Sub};

verus! {

/// An instruction's effect on the tape and the output.
pub trait Instruction {
    /// The state that the instruction leaves.
    spec fn effect(before: Machine) -> Machine;

    /// Performs the instruction on `state`.
    fn exec(state: &mut InterpreterBase)
        ensures
            final(state)@ == Self::effect(old(state)@),
    ;
}

/// An instruction on whose outcome a loop is repeated or left.
pub trait Loop: Instruction {
    /// Whether the loop body is to run once more.
    spec fn repeats(before: Machine) -> bool;

    /// Performs the instruction on `state` and says whether the loop body
    /// is to run once more.
    fn test(state: &mut InterpreterBase) -> (again: bool)
        ensures
            again == Self::repeats(old(state)@),
            final(state)@ == Self::effect(old(state)@),
    ;
}

/// Steps the cell under the pointer up by one.
pub struct Incr;

/// Steps the cell under the pointer down by one; a cell at zero stays at
/// zero.
pub struct Decr;

/// Moves the pointer one cell to the right.
pub struct MoveRight;

/// Moves the pointer one cell to the left; at the left edge it stays.
pub struct MoveLeft;

/// Appends a copy of the cell under the pointer to the output.
pub struct Print;

/// Marks where a loop begins. The test is made at the matching
/// [`LoopEnd`]; the marker itself leaves the state alone.
pub struct LoopStart;

/// Tests the cell under the pointer: the loop body runs once more while
/// the cell is not zero.
pub struct LoopEnd;

impl Instruction for Incr {
    open spec fn effect(before: Machine) -> Machine {
        Machine { ram: before.ram.apply_at::<Add>(before.ram.index), output: before.output }
    }

    fn exec(state: &mut InterpreterBase) {
        <crate::indexed::Indexed as VecOp<Add>>::vec_op(&mut state.ram);
    }
}

impl Instruction for Decr {
    open spec fn effect(before: Machine) -> Machine {
        Machine { ram: before.ram.apply_at::<Sub>(before.ram.index), output: before.output }
    }

    fn exec(state: &mut InterpreterBase) {
        <crate::indexed::Indexed as VecOp<Sub>>::vec_op(&mut state.ram);
    }
}

impl Instruction for MoveRight {
    open spec fn effect(before: Machine) -> Machine {
        Machine { ram: before.ram.shift::<Add>(), output: before.output }
    }

    fn exec(state: &mut InterpreterBase) {
        <crate::indexed::Indexed as IndexOp<Add>>::index_op(&mut state.ram);
    }
}

impl Instruction for MoveLeft {
    open spec fn effect(before: Machine) -> Machine {
        Machine { ram: before.ram.shift::<Sub>(), output: before.output }
    }

    fn exec(state: &mut InterpreterBase) {
        <crate::indexed::Indexed as IndexOp<Sub>>::index_op(&mut state.ram);
    }
}

impl Instruction for Print {
    open spec fn effect(before: Machine) -> Machine {
        before.print()
    }

    fn exec(state: &mut InterpreterBase) {
        crate::brainfuck::Print::print(state);
    }
}

impl Instruction for LoopStart {
    open spec fn effect(before: Machine) -> Machine {
        before
    }

    fn exec(state: &mut InterpreterBase) {
    }
}

impl Instruction for LoopEnd {
    open spec fn effect(before: Machine) -> Machine {
        Machine { ram: before.ram.touch(before.ram.index), output: before.output }
    }

    fn exec(state: &mut InterpreterBase) {
        let _ = state.ram.get();
    }
}

impl Loop for LoopEnd {
    open spec fn repeats(before: Machine) -> bool {
        before.ram.current() != 0
    }

    fn test(state: &mut InterpreterBase) -> (again: bool) {
        let value = state.ram.get();
        !value.is_zero()
    }
}

/// The name of an instruction in a program.
#[derive(Clone, Copy, Debug, PartialEq, Eq, Structural)]
pub enum Opcode {
    IncrCell,
    DecrCell,
    MoveRight,
    MoveLeft,
    Print,
    LoopStart,
    LoopEnd,
}

impl Opcode {
    /// The state that the named instruction leaves.
    pub open spec fn effect(self, before: Machine) -> Machine {
        match self {
            Opcode::IncrCell => Incr::effect(before),
            Opcode::DecrCell => Decr::effect(before),
            Opcode::MoveRight => MoveRight::effect(before),
            Opcode::MoveLeft => MoveLeft::effect(before),
            Opcode::Print => Print::effect(before),
            Opcode::LoopStart => LoopStart::effect(before),
            Opcode::LoopEnd => LoopEnd::effect(before),
        }
    }

    /// Performs the named instruction on `state`.
    pub fn exec(self, state: &mut InterpreterBase)
        ensures
            final(state)@ == self.effect(old(state)@),
    {
        match self {
            Opcode::IncrCell => Incr::exec(state),
            Opcode::DecrCell => Decr::exec(state),
            Opcode::MoveRight => MoveRight::exec(state),
            Opcode::MoveLeft => MoveLeft::exec(state),
            Opcode::Print => Print::exec(state),
            Opcode::LoopStart => LoopStart::exec(state),
            Opcode::LoopEnd => LoopEnd::exec(state),
        }
    }
}

} // verus!
