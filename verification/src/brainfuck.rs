//! The machine state that instructions act on: the tape and the values
//! printed so far.

use vstd::prelude::*;
use crate::indexed::{Get, Indexed, Push, Tape};

verus! {

/// The mathematical content of a machine state.
pub struct Machine {
    /// The tape.
    pub ram: Tape,
    /// The values printed so far, oldest first, as the cells of a tape.
    pub output: Tape,
}

impl Machine {
    /// The state after the cell under the pointer has been printed: the
    /// cell has been accessed, and a copy of its value is the newest
    /// output.
    pub open spec fn print(self) -> Machine {
        Machine {
            ram: self.ram.touch(self.ram.index),
            output: self.output.push(self.ram.current()),
        }
    }
}

/// A machine state: the tape and the output buffer.
pub struct InterpreterBase {
    /// The tape.
    pub ram: Indexed,
    /// The values printed so far, oldest first.
    pub output: Indexed,
}

impl View for InterpreterBase {
    type V = Machine;

    open spec fn view(&self) -> Machine {
        Machine { ram: self.ram@, output: self.output@ }
    }
}

impl InterpreterBase {
    /// The state with the given tape and nothing printed.
    pub fn new(ram: Indexed) -> (state: InterpreterBase)
        ensures
            state@ == (Machine { ram: ram@, output: Tape::empty() }),
    {
        InterpreterBase { ram, output: Indexed::new() }
    }
}

/// Printing the cell under the pointer.
pub trait Print: View<V = Machine> {
    /// Appends a copy of the cell under the pointer to the output. No
    /// earlier output changes, and no cell changes its value.
    fn print(&mut self)
        ensures
            final(self)@ == old(self)@.print(),
    ;
}

impl Print for InterpreterBase {
    fn print(&mut self) {
        let value = self.ram.get();
        self.output.push(value);
    }
}

} // verus!
