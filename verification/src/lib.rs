//! An interpreter for a minimal tape language: unbounded counters, a
//! rightward-growing tape with a movable pointer, and bracketed loops.

pub mod operators;
pub mod numbers;
pub mod indexed;
pub mod brainfuck;
pub mod instructions;
pub mod program;
pub mod interpreter;
pub mod loops;
