//! The instruction set of the machine.

use vstd::prelude::*;

verus! {

/// The eight operations of the machine. Each instruction pairs one of them
/// with an unsigned operand: a memory address for `Load`, `Add`, `Sub`,
/// `Store`, `Read` and `Print`, a jump target for `Jgz`, and a placeholder
/// for `Halt`.
#[derive(Debug, PartialEq, Eq, Clone, Copy, Structural)]
pub enum OpCode {
    Load,
    Add,
    Sub,
    Store,
    Jgz,
    Read,
    Print,
    Halt,
}

/// A program: instructions in the order in which they are stored, the first
/// at index 0.
pub type DivaremaProgram = Vec<(OpCode, usize)>;

} // verus!
