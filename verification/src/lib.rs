//! A small accumulator machine: a fixed program of one-operand instructions
//! runs against a bounded memory of 32-bit cells and talks to the outside
//! through lines of ASCII decimal numbers.

pub mod codec;
pub mod engine;
pub mod instructions;
pub mod io_module;
pub mod parser;
