//! A virtual machine and debugger core for the Synacor challenge architecture:
//! a 15-bit address, 16-bit word CPU with eight registers, an unbounded stack
//! and character I/O.
pub mod syn_int;
pub mod instruction;
pub mod status;
pub mod data;
pub mod cpu;
pub mod injection;
pub mod debugger;
pub mod command;

pub use cpu::SynCpu;
pub use data::Data;
pub use injection::Injection;
pub use instruction::{Instruction, Operation};
pub use status::Status;
