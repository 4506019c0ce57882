//! The status of the CPU.
use vstd::prelude::*;

verus! {

/// The operating state of the CPU; changed by the CPU alone.
#[derive(Debug, Clone, Copy, PartialEq, Eq, Structural)]
pub enum Status {
    /// Operating normally.
    NoError,
    /// A `pop` found the stack empty.
    PopOnEmptyStack,
    /// An instruction did not decode, wrote to a literal or divided by zero.
    InstructionParseError,
    /// Execution was stopped from outside, between two instructions.
    Interrupted,
    /// Input could not be read.
    StdinError,
    /// Output could not be written.
    StdoutError,
    /// Execution has ended.
    Halted,
}

impl Default for Status {
    fn default() -> (r: Status)
        ensures
            r == Status::NoError,
    {
        Status::NoError
    }
}

impl Status {
    /// A short human-readable description of the status.
    pub fn description(&self) -> (r: &'static str)
        ensures
            *self == Status::NoError ==> r@ == "Ok"@,
            *self == Status::PopOnEmptyStack ==> r@ == "Pop on empty stack"@,
            *self == Status::InstructionParseError ==> r@ == "Instruction parse error"@,
            *self == Status::Interrupted ==> r@ == "Interrupted"@,
            *self == Status::StdinError ==> r@ == "Error reading input"@,
            *self == Status::StdoutError ==> r@ == "Error writing output"@,
            *self == Status::Halted ==> r@ == "Halted"@,
    {
        match *self {
            Status::NoError => "Ok",
            Status::PopOnEmptyStack => "Pop on empty stack",
            Status::InstructionParseError => "Instruction parse error",
            Status::Interrupted => "Interrupted",
            Status::StdinError => "Error reading input",
            Status::StdoutError => "Error writing output",
            Status::Halted => "Halted",
        }
    }
}

} // verus!
