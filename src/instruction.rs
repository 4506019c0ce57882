//! Instructions, operations (an instruction tagged as regular or as a
//! breakpoint) and the decoder.
use vstd::prelude::*;
use crate::syn_int::{SynInt, FIRST_INVALID_WORD};

verus! {

/// The highest opcode that names an instruction.
pub const MAX_OPCODE: u16 = 21;

/// One instruction of the architecture with its decoded operands.
#[derive(Debug, Clone, Copy, PartialEq, Eq, Structural)]
pub enum Instruction {
    Halt,
    SetReg(SynInt, SynInt),
    Push(SynInt),
    Pop(SynInt),
    Eq(SynInt, SynInt, SynInt),
    Gt(SynInt, SynInt, SynInt),
    Jmp(SynInt),
    Jt(SynInt, SynInt),
    Jf(SynInt, SynInt),
    Add(SynInt, SynInt, SynInt),
    Mult(SynInt, SynInt, SynInt),
    Mod(SynInt, SynInt, SynInt),
    And(SynInt, SynInt, SynInt),
    Or(SynInt, SynInt, SynInt),
    Not(SynInt, SynInt),
    ReadMem(SynInt, SynInt),
    WriteMem(SynInt, SynInt),
    Call(SynInt),
    Ret,
    Out(SynInt),
    In(SynInt),
    Noop,
    /// A word that does not decode to an instruction.
    _Unknown,
}

/// An instruction, tagged as regular or as a breakpoint to pause before.
#[derive(Debug, Clone, Copy, PartialEq, Eq, Structural)]
pub enum Operation {
    Regular(Instruction),
    Breakpoint(Instruction),
}

/// The number of words, opcode included, of the instruction with this opcode.
pub open spec fn opcode_size(op: u16) -> nat {
    if op == 0 || op == 18 || op == 21 {
        1
    } else if op == 2 || op == 3 || op == 6 || op == 17 || op == 19 || op == 20 {
        2
    } else if op == 1 || op == 7 || op == 8 || op == 14 || op == 15 || op == 16 {
        3
    } else if 4 <= op <= 13 {
        4
    } else {
        1
    }
}

/// Every operand word that the opcode reads from `ws[1..]` is a literal or a register.
pub open spec fn operands_valid(op: u16, ws: Seq<u16>) -> bool {
    forall|j: int| 1 <= j < opcode_size(op) ==> ws[j] < FIRST_INVALID_WORD
}

/// The instruction that opcode `op` makes of the operand words `ws[1..]`.
pub open spec fn decode(op: u16, ws: Seq<u16>) -> Instruction {
    if !operands_valid(op, ws) {
        Instruction::_Unknown
    } else {
        let a = SynInt::spec_from_word(ws[1]);
        let b = SynInt::spec_from_word(ws[2]);
        let c = SynInt::spec_from_word(ws[3]);
        if op == 0 {
            Instruction::Halt
        } else if op == 1 {
            Instruction::SetReg(a, b)
        } else if op == 2 {
            Instruction::Push(a)
        } else if op == 3 {
            Instruction::Pop(a)
        } else if op == 4 {
            Instruction::Eq(a, b, c)
        } else if op == 5 {
            Instruction::Gt(a, b, c)
        } else if op == 6 {
            Instruction::Jmp(a)
        } else if op == 7 {
            Instruction::Jt(a, b)
        } else if op == 8 {
            Instruction::Jf(a, b)
        } else if op == 9 {
            Instruction::Add(a, b, c)
        } else if op == 10 {
            Instruction::Mult(a, b, c)
        } else if op == 11 {
            Instruction::Mod(a, b, c)
        } else if op == 12 {
            Instruction::And(a, b, c)
        } else if op == 13 {
            Instruction::Or(a, b, c)
        } else if op == 14 {
            Instruction::Not(a, b)
        } else if op == 15 {
            Instruction::ReadMem(a, b)
        } else if op == 16 {
            Instruction::WriteMem(a, b)
        } else if op == 17 {
            Instruction::Call(a)
        } else if op == 18 {
            Instruction::Ret
        } else if op == 19 {
            Instruction::Out(a)
        } else if op == 20 {
            Instruction::In(a)
        } else if op == 21 {
            Instruction::Noop
        } else {
            Instruction::_Unknown
        }
    }
}

/// Whether the upper byte of an instruction word carries the breakpoint tag.
pub open spec fn is_tagged(w: u16) -> bool {
    (w >> 8u16) & 0xccu16 == 0xccu16
}

/// The opcode that a word selects: its low byte when tagged, else the whole word.
pub open spec fn effective_opcode(w: u16) -> u16 {
    if is_tagged(w) {
        w & 0xffu16
    } else {
        w
    }
}

/// The number of words that decoding the operation starting with `w` reads.
pub open spec fn word_count(w: u16) -> nat {
    opcode_size(effective_opcode(w))
}

/// The operation that the words `ws` begin with.
pub open spec fn decode_op(ws: Seq<u16>) -> Operation {
    let i = decode(effective_opcode(ws[0]), ws);
    if is_tagged(ws[0]) {
        Operation::Breakpoint(i)
    } else {
        Operation::Regular(i)
    }
}

/// Executable form of `opcode_size`.
pub fn size_of_opcode(op: u16) -> (r: usize)
    ensures
        r as nat == opcode_size(op),
        1 <= r <= 4,
{
    if op == 0 || op == 18 || op == 21 {
        1
    } else if op == 2 || op == 3 || op == 6 || op == 17 || op == 19 || op == 20 {
        2
    } else if op == 1 || op == 7 || op == 8 || op == 14 || op == 15 || op == 16 {
        3
    } else if 4 <= op && op <= 13 {
        4
    } else {
        1
    }
}

/// Decodes opcode `op` against the operand words `ram[1..]`.
fn decode_with(op: u16, ram: &[u16]) -> (r: Instruction)
    requires
        ram@.len() >= opcode_size(op),
    ensures
        r == decode(op, ram@),
        r.wf(),
{
    let n = size_of_opcode(op);
    let mut i: usize = 1;
    while i < n
        invariant
            1 <= i,
            n as nat == opcode_size(op),
            ram@.len() >= n,
            forall|j: int| 1 <= j < i ==> ram@[j] < FIRST_INVALID_WORD,
        decreases n - i,
    {
        if ram[i] >= FIRST_INVALID_WORD {
            return Instruction::_Unknown;
        }
        i += 1;
    }
    let a = if n > 1 {
        SynInt::from_word(ram[1])
    } else {
        SynInt::Literal(0)
    };
    let b = if n > 2 {
        SynInt::from_word(ram[2])
    } else {
        SynInt::Literal(0)
    };
    let c = if n > 3 {
        SynInt::from_word(ram[3])
    } else {
        SynInt::Literal(0)
    };
    match op {
        0 => Instruction::Halt,
        1 => Instruction::SetReg(a, b),
        2 => Instruction::Push(a),
        3 => Instruction::Pop(a),
        4 => Instruction::Eq(a, b, c),
        5 => Instruction::Gt(a, b, c),
        6 => Instruction::Jmp(a),
        7 => Instruction::Jt(a, b),
        8 => Instruction::Jf(a, b),
        9 => Instruction::Add(a, b, c),
        10 => Instruction::Mult(a, b, c),
        11 => Instruction::Mod(a, b, c),
        12 => Instruction::And(a, b, c),
        13 => Instruction::Or(a, b, c),
        14 => Instruction::Not(a, b),
        15 => Instruction::ReadMem(a, b),
        16 => Instruction::WriteMem(a, b),
        17 => Instruction::Call(a),
        18 => Instruction::Ret,
        19 => Instruction::Out(a),
        20 => Instruction::In(a),
        21 => Instruction::Noop,
        _ => Instruction::_Unknown,
    }
}

impl Instruction {
    /// Every operand is a literal or one of the eight registers.
    pub open spec fn wf(self) -> bool {
        match self {
            Instruction::SetReg(a, b) | Instruction::Jt(a, b) | Instruction::Jf(a, b)
            | Instruction::Not(a, b) | Instruction::ReadMem(a, b) | Instruction::WriteMem(
                a,
                b,
            ) => a.valid() && b.valid(),
            Instruction::Push(a) | Instruction::Pop(a) | Instruction::Jmp(a) | Instruction::Call(
                a,
            ) | Instruction::Out(a) | Instruction::In(a) => a.valid(),
            Instruction::Eq(a, b, c) | Instruction::Gt(a, b, c) | Instruction::Add(a, b, c)
            | Instruction::Mult(a, b, c) | Instruction::Mod(a, b, c) | Instruction::And(a, b, c)
            | Instruction::Or(a, b, c) => a.valid() && b.valid() && c.valid(),
            _ => true,
        }
    }

    /// The number of words, opcode included, that this instruction occupies.
    pub open spec fn spec_size(self) -> nat {
        match self {
            Instruction::Halt | Instruction::Ret | Instruction::Noop | Instruction::_Unknown => 1,
            Instruction::Push(_) | Instruction::Pop(_) | Instruction::Jmp(_) | Instruction::Call(
                _,
            ) | Instruction::Out(_) | Instruction::In(_) => 2,
            Instruction::SetReg(_, _) | Instruction::Jt(_, _) | Instruction::Jf(_, _)
            | Instruction::Not(_, _) | Instruction::ReadMem(_, _) | Instruction::WriteMem(
                _,
                _,
            ) => 3,
            _ => 4,
        }
    }

    /// Decodes the instruction at the start of `ram`, reading the whole first
    /// word as the opcode.
    pub fn next(ram: &[u16]) -> (r: Instruction)
        requires
            ram@.len() >= 1,
            ram@.len() >= opcode_size(ram@[0]),
        ensures
            r == decode(ram@[0], ram@),
            r.wf(),
    {
        decode_with(ram[0], ram)
    }

    /// The number of words, opcode included, that this instruction occupies.
    pub fn size(&self) -> (r: u16)
        ensures
            r as nat == self.spec_size(),
    {
        match *self {
            Instruction::Halt | Instruction::Ret | Instruction::Noop | Instruction::_Unknown => 1,
            Instruction::Push(_) | Instruction::Pop(_) | Instruction::Jmp(_) | Instruction::Call(
                _,
            ) | Instruction::Out(_) | Instruction::In(_) => 2,
            Instruction::SetReg(_, _) | Instruction::Jt(_, _) | Instruction::Jf(_, _)
            | Instruction::Not(_, _) | Instruction::ReadMem(_, _) | Instruction::WriteMem(
                _,
                _,
            ) => 3,
            _ => 4,
        }
    }
}

impl Operation {
    /// The instruction, whatever its tag.
    pub open spec fn spec_instr(self) -> Instruction {
        match self {
            Operation::Regular(i) => i,
            Operation::Breakpoint(i) => i,
        }
    }

    /// Decodes the operation at the start of `ram`.
    pub fn next(ram: &[u16]) -> (r: Operation)
        requires
            ram@.len() >= 1,
            ram@.len() >= word_count(ram@[0]),
        ensures
            r == decode_op(ram@),
            r.spec_instr().wf(),
    {
        let w = ram[0];
        if (w >> 8u16) & 0xccu16 == 0xccu16 {
            Operation::Breakpoint(decode_with(w & 0xffu16, ram))
        } else {
            Operation::Regular(decode_with(w, ram))
        }
    }

    /// The instruction, whatever its tag.
    pub fn instr(self) -> (r: Instruction)
        ensures
            r == self.spec_instr(),
    {
        match self {
            Operation::Regular(i) => i,
            Operation::Breakpoint(i) => i,
        }
    }

    /// Whether this operation is tagged as a breakpoint.
    pub fn is_breakpoint(&self) -> (r: bool)
        ensures
            r == (*self is Breakpoint),
    {
        match *self {
            Operation::Regular(_) => false,
            Operation::Breakpoint(_) => true,
        }
    }
}

/// An untagged word of `0x8008` or more decodes to no instruction.
pub proof fn lemma_high_word_unknown(ws: Seq<u16>)
    requires
        ws.len() >= 1,
        ws[0] >= 0x8008,
        ws[0] & 0xcc00u16 != 0xcc00u16,
    ensures
        decode_op(ws) == Operation::Regular(Instruction::_Unknown),
{
    let w = ws[0];
    assert((w >> 8u16) & 0xccu16 == 0xccu16 <==> w & 0xcc00u16 == 0xcc00u16) by (bit_vector);
}

} // verus!

verus! {

/// No operation reads more than four words.
pub proof fn lemma_word_count_bound(w: u16)
    ensures
        1 <= word_count(w) <= 4,
{
}

} // verus!
