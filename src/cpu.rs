//! The CPU: one step of the interpreter over the machine data.
//!
//! Stepping never performs I/O. An `Out` hands its value back to the caller, and
//! an `In` with no pending input asks the caller for a character and changes
//! nothing; the caller then queues the character with `provide_input` and steps
//! again.
use vstd::prelude::*;
use crate::data::{Data, ram_index};
use crate::instruction::{Instruction, Operation, decode_op, lemma_word_count_bound};
use crate::status::Status;
use crate::syn_int::{SynInt, RAM_SIZE};

verus! {

/// What a step hands back to its caller.
#[derive(Debug, Clone, Copy, PartialEq, Eq, Structural)]
pub enum StepEvent {
    /// Nothing to do for the caller.
    Quiet,
    /// An `Out` emitted this word.
    Output(u16),
    /// An `In` found no pending input; the step changed nothing.
    NeedInput,
}

/// An emulator for the architecture.
#[derive(Clone)]
pub struct SynCpu {
    /// The program counter.
    pub pc: u16,
    /// Set once execution has stopped for good.
    pub halted: bool,
    /// What stopped execution, if anything did.
    pub status: Status,
    /// Registers, RAM and stack.
    pub data: Data,
    /// Pending input characters; the next one to be read is the last.
    pub stdin_buf: Vec<char>,
}

/// The mathematical state of a CPU.
pub struct CpuState {
    pub pc: u16,
    pub halted: bool,
    pub status: Status,
    pub registers: Seq<u16>,
    pub ram: Seq<u16>,
    pub stack: Seq<u16>,
    /// Pending input, the next character last.
    pub input: Seq<char>,
}

impl View for SynCpu {
    type V = CpuState;

    open spec fn view(&self) -> CpuState {
        CpuState {
            pc: self.pc,
            halted: self.halted,
            status: self.status,
            registers: self.data.registers@,
            ram: self.data.ram@,
            stack: self.data.stack@,
            input: self.stdin_buf@,
        }
    }
}

/// The four words from `addr` on, wrapping at the end of RAM.
pub open spec fn window(ram: Seq<u16>, addr: u16) -> Seq<u16> {
    Seq::new(4, |j: int| ram[ram_index(addr + j)])
}

/// The operation stored at `addr`.
pub open spec fn op_at(ram: Seq<u16>, addr: u16) -> Operation {
    decode_op(window(ram, addr))
}

/// The value an operand stands for in state `s`.
pub open spec fn operand_val(s: CpuState, x: SynInt) -> u16 {
    match x {
        SynInt::Literal(v) => v,
        SynInt::Register(r) => s.registers[r as int],
    }
}

/// The address `n` words after `pc`, wrapping at the end of RAM.
pub open spec fn next_pc(pc: u16, n: nat) -> u16 {
    ((pc + n) % (RAM_SIZE as int)) as u16
}

/// The address that a jump to `v` lands on.
pub open spec fn jump_target(v: u16) -> u16 {
    (v as int % (RAM_SIZE as int)) as u16
}

/// `s` halted on an instruction that cannot be executed.
pub open spec fn fault(s: CpuState) -> CpuState {
    CpuState { halted: true, status: Status::InstructionParseError, ..s }
}

/// `s` with its pc moved `n` words on.
pub open spec fn advance(s: CpuState, n: nat) -> CpuState {
    CpuState { pc: next_pc(s.pc, n), ..s }
}

/// Writes `v` into the register `dst` and moves on `n` words; a literal
/// destination is a fault.
pub open spec fn assign(s: CpuState, dst: SynInt, v: u16, n: nat) -> CpuState {
    match dst {
        SynInt::Register(r) => CpuState {
            registers: s.registers.update(r as int, v),
            pc: next_pc(s.pc, n),
            ..s
        },
        SynInt::Literal(_) => fault(s),
    }
}

/// The 15-bit inverse of a word.
pub open spec fn not15(v: u16) -> u16 {
    !v & 0x7fffu16
}

/// The code of a character as a word.
pub open spec fn char_word(c: char) -> u16 {
    ((c as u32) % 65536) as u16
}

/// The effect of executing instruction `i` in state `s`.
pub open spec fn exec_instr(s: CpuState, i: Instruction) -> (CpuState, StepEvent) {
    let quiet = StepEvent::Quiet;
    match i {
        Instruction::Halt => (CpuState { halted: true, ..advance(s, 1) }, quiet),
        Instruction::SetReg(d, a) => (assign(s, d, operand_val(s, a), 3), quiet),
        Instruction::Push(a) => (
            CpuState { stack: s.stack.push(operand_val(s, a)), ..advance(s, 2) },
            quiet,
        ),
        Instruction::Pop(d) => if s.stack.len() == 0 {
            (CpuState { halted: true, status: Status::PopOnEmptyStack, ..s }, quiet)
        } else if d is Literal {
            (fault(s), quiet)
        } else {
            (assign(CpuState { stack: s.stack.drop_last(), ..s }, d, s.stack.last(), 2), quiet)
        },
        Instruction::Eq(d, a, b) => (
            assign(s, d, if operand_val(s, a) == operand_val(s, b) { 1 } else { 0 }, 4),
            quiet,
        ),
        Instruction::Gt(d, a, b) => (
            assign(s, d, if operand_val(s, a) > operand_val(s, b) { 1 } else { 0 }, 4),
            quiet,
        ),
        Instruction::Jmp(d) => (CpuState { pc: jump_target(operand_val(s, d)), ..s }, quiet),
        Instruction::Jt(c, d) => if operand_val(s, c) != 0 {
            (CpuState { pc: jump_target(operand_val(s, d)), ..s }, quiet)
        } else {
            (advance(s, 3), quiet)
        },
        Instruction::Jf(c, d) => if operand_val(s, c) == 0 {
            (CpuState { pc: jump_target(operand_val(s, d)), ..s }, quiet)
        } else {
            (advance(s, 3), quiet)
        },
        Instruction::Add(d, a, b) => (
            assign(s, d, ((operand_val(s, a) + operand_val(s, b)) % 32768) as u16, 4),
            quiet,
        ),
        Instruction::Mult(d, a, b) => (
            assign(s, d, ((operand_val(s, a) * operand_val(s, b)) % 32768) as u16, 4),
            quiet,
        ),
        Instruction::Mod(d, a, b) => if operand_val(s, b) == 0 {
            (fault(s), quiet)
        } else {
            (assign(s, d, (operand_val(s, a) % operand_val(s, b)) as u16, 4), quiet)
        },
        Instruction::And(d, a, b) => (
            assign(s, d, operand_val(s, a) & operand_val(s, b), 4),
            quiet,
        ),
        Instruction::Or(d, a, b) => (assign(s, d, operand_val(s, a) | operand_val(s, b), 4), quiet),
        Instruction::Not(d, a) => (assign(s, d, not15(operand_val(s, a)), 3), quiet),
        Instruction::ReadMem(d, a) => (
            assign(s, d, s.ram[ram_index(operand_val(s, a) as int)], 3),
            quiet,
        ),
        Instruction::WriteMem(d, a) => (
            CpuState {
                ram: s.ram.update(ram_index(operand_val(s, d) as int), operand_val(s, a)),
                ..advance(s, 3)
            },
            quiet,
        ),
        Instruction::Call(d) => (
            CpuState {
                stack: s.stack.push(next_pc(s.pc, 2)),
                pc: jump_target(operand_val(s, d)),
                ..s
            },
            quiet,
        ),
        Instruction::Ret => if s.stack.len() == 0 {
            (CpuState { halted: true, ..s }, quiet)
        } else {
            (CpuState { stack: s.stack.drop_last(), pc: jump_target(s.stack.last()), ..s }, quiet)
        },
        Instruction::Out(a) => (advance(s, 2), StepEvent::Output(operand_val(s, a))),
        Instruction::In(d) => if d is Literal {
            (fault(s), quiet)
        } else if s.input.len() == 0 {
            (s, StepEvent::NeedInput)
        } else {
            (
                assign(
                    CpuState { input: s.input.drop_last(), ..s },
                    d,
                    char_word(s.input.last()),
                    2,
                ),
                quiet,
            )
        },
        Instruction::Noop => (advance(s, 1), quiet),
        Instruction::_Unknown => (fault(s), quiet),
    }
}

/// One step from state `s`: nothing once halted; else the instruction at the
/// pc is executed, whether or not it is tagged as a breakpoint.
pub open spec fn step_spec(s: CpuState) -> (CpuState, StepEvent) {
    if s.halted {
        (s, StepEvent::Quiet)
    } else {
        step_instr(s, op_at(s.ram, s.pc).spec_instr())
    }
}

/// `s` going on after an interrupt: an `Interrupted` status gives way to `NoError`.
pub open spec fn resume(s: CpuState) -> CpuState {
    if s.status == Status::Interrupted {
        CpuState { status: Status::NoError, ..s }
    } else {
        s
    }
}

/// A step that executes `i` from `s`. Executing an operation clears an
/// `Interrupted` status; waiting for input changes nothing.
pub open spec fn step_instr(s: CpuState, i: Instruction) -> (CpuState, StepEvent) {
    let (t, e) = exec_instr(resume(s), i);
    if e is NeedInput {
        (s, e)
    } else {
        (t, e)
    }
}

/// Why a run stopped.
#[derive(Debug, Clone, Copy, PartialEq, Eq, Structural)]
pub enum RunStop {
    /// The CPU has halted.
    Halted,
    /// The pc reached an operation tagged as a breakpoint.
    Breakpoint,
    /// An `In` found no pending input.
    NeedInput,
    /// The allowed number of steps was used up.
    OutOfSteps,
}

/// What one iteration of a run loop did.
#[derive(Debug, Clone, Copy, PartialEq, Eq, Structural)]
pub enum RunEvent {
    /// Nothing was executed: the CPU has halted.
    Halted,
    /// Nothing was executed: a breakpoint was reached.
    BreakpointHit,
    /// One step was taken, with this result.
    Stepped(StepEvent),
}

/// Whether a run stops before stepping from `s`; `first` exempts the first
/// operation of a run from the breakpoint check, so that a run started on a
/// breakpoint executes it.
pub open spec fn stops_before(s: CpuState, first: bool) -> bool {
    s.halted || (!first && op_at(s.ram, s.pc) is Breakpoint)
}

/// Output `o` emitted before the run `r`.
pub open spec fn after_output(
    o: Seq<u16>,
    r: (CpuState, Seq<u16>, RunStop),
) -> (CpuState, Seq<u16>, RunStop) {
    (r.0, o + r.1, r.2)
}

/// The final state, the output and the reason for stopping of a run from `s`
/// that takes at most `fuel` steps.
pub open spec fn run_spec(s: CpuState, fuel: nat, first: bool) -> (CpuState, Seq<u16>, RunStop)
    decreases fuel,
{
    if s.halted {
        (s, Seq::empty(), RunStop::Halted)
    } else if !first && op_at(s.ram, s.pc) is Breakpoint {
        (s, Seq::empty(), RunStop::Breakpoint)
    } else if fuel == 0 {
        (s, Seq::empty(), RunStop::OutOfSteps)
    } else {
        let (t, e) = step_spec(s);
        match e {
            StepEvent::NeedInput => (t, Seq::empty(), RunStop::NeedInput),
            StepEvent::Output(w) => after_output(seq![w], run_spec(t, (fuel - 1) as nat, false)),
            StepEvent::Quiet => run_spec(t, (fuel - 1) as nat, false),
        }
    }
}

/// The address of the `k`-th instruction of a listing that starts at `start`,
/// each instruction followed by the next in RAM.
pub open spec fn listing_addr(ram: Seq<u16>, start: u16, k: nat) -> u16
    decreases k,
{
    if k == 0 {
        start
    } else {
        let a = listing_addr(ram, start, (k - 1) as nat);
        next_pc(a, op_at(ram, a).spec_instr().spec_size())
    }
}

impl SynCpu {
    /// RAM has one word per address and the pc lies in RAM.
    pub open spec fn wf(&self) -> bool {
        self.data.wf() && self.pc < RAM_SIZE
    }

    /// A CPU at address 0, running, over the given data.
    pub fn new(data: Data) -> (r: SynCpu)
        ensures
            r.pc == 0,
            !r.halted,
            r.status == Status::NoError,
            r.data == data,
            r.stdin_buf@.len() == 0,
    {
        SynCpu { pc: 0, halted: false, status: Status::NoError, data, stdin_buf: Vec::new() }
    }

    /// The four words from `offset` on, wrapping at the end of RAM.
    fn window_at(&self, offset: u16) -> (r: [u16; 4])
        requires
            self.data.wf(),
        ensures
            r@ == window(self.data.ram@, offset),
    {
        let w = [
            self.data.read_ram(offset),
            self.data.read_ram(((offset as usize + 1) % RAM_SIZE) as u16),
            self.data.read_ram(((offset as usize + 2) % RAM_SIZE) as u16),
            self.data.read_ram(((offset as usize + 3) % RAM_SIZE) as u16),
        ];
        assert(w@ =~= window(self.data.ram@, offset));
        w
    }

    /// The operation stored at `offset`.
    pub fn peek_op_at(&self, offset: u16) -> (r: Operation)
        requires
            self.data.wf(),
        ensures
            r == op_at(self.data.ram@, offset),
            r.spec_instr().wf(),
    {
        let w = self.window_at(offset);
        proof {
            lemma_word_count_bound(w@[0]);
        }
        Operation::next(&w)
    }

    /// The operation at the pc.
    pub fn peek_op(&self) -> (r: Operation)
        requires
            self.data.wf(),
        ensures
            r == op_at(self.data.ram@, self.pc),
            r.spec_instr().wf(),
    {
        self.peek_op_at(self.pc)
    }

    /// The instruction stored at `offset`, whatever its tag.
    pub fn instruction_at(&self, offset: u16) -> (r: Instruction)
        requires
            self.data.wf(),
        ensures
            r == op_at(self.data.ram@, offset).spec_instr(),
    {
        self.peek_op_at(offset).instr()
    }

    /// The instruction at the pc, whatever its tag.
    pub fn next_instruction(&self) -> (r: Instruction)
        requires
            self.data.wf(),
        ensures
            r == op_at(self.data.ram@, self.pc).spec_instr(),
    {
        self.instruction_at(self.pc)
    }

    /// Halts on an instruction that cannot be executed.
    fn fault(&mut self)
        ensures
            final(self)@ == fault(old(self)@),
            final(self).data == old(self).data,
            final(self).pc == old(self).pc,
    {
        self.halted = true;
        self.status = Status::InstructionParseError;
    }

    /// Moves the pc `n` words on.
    fn advance(&mut self, n: u16)
        requires
            old(self).pc < RAM_SIZE,
        ensures
            final(self)@ == advance(old(self)@, n as nat),
            final(self).data == old(self).data,
            final(self).pc < RAM_SIZE,
    {
        self.pc = ((self.pc as usize + n as usize) % RAM_SIZE) as u16;
    }

    /// Writes `v` into the register `dst` and moves on `n` words, or faults on a
    /// literal destination.
    fn assign(&mut self, dst: SynInt, v: u16, n: u16)
        requires
            old(self).wf(),
            dst.valid(),
        ensures
            final(self)@ == assign(old(self)@, dst, v, n as nat),
            final(self).wf(),
    {
        if self.data.write(dst, v) {
            self.advance(n);
        } else {
            self.fault();
        }
    }

    /// Executes the operation at the pc, if the CPU has not halted. A breakpoint
    /// tag does not stop it: the tagged instruction is executed. Executing an
    /// operation clears an `Interrupted` status.
    pub fn step(&mut self) -> (r: StepEvent)
        requires
            old(self).wf(),
        ensures
            final(self).wf(),
            (final(self)@, r) == step_spec(old(self)@),
    {
        if self.halted {
            return StepEvent::Quiet;
        }
        let instr = self.peek_op().instr();
        let was = self.status;
        if let Status::Interrupted = self.status {
            self.status = Status::NoError;
        }
        match instr {
            Instruction::Halt => {
                self.advance(1);
                self.halted = true;
            },
            Instruction::SetReg(d, a) => {
                let v = self.data.val(a);
                self.assign(d, v, 3);
            },
            Instruction::Push(a) => {
                let v = self.data.val(a);
                self.data.push(v);
                self.advance(2);
            },
            Instruction::Pop(d) => {
                if self.data.is_stack_empty() {
                    self.halted = true;
                    self.status = Status::PopOnEmptyStack;
                } else if let SynInt::Literal(_) = d {
                    self.fault();
                } else {
                    let v = self.data.pop();
                    self.assign(d, v, 2);
                }
            },
            Instruction::Eq(d, a, b) => {
                let v: u16 = if self.data.val(a) == self.data.val(b) {
                    1
                } else {
                    0
                };
                self.assign(d, v, 4);
            },
            Instruction::Gt(d, a, b) => {
                let v: u16 = if self.data.val(a) > self.data.val(b) {
                    1
                } else {
                    0
                };
                self.assign(d, v, 4);
            },
            Instruction::Jmp(d) => {
                self.pc = self.data.val(d) % (RAM_SIZE as u16);
            },
            Instruction::Jt(c, d) => {
                if self.data.val(c) != 0 {
                    self.pc = self.data.val(d) % (RAM_SIZE as u16);
                } else {
                    self.advance(3);
                }
            },
            Instruction::Jf(c, d) => {
                if self.data.val(c) == 0 {
                    self.pc = self.data.val(d) % (RAM_SIZE as u16);
                } else {
                    self.advance(3);
                }
            },
            Instruction::Add(d, a, b) => {
                let v = ((self.data.val(a) as u32 + self.data.val(b) as u32) % 32768) as u16;
                self.assign(d, v, 4);
            },
            Instruction::Mult(d, a, b) => {
                let x = self.data.val(a) as u32;
                let y = self.data.val(b) as u32;
                proof {
                    assert(x * y <= 65535 * 65535) by (nonlinear_arith)
                        requires
                            x <= 65535,
                            y <= 65535,
                    ;
                }
                let v = ((x * y) % 32768) as u16;
                self.assign(d, v, 4);
            },
            Instruction::Mod(d, a, b) => {
                let y = self.data.val(b);
                if y == 0 {
                    self.fault();
                } else {
                    let v = self.data.val(a) % y;
                    self.assign(d, v, 4);
                }
            },
            Instruction::And(d, a, b) => {
                let v = self.data.val(a) & self.data.val(b);
                self.assign(d, v, 4);
            },
            Instruction::Or(d, a, b) => {
                let v = self.data.val(a) | self.data.val(b);
                self.assign(d, v, 4);
            },
            Instruction::Not(d, a) => {
                let v = !self.data.val(a) & 0x7fffu16;
                self.assign(d, v, 3);
            },
            Instruction::ReadMem(d, a) => {
                let addr = self.data.val(a);
                let v = self.data.read_ram(addr);
                self.assign(d, v, 3);
            },
            Instruction::WriteMem(d, a) => {
                let addr = self.data.val(d);
                let v = self.data.val(a);
                self.data.write_ram(addr, v);
                self.advance(3);
            },
            Instruction::Call(d) => {
                let ret = ((self.pc as usize + 2) % RAM_SIZE) as u16;
                let t = self.data.val(d);
                self.data.push(ret);
                self.pc = t % (RAM_SIZE as u16);
            },
            Instruction::Ret => {
                if self.data.is_stack_empty() {
                    self.halted = true;
                } else {
                    let v = self.data.pop();
                    self.pc = v % (RAM_SIZE as u16);
                }
            },
            Instruction::Out(a) => {
                let v = self.data.val(a);
                self.advance(2);
                return StepEvent::Output(v);
            },
            Instruction::In(d) => {
                if let SynInt::Literal(_) = d {
                    self.fault();
                } else if self.stdin_buf.len() == 0 {
                    self.status = was;
                    return StepEvent::NeedInput;
                } else {
                    let c = self.stdin_buf.pop().unwrap();
                    let v = ((c as u32) % 65536) as u16;
                    self.assign(d, v, 2);
                }
            },
            Instruction::Noop => {
                self.advance(1);
            },
            Instruction::_Unknown => {
                self.fault();
            },
        }
        StepEvent::Quiet
    }

    /// One iteration of a run loop: stops on a halted CPU, and on a breakpoint
    /// unless `first` is set; otherwise takes one step.
    pub fn run_step(&mut self, first: bool) -> (r: RunEvent)
        requires
            old(self).wf(),
        ensures
            final(self).wf(),
            old(self).halted ==> r == RunEvent::Halted && final(self)@ == old(self)@,
            !old(self).halted && stops_before(old(self)@, first) ==> r == RunEvent::BreakpointHit
                && final(self)@ == old(self)@,
            !stops_before(old(self)@, first) ==> (final(self)@, r) == (
                step_spec(old(self)@).0,
                RunEvent::Stepped(step_spec(old(self)@).1),
            ),
    {
        if self.halted {
            return RunEvent::Halted;
        }
        if !first && self.peek_op().is_breakpoint() {
            return RunEvent::BreakpointHit;
        }
        RunEvent::Stepped(self.step())
    }

    /// Runs at most `max_steps` steps, until the CPU halts, reaches a
    /// breakpoint after its first step, or needs input. Returns why it stopped
    /// and the words that `Out` emitted, in order.
    pub fn run_for(&mut self, max_steps: usize) -> (r: (RunStop, Vec<u16>))
        requires
            old(self).wf(),
        ensures
            final(self).wf(),
            (final(self)@, r.1@, r.0) == run_spec(old(self)@, max_steps as nat, true),
    {
        let ghost s0 = self@;
        let mut out: Vec<u16> = Vec::new();
        let mut first = true;
        let mut fuel = max_steps;
        loop
            invariant
                self.wf(),
                s0 == old(self)@,
                run_spec(s0, max_steps as nat, true) == after_output(
                    out@,
                    run_spec(self@, fuel as nat, first),
                ),
            decreases fuel,
        {
            if self.halted {
                assert(out@ + Seq::<u16>::empty() =~= out@);
                return (RunStop::Halted, out);
            }
            if !first && self.peek_op().is_breakpoint() {
                assert(out@ + Seq::<u16>::empty() =~= out@);
                return (RunStop::Breakpoint, out);
            }
            if fuel == 0 {
                assert(out@ + Seq::<u16>::empty() =~= out@);
                return (RunStop::OutOfSteps, out);
            }
            let ghost before = out@;
            match self.step() {
                StepEvent::NeedInput => {
                    assert(out@ + Seq::<u16>::empty() =~= out@);
                    return (RunStop::NeedInput, out);
                },
                StepEvent::Output(w) => {
                    out.push(w);
                    assert(before + (seq![w] + run_spec(self@, (fuel - 1) as nat, false).1) =~= out@
                        + run_spec(self@, (fuel - 1) as nat, false).1);
                },
                StepEvent::Quiet => {},
            }
            fuel -= 1;
            first = false;
        }
    }

    /// The first `n` operations from `start` on, each with its address; each
    /// operation is followed by the one after it in RAM.
    pub fn disassemble(&self, n: usize, start: u16) -> (r: Vec<(u16, Operation)>)
        requires
            self.data.wf(),
            start < RAM_SIZE,
        ensures
            r@.len() == n,
            forall|k: int|
                0 <= k < n ==> #[trigger] r@[k] == (
                    listing_addr(self.data.ram@, start, k as nat),
                    op_at(self.data.ram@, listing_addr(self.data.ram@, start, k as nat)),
                ),
    {
        let mut r: Vec<(u16, Operation)> = Vec::new();
        let mut pc = start;
        let mut k: usize = 0;
        while k < n
            invariant
                self.data.wf(),
                k <= n,
                r@.len() == k,
                pc < RAM_SIZE,
                pc == listing_addr(self.data.ram@, start, k as nat),
                forall|j: int|
                    0 <= j < k ==> #[trigger] r@[j] == (
                        listing_addr(self.data.ram@, start, j as nat),
                        op_at(self.data.ram@, listing_addr(self.data.ram@, start, j as nat)),
                    ),
            decreases n - k,
        {
            let op = self.peek_op_at(pc);
            r.push((pc, op));
            let size = op.instr().size();
            pc = ((pc as usize + size as usize) % RAM_SIZE) as u16;
            k += 1;
        }
        r
    }

    /// Queues one input character, to be read before any other pending one.
    pub fn provide_input(&mut self, c: char)
        ensures
            final(self)@ == (CpuState { input: old(self)@.input.push(c), ..old(self)@ }),
    {
        self.stdin_buf.push(c);
    }

    /// Records that input could not be read: execution halts.
    pub fn input_failed(&mut self)
        ensures
            final(self)@ == (CpuState { halted: true, status: Status::StdinError, ..old(self)@ }),
    {
        self.halted = true;
        self.status = Status::StdinError;
    }

    /// Records that output could not be written: execution halts.
    pub fn output_failed(&mut self)
        ensures
            final(self)@ == (CpuState { halted: true, status: Status::StdoutError, ..old(self)@ }),
    {
        self.halted = true;
        self.status = Status::StdoutError;
    }

    /// Records that execution was stopped from outside; it may go on later.
    pub fn interrupt(&mut self)
        ensures
            final(self)@ == (CpuState { status: Status::Interrupted, ..old(self)@ }),
    {
        self.status = Status::Interrupted;
    }
}

/// `Add` and `Mult` write the sum and the product modulo 32768, and `Not`
/// writes the operand with its fifteen low bits flipped.
pub proof fn lemma_arithmetic(s: CpuState, r: usize, a: SynInt, b: SynInt)
    requires
        s.registers.len() == 8,
        r < 8,
    ensures
        exec_instr(s, Instruction::Add(SynInt::Register(r), a, b)).0.registers[r as int] == (
        operand_val(s, a) + operand_val(s, b)) % 32768,
        exec_instr(s, Instruction::Mult(SynInt::Register(r), a, b)).0.registers[r as int] == (
        operand_val(s, a) * operand_val(s, b)) % 32768,
        operand_val(s, a) < 32768 ==> exec_instr(
            s,
            Instruction::Not(SynInt::Register(r), a),
        ).0.registers[r as int] == operand_val(s, a) ^ 0x7fffu16,
{
    let v = operand_val(s, a);
    assert(v < 32768 ==> !v & 0x7fffu16 == v ^ 0x7fffu16) by (bit_vector);
}

/// Executing an instruction keeps RAM at one word per address and the pc in RAM.
proof fn lemma_exec_keeps_shape(s: CpuState, i: Instruction)
    requires
        s.ram.len() == RAM_SIZE,
        s.pc < RAM_SIZE,
    ensures
        exec_instr(s, i).0.ram.len() == RAM_SIZE,
        exec_instr(s, i).0.pc < RAM_SIZE,
{
}

/// Executing an instruction from a state that is not `Interrupted` leaves it
/// not `Interrupted`.
proof fn lemma_exec_keeps_uninterrupted(s: CpuState, i: Instruction)
    requires
        s.status != Status::Interrupted,
    ensures
        exec_instr(s, i).0.status != Status::Interrupted,
{
}

/// A step keeps RAM at one word per address and the pc in RAM.
proof fn lemma_step_keeps_shape(s: CpuState)
    requires
        s.ram.len() == RAM_SIZE,
        s.pc < RAM_SIZE,
    ensures
        step_spec(s).0.ram.len() == RAM_SIZE,
        step_spec(s).0.pc < RAM_SIZE,
{
    if !s.halted {
        lemma_exec_keeps_shape(resume(s), op_at(s.ram, s.pc).spec_instr());
    }
}

/// A step that runs an operation leaves no `Interrupted` status behind.
pub proof fn lemma_step_clears_interrupt(s: CpuState)
    requires
        step_spec(s).1 != StepEvent::NeedInput,
        !s.halted,
    ensures
        step_spec(s).0.status != Status::Interrupted,
{
    lemma_exec_keeps_uninterrupted(resume(s), op_at(s.ram, s.pc).spec_instr());
}

/// A run that stops at a breakpoint stops on an operation tagged as one, and
/// has not halted. The next step executes the tagged instruction once: the
/// instruction that the word decodes to with its tag cleared, and it leaves
/// no `Interrupted` status behind.
pub proof fn lemma_breakpoint_reentry(s: CpuState, fuel: nat, first: bool)
    requires
        s.ram.len() == RAM_SIZE,
        s.pc < RAM_SIZE,
        run_spec(s, fuel, first).2 == RunStop::Breakpoint,
    ensures
        ({
            let t = run_spec(s, fuel, first).0;
            let i = op_at(t.ram, t.pc).spec_instr();
            &&& !t.halted
            &&& op_at(t.ram, t.pc) is Breakpoint
            &&& op_at(t.ram.update(t.pc as int, t.ram[t.pc as int] & 0xffu16), t.pc)
                == Operation::Regular(i)
            &&& step_spec(t) == step_instr(t, i)
            &&& step_spec(t).1 != StepEvent::NeedInput ==> step_spec(t).0.status
                != Status::Interrupted
        }),
    decreases fuel,
{
    if !s.halted && !(!first && op_at(s.ram, s.pc) is Breakpoint) && fuel > 0 {
        let (t, e) = step_spec(s);
        lemma_step_keeps_shape(s);
        lemma_breakpoint_reentry(t, (fuel - 1) as nat, false);
    } else {
        let t = s;
        let w = t.ram[t.pc as int];
        let u = t.ram.update(t.pc as int, w & 0xffu16);
        assert(window(u, t.pc) =~= window(t.ram, t.pc).update(0, w & 0xffu16));
        assert((w >> 8u16) & 0xccu16 == 0xccu16 ==> ((w & 0xffu16) >> 8u16) & 0xccu16 != 0xccu16
            && (w & 0xffu16) & 0xffu16 == w & 0xffu16) by (bit_vector);
        assert(window(u, t.pc).subrange(1, 4) =~= window(t.ram, t.pc).subrange(1, 4));
        if !t.halted && step_spec(t).1 != StepEvent::NeedInput {
            lemma_step_clears_interrupt(t);
        }
    }
}

} // verus!
