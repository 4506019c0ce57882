use synacor::command::{parse_decimal, parse_hex, Command};
use synacor::cpu::{RunEvent, RunStop, StepEvent, SynCpu};
use synacor::data::{Data, LoadError};
use synacor::debugger::{BadRegister, BreakpointError, Debugger};
use synacor::injection::Injection;
use synacor::instruction::{Instruction, Operation};
use synacor::status::Status;
use synacor::syn_int::{is_reg, syn_int_str, syn_int_str_hex, SynInt};

fn bin(words: &[u16]) -> Vec<u8> {
    let mut out = Vec::new();
    for w in words {
        out.push((*w & 0xff) as u8);
        out.push((*w >> 8) as u8);
    }
    out
}

fn cpu_for(words: &[u16]) -> SynCpu {
    SynCpu::new(Data::from_bin(&bin(words)).unwrap())
}

#[test]
fn load_little_endian_and_zero_fill() {
    let data = Data::from_bin(&[0x34, 0x12, 0xff, 0x00]).unwrap();
    assert_eq!(data.ram.len(), 32768);
    assert_eq!(data.ram[0], 0x1234);
    assert_eq!(data.ram[1], 0x00ff);
    assert_eq!(data.ram[2], 0);
    assert_eq!(data.registers, [0; 8]);
    assert!(data.stack.is_empty());
}

#[test]
fn load_errors() {
    assert!(matches!(Data::from_bin(&[1, 2, 3]), Err(LoadError::OddLength)));
    let big = vec![0u8; 2 * 32768 + 2];
    assert!(matches!(Data::from_bin(&big), Err(LoadError::TooLarge)));
    let full = vec![1u8; 2 * 32768];
    assert_eq!(Data::from_bin(&full).unwrap().ram[32767], 0x0101);
    assert!(matches!(Debugger::new(vec![1], Vec::new(), Vec::new()), Err(LoadError::OddLength)));
}

#[test]
fn dump_round_trips_through_load() {
    let bytes = bin(&[19, 65, 0, 0xbeef]);
    let data = Data::from_bin(&bytes).unwrap();
    let out = data.to_bin();
    assert_eq!(out.len(), 2 * 32768);
    assert_eq!(&out[..8], &bytes[..]);
    assert_eq!(out[7], 0xbe);
}

#[test]
fn stack_operations() {
    let mut data = Data::from_bin(&[]).unwrap();
    assert!(data.is_stack_empty());
    data.push(5);
    data.push(9);
    assert!(!data.is_stack_empty());
    assert_eq!(data.pop(), 9);
    assert_eq!(data.pop(), 5);
    assert!(data.is_stack_empty());
}

#[test]
fn operand_values_and_writes() {
    let mut data = Data::from_bin(&[]).unwrap();
    assert!(data.write(SynInt::Register(3), 17));
    assert_eq!(data.val(SynInt::Register(3)), 17);
    assert_eq!(data.val(SynInt::Literal(12)), 12);
    assert!(!data.write(SynInt::Literal(3), 17));
    assert_eq!(data.registers[3], 17);
}

#[test]
fn ram_slice_stops_at_end() {
    let data = Data::from_bin(&bin(&[1, 2, 3, 4])).unwrap();
    assert_eq!(data.ram_slice(1, 2), vec![2, 3]);
    assert_eq!(data.ram_slice(32766, 8), vec![0, 0]);
    assert!(data.ram_slice(40000, 8).is_empty());
}

#[test]
fn decode_every_shape() {
    assert_eq!(Instruction::next(&[14, 32769, 5]), Instruction::Not(SynInt::Register(1), SynInt::Literal(5)));
    assert_eq!(Instruction::next(&[1, 32768, 32775]), Instruction::SetReg(SynInt::Register(0), SynInt::Register(7)));
    assert_eq!(Instruction::next(&[4, 32768, 1, 2]),
        Instruction::Eq(SynInt::Register(0), SynInt::Literal(1), SynInt::Literal(2)));
    assert_eq!(Instruction::next(&[18]), Instruction::Ret);
    assert_eq!(Instruction::next(&[22]), Instruction::_Unknown);
    assert_eq!(Instruction::next(&[2, 32776]), Instruction::_Unknown);
    assert_eq!(Instruction::next(&[0xcc00]), Instruction::_Unknown);
    assert_eq!(Instruction::next(&[21]).size(), 1);
    assert_eq!(Instruction::next(&[19, 1]).size(), 2);
    assert_eq!(Instruction::next(&[7, 1, 2]).size(), 3);
    assert_eq!(Instruction::next(&[9, 32768, 1, 2]).size(), 4);
    let op = Operation::next(&[0xcc02, 7, 0, 0]);
    assert!(op.is_breakpoint());
    assert_eq!(op.instr(), Instruction::Push(SynInt::Literal(7)));
    assert!(!Operation::next(&[2, 7]).is_breakpoint());
}

#[test]
fn faults_halt_with_parse_error() {
    for words in [
        vec![1u16, 5, 6, 0],
        vec![11, 32768, 5, 0, 0],
        vec![22, 0],
        vec![20, 3, 0],
        vec![3, 3, 0],
    ] {
        let mut cpu = cpu_for(&words);
        cpu.data.stack.push(1);
        cpu.step();
        assert!(cpu.halted);
        assert_eq!(cpu.status, Status::InstructionParseError);
        assert_eq!(cpu.pc, 0);
    }
}

#[test]
fn control_flow() {
    let mut cpu = cpu_for(&[7, 32768, 10, 8, 32768, 12]);
    cpu.step();
    assert_eq!(cpu.pc, 3);
    cpu.step();
    assert_eq!(cpu.pc, 12);
    let mut cpu = cpu_for(&[6, 32768]);
    cpu.data.registers[0] = 0x8005;
    cpu.step();
    assert_eq!(cpu.pc, 5);
    let mut cpu = cpu_for(&[2, 41, 3, 32770, 5, 32771, 41, 32770, 12, 32772, 6, 3, 13, 32773, 6, 3, 0]);
    let (stop, _) = cpu.run_for(100);
    assert_eq!(stop, RunStop::Halted);
    assert_eq!(cpu.data.registers[2], 41);
    assert_eq!(cpu.data.registers[3], 0);
    assert_eq!(cpu.data.registers[4], 2);
    assert_eq!(cpu.data.registers[5], 7);
}

#[test]
fn ret_on_empty_stack_halts_cleanly() {
    let mut cpu = cpu_for(&[18]);
    cpu.step();
    assert!(cpu.halted);
    assert_eq!(cpu.status, Status::NoError);
    assert_eq!(cpu.step(), StepEvent::Quiet);
}

#[test]
fn input_and_status_changes() {
    let mut cpu = cpu_for(&[20, 32768, 0]);
    assert_eq!(cpu.step(), StepEvent::NeedInput);
    cpu.provide_input('\u{1F600}');
    cpu.step();
    assert_eq!(cpu.data.registers[0], (0x1F600u32 % 65536) as u16);
    let mut cpu = cpu_for(&[20, 32768, 0]);
    cpu.input_failed();
    assert!(cpu.halted);
    assert_eq!(cpu.status, Status::StdinError);
    cpu.output_failed();
    assert_eq!(cpu.status, Status::StdoutError);
    let mut cpu = cpu_for(&[21]);
    cpu.interrupt();
    assert_eq!(cpu.status, Status::Interrupted);
    assert!(!cpu.halted);
    assert_eq!(Status::default(), Status::NoError);
    assert_eq!(Status::PopOnEmptyStack.description(), "Pop on empty stack");
    assert_eq!(Status::Halted.description(), "Halted");
}

#[test]
fn run_step_decisions() {
    let mut dbg = Debugger::new(bin(&[19, 65, 0]), Vec::new(), Vec::new()).unwrap();
    dbg.set_breakpoint(0).unwrap();
    assert_eq!(dbg.cpu.run_step(false), RunEvent::BreakpointHit);
    assert_eq!(dbg.cpu.run_step(true), RunEvent::Stepped(StepEvent::Output(65)));
    assert_eq!(dbg.cpu.run_step(false), RunEvent::Stepped(StepEvent::Quiet));
    assert_eq!(dbg.cpu.run_step(false), RunEvent::Halted);
    let mut cpu = cpu_for(&[21, 21, 6, 0]);
    assert_eq!(cpu.run_for(5).0, RunStop::OutOfSteps);
}

#[test]
fn peeking_and_listing() {
    let cpu = cpu_for(&[9, 32768, 1, 2, 19, 65, 0]);
    assert_eq!(cpu.peek_op(), Operation::Regular(cpu.next_instruction()));
    assert_eq!(cpu.instruction_at(4), Instruction::Out(SynInt::Literal(65)));
    assert_eq!(cpu.peek_op_at(6), Operation::Regular(Instruction::Halt));
    let listing = cpu.disassemble(3, 0);
    let addrs: Vec<u16> = listing.iter().map(|(a, _)| *a).collect();
    assert_eq!(addrs, vec![0, 4, 6]);
    assert_eq!(listing[2].1, Operation::Regular(Instruction::Halt));
    let mut cpu = cpu_for(&[]);
    cpu.data.ram[32767] = 19;
    cpu.data.ram[0] = 88;
    assert_eq!(cpu.instruction_at(32767), Instruction::Out(SynInt::Literal(88)));
    assert_eq!(cpu.disassemble(2, 32767)[1].0, 1);
}

#[test]
fn injections_apply_in_order_and_wrap() {
    let inj = vec![
        Injection::new(2, vec![7, 8, 9]),
        Injection::new(3, vec![5]),
        Injection::new(32767, vec![1, 2]),
    ];
    let dbg = Debugger::new(bin(&[21, 21, 21, 21, 21, 21]), Vec::new(), inj).unwrap();
    assert_eq!(&dbg.cpu.data.ram[..6], &[2, 21, 7, 5, 9, 21]);
    assert_eq!(dbg.cpu.data.ram[32767], 1);
    let mut data = Data::from_bin(&[]).unwrap();
    Injection::new(10, vec![4]).inject(&mut data);
    assert_eq!(data.ram[10], 4);
}

#[test]
fn restart_restores_injections_and_replay() {
    let inj = vec![Injection::new(1, vec![66])];
    let mut dbg = Debugger::new(bin(&[19, 65, 0]), vec!['q'], inj).unwrap();
    dbg.cpu.run_for(10);
    dbg.cpu.stdin_buf.clear();
    dbg.restart();
    assert_eq!(dbg.cpu.data.ram[1], 66);
    assert_eq!(dbg.cpu.stdin_buf, vec!['q']);
    assert_eq!(dbg.cpu.pc, 0);
    assert!(!dbg.cpu.halted);
}

#[test]
fn breakpoint_errors() {
    let mut dbg = Debugger::new(bin(&[19, 200, 0]), Vec::new(), Vec::new()).unwrap();
    assert_eq!(dbg.set_breakpoint(1), Err(BreakpointError::NotAnInstruction));
    assert_eq!(dbg.set_breakpoint(40000), Err(BreakpointError::NotAnInstruction));
    assert_eq!(dbg.unset_breakpoint(0), Err(BreakpointError::NotABreakpoint));
    assert_eq!(dbg.cpu.data.ram[1], 200);
    assert!(dbg.breakpoints.is_empty());
}

#[test]
fn register_and_jump_commands() {
    let mut dbg = Debugger::new(bin(&[0]), Vec::new(), Vec::new()).unwrap();
    assert_eq!(dbg.set_register(7, 1234), Ok(()));
    assert_eq!(dbg.cpu.data.registers[7], 1234);
    assert_eq!(dbg.set_register(8, 1), Err(BadRegister));
    dbg.jump(0x8010);
    assert_eq!(dbg.cpu.pc, 0x10);
}

#[test]
fn command_words() {
    assert_eq!(Command::from_word("q"), Command::Quit);
    assert_eq!(Command::from_word("quit"), Command::Quit);
    assert_eq!(Command::from_word("?"), Command::Help);
    assert_eq!(Command::from_word("s"), Command::Step);
    assert_eq!(Command::from_word("r"), Command::Registers);
    assert_eq!(Command::from_word("c"), Command::Run);
    assert_eq!(Command::from_word("bp"), Command::Breakpoint);
    assert_eq!(Command::from_word("memory"), Command::Memory);
    assert_eq!(Command::from_word("restart"), Command::Restart);
    assert_eq!(Command::from_word("l"), Command::Disassemble);
    assert_eq!(Command::from_word("dump"), Command::DumpMemory);
    assert_eq!(Command::from_word("set"), Command::SetRegister);
    assert_eq!(Command::from_word("ps"), Command::PrintStack);
    assert_eq!(Command::from_word("jump"), Command::Jump);
    assert_eq!(Command::from_word("runs"), Command::Unknown);
    assert_eq!(Command::from_word(""), Command::Unknown);
    let c: Command = "breakpoint".into();
    assert_eq!(c, Command::Breakpoint);
}

#[test]
fn number_arguments() {
    assert_eq!(parse_decimal("42", 100), Some(42));
    assert_eq!(parse_decimal("101", 100), None);
    assert_eq!(parse_decimal("", 100), None);
    assert_eq!(parse_decimal("4a", 100), None);
    assert_eq!(parse_decimal("65535", 65535), Some(65535));
    assert_eq!(parse_decimal("18446744073709551616", u64::MAX), None);
    assert_eq!(parse_hex("0x1f", 0xffff), Some(31));
    assert_eq!(parse_hex("1F", 0xffff), Some(31));
    assert_eq!(parse_hex("0x", 0xffff), None);
    assert_eq!(parse_hex("10000", 0xffff), None);
    assert_eq!(parse_hex("0xg", 0xffff), None);
}

#[test]
fn operand_text() {
    assert!(is_reg(32768));
    assert!(!is_reg(32767));
    assert_eq!(syn_int_str(12345), "12345");
    assert_eq!(syn_int_str(0), "0");
    assert_eq!(syn_int_str(32770), "r2");
    assert_eq!(syn_int_str_hex(0x1a), "0x001a");
    assert_eq!(syn_int_str_hex(0x7fff), "0x7fff");
    assert_eq!(syn_int_str_hex(32775), "r7");
}

#[test]
fn pop_into_literal_on_empty_stack_reports_empty_stack() {
    let mut cpu = cpu_for(&[3, 3, 0]);
    cpu.step();
    assert!(cpu.halted);
    assert_eq!(cpu.status, Status::PopOnEmptyStack);
    assert_eq!(cpu.data.registers, [0; 8]);
}

#[test]
fn interrupt_clears_when_execution_goes_on() {
    let mut cpu = cpu_for(&[20, 32768, 21, 0]);
    cpu.interrupt();
    assert_eq!(cpu.step(), StepEvent::NeedInput);
    assert_eq!(cpu.status, Status::Interrupted);
    cpu.provide_input('k');
    assert_eq!(cpu.step(), StepEvent::Quiet);
    assert_eq!(cpu.status, Status::NoError);
    assert_eq!(cpu.data.registers[0], 107);
    cpu.interrupt();
    let (stop, _) = cpu.run_for(10);
    assert_eq!(stop, RunStop::Halted);
    assert_eq!(cpu.status, Status::NoError);
}
