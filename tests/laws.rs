use synacor::cpu::{RunStop, StepEvent, SynCpu};
use synacor::data::Data;
use synacor::debugger::Debugger;
use synacor::instruction::{Instruction, Operation};
use synacor::syn_int::SynInt;

fn bin(words: &[u16]) -> Vec<u8> {
    let mut out = Vec::new();
    for w in words {
        out.push((*w & 0xff) as u8);
        out.push((*w >> 8) as u8);
    }
    out
}

fn cpu_for(words: &[u16]) -> SynCpu {
    SynCpu::new(Data::from_bin(&bin(words)).unwrap())
}

#[test]
fn operand_round_trip() {
    for w in [0u16, 1, 32767, 32768, 32771, 32775] {
        assert_eq!(SynInt::from_word(w).to_word(), w);
    }
    assert_eq!(SynInt::from_word(32767), SynInt::Literal(32767));
    assert_eq!(SynInt::from_word(32770), SynInt::Register(2));
}

#[test]
fn high_words_decode_to_unknown() {
    for w in [0x8008u16, 0x8015, 0x9000, 0xffff & !0xcc00, 0xb300] {
        assert_eq!(Operation::next(&[w, 0, 0, 0]), Operation::Regular(Instruction::_Unknown));
    }
    assert_eq!(Operation::next(&[0xcc00, 0, 0, 0]), Operation::Breakpoint(Instruction::Halt));
    assert_eq!(Operation::next(&[0xff13, 65, 0, 0]),
        Operation::Breakpoint(Instruction::Out(SynInt::Literal(65))));
}

#[test]
fn arithmetic_results() {
    let mut cpu = cpu_for(&[10, 32768, 32767, 32767, 0]);
    cpu.run_for(10);
    assert_eq!(cpu.data.registers[0], 1);

    let mut cpu = cpu_for(&[10, 32769, 300, 200, 0]);
    cpu.run_for(10);
    assert_eq!(cpu.data.registers[1], (300 * 200) % 32768);

    let mut cpu = cpu_for(&[14, 32770, 0x1234, 0]);
    cpu.run_for(10);
    assert_eq!(cpu.data.registers[2], 0x1234 ^ 0x7fff);

    let mut cpu = cpu_for(&[9, 32768, 20000, 20000, 0]);
    cpu.run_for(10);
    assert_eq!(cpu.data.registers[0], 40000 - 32768);
}

#[test]
fn breakpoint_transparency() {
    let words = [1, 32768, 7, 9, 32769, 32768, 2, 19, 32769, 21, 6, 0, 0];
    let mut dbg = Debugger::new(bin(&words), Vec::new(), Vec::new()).unwrap();
    let before = dbg.cpu.data.ram.clone();
    let starts = [0usize, 3, 7, 9, 10, 12];
    for a in starts {
        assert_eq!(dbg.set_breakpoint(a), Ok(()));
    }
    for a in starts {
        assert_eq!(dbg.unset_breakpoint(a), Ok(()));
    }
    assert_eq!(dbg.cpu.data.ram, before);
}

#[test]
fn breakpoint_reentry() {
    let mut dbg = Debugger::new(bin(&[19, 65, 19, 66, 19, 67, 0]), Vec::new(), Vec::new()).unwrap();
    dbg.set_breakpoint(2).unwrap();
    let (stop, out) = dbg.cpu.run_for(100);
    assert_eq!(stop, RunStop::Breakpoint);
    assert_eq!(out, vec![65]);
    assert_eq!(dbg.cpu.pc, 2);
    assert_eq!(dbg.cpu.step(), StepEvent::Output(66));
    assert_eq!(dbg.cpu.pc, 4);
    let (stop, out) = dbg.cpu.run_for(100);
    assert_eq!(stop, RunStop::Halted);
    assert_eq!(out, vec![67]);
}

#[test]
fn restart_idempotence() {
    let words = [20, 32768, 19, 32768, 9, 32769, 32769, 1, 17, 0, 0];
    let replay: Vec<char> = "xy".chars().collect();
    let mut fresh = Debugger::new(bin(&words), replay.clone(), Vec::new()).unwrap();
    let mut used = Debugger::new(bin(&words), replay, Vec::new()).unwrap();
    used.cpu.run_for(7);
    used.set_breakpoint(4).unwrap();
    used.set_register(5, 99).unwrap();
    used.jump(2);
    used.restart();
    assert!(used.breakpoints.is_empty());
    let a = fresh.cpu.run_for(40);
    let b = used.cpu.run_for(40);
    assert_eq!(a, b);
    assert_eq!(fresh.cpu.data.registers, used.cpu.data.registers);
    assert_eq!(fresh.cpu.pc, used.cpu.pc);
}

#[test]
fn ram_wraps() {
    let mut data = Data::from_bin(&[]).unwrap();
    data.write_ram(0x8001, 4242);
    assert_eq!(data.read_ram(0x0001), 4242);
    assert_eq!(data.ram[1], 4242);

    let mut cpu = cpu_for(&[16, 32769, 77, 15, 32770, 1, 0]);
    cpu.data.registers[1] = 0x8001;
    cpu.run_for(10);
    assert_eq!(cpu.data.registers[2], 77);
}
