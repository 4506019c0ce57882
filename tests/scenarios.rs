use synacor::cpu::{RunStop, StepEvent, SynCpu};
use synacor::data::Data;
use synacor::debugger::Debugger;
use synacor::status::Status;

fn bin(words: &[u16]) -> Vec<u8> {
    let mut out = Vec::new();
    for w in words {
        out.push((*w & 0xff) as u8);
        out.push((*w >> 8) as u8);
    }
    out
}

fn cpu_for(words: &[u16]) -> SynCpu {
    SynCpu::new(Data::from_bin(&bin(words)).unwrap())
}

#[test]
fn hello_halt() {
    let mut cpu = cpu_for(&[19, 72, 19, 105, 0]);
    let (stop, out) = cpu.run_for(100);
    assert_eq!(stop, RunStop::Halted);
    let text: String = out.iter().map(|w| char::from_u32(*w as u32).unwrap()).collect();
    assert_eq!(text, "Hi");
    assert!(cpu.halted);
    assert_eq!(cpu.status, Status::NoError);
}

#[test]
fn add_wraps_modulo() {
    let mut cpu = cpu_for(&[9, 32768, 32767, 1, 0]);
    let (stop, _) = cpu.run_for(100);
    assert_eq!(stop, RunStop::Halted);
    assert_eq!(cpu.data.registers[0], 0);
}

#[test]
fn call_and_ret() {
    let mut cpu = cpu_for(&[17, 4, 0, 0, 18]);
    let (stop, _) = cpu.run_for(100);
    assert_eq!(stop, RunStop::Halted);
    assert!(cpu.halted);
    assert!(cpu.data.stack.is_empty());
    assert_eq!(cpu.pc, 3);
}

#[test]
fn pop_on_empty_stack() {
    let mut cpu = cpu_for(&[3, 32768, 0]);
    assert_eq!(cpu.step(), StepEvent::Quiet);
    assert_eq!(cpu.status, Status::PopOnEmptyStack);
    assert!(cpu.halted);
    assert_eq!(cpu.data.registers[0], 0);
}

#[test]
fn breakpoint_round_trip() {
    let words = [21, 21, 21, 1, 32768, 5, 21, 21, 21, 0];
    let mut dbg = Debugger::new(bin(&words), Vec::new(), Vec::new()).unwrap();
    let before = dbg.cpu.data.ram.clone();
    assert_eq!(dbg.set_breakpoint(0x0003), Ok(()));
    assert_eq!(dbg.cpu.data.ram[3], 0xcc01);
    assert_eq!(dbg.unset_breakpoint(0x0003), Ok(()));
    assert_eq!(dbg.cpu.data.ram, before);
    assert!(dbg.breakpoints.is_empty());
}

#[test]
fn replay_consumed_first() {
    let words = [20, 32768, 19, 32768, 0];
    let mut dbg = Debugger::new(bin(&words), "a\n".chars().collect(), Vec::new()).unwrap();
    let (stop, out) = dbg.cpu.run_for(100);
    assert_eq!(stop, RunStop::Halted);
    assert_eq!(out, vec![97]);
    assert_eq!(dbg.cpu.stdin_buf, vec!['\n']);

    let mut dbg = Debugger::new(bin(&words), Vec::new(), Vec::new()).unwrap();
    let (stop, out) = dbg.cpu.run_for(100);
    assert_eq!(stop, RunStop::NeedInput);
    assert!(out.is_empty());
    assert_eq!(dbg.cpu.pc, 0);
    dbg.cpu.provide_input('z');
    let (stop, out) = dbg.cpu.run_for(100);
    assert_eq!(stop, RunStop::Halted);
    assert_eq!(out, vec![122]);
}
