//! The debugger: owns a CPU, restarts it, and manages breakpoints.
use vstd::prelude::*;
use std::collections::HashSet;
use crate::cpu::{CpuState, SynCpu, run_spec};
use crate::data::{Data, LoadError, loaded_ram, loadable};
use crate::injection::{Injection, apply_injections};
use crate::instruction::MAX_OPCODE;
use crate::status::Status;
use crate::syn_int::RAM_SIZE;

verus! {

broadcast use vstd::std_specs::hash::group_hash_axioms;

/// Why a breakpoint could not be set or removed.
#[derive(Debug, Clone, Copy, PartialEq, Eq, Structural)]
pub enum BreakpointError {
    /// The address lies outside RAM or its low byte is no opcode.
    NotAnInstruction,
    /// No breakpoint is registered at the address.
    NotABreakpoint,
}

/// A register number outside `0..8`.
#[derive(Debug, Clone, Copy, PartialEq, Eq, Structural)]
pub struct BadRegister;

/// `s` in reverse order.
pub open spec fn reversed(s: Seq<char>) -> Seq<char> {
    Seq::new(s.len(), |k: int| s[s.len() - 1 - k])
}

/// RAM as loaded from binary `b` with the injections `injs` applied.
pub open spec fn initial_ram(b: Seq<u8>, injs: Seq<Injection>) -> Seq<u16> {
    apply_injections(loaded_ram(b), injs)
}

/// The state of a CPU freshly loaded from binary `b`, with the injections
/// `injs` applied and the replay text `replay` pending as input.
pub open spec fn initial_state(b: Seq<u8>, replay: Seq<char>, injs: Seq<Injection>) -> CpuState {
    CpuState {
        pc: 0,
        halted: false,
        status: Status::NoError,
        registers: seq![0u16; 8],
        ram: initial_ram(b, injs),
        stack: Seq::empty(),
        input: reversed(replay),
    }
}

/// A word with the breakpoint tag in its upper byte.
pub open spec fn tag(w: u16) -> u16 {
    w | 0xcc00u16
}

/// A word with its upper byte cleared.
pub open spec fn untag(w: u16) -> u16 {
    w & 0x00ffu16
}

/// Whether a breakpoint may be set at `addr`: it lies in RAM and the low byte
/// of its word is an opcode.
pub open spec fn can_break_at(ram: Seq<u16>, addr: int) -> bool {
    0 <= addr < ram.len() && ram[addr] & 0xffu16 <= MAX_OPCODE
}

/// RAM and breakpoint set after setting a breakpoint at `addr`.
pub open spec fn set_spec(ram: Seq<u16>, bps: Set<usize>, addr: usize) -> (Seq<u16>, Set<usize>) {
    if can_break_at(ram, addr as int) {
        (ram.update(addr as int, tag(ram[addr as int])), bps.insert(addr))
    } else {
        (ram, bps)
    }
}

/// RAM and breakpoint set after removing the breakpoint at `addr`.
pub open spec fn unset_spec(ram: Seq<u16>, bps: Set<usize>, addr: usize) -> (Seq<u16>, Set<usize>) {
    if bps.contains(addr) {
        (ram.update(addr as int, untag(ram[addr as int])), bps.remove(addr))
    } else {
        (ram, bps)
    }
}

/// The characters of `v` in reverse order.
fn reverse_chars(v: &Vec<char>) -> (r: Vec<char>)
    ensures
        r@ == reversed(v@),
{
    let mut r: Vec<char> = Vec::new();
    let mut i: usize = v.len();
    while i > 0
        invariant
            i <= v@.len(),
            r@.len() == v@.len() - i,
            forall|k: int| 0 <= k < r@.len() ==> r@[k] == v@[v@.len() - 1 - k],
        decreases i,
    {
        i -= 1;
        r.push(v[i]);
    }
    assert(r@ =~= reversed(v@));
    r
}

/// RAM, registers and stack for binary `binary` with the injections applied.
fn load(binary: &[u8], injections: &Vec<Injection>) -> (r: Result<Data, LoadError>)
    ensures
        r is Ok <==> loadable(binary@),
        !loadable(binary@) ==> r == (if binary@.len() % 2 != 0 {
            Err::<Data, LoadError>(LoadError::OddLength)
        } else {
            Err::<Data, LoadError>(LoadError::TooLarge)
        }),
        r matches Ok(d) ==> {
            &&& d.wf()
            &&& d.ram@ == initial_ram(binary@, injections@)
            &&& d.registers@ == seq![0u16; 8]
            &&& d.stack@.len() == 0
        },
{
    let mut data = match Data::from_bin(binary) {
        Ok(d) => d,
        Err(e) => {
            return Err(e);
        },
    };
    let mut i: usize = 0;
    while i < injections.len()
        invariant
            i <= injections@.len(),
            data.wf(),
            data.ram@ == apply_injections(loaded_ram(binary@), injections@.take(i as int)),
            data.registers@ == seq![0u16; 8],
            data.stack@.len() == 0,
        decreases injections@.len() - i,
    {
        injections[i].inject(&mut data);
        assert(injections@.take(i + 1).drop_last() =~= injections@.take(i as int));
        i += 1;
    }
    assert(injections@.take(i as int) =~= injections@);
    Ok(data)
}

/// A debugger over one program.
pub struct Debugger {
    /// The program binary as given.
    pub original_binary: Vec<u8>,
    /// The replay text as given, in reading order.
    pub original_replay: Vec<char>,
    /// The injections applied at every load.
    pub injections: Vec<Injection>,
    /// The CPU being debugged.
    pub cpu: SynCpu,
    /// The addresses where breakpoints are registered.
    pub breakpoints: HashSet<usize>,
}

impl Debugger {
    /// The binary loads, the CPU is well formed and breakpoints lie in RAM.
    pub open spec fn wf(&self) -> bool {
        &&& loadable(self.original_binary@)
        &&& self.cpu.wf()
        &&& forall|a: usize| #[trigger] self.breakpoints@.contains(a) ==> a < RAM_SIZE
    }

    /// Loads `binary`, applies the injections in order and queues the replay
    /// text as input. Fails exactly when the binary cannot be loaded.
    pub fn new(binary: Vec<u8>, replay: Vec<char>, injections: Vec<Injection>) -> (r: Result<
        Debugger,
        LoadError,
    >)
        ensures
            r is Ok <==> loadable(binary@),
            binary@.len() % 2 != 0 ==> r == Err::<Debugger, LoadError>(LoadError::OddLength),
            (binary@.len() % 2 == 0 && !loadable(binary@)) ==> r == Err::<Debugger, LoadError>(
                LoadError::TooLarge,
            ),
            r matches Ok(d) ==> {
                &&& d.wf()
                &&& d.cpu@ == initial_state(binary@, replay@, injections@)
                &&& d.breakpoints@ == Set::<usize>::empty()
                &&& d.original_binary@ == binary@
                &&& d.original_replay@ == replay@
                &&& d.injections@ == injections@
            },
    {
        let data = match load(&binary, &injections) {
            Ok(d) => d,
            Err(e) => {
                return Err(e);
            },
        };
        let mut cpu = SynCpu::new(data);
        cpu.stdin_buf = reverse_chars(&replay);
        let d = Debugger {
            original_binary: binary,
            original_replay: replay,
            injections,
            cpu,
            breakpoints: HashSet::new(),
        };
        assert(d.cpu.data.stack@ =~= Seq::<u16>::empty());
        Ok(d)
    }

    /// Reloads the program: RAM, registers, stack, pc, status and pending input
    /// return to what they were after loading, and all breakpoints are dropped.
    pub fn restart(&mut self)
        requires
            old(self).wf(),
        ensures
            final(self).wf(),
            final(self).cpu@ == initial_state(
                old(self).original_binary@,
                old(self).original_replay@,
                old(self).injections@,
            ),
            final(self).breakpoints@ == Set::<usize>::empty(),
            final(self).original_binary@ == old(self).original_binary@,
            final(self).original_replay@ == old(self).original_replay@,
            final(self).injections@ == old(self).injections@,
    {
        let data = match load(&self.original_binary, &self.injections) {
            Ok(d) => d,
            Err(_) => {
                return;
            },
        };
        let mut cpu = SynCpu::new(data);
        cpu.stdin_buf = reverse_chars(&self.original_replay);
        assert(cpu.data.stack@ =~= Seq::<u16>::empty());
        self.cpu = cpu;
        self.breakpoints = HashSet::new();
    }

    /// Tags the word at `addr` as a breakpoint and registers the address, if
    /// the address lies in RAM and the low byte of its word is an opcode.
    pub fn set_breakpoint(&mut self, addr: usize) -> (r: Result<(), BreakpointError>)
        requires
            old(self).wf(),
        ensures
            final(self).wf(),
            r is Ok <==> can_break_at(old(self).cpu.data.ram@, addr as int),
            r is Err ==> r == Err::<(), BreakpointError>(BreakpointError::NotAnInstruction),
            (final(self).cpu.data.ram@, final(self).breakpoints@) == set_spec(
                old(self).cpu.data.ram@,
                old(self).breakpoints@,
                addr,
            ),
            final(self).cpu@ == (CpuState { ram: final(self).cpu.data.ram@, ..old(self).cpu@ }),
            final(self).original_binary@ == old(self).original_binary@,
            final(self).original_replay@ == old(self).original_replay@,
            final(self).injections@ == old(self).injections@,
    {
        if addr >= RAM_SIZE || self.cpu.data.ram[addr] & 0xffu16 > MAX_OPCODE {
            return Err(BreakpointError::NotAnInstruction);
        }
        let w = self.cpu.data.ram[addr] | 0xcc00u16;
        self.cpu.data.ram.set(addr, w);
        self.breakpoints.insert(addr);
        Ok(())
    }

    /// Clears the upper byte of the word at `addr` and forgets the address, if
    /// a breakpoint is registered there.
    pub fn unset_breakpoint(&mut self, addr: usize) -> (r: Result<(), BreakpointError>)
        requires
            old(self).wf(),
        ensures
            final(self).wf(),
            r is Ok <==> old(self).breakpoints@.contains(addr),
            r is Err ==> r == Err::<(), BreakpointError>(BreakpointError::NotABreakpoint),
            (final(self).cpu.data.ram@, final(self).breakpoints@) == unset_spec(
                old(self).cpu.data.ram@,
                old(self).breakpoints@,
                addr,
            ),
            final(self).cpu@ == (CpuState { ram: final(self).cpu.data.ram@, ..old(self).cpu@ }),
            final(self).original_binary@ == old(self).original_binary@,
            final(self).original_replay@ == old(self).original_replay@,
            final(self).injections@ == old(self).injections@,
    {
        if !self.breakpoints.contains(&addr) {
            return Err(BreakpointError::NotABreakpoint);
        }
        self.breakpoints.remove(&addr);
        let w = self.cpu.data.ram[addr] & 0x00ffu16;
        self.cpu.data.ram.set(addr, w);
        assert(self.breakpoints@ =~= old(self).breakpoints@.remove(addr));
        Ok(())
    }

    /// Writes `val` into register `reg`, which must be in `0..8`.
    pub fn set_register(&mut self, reg: usize, val: u16) -> (r: Result<(), BadRegister>)
        requires
            old(self).wf(),
        ensures
            final(self).wf(),
            r is Ok <==> reg < 8,
            reg < 8 ==> final(self).cpu@ == (CpuState {
                registers: old(self).cpu@.registers.update(reg as int, val),
                ..old(self).cpu@
            }),
            reg >= 8 ==> final(self).cpu@ == old(self).cpu@,
            final(self).breakpoints@ == old(self).breakpoints@,
            final(self).original_binary@ == old(self).original_binary@,
            final(self).original_replay@ == old(self).original_replay@,
            final(self).injections@ == old(self).injections@,
    {
        if reg >= 8 {
            return Err(BadRegister);
        }
        self.cpu.data.registers[reg] = val;
        Ok(())
    }

    /// Moves the pc to `addr`, wrapping at the end of RAM.
    pub fn jump(&mut self, addr: u16)
        requires
            old(self).wf(),
        ensures
            final(self).wf(),
            final(self).cpu@ == (CpuState {
                pc: (addr as int % RAM_SIZE as int) as u16,
                ..old(self).cpu@
            }),
            final(self).breakpoints@ == old(self).breakpoints@,
            final(self).original_binary@ == old(self).original_binary@,
            final(self).original_replay@ == old(self).original_replay@,
            final(self).injections@ == old(self).injections@,
    {
        self.cpu.pc = addr % (RAM_SIZE as u16);
    }
}

/// RAM and breakpoint set after setting breakpoints at each of `addrs` in order.
pub open spec fn set_all(ram: Seq<u16>, bps: Set<usize>, addrs: Seq<usize>) -> (
    Seq<u16>,
    Set<usize>,
)
    decreases addrs.len(),
{
    if addrs.len() == 0 {
        (ram, bps)
    } else {
        let (r, b) = set_all(ram, bps, addrs.drop_last());
        set_spec(r, b, addrs.last())
    }
}

/// RAM and breakpoint set after removing the breakpoints at each of `addrs` in order.
pub open spec fn unset_all(ram: Seq<u16>, bps: Set<usize>, addrs: Seq<usize>) -> (
    Seq<u16>,
    Set<usize>,
)
    decreases addrs.len(),
{
    if addrs.len() == 0 {
        (ram, bps)
    } else {
        let (r, b) = unset_all(ram, bps, addrs.drop_last());
        unset_spec(r, b, addrs.last())
    }
}

/// The addresses of `addrs` where a breakpoint can be set in `ram`.
pub open spec fn breakable(ram: Seq<u16>, addrs: Seq<usize>) -> Set<usize> {
    Set::new(|a: usize| addrs.contains(a) && can_break_at(ram, a as int))
}

/// Setting breakpoints at distinct addresses tags exactly the breakable ones
/// and registers them.
proof fn lemma_set_all(ram: Seq<u16>, bps: Set<usize>, addrs: Seq<usize>)
    requires
        ram.len() == RAM_SIZE,
        addrs.no_duplicates(),
    ensures
        set_all(ram, bps, addrs).0.len() == RAM_SIZE,
        forall|k: usize|
            k < RAM_SIZE ==> #[trigger] set_all(ram, bps, addrs).0[k as int] == if addrs.contains(k)
                && can_break_at(ram, k as int) {
                tag(ram[k as int])
            } else {
                ram[k as int]
            },
        set_all(ram, bps, addrs).1 == bps.union(breakable(ram, addrs)),
    decreases addrs.len(),
{
    if addrs.len() > 0 {
        let pre = addrs.drop_last();
        let a = addrs.last();
        assert(pre.no_duplicates());
        lemma_set_all(ram, bps, pre);
        let (r, b) = set_all(ram, bps, pre);
        assert(!pre.contains(a)) by {
            if pre.contains(a) {
                let i = choose|i: int| 0 <= i < pre.len() && pre[i] == a;
                assert(addrs[i] == addrs[addrs.len() - 1]);
            }
        }
        assert forall|k: usize| #[trigger] addrs.contains(k) <==> pre.contains(k) || k == a by {
            if addrs.contains(k) {
                let i = choose|i: int| 0 <= i < addrs.len() && addrs[i] == k;
                if i < addrs.len() - 1 {
                    assert(pre[i] == k);
                }
            }
            if pre.contains(k) {
                let i = choose|i: int| 0 <= i < pre.len() && pre[i] == k;
                assert(addrs[i] == k);
            }
            if k == a {
                assert(addrs[addrs.len() - 1] == k);
            }
        }
        if a < RAM_SIZE {
            assert(r[a as int] == ram[a as int]);
        }
        assert(can_break_at(r, a as int) == can_break_at(ram, a as int));
        assert(set_all(ram, bps, addrs).1 =~= bps.union(breakable(ram, addrs)));
    } else {
        assert(bps.union(breakable(ram, addrs)) =~= bps);
    }
}

/// Removing breakpoints at distinct addresses clears the upper byte exactly
/// where one was registered, and forgets those addresses.
proof fn lemma_unset_all(ram: Seq<u16>, bps: Set<usize>, addrs: Seq<usize>)
    requires
        ram.len() == RAM_SIZE,
        addrs.no_duplicates(),
        forall|a: usize| #[trigger] bps.contains(a) ==> a < RAM_SIZE,
    ensures
        unset_all(ram, bps, addrs).0.len() == RAM_SIZE,
        forall|k: usize|
            k < RAM_SIZE ==> #[trigger] unset_all(ram, bps, addrs).0[k as int] == if addrs.contains(
                k,
            ) && bps.contains(k) {
                untag(ram[k as int])
            } else {
                ram[k as int]
            },
        unset_all(ram, bps, addrs).1 == bps.difference(addrs.to_set()),
    decreases addrs.len(),
{
    if addrs.len() > 0 {
        let pre = addrs.drop_last();
        let a = addrs.last();
        assert(pre.no_duplicates());
        lemma_unset_all(ram, bps, pre);
        let (r, b) = unset_all(ram, bps, pre);
        assert(!pre.contains(a)) by {
            if pre.contains(a) {
                let i = choose|i: int| 0 <= i < pre.len() && pre[i] == a;
                assert(addrs[i] == addrs[addrs.len() - 1]);
            }
        }
        assert forall|k: usize| #[trigger] addrs.contains(k) <==> pre.contains(k) || k == a by {
            if addrs.contains(k) {
                let i = choose|i: int| 0 <= i < addrs.len() && addrs[i] == k;
                if i < addrs.len() - 1 {
                    assert(pre[i] == k);
                }
            }
            if pre.contains(k) {
                let i = choose|i: int| 0 <= i < pre.len() && pre[i] == k;
                assert(addrs[i] == k);
            }
            if k == a {
                assert(addrs[addrs.len() - 1] == k);
            }
        }
        assert(b.contains(a) == bps.contains(a));
        if bps.contains(a) {
            assert(r[a as int] == ram[a as int]);
        }
        assert(unset_all(ram, bps, addrs).1 =~= bps.difference(addrs.to_set()));
    } else {
        assert(bps.difference(addrs.to_set()) =~= bps);
    }
}

/// Setting breakpoints at distinct addresses and then removing them all leaves
/// RAM and the breakpoint set as they were, where none of the addresses held a
/// breakpoint yet and each word where one can be set has a clear upper byte.
pub proof fn lemma_breakpoints_transparent(ram: Seq<u16>, bps: Set<usize>, addrs: Seq<usize>)
    requires
        ram.len() == RAM_SIZE,
        addrs.no_duplicates(),
        forall|a: usize| #[trigger] bps.contains(a) ==> a < RAM_SIZE,
        forall|i: int| 0 <= i < addrs.len() ==> !bps.contains(#[trigger] addrs[i]),
        forall|i: int|
            0 <= i < addrs.len() && can_break_at(ram, #[trigger] addrs[i] as int) ==> ram[addrs[i]
                as int] < 256,
    ensures
        ({
            let (r1, b1) = set_all(ram, bps, addrs);
            unset_all(r1, b1, addrs)
        }) == (ram, bps),
{
    lemma_set_all(ram, bps, addrs);
    let (r1, b1) = set_all(ram, bps, addrs);
    lemma_unset_all(r1, b1, addrs);
    let (r2, b2) = unset_all(r1, b1, addrs);
    assert forall|k: usize| k < RAM_SIZE implies #[trigger] r2[k as int] == ram[k as int] by {
        assert(r1[k as int] == if addrs.contains(k) && can_break_at(ram, k as int) {
            tag(ram[k as int])
        } else {
            ram[k as int]
        });
        if addrs.contains(k) {
            let i = choose|i: int| 0 <= i < addrs.len() && addrs[i] == k;
            assert(!bps.contains(addrs[i]));
            if can_break_at(ram, k as int) {
                assert(ram[addrs[i] as int] < 256);
                let w = ram[k as int];
                assert(w < 256 ==> (w | 0xcc00u16) & 0x00ffu16 == w) by (bit_vector);
                assert(b1.contains(k));
            } else {
                assert(!b1.contains(k));
            }
        }
    }
    assert(r2 =~= ram) by {
        assert forall|k: int| 0 <= k < ram.len() implies r2[k] == ram[k] by {
            assert(r2[(k as usize) as int] == ram[(k as usize) as int]);
        }
    }
    assert(b2 =~= bps) by {
        assert forall|a: usize| b2.contains(a) <==> bps.contains(a) by {
            if bps.contains(a) && addrs.to_set().contains(a) {
                let i = choose|i: int| 0 <= i < addrs.len() && addrs[i] == a;
                assert(!bps.contains(addrs[i]));
            }
        }
    }
}

/// A restarted debugger is in the state it was created in, so every run from
/// there behaves as it did right after loading.
pub proof fn lemma_restart_idempotent(fresh: Debugger, restarted: Debugger, fuel: nat)
    requires
        fresh.cpu@ == initial_state(
            fresh.original_binary@,
            fresh.original_replay@,
            fresh.injections@,
        ),
        restarted.cpu@ == initial_state(
            restarted.original_binary@,
            restarted.original_replay@,
            restarted.injections@,
        ),
        restarted.original_binary@ == fresh.original_binary@,
        restarted.original_replay@ == fresh.original_replay@,
        restarted.injections@ == fresh.injections@,
    ensures
        run_spec(restarted.cpu@, fuel, true) == run_spec(fresh.cpu@, fuel, true),
{
}

} // verus!
