//! Registers, RAM, stack and the binary loader.
use vstd::prelude::*;
use crate::syn_int::{SynInt, RAM_SIZE};

verus! {

/// Why a program binary could not be loaded.
#[derive(Debug, Clone, Copy, PartialEq, Eq, Structural)]
pub enum LoadError {
    /// The binary holds an odd number of bytes.
    OddLength,
    /// The binary holds more words than RAM.
    TooLarge,
}

/// The registers, RAM and stack of the machine.
#[derive(Clone)]
pub struct Data {
    /// Eight 16-bit registers.
    pub registers: [u16; 8],
    /// A 15-bit address space of 16-bit words.
    pub ram: Vec<u16>,
    /// An unbounded stack of 16-bit words.
    pub stack: Vec<u16>,
}

/// The word at `i` of a RAM freshly loaded from `b`.
pub open spec fn loaded_word(b: Seq<u8>, i: int) -> u16 {
    if 2 * i + 1 < b.len() {
        (b[2 * i] as int + 256 * b[2 * i + 1] as int) as u16
    } else {
        0
    }
}

/// RAM freshly loaded from the binary `b`: little-endian words from address 0,
/// zeros after them.
pub open spec fn loaded_ram(b: Seq<u8>) -> Seq<u16> {
    Seq::new(RAM_SIZE as nat, |i: int| loaded_word(b, i))
}

/// Whether `b` can be loaded: an even number of bytes that fits in RAM.
pub open spec fn loadable(b: Seq<u8>) -> bool {
    b.len() % 2 == 0 && b.len() <= 2 * RAM_SIZE
}

/// The RAM index that an address refers to.
pub open spec fn ram_index(addr: int) -> int {
    addr % (RAM_SIZE as int)
}

/// Relies on byteorder's `LittleEndian::read_u16`: the little-endian word made of
/// `buf[i]` and `buf[i + 1]`.
#[verifier::external_body]
fn read_le_word(buf: &[u8], i: usize) -> (r: u16)
    requires
        i + 2 <= buf@.len(),
    ensures
        r as int == buf@[i as int] as int + 256 * buf@[i + 1] as int,
{
    <byteorder::LittleEndian as byteorder::ByteOrder>::read_u16(&buf[i..])
}

/// Relies on byteorder's `LittleEndian::write_u16`: the two bytes of `n`, low byte first.
#[verifier::external_body]
fn le_bytes(n: u16) -> (r: [u8; 2])
    ensures
        r@ == seq![(n % 256) as u8, (n / 256) as u8],
{
    let mut buf = [0u8; 2];
    <byteorder::LittleEndian as byteorder::ByteOrder>::write_u16(&mut buf, n);
    buf
}

impl Data {
    /// RAM holds exactly one word per address.
    pub open spec fn wf(&self) -> bool {
        self.ram@.len() == RAM_SIZE
    }

    /// The value an operand stands for.
    pub open spec fn spec_val(&self, x: SynInt) -> u16 {
        match x {
            SynInt::Literal(v) => v,
            SynInt::Register(r) => self.registers@[r as int],
        }
    }

    /// Builds the machine data for a program binary: RAM holds its little-endian
    /// words from address 0 and zeros after them; registers are zero and the
    /// stack is empty.
    pub fn from_bin(binary: &[u8]) -> (r: Result<Data, LoadError>)
        ensures
            binary@.len() % 2 != 0 <==> r == Err::<Data, LoadError>(LoadError::OddLength),
            (binary@.len() % 2 == 0 && binary@.len() > 2 * RAM_SIZE) <==> r == Err::<
                Data,
                LoadError,
            >(LoadError::TooLarge),
            loadable(binary@) <==> r is Ok,
            r matches Ok(d) ==> {
                &&& d.wf()
                &&& d.ram@ == loaded_ram(binary@)
                &&& d.registers@ == seq![0u16; 8]
                &&& d.stack@.len() == 0
            },
    {
        if binary.len() % 2 != 0 {
            return Err(LoadError::OddLength);
        }
        if binary.len() > 2 * RAM_SIZE {
            return Err(LoadError::TooLarge);
        }
        let words = binary.len() / 2;
        let mut ram: Vec<u16> = Vec::new();
        let mut i: usize = 0;
        while i < RAM_SIZE
            invariant
                i <= RAM_SIZE,
                words * 2 == binary@.len(),
                words <= RAM_SIZE,
                ram@.len() == i,
                forall|j: int| 0 <= j < i ==> ram@[j] == loaded_word(binary@, j),
            decreases RAM_SIZE - i,
        {
            if i < words {
                let w = read_le_word(binary, 2 * i);
                ram.push(w);
            } else {
                ram.push(0);
            }
            i += 1;
        }
        let data = Data { registers: [0u16; 8], ram, stack: Vec::new() };
        assert(data.ram@ =~= loaded_ram(binary@));
        assert(data.registers@ =~= seq![0u16; 8]);
        Ok(data)
    }

    /// The RAM image as little-endian bytes, two per word.
    pub fn to_bin(&self) -> (r: Vec<u8>)
        ensures
            r@.len() == 2 * self.ram@.len(),
            forall|i: int|
                0 <= i < self.ram@.len() ==> r@[2 * i] == (self.ram@[i] % 256) as u8 && r@[2 * i
                    + 1] == (self.ram@[i] / 256) as u8,
    {
        let mut out: Vec<u8> = Vec::new();
        let mut i: usize = 0;
        while i < self.ram.len()
            invariant
                i <= self.ram@.len(),
                out@.len() == 2 * i,
                forall|j: int|
                    0 <= j < i ==> out@[2 * j] == (self.ram@[j] % 256) as u8 && out@[2 * j + 1]
                        == (self.ram@[j] / 256) as u8,
            decreases self.ram@.len() - i,
        {
            let b = le_bytes(self.ram[i]);
            out.push(b[0]);
            out.push(b[1]);
            i += 1;
        }
        out
    }

    /// The words of RAM from `start` on, at most `n` of them, stopping at the end of RAM.
    pub fn ram_slice(&self, start: usize, n: usize) -> (r: Vec<u16>)
        requires
            self.wf(),
        ensures
            start >= RAM_SIZE ==> r@.len() == 0,
            start < RAM_SIZE ==> r@ == self.ram@.subrange(
                start as int,
                if start + n < RAM_SIZE {
                    start + n
                } else {
                    RAM_SIZE as int
                },
            ),
    {
        let mut r: Vec<u16> = Vec::new();
        if start >= RAM_SIZE {
            return r;
        }
        let end = if n < RAM_SIZE - start {
            start + n
        } else {
            RAM_SIZE
        };
        let mut i: usize = start;
        while i < end
            invariant
                start <= i <= end,
                end <= RAM_SIZE,
                self.wf(),
                r@ == self.ram@.subrange(start as int, i as int),
            decreases end - i,
        {
            r.push(self.ram[i]);
            i += 1;
            assert(r@ =~= self.ram@.subrange(start as int, i as int));
        }
        r
    }

    /// Pops the most recent value from the stack.
    pub fn pop(&mut self) -> (r: u16)
        requires
            old(self).stack@.len() > 0,
        ensures
            r == old(self).stack@.last(),
            final(self).stack@ == old(self).stack@.drop_last(),
            final(self).registers == old(self).registers,
            final(self).ram@ == old(self).ram@,
    {
        self.stack.pop().unwrap()
    }

    /// Pushes a value onto the stack.
    pub fn push(&mut self, val: u16)
        ensures
            final(self).stack@ == old(self).stack@.push(val),
            final(self).registers == old(self).registers,
            final(self).ram@ == old(self).ram@,
    {
        self.stack.push(val)
    }

    /// Whether the stack is empty.
    pub fn is_stack_empty(&self) -> (r: bool)
        ensures
            r == (self.stack@.len() == 0),
    {
        self.stack.len() == 0
    }

    /// The value an operand stands for: a literal itself, or the content of a register.
    pub fn val(&self, idx: SynInt) -> (r: u16)
        requires
            idx.valid(),
        ensures
            r == self.spec_val(idx),
    {
        match idx {
            SynInt::Literal(x) => x,
            SynInt::Register(r) => self.registers[r],
        }
    }

    /// Writes a value into the register that `dst` names. A literal is no
    /// register: then nothing changes and the result is false.
    pub fn write(&mut self, dst: SynInt, v: u16) -> (r: bool)
        requires
            dst.valid(),
        ensures
            r == (dst is Register),
            dst matches SynInt::Register(i) ==> final(self).registers@ == old(
                self,
            ).registers@.update(i as int, v),
            dst is Literal ==> final(self).registers == old(self).registers,
            final(self).ram@ == old(self).ram@,
            final(self).stack@ == old(self).stack@,
    {
        match dst {
            SynInt::Literal(_) => false,
            SynInt::Register(i) => {
                self.registers[i] = v;
                true
            },
        }
    }

    /// The word at an address, which wraps modulo the size of RAM.
    pub fn read_ram(&self, addr: u16) -> (r: u16)
        requires
            self.wf(),
        ensures
            r == self.ram@[ram_index(addr as int)],
    {
        self.ram[addr as usize % RAM_SIZE]
    }

    /// Writes the word at an address, which wraps modulo the size of RAM.
    pub fn write_ram(&mut self, addr: u16, v: u16)
        requires
            old(self).wf(),
        ensures
            final(self).wf(),
            final(self).ram@ == old(self).ram@.update(ram_index(addr as int), v),
            final(self).registers == old(self).registers,
            final(self).stack@ == old(self).stack@,
    {
        self.ram.set(addr as usize % RAM_SIZE, v);
    }
}

/// Writing at one address and reading at another that is equal modulo the
/// size of RAM gives the word written.
pub proof fn lemma_ram_wrap(ram: Seq<u16>, write_addr: u16, read_addr: u16, v: u16)
    requires
        ram.len() == RAM_SIZE,
        write_addr % 32768 == read_addr % 32768,
    ensures
        ram.update(ram_index(write_addr as int), v)[ram_index(read_addr as int)] == v,
{
}

} // verus!
