//! Code injections: patches written into RAM at load time.
use vstd::prelude::*;
use crate::data::{Data, ram_index};
use crate::syn_int::RAM_SIZE;
use vstd::arithmetic::div_mod::{lemma_add_mod_noop, lemma_mod_twice};

verus! {

/// A sequence of words to write into RAM from an address on.
pub struct Injection {
    /// The address of the first word.
    pub addr: u16,
    /// The words, written at consecutive addresses that wrap at the end of RAM.
    pub payload: Vec<u16>,
}

/// `ram` with `p[i]` written at `addr + i` for each `i` in order, addresses
/// wrapping; a later word overwrites an earlier one at the same address.
pub open spec fn inject_spec(ram: Seq<u16>, addr: u16, p: Seq<u16>) -> Seq<u16>
    decreases p.len(),
{
    if p.len() == 0 {
        ram
    } else {
        inject_spec(ram, addr, p.drop_last()).update(ram_index(addr + p.len() - 1), p.last())
    }
}

/// `ram` with each injection of `injs` applied in order.
pub open spec fn apply_injections(ram: Seq<u16>, injs: Seq<Injection>) -> Seq<u16>
    decreases injs.len(),
{
    if injs.len() == 0 {
        ram
    } else {
        inject_spec(
            apply_injections(ram, injs.drop_last()),
            injs.last().addr,
            injs.last().payload@,
        )
    }
}

impl Injection {
    /// An injection of `payload` at `addr`.
    pub fn new(addr: u16, payload: Vec<u16>) -> (r: Injection)
        ensures
            r.addr == addr,
            r.payload@ == payload@,
    {
        Injection { addr, payload }
    }

    /// Writes the payload into RAM from the address on, wrapping at the end of RAM.
    pub fn inject(&self, data: &mut Data)
        requires
            old(data).wf(),
        ensures
            final(data).wf(),
            final(data).ram@ == inject_spec(old(data).ram@, self.addr, self.payload@),
            final(data).registers == old(data).registers,
            final(data).stack@ == old(data).stack@,
    {
        let mut i: usize = 0;
        while i < self.payload.len()
            invariant
                i <= self.payload@.len(),
                data.wf(),
                data.ram@ == inject_spec(old(data).ram@, self.addr, self.payload@.take(i as int)),
                data.registers == old(data).registers,
                data.stack@ == old(data).stack@,
            decreases self.payload@.len() - i,
        {
            let a = ((self.addr as usize + i % RAM_SIZE) % RAM_SIZE) as u16;
            proof {
                lemma_add_mod_noop(self.addr as int, i as int, RAM_SIZE as int);
                lemma_add_mod_noop(self.addr as int, i as int % RAM_SIZE as int, RAM_SIZE as int);
                lemma_mod_twice(i as int, RAM_SIZE as int);
            }
            data.write_ram(a, self.payload[i]);
            assert(self.payload@.take(i + 1).drop_last() =~= self.payload@.take(i as int));
            i += 1;
        }
        assert(self.payload@.take(i as int) =~= self.payload@);
    }
}

} // verus!
