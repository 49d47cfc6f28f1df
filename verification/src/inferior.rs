//! What a debugger computes about the process it traces: the words of the
//! process's memory that a breakpoint is written into, and the table of the
//! breakpoints that are set.
//!
//! A traced process is read and written a word at a time, at addresses
//! that are multiples of the word size.  To set a breakpoint at an address
//! the debugger replaces the byte there with the interrupt instruction and
//! keeps the byte that it replaced.  When the process stops just behind a
//! breakpoint, the debugger puts the kept byte back, lets the process
//! execute the one instruction, and sets the breakpoint again.

use std::collections::HashMap;
use vstd::layout::layout_of_primitives;
use vstd::prelude::*;
use vstd::std_specs::hash::group_hash_axioms;

verus! {

/// The instruction that stops a process for its debugger.
pub const INTERRUPT: u8 = 0xcc;

/// The number of bytes in a word of the machine.
pub open spec fn word_bytes() -> int {
    vstd::layout::size_of::<usize>() as int
}

/// The start of the word that holds `addr`: the nearest multiple of the
/// word size at or below it.
pub fn align_addr_to_word(addr: usize) -> (aligned: usize)
    ensures
        aligned == addr - (addr as int) % word_bytes(),
        (aligned as int) % word_bytes() == 0,
        aligned <= addr < aligned + word_bytes(),
{
    let word: usize = core::mem::size_of::<usize>();
    proof {
        broadcast use layout_of_primitives;

        assert(word == 4 || word == 8);
    }
    let aligned: usize = addr & !(word - 1);
    proof {
        if word == 8 {
            assert(addr & !7usize == addr - addr % 8usize && (addr & !7usize) % 8usize == 0)
                by (bit_vector);
        } else {
            assert(addr & !3usize == addr - addr % 4usize && (addr & !3usize) % 4usize == 0)
                by (bit_vector);
        }
    }
    aligned
}

/// The byte of `word` at `offset`, counted from the least significant one.
pub open spec fn byte_of(word: u64, offset: u64) -> u8 {
    ((word >> (8 * offset)) & 0xff) as u8
}

proof fn lemma_replace_byte(word: u64, offset: u64, val: u8, k: u64)
    by (bit_vector)
    requires
        offset < 8,
        k < 8,
    ensures
        ({
            let updated = (word & !(0xffu64 << (8 * offset))) | ((val as u64) << (8 * offset));
            &&& k == offset ==> ((updated >> (8 * k)) & 0xff) as u8 == val
            &&& k != offset ==> ((updated >> (8 * k)) & 0xff) as u8 == ((word >> (8 * k))
                & 0xff) as u8
        }),
{
}

/// Puts `val` in the place of the byte of `word` at `offset`.  Returns the
/// byte that was there and the word as it then is: every other byte of it
/// is unchanged.
pub fn replace_byte(word: u64, offset: usize, val: u8) -> (out: (u8, u64))
    requires
        offset < 8,
    ensures
        out.0 == byte_of(word, offset as u64),
        byte_of(out.1, offset as u64) == val,
        forall|k: u64| k < 8 && k != offset ==> #[trigger] byte_of(out.1, k) == byte_of(word, k),
{
    let shift: u64 = 8 * (offset as u64);
    let orig_byte = ((word >> shift) & 0xff) as u8;
    let masked_word = word & !(0xffu64 << shift);
    let updated_word = masked_word | ((val as u64) << shift);
    proof {
        assert forall|k: u64| k < 8 implies (k == offset ==> #[trigger] byte_of(updated_word, k)
            == val) && (k != offset ==> byte_of(updated_word, k) == byte_of(word, k)) by {
            lemma_replace_byte(word, offset as u64, val, k);
        }
        assert(byte_of(updated_word, offset as u64) == val);
    }
    (orig_byte, updated_word)
}

/// A breakpoint: where it is, and the byte that the interrupt instruction
/// took the place of.
#[derive(Clone, Copy, Debug, PartialEq, Eq, Structural)]
pub struct Breakpoint {
    pub addr: usize,
    pub orig_byte: u8,
}

/// The breakpoints that are set, by address.
pub struct BreakpointTable {
    breakpoints: HashMap<usize, Breakpoint>,
}

impl View for BreakpointTable {
    type V = Map<usize, Breakpoint>;

    closed spec fn view(&self) -> Map<usize, Breakpoint> {
        self.breakpoints@
    }
}

impl BreakpointTable {
    /// A table without breakpoints.
    pub fn new() -> (table: BreakpointTable)
        ensures
            table@ == Map::<usize, Breakpoint>::empty(),
    {
        BreakpointTable { breakpoints: HashMap::new() }
    }

    /// Records a breakpoint at `addr` that replaced `orig_byte`.  A
    /// breakpoint recorded there before is forgotten.
    pub fn set_breakpoint(&mut self, addr: usize, orig_byte: u8)
        ensures
            final(self)@ == old(self)@.insert(addr, Breakpoint { addr, orig_byte }),
    {
        broadcast use group_hash_axioms;

        self.breakpoints.insert(addr, Breakpoint { addr, orig_byte });
    }

    /// The number of addresses with a breakpoint.
    pub fn get_breakpoints_count(&self) -> (count: usize)
        ensures
            count == self@.len(),
    {
        broadcast use group_hash_axioms;

        self.breakpoints.len()
    }

    /// The breakpoint that a process has just run into when it stands at
    /// `rip`: the one at the address before, if there is one.
    pub fn hit(&self, rip: usize) -> (found: Option<Breakpoint>)
        ensures
            found == if rip >= 1 && self@.dom().contains((rip - 1) as usize) {
                Some(self@[(rip - 1) as usize])
            } else {
                None
            },
    {
        broadcast use group_hash_axioms;

        if rip == 0 {
            return None;
        }
        let at: usize = rip - 1;
        match self.breakpoints.get(&at) {
            Some(bp) => Some(*bp),
            None => None,
        }
    }
}

} // verus!
