//! Data memory: 1024 bytes, zero at start.
use vstd::prelude::*;

verus! {

/// Number of bytes of data memory.
pub const MEMORY_SIZE: usize = 1024;

pub struct Memory {
    pub memory: [u8; 1024],
}

impl View for Memory {
    type V = Seq<u8>;

    open spec fn view(&self) -> Seq<u8> {
        self.memory@
    }
}

impl Memory {
    pub proof fn lemma_len(&self)
        ensures
            self@.len() == MEMORY_SIZE,
    {
    }

    /// 1024 zero bytes.
    pub fn new() -> (r: Self)
        ensures
            r@.len() == MEMORY_SIZE,
            forall|i: int| 0 <= i < MEMORY_SIZE ==> r@[i] == 0,
    {
        Memory { memory: [0u8; 1024] }
    }

    /// Writes `value` at `index`.
    pub fn set(&mut self, index: usize, value: u8)
        requires
            index < MEMORY_SIZE,
        ensures
            final(self)@ == old(self)@.update(index as int, value),
    {
        self.memory[index] = value;
        proof {
            assert(final(self)@ =~= old(self)@.update(index as int, value));
        }
    }

    /// The byte at `index`.
    pub fn get(&self, index: usize) -> (r: u8)
        requires
            index < MEMORY_SIZE,
        ensures
            r == self@[index as int],
    {
        self.memory[index]
    }

    /// Number of bytes: 1024.
    pub fn get_len(&self) -> (r: usize)
        ensures
            r == MEMORY_SIZE,
            r == self@.len(),
    {
        MEMORY_SIZE
    }
}

} // verus!
