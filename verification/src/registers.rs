//! The register file: 32 general registers of which register 0 always reads 0,
//! the HI/LO pair written by multiplication and division, and the register
//! that the last load wrote, whose use in the next instruction is a hazard.
use vstd::prelude::*;

verus! {

/// The register file as a value.
pub struct RegisterState {
    /// General registers 0 through 31; register 0 is 0.
    pub gpr: Seq<u32>,
    /// HI in the upper and LO in the lower 32 bits.
    pub hilo: u64,
    /// The register the last load wrote, or 0 when no load is pending.
    pub delay_reg: usize,
}

impl RegisterState {
    pub open spec fn wf(self) -> bool {
        self.gpr.len() == 32 && self.gpr[0] == 0
    }

    /// Register `i`.
    pub open spec fn at(self, i: int) -> u32 {
        self.gpr[i]
    }

    /// The registers after writing `v` to register `i`; a write to register 0
    /// is lost.
    pub open spec fn with_reg(self, i: int, v: u32) -> RegisterState {
        if i == 0 {
            self
        } else {
            RegisterState { gpr: self.gpr.update(i, v), ..self }
        }
    }

    /// HI: the upper 32 bits of HI/LO.
    pub open spec fn hi(self) -> u32 {
        (self.hilo / 0x1_0000_0000) as u32
    }

    /// LO: the lower 32 bits of HI/LO.
    pub open spec fn lo(self) -> u32 {
        (self.hilo % 0x1_0000_0000) as u32
    }

    /// Whether an access to register `i` touches the register the last load
    /// wrote; register 0 never does.
    pub open spec fn is_hazard(self, i: int) -> bool {
        i > 0 && i == self.delay_reg
    }
}

pub struct Registers {
    pub registers: [u32; 31],
    pub hilo: u64,
    pub delay_reg: usize,
}

impl View for Registers {
    type V = RegisterState;

    open spec fn view(&self) -> RegisterState {
        RegisterState {
            gpr: seq![0u32] + self.registers@,
            hilo: self.hilo,
            delay_reg: self.delay_reg,
        }
    }
}

impl Registers {
    pub proof fn lemma_wf(&self)
        ensures
            self@.wf(),
    {
        assert(self.registers@.len() == 31);
    }

    /// All registers 0, HI/LO 0, no load pending.
    pub fn new() -> (r: Self)
        ensures
            r@.wf(),
            forall|i: int| 0 <= i < 32 ==> r@.at(i) == 0,
            r@.hilo == 0,
            r@.delay_reg == 0,
    {
        let r = Registers { registers: [0u32; 31], hilo: 0, delay_reg: 0 };
        proof {
            r.lemma_wf();
            assert forall|i: int| 0 <= i < 32 implies r@.at(i) == 0 by {
                if i > 0 {
                    assert(r@.gpr[i] == r.registers@[i - 1]);
                }
            }
        }
        r
    }

    /// Whether an access to register `index` right now is a load-delay hazard:
    /// it is the register that the last load wrote.
    pub fn check_delay_reg(&self, index: usize) -> (r: bool)
        ensures
            r == (self.delay_reg == index),
    {
        self.delay_reg == index
    }

    /// Whether an access to register `index` by `get` or `set` right now runs
    /// into the load-delay slot: `index` is not 0 and is the register that the
    /// last load wrote.
    pub fn is_delay_hazard(&self, index: usize) -> (r: bool)
        ensures
            r == self@.is_hazard(index as int),
    {
        index > 0 && self.delay_reg == index
    }

    /// Writes `value` to register `index`; writes to register 0 are dropped.
    pub fn set(&mut self, index: usize, value: u32)
        requires
            index < 32,
        ensures
            final(self)@ == old(self)@.with_reg(index as int, value),
    {
        if index > 0 {
            self.registers[index - 1] = value;
            proof {
                assert(final(self)@.gpr =~= old(self)@.gpr.update(index as int, value));
            }
        }
    }

    /// Register `index`; register 0 reads 0.
    pub fn get(&self, index: usize) -> (r: u32)
        requires
            index < 32,
        ensures
            r == self@.at(index as int),
    {
        if index == 0 {
            0
        } else {
            self.registers[index - 1]
        }
    }

    /// Marks register `index` as written by a load; index 0 marks nothing.
    pub fn set_delay(&mut self, index: usize)
        ensures
            final(self)@ == (RegisterState {
                delay_reg: if index > 0 {
                    index
                } else {
                    old(self)@.delay_reg
                },
                ..old(self)@
            }),
    {
        if index > 0 {
            self.delay_reg = index;
        }
    }

    /// Clears the pending load.
    pub fn reset_delay(&mut self)
        ensures
            final(self)@ == (RegisterState { delay_reg: 0, ..old(self)@ }),
    {
        self.delay_reg = 0;
    }

    /// Writes HI/LO.
    pub fn set_hilo(&mut self, value: u64)
        ensures
            final(self)@ == (RegisterState { hilo: value, ..old(self)@ }),
    {
        self.hilo = value;
    }

    /// HI, the upper 32 bits of HI/LO.
    pub fn get_hi(&self) -> (r: u32)
        ensures
            r == self@.hi(),
    {
        let h = self.hilo;
        assert((h >> 32u64) as u32 == h / 0x1_0000_0000) by (bit_vector);
        (self.hilo >> 32) as u32
    }

    /// LO, the lower 32 bits of HI/LO.
    pub fn get_lo(&self) -> (r: u32)
        ensures
            r == self@.lo(),
    {
        let h = self.hilo;
        assert(h as u32 == h % 0x1_0000_0000) by (bit_vector);
        self.hilo as u32
    }
}

} // verus!
