//! A 64-bit register: simply stores a word in simulated SRAM cells.

use vstd::prelude::*;
use crate::memory_chips::SRAM;

verus! {

#[derive(Clone, Copy)]
pub struct Reg64 {
    pub data_cells: [SRAM; 64],
}

impl Reg64 {
    /// The word held, as a little-endian bit sequence.
    pub open spec fn spec_data(self) -> Seq<bool> {
        Seq::new(64, |i: int| self.data_cells@[i].charge)
    }

    /// Drains every cell.
    pub fn clear_data(&mut self)
        ensures
            final(self).spec_data() == crate::bits::zero_bits(64),
    {
        let mut i: usize = 0;
        while i < 64
            invariant
                i <= 64,
                forall|j: int| 0 <= j < i ==> !self.data_cells@[j].charge,
            decreases 64 - i,
        {
            let mut cell = self.data_cells[i];
            cell.discharge();
            self.data_cells[i] = cell;
            i = i + 1;
        }
        proof {
            assert(self.spec_data() =~= crate::bits::zero_bits(64));
        }
    }

    /// Stores a word.
    pub fn set_data(&mut self, data: [bool; 64])
        ensures
            final(self).spec_data() == data@,
    {
        let mut i: usize = 0;
        while i < 64
            invariant
                i <= 64,
                forall|j: int| 0 <= j < i ==> self.data_cells@[j].charge == data@[j],
            decreases 64 - i,
        {
            let mut cell = self.data_cells[i];
            cell.discharge();
            if data[i] {
                cell.charge();
            }
            self.data_cells[i] = cell;
            i = i + 1;
        }
        proof {
            assert(self.spec_data() =~= data@);
        }
    }

    /// Reads the stored word.
    pub fn get_data(&self) -> (r: [bool; 64])
        ensures
            r@ == self.spec_data(),
    {
        let mut return_data: [bool; 64] = [false; 64];
        let mut i: usize = 0;
        while i < 64
            invariant
                i <= 64,
                forall|j: int| 0 <= j < i ==> return_data@[j] == self.data_cells@[j].charge,
                forall|j: int| i <= j < 64 ==> !return_data@[j],
            decreases 64 - i,
        {
            if self.data_cells[i].charge {
                return_data[i] = true;
            }
            i = i + 1;
        }
        proof {
            assert(return_data@ =~= self.spec_data());
        }
        return_data
    }
}

impl Default for Reg64 {
    fn default() -> (r: Self)
        ensures
            r.spec_data() == crate::bits::zero_bits(64),
    {
        let r = Reg64 { data_cells: [SRAM { charge: false }; 64] };
        proof {
            assert(r.spec_data() =~= crate::bits::zero_bits(64));
        }
        r
    }
}

} // verus!
