//! The register file: fifteen program-visible 64-bit registers, addressed by
//! a 4-bit selector.  Writes to register 0, or past register 14, are silently
//! dropped; reads past register 14 return zero.

use vstd::prelude::*;
use crate::converter::Converter;
use crate::reg64::Reg64;
use crate::bits::u_val;
use crate::bits::zero_bits;
use crate::bits::lemma_u_val_bound;

verus! {

use vstd::arithmetic::power2::lemma2_to64;

pub struct RegBank {
    pub registers: [Reg64; 15],
}

impl RegBank {
    /// The fifteen stored words.
    pub open spec fn spec_regs(self) -> Seq<Seq<bool>> {
        Seq::new(15, |i: int| self.registers@[i].spec_data())
    }

    /// Stores `data` in the register the selector names; selector 0 and
    /// selectors past 14 leave every register as it was.
    pub fn set_data(&mut self, index: [bool; 4], data: [bool; 64])
        ensures
            0 < u_val(index@) < 15 ==> final(self).spec_regs() == old(self).spec_regs().update(
                u_val(index@) as int,
                data@,
            ),
            !(0 < u_val(index@) < 15) ==> final(self).spec_regs() == old(self).spec_regs(),
    {
        proof {
            lemma_u_val_bound(index@);
            lemma2_to64();
        }
        let mut idx_vec: Vec<bool> = Vec::new();
        idx_vec.push(index[0]);
        idx_vec.push(index[1]);
        idx_vec.push(index[2]);
        idx_vec.push(index[3]);
        proof {
            assert(idx_vec@ =~= index@);
        }
        let index_dec = Converter::bin_to_dec_pos_only(idx_vec);
        if index_dec > 0 && index_dec < 15 {
            let mut reg = self.registers[index_dec as usize];
            reg.set_data(data);
            self.registers[index_dec as usize] = reg;
            proof {
                assert(final(self).spec_regs() =~= old(self).spec_regs().update(
                    u_val(index@) as int,
                    data@,
                ));
            }
        } else {
            proof {
                assert(final(self).spec_regs() =~= old(self).spec_regs());
            }
        }
    }

    /// Reads the register the selector names; selectors past 14 read as zero.
    pub fn get_data(&mut self, index: [bool; 4]) -> (r: [bool; 64])
        ensures
            *final(self) == *old(self),
            u_val(index@) < 15 ==> r@ == old(self).spec_regs()[u_val(index@) as int],
            u_val(index@) >= 15 ==> r@ == zero_bits(64),
    {
        proof {
            lemma_u_val_bound(index@);
            lemma2_to64();
        }
        let mut idx_vec: Vec<bool> = Vec::new();
        idx_vec.push(index[0]);
        idx_vec.push(index[1]);
        idx_vec.push(index[2]);
        idx_vec.push(index[3]);
        proof {
            assert(idx_vec@ =~= index@);
        }
        let index_dec = Converter::bin_to_dec_pos_only(idx_vec);
        if index_dec < 15 {
            return self.registers[index_dec as usize].get_data();
        }
        let zero: [bool; 64] = [false; 64];
        proof {
            assert(zero@ =~= zero_bits(64));
        }
        zero
    }
}

impl Default for RegBank {
    fn default() -> (r: Self)
        ensures
            forall|i: int| 0 <= i < 15 ==> r.spec_regs()[i] == zero_bits(64),
    {
        let r = RegBank { registers: [Reg64 { data_cells: [crate::memory_chips::SRAM { charge: false }; 64] }; 15] };
        proof {
            assert(forall|i: int| 0 <= i < 15 ==> r.spec_regs()[i] =~= zero_bits(64));
        }
        r
    }
}

/// Law of the register file: after a write through a selector the file
/// honours (registers 1 through 14), a read of the same selector returns the
/// word just written.
pub proof fn lemma_regfile_write_then_read(regs: Seq<Seq<bool>>, idx: nat, w: Seq<bool>)
    requires
        regs.len() == 15,
        1 <= idx < 15,
    ensures
        regs.update(idx as int, w)[idx as int] == w,
{
}

} // verus!
