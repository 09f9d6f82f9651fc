//! The ALU: a thin façade over the adder/subtractor, multiplier and bitwise
//! unit that also keeps the machine's Z/N/O condition flags.
//!
//! Every operation except the PC-increment add (`add` with `incr` set)
//! updates the flags: Z holds exactly when the result is zero, N exactly when
//! the result is nonzero with its sign bit set, and O carries the adder's
//! carry or borrow out (false for multiply and bitwise work).

use vstd::prelude::*;
use crate::adders::AddSub64bit;
use crate::multiplier::Multiplier;
use crate::bitwise_operator::BitwiseOperator;
use crate::converter::Converter;
use crate::converter::word_to_vec64;
use crate::bits::b2n;
use crate::bits::u_val;
use crate::bits::s_val;
use crate::bits::zero_bits;
use crate::bits::lemma_s_val_u_val;

verus! {

pub struct Alu {
    pub adder_subtractor_64bit: AddSub64bit,
    pub multiplier: Multiplier,
    pub bitwise_operator: BitwiseOperator,
    /// Zero Flag
    pub z: bool,
    /// Negative Flag
    pub n: bool,
    /// Overflow
    pub o: bool,
}

/// What the Z flag reads after an ALU operation with result `bits`.
pub open spec fn z_of(bits: Seq<bool>) -> bool {
    u_val(bits) == 0
}

/// What the N flag reads after an ALU operation with result `bits`: the sign
/// bit, forced false for a zero result.
pub open spec fn n_of(bits: Seq<bool>) -> bool {
    u_val(bits) != 0 && bits[63]
}

impl Alu {
    fn set_flags(&mut self, bits: [bool; 64], carry_out: bool) -> (r: ([bool; 64], bool))
        ensures
            r.0 == bits,
            r.1 == carry_out,
            final(self).z == z_of(bits@),
            final(self).n == n_of(bits@),
            final(self).o == carry_out,
    {
        proof {
            lemma_s_val_u_val(bits@);
        }
        if Converter::bin_to_dec_2s_comp(word_to_vec64(bits)) == 0 {
            self.z = true;
            self.n = false;
        } else if bits[63] {
            self.z = false;
            self.n = true;
        } else {
            self.z = false;
            self.n = false;
        }
        self.o = carry_out;
        (bits, carry_out)
    }

    /// 64-bit addition with carry out; with `incr` set (the program-counter
    /// increment) the flags are left untouched, otherwise they are updated.
    pub fn add(&mut self, val0: [bool; 64], val1: [bool; 64], incr: bool) -> (r: ([bool; 64], bool))
        ensures
            u_val(r.0@) as int == u_val(val0@) + u_val(val1@) - 0x10000000000000000 * b2n(r.1),
            incr ==> final(self).z == old(self).z && final(self).n == old(self).n
                && final(self).o == old(self).o,
            !incr ==> final(self).z == z_of(r.0@) && final(self).n == n_of(r.0@) && final(self).o
                == r.1,
    {
        if incr {
            self.adder_subtractor_64bit.value(val0, val1, true)
        } else {
            let (val, c_out) = self.adder_subtractor_64bit.value(val0, val1, true);
            self.set_flags(val, c_out)
        }
    }

    /// 64-bit subtraction with borrow out; updates the flags.
    pub fn sub(&mut self, val0: [bool; 64], val1: [bool; 64]) -> (r: ([bool; 64], bool))
        ensures
            u_val(r.0@) as int == u_val(val0@) - u_val(val1@) + 0x10000000000000000 * b2n(r.1),
            final(self).z == z_of(r.0@),
            final(self).n == n_of(r.0@),
            final(self).o == r.1,
    {
        let (val, c_out) = self.adder_subtractor_64bit.value(val0, val1, false);
        self.set_flags(val, c_out)
    }

    /// Signed 64-bit product, truncated modulo 2^64; updates the flags, with
    /// O cleared.
    pub fn mult(&mut self, val0: [bool; 64], val1: [bool; 64]) -> (r: [bool; 64])
        ensures
            (s_val(r@) - s_val(val0@) * s_val(val1@)) % 0x10000000000000000 == 0,
            final(self).z == z_of(r@),
            final(self).n == n_of(r@),
            !final(self).o,
    {
        let mult_val = self.multiplier.value(val0, val1);
        self.set_flags(mult_val, false).0
    }

    /// Bitwise AND/OR/XOR/NOT per the opcode nibble; updates the flags, with
    /// O cleared.
    pub fn bitwise(&mut self, val0: [bool; 64], val1: [bool; 64], instr_type: [bool; 4]) -> (r:
        [bool; 64])
        ensures
            u_val(instr_type@) == 10 ==> forall|i: int|
                0 <= i < 64 ==> r@[i] == (val0@[i] && val1@[i]),
            u_val(instr_type@) == 11 ==> forall|i: int|
                0 <= i < 64 ==> r@[i] == (val0@[i] || val1@[i]),
            u_val(instr_type@) == 12 ==> forall|i: int|
                0 <= i < 64 ==> r@[i] == (val0@[i] != val1@[i]),
            u_val(instr_type@) == 13 ==> forall|i: int| 0 <= i < 64 ==> r@[i] == !val0@[i],
            !(10 <= u_val(instr_type@) <= 13) ==> r@ == zero_bits(64),
            final(self).z == z_of(r@),
            final(self).n == n_of(r@),
            !final(self).o,
    {
        let bitwise_val = self.bitwise_operator.value(val0, val1, instr_type);
        self.set_flags(bitwise_val, false).0
    }
}

impl Default for Alu {
    fn default() -> (r: Self)
        ensures
            !r.z && !r.n && !r.o,
    {
        Alu {
            adder_subtractor_64bit: AddSub64bit::default(),
            multiplier: Multiplier::default(),
            bitwise_operator: BitwiseOperator::default(),
            z: false,
            n: false,
            o: false,
        }
    }
}

} // verus!
