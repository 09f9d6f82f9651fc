//! Width-64 bitwise unit: one gate per bit lane, dispatching on the opcode
//! nibble with the instruction-type numbering (AND=10, OR=11, XOR=12,
//! NOT=13); any other opcode yields all zeros.

use vstd::prelude::*;
use crate::logic_gates::AND;
use crate::logic_gates::NOT;
use crate::logic_gates::OR;
use crate::logic_gates::XOR;
use crate::converter::Converter;
use crate::bits::u_val;
use crate::bits::zero_bits;

verus! {

pub struct BitwiseOperator {
    and_operator: [AND; 64],
    or_operator: [OR; 64],
    xor_operator: [XOR; 64],
    not_operator: [NOT; 64],
}

impl BitwiseOperator {
    /// Perform simple bitwise operations, one logic gate per bit.
    pub fn value(&self, val0: [bool; 64], val1: [bool; 64], instr_bits: [bool; 4]) -> (r: [bool;
        64])
        ensures
            u_val(instr_bits@) == 10 ==> forall|i: int|
                0 <= i < 64 ==> r@[i] == (val0@[i] && val1@[i]),
            u_val(instr_bits@) == 11 ==> forall|i: int|
                0 <= i < 64 ==> r@[i] == (val0@[i] || val1@[i]),
            u_val(instr_bits@) == 12 ==> forall|i: int|
                0 <= i < 64 ==> r@[i] == (val0@[i] != val1@[i]),
            u_val(instr_bits@) == 13 ==> forall|i: int| 0 <= i < 64 ==> r@[i] == !val0@[i],
            !(10 <= u_val(instr_bits@) <= 13) ==> r@ == zero_bits(64),
    {
        let mut op_vec: Vec<bool> = Vec::new();
        op_vec.push(instr_bits[0]);
        op_vec.push(instr_bits[1]);
        op_vec.push(instr_bits[2]);
        op_vec.push(instr_bits[3]);
        proof {
            assert(op_vec@ =~= instr_bits@);
        }
        let op = Converter::bin_to_dec_pos_only(op_vec);
        let mut return_bits: [bool; 64] = [false; 64];
        match op {
            10 => {
                let mut i: usize = 0;
                while i < 64
                    invariant
                        i <= 64,
                        forall|j: int| 0 <= j < i ==> return_bits@[j] == (val0@[j] && val1@[j]),
                    decreases 64 - i,
                {
                    return_bits[i] = self.and_operator[i].value(val0[i], val1[i]);
                    i = i + 1;
                }
                return_bits
            },
            11 => {
                let mut i: usize = 0;
                while i < 64
                    invariant
                        i <= 64,
                        forall|j: int| 0 <= j < i ==> return_bits@[j] == (val0@[j] || val1@[j]),
                    decreases 64 - i,
                {
                    return_bits[i] = self.or_operator[i].value(val0[i], val1[i]);
                    i = i + 1;
                }
                return_bits
            },
            12 => {
                let mut i: usize = 0;
                while i < 64
                    invariant
                        i <= 64,
                        forall|j: int| 0 <= j < i ==> return_bits@[j] == (val0@[j] != val1@[j]),
                    decreases 64 - i,
                {
                    return_bits[i] = self.xor_operator[i].value(val0[i], val1[i]);
                    i = i + 1;
                }
                return_bits
            },
            13 => {
                let mut i: usize = 0;
                while i < 64
                    invariant
                        i <= 64,
                        forall|j: int| 0 <= j < i ==> return_bits@[j] == !val0@[j],
                    decreases 64 - i,
                {
                    return_bits[i] = self.not_operator[i].value(val0[i]);
                    i = i + 1;
                }
                return_bits
            },
            _ => {
                let zero: [bool; 64] = [false; 64];
                proof {
                    assert(zero@ =~= zero_bits(64));
                }
                zero
            },
        }
    }
}

impl Default for BitwiseOperator {
    fn default() -> (r: Self) {
        BitwiseOperator {
            and_operator: [AND::default(); 64],
            or_operator: [OR::default(); 64],
            xor_operator: [XOR::default(); 64],
            not_operator: [NOT::default(); 64],
        }
    }
}

} // verus!
