//! Shift-add multiplier: treats the second operand as a counter and adds the
//! first operand into an accumulator once per count, negating around the loop
//! when the counter is negative.  The product is kept modulo 2^64.

use vstd::prelude::*;
use crate::adders::AddSub64bit;
use crate::converter::Converter;
use crate::converter::word_to_vec64;
use crate::reg64::Reg64;
use crate::bits::b2n;
use crate::bits::u_val;
use crate::bits::s_val;
use crate::bits::zero_bits;
use crate::bits::lemma_u_val_bound;
use crate::bits::lemma_u_val_zero;

verus! {

use vstd::arithmetic::power2::pow2;
use vstd::arithmetic::power2::lemma_pow2_pos;
use vstd::arithmetic::power2::lemma2_to64;
use vstd::arithmetic::div_mod::lemma_mod_multiples_basic;

pub struct Multiplier {
    adder: AddSub64bit,
    multiplier_acc: Reg64,
    multiplier_operand_store: Reg64,
    multiplier_counter: Reg64,
}

impl Multiplier {
    /// The 64-bit truncated product: the result reads, in two's complement,
    /// as the signed product of the operands modulo 2^64.
    pub fn value(&mut self, val0: [bool; 64], val1: [bool; 64]) -> (r: [bool; 64])
        ensures
            (s_val(r@) - s_val(val0@) * s_val(val1@)) % 0x10000000000000000 == 0,
    {
        let ghost m: int = 0x10000000000000000;
        self.multiplier_acc.clear_data();
        self.multiplier_operand_store.set_data(val0);
        self.multiplier_counter.set_data(val1);
        let mut one_bit: [bool; 64] = [false; 64];
        one_bit[0] = true;
        proof {
            assert(one_bit@.subrange(1, 64) =~= zero_bits(63));
            lemma_u_val_zero(63);
            lemma_u_val_zero(64);
            assert(u_val(one_bit@) == 1);
            crate::converter::lemma_u_val_top_bit(val1@);
            lemma_u_val_bound(val1@);
            lemma_pow2_pos(63);
            lemma2_to64();
        }
        let counter_data = self.multiplier_counter.get_data();
        let negative_multiplier = counter_data[63];
        if negative_multiplier {
            let flipped = Converter::bin_flip_sign(self.multiplier_counter.get_data());
            self.multiplier_counter.set_data(flipped);
        }
        let ghost a = u_val(val0@) as int;
        let ghost m0 = u_val(self.multiplier_counter.spec_data()) as int;
        let ghost mut k: int = 0;
        proof {
            assert(a * (m0 - m0) == 0) by (nonlinear_arith);
        }
        while Converter::bin_to_dec_pos_only(word_to_vec64(self.multiplier_counter.get_data()))
            > 0
            invariant
                self.multiplier_operand_store.spec_data() == val0@,
                u_val(one_bit@) == 1,
                a == u_val(val0@) as int,
                m == 0x10000000000000000,
                u_val(self.multiplier_acc.spec_data()) == a * (m0 - u_val(
                    self.multiplier_counter.spec_data(),
                )) + k * m,
            decreases u_val(self.multiplier_counter.spec_data()),
        {
            let ghost uc = u_val(self.multiplier_counter.spec_data()) as int;
            let (sum, carry) = self.adder.value(
                self.multiplier_acc.get_data(),
                self.multiplier_operand_store.get_data(),
                true,
            );
            let ghost uacc = u_val(self.multiplier_acc.spec_data()) as int;
            self.multiplier_acc.set_data(sum);
            let (dec, borrow) = self.adder.value(
                self.multiplier_counter.get_data(),
                one_bit,
                false,
            );
            proof {
                lemma_u_val_bound(dec@);
                lemma2_to64();
                assert(!borrow);
            }
            self.multiplier_counter.set_data(dec);
            proof {
                assert(a * (m0 - (uc - 1)) == a * (m0 - uc) + a) by (nonlinear_arith);
                k = k - b2n(carry);
            }
        }
        proof {
            assert(u_val(self.multiplier_acc.spec_data()) == a * m0 + k * m) by (nonlinear_arith)
                requires
                    u_val(self.multiplier_counter.spec_data()) == 0,
                    u_val(self.multiplier_acc.spec_data()) == a * (m0 - u_val(
                        self.multiplier_counter.spec_data(),
                    )) + k * m,
            ;
        }
        let ghost uacc = u_val(self.multiplier_acc.spec_data()) as int;
        let result: [bool; 64] = if negative_multiplier {
            Converter::bin_flip_sign(self.multiplier_acc.get_data())
        } else {
            self.multiplier_acc.get_data()
        };
        proof {
            lemma2_to64();
            crate::converter::lemma_u_val_top_bit(result@);
            lemma_u_val_bound(result@);
            lemma_u_val_bound(self.multiplier_acc.spec_data());
            crate::converter::lemma_u_val_top_bit(val0@);
            lemma_u_val_bound(val0@);
            let ur = u_val(result@) as int;
            let u1 = u_val(val1@) as int;
            let t0: int = b2n(val0@[63]) as int;
            let t1: int = b2n(val1@[63]) as int;
            let tr: int = b2n(result@[63]) as int;
            let sr = s_val(result@);
            let s0 = s_val(val0@);
            let s1 = s_val(val1@);
            assert(sr == ur - tr * m);
            assert(s0 == a - t0 * m);
            if !negative_multiplier {
                assert((sr - s0 * s1) == (k - tr + t0 * m0) * m) by (nonlinear_arith)
                    requires
                        ur == a * m0 + k * m,
                        sr == ur - tr * m,
                        s0 == a - t0 * m,
                        s1 == m0,
                ;
                lemma_mod_multiples_basic(k - tr + t0 * m0, m);
            } else {
                let c2: int = if uacc == 0 {
                    0
                } else {
                    1
                };
                assert(ur + uacc == c2 * m);
                assert((sr - s0 * s1) == (c2 - k - tr - t0 * m0) * m) by (nonlinear_arith)
                    requires
                        uacc == a * m0 + k * m,
                        ur + uacc == c2 * m,
                        sr == ur - tr * m,
                        s0 == a - t0 * m,
                        s1 == u1 - m,
                        m0 == m - u1,
                ;
                lemma_mod_multiples_basic(c2 - k - tr - t0 * m0, m);
            }
        }
        result
    }
}

impl Default for Multiplier {
    fn default() -> (r: Self) {
        Multiplier {
            adder: AddSub64bit::default(),
            multiplier_acc: Reg64::default(),
            multiplier_operand_store: Reg64::default(),
            multiplier_counter: Reg64::default(),
        }
    }
}

} // verus!
