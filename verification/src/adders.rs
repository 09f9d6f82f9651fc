//! Ripple-carry adder/subtractor: a one-bit full stage, chained into 4-bit
//! nibble blocks, 16-bit blocks, and the 64-bit unit the ALU uses.
//!
//! In add mode a unit computes `a + b + cin` with a carry out; in subtract
//! mode it computes `a - b - cin` (`cin` is the borrow in) with a borrow out.

use vstd::prelude::*;
use crate::logic_gates::AND;
use crate::logic_gates::NOT;
use crate::logic_gates::OR;
use crate::logic_gates::XOR;
use crate::bits::b2n;
use crate::bits::u_val;
use crate::bits::lemma_u_val4;

verus! {

pub struct FullAddSub {
    add_and_gate_0: AND,
    add_xor_gate_0: XOR,
    add_and_gate_1: AND,
    add_xor_gate_1: XOR,
    add_or_gate_0: OR,
    sub_not_gate_0: NOT,
    sub_not_gate_1: NOT,
    sub_and_gate_0: AND,
    sub_xor_gate_0: XOR,
    sub_and_gate_1: AND,
    sub_xor_gate_1: XOR,
    sub_or_gate_0: OR,
}

impl FullAddSub {
    /// One-bit stage: the sum (or difference) bit and the carry (or borrow) out.
    pub fn value(&self, a: bool, b: bool, cin: bool, add: bool) -> (r: (bool, bool))
        ensures
            add ==> b2n(r.0) + 2 * b2n(r.1) == b2n(a) + b2n(b) + b2n(cin),
            !add ==> b2n(r.0) as int == b2n(a) - b2n(b) - b2n(cin) + 2 * b2n(r.1),
    {
        if add {
            let and_0: bool = self.add_and_gate_0.value(a, b);
            let xor_0: bool = self.add_xor_gate_0.value(a, b);
            let and_1: bool = self.add_and_gate_1.value(xor_0, cin);
            let c_out: bool = self.add_or_gate_0.value(and_0, and_1);
            let s: bool = self.add_xor_gate_1.value(xor_0, cin);
            (s, c_out)
        } else {
            let a_inv: bool = self.sub_not_gate_0.value(a);
            let and_0: bool = self.sub_and_gate_0.value(a_inv, b);
            let xor_0: bool = self.sub_xor_gate_0.value(a, b);
            let xor_0_inv = self.sub_not_gate_1.value(xor_0);
            let and_1: bool = self.sub_and_gate_1.value(xor_0_inv, cin);
            let br: bool = self.sub_or_gate_0.value(and_0, and_1);
            let d: bool = self.sub_xor_gate_1.value(xor_0, cin);
            (d, br)
        }
    }
}

impl Default for FullAddSub {
    fn default() -> (r: Self) {
        FullAddSub {
            add_and_gate_0: AND::default(),
            add_xor_gate_0: XOR::default(),
            add_and_gate_1: AND::default(),
            add_xor_gate_1: XOR::default(),
            add_or_gate_0: OR::default(),
            sub_not_gate_0: NOT::default(),
            sub_not_gate_1: NOT::default(),
            sub_and_gate_0: AND::default(),
            sub_xor_gate_0: XOR::default(),
            sub_and_gate_1: AND::default(),
            sub_xor_gate_1: XOR::default(),
            sub_or_gate_0: OR::default(),
        }
    }
}

pub struct AddSub4bit {
    full_add_sub_0: FullAddSub,
    full_add_sub_1: FullAddSub,
    full_add_sub_2: FullAddSub,
    full_add_sub_3: FullAddSub,
}

impl AddSub4bit {
    /// Four chained one-bit stages; the last carry (or borrow) is returned.
    pub fn value(&self, inp0: [bool; 4], inp1: [bool; 4], cin: bool, add: bool) -> (r: (
        [bool; 4],
        bool,
    ))
        ensures
            add ==> u_val(r.0@) + 16 * b2n(r.1) == u_val(inp0@) + u_val(inp1@) + b2n(cin),
            !add ==> u_val(r.0@) as int == u_val(inp0@) - u_val(inp1@) - b2n(cin) + 16 * b2n(r.1),
    {
        let (val0, c0) = self.full_add_sub_0.value(inp0[0], inp1[0], cin, add);
        let (val1, c1) = self.full_add_sub_1.value(inp0[1], inp1[1], c0, add);
        let (val2, c2) = self.full_add_sub_2.value(inp0[2], inp1[2], c1, add);
        let (val3, c3) = self.full_add_sub_3.value(inp0[3], inp1[3], c2, add);
        let mut out: [bool; 4] = [false; 4];
        out[0] = val0;
        out[1] = val1;
        out[2] = val2;
        out[3] = val3;
        proof {
            lemma_u_val4(out@);
            lemma_u_val4(inp0@);
            lemma_u_val4(inp1@);
        }
        (out, c3)
    }
}

impl Default for AddSub4bit {
    fn default() -> (r: Self) {
        AddSub4bit {
            full_add_sub_0: FullAddSub::default(),
            full_add_sub_1: FullAddSub::default(),
            full_add_sub_2: FullAddSub::default(),
            full_add_sub_3: FullAddSub::default(),
        }
    }
}

/// Copies four consecutive bits out of a 16-bit block.
fn nibble_of_16(a: &[bool; 16], k: usize) -> (r: [bool; 4])
    requires
        k + 4 <= 16,
    ensures
        r@ =~= a@.subrange(k as int, k as int + 4),
{
    let mut out: [bool; 4] = [false; 4];
    out[0] = a[k];
    out[1] = a[k + 1];
    out[2] = a[k + 2];
    out[3] = a[k + 3];
    out
}

/// Copies sixteen consecutive bits out of a 64-bit word.
fn chunk_of_64(a: &[bool; 64], k: usize) -> (r: [bool; 16])
    requires
        k + 16 <= 64,
    ensures
        r@ =~= a@.subrange(k as int, k as int + 16),
{
    let mut out: [bool; 16] = [false; 16];
    let mut i: usize = 0;
    while i < 16
        invariant
            i <= 16,
            k + 16 <= 64,
            forall|j: int| 0 <= j < i ==> out@[j] == a@[k + j],
            decreases 16 - i,
    {
        out[i] = a[k + i];
        i = i + 1;
    }
    out
}

pub struct AddSub16bit {
    add_sub_4bit_0: AddSub4bit,
    add_sub_4bit_1: AddSub4bit,
    add_sub_4bit_2: AddSub4bit,
    add_sub_4bit_3: AddSub4bit,
}

impl AddSub16bit {
    /// Four chained nibble blocks.
    pub fn value(&self, inp0: [bool; 16], inp1: [bool; 16], cin: bool, add: bool) -> (r: (
        [bool; 16],
        bool,
    ))
        ensures
            add ==> u_val(r.0@) + 0x10000 * b2n(r.1) == u_val(inp0@) + u_val(inp1@) + b2n(cin),
            !add ==> u_val(r.0@) as int == u_val(inp0@) - u_val(inp1@) - b2n(cin) + 0x10000 * b2n(
                r.1,
            ),
    {
        let n0_0 = nibble_of_16(&inp0, 0);
        let n0_1 = nibble_of_16(&inp0, 4);
        let n0_2 = nibble_of_16(&inp0, 8);
        let n0_3 = nibble_of_16(&inp0, 12);
        let n1_0 = nibble_of_16(&inp1, 0);
        let n1_1 = nibble_of_16(&inp1, 4);
        let n1_2 = nibble_of_16(&inp1, 8);
        let n1_3 = nibble_of_16(&inp1, 12);

        let (r0, c0) = self.add_sub_4bit_0.value(n0_0, n1_0, cin, add);
        let (r1, c1) = self.add_sub_4bit_1.value(n0_1, n1_1, c0, add);
        let (r2, c2) = self.add_sub_4bit_2.value(n0_2, n1_2, c1, add);
        let (r3, c3) = self.add_sub_4bit_3.value(n0_3, n1_3, c2, add);

        let mut out: [bool; 16] = [false; 16];
        let mut i: usize = 0;
        while i < 4
            invariant
                i <= 4,
                forall|j: int| 0 <= j < i ==> out@[j] == r0@[j],
            decreases 4 - i,
        {
            out[i] = r0[i];
            i = i + 1;
        }
        i = 0;
        while i < 4
            invariant
                i <= 4,
                forall|j: int| 0 <= j < 4 ==> out@[j] == r0@[j],
            forall|j: int| 4 <= j < 4 + i ==> out@[j] == r1@[j - 4],
            decreases 4 - i,
        {
            out[4 + i] = r1[i];
            i = i + 1;
        }
        i = 0;
        while i < 4
            invariant
                i <= 4,
                forall|j: int| 0 <= j < 4 ==> out@[j] == r0@[j],
                forall|j: int| 4 <= j < 8 ==> out@[j] == r1@[j - 4],
                forall|j: int| 8 <= j < 8 + i ==> out@[j] == r2@[j - 8],
            decreases 4 - i,
        {
            out[8 + i] = r2[i];
            i = i + 1;
        }
        i = 0;
        while i < 4
            invariant
                i <= 4,
                forall|j: int| 0 <= j < 4 ==> out@[j] == r0@[j],
                forall|j: int| 4 <= j < 8 ==> out@[j] == r1@[j - 4],
                forall|j: int| 8 <= j < 12 ==> out@[j] == r2@[j - 8],
                forall|j: int| 12 <= j < 12 + i ==> out@[j] == r3@[j - 12],
            decreases 4 - i,
        {
            out[12 + i] = r3[i];
            i = i + 1;
        }
        proof {
            assert(out@.subrange(0, 4) =~= r0@);
            assert(out@.subrange(4, 8) =~= r1@);
            assert(out@.subrange(8, 12) =~= r2@);
            assert(out@.subrange(12, 16) =~= r3@);
            crate::bits::lemma_u_val_quarters4(out@);
            crate::bits::lemma_u_val_quarters4(inp0@);
            crate::bits::lemma_u_val_quarters4(inp1@);
        }
        (out, c3)
    }
}

impl Default for AddSub16bit {
    fn default() -> (r: Self) {
        AddSub16bit {
            add_sub_4bit_0: AddSub4bit::default(),
            add_sub_4bit_1: AddSub4bit::default(),
            add_sub_4bit_2: AddSub4bit::default(),
            add_sub_4bit_3: AddSub4bit::default(),
        }
    }
}

pub struct AddSub64bit {
    add_sub_16bit_0: AddSub16bit,
    add_sub_16bit_1: AddSub16bit,
    add_sub_16bit_2: AddSub16bit,
    add_sub_16bit_3: AddSub16bit,
}

impl AddSub64bit {
    /// The machine-word adder/subtractor: four chained 16-bit blocks, no
    /// carry in.  In add mode it computes `a + b` with the carry out at
    /// weight 2^64; in subtract mode `a - b` with the borrow out.
    pub fn value(&self, inp0: [bool; 64], inp1: [bool; 64], add: bool) -> (r: ([bool; 64], bool))
        ensures
            add ==> u_val(r.0@) + 0x10000000000000000 * b2n(r.1) == u_val(inp0@) + u_val(inp1@),
            !add ==> u_val(r.0@) as int == u_val(inp0@) - u_val(inp1@) + 0x10000000000000000 * b2n(
                r.1,
            ),
    {
        let b0_0 = chunk_of_64(&inp0, 0);
        let b0_1 = chunk_of_64(&inp0, 16);
        let b0_2 = chunk_of_64(&inp0, 32);
        let b0_3 = chunk_of_64(&inp0, 48);
        let b1_0 = chunk_of_64(&inp1, 0);
        let b1_1 = chunk_of_64(&inp1, 16);
        let b1_2 = chunk_of_64(&inp1, 32);
        let b1_3 = chunk_of_64(&inp1, 48);

        let (r0, c0) = self.add_sub_16bit_0.value(b0_0, b1_0, false, add);
        let (r1, c1) = self.add_sub_16bit_1.value(b0_1, b1_1, c0, add);
        let (r2, c2) = self.add_sub_16bit_2.value(b0_2, b1_2, c1, add);
        let (r3, c3) = self.add_sub_16bit_3.value(b0_3, b1_3, c2, add);

        let mut out: [bool; 64] = [false; 64];
        let mut i: usize = 0;
        while i < 16
            invariant
                i <= 16,
                forall|j: int| 0 <= j < i ==> out@[j] == r0@[j],
            decreases 16 - i,
        {
            out[i] = r0[i];
            i = i + 1;
        }
        i = 0;
        while i < 16
            invariant
                i <= 16,
                forall|j: int| 0 <= j < 16 ==> out@[j] == r0@[j],
                forall|j: int| 16 <= j < 16 + i ==> out@[j] == r1@[j - 16],
            decreases 16 - i,
        {
            out[16 + i] = r1[i];
            i = i + 1;
        }
        i = 0;
        while i < 16
            invariant
                i <= 16,
                forall|j: int| 0 <= j < 16 ==> out@[j] == r0@[j],
                forall|j: int| 16 <= j < 32 ==> out@[j] == r1@[j - 16],
                forall|j: int| 32 <= j < 32 + i ==> out@[j] == r2@[j - 32],
            decreases 16 - i,
        {
            out[32 + i] = r2[i];
            i = i + 1;
        }
        i = 0;
        while i < 16
            invariant
                i <= 16,
                forall|j: int| 0 <= j < 16 ==> out@[j] == r0@[j],
                forall|j: int| 16 <= j < 32 ==> out@[j] == r1@[j - 16],
                forall|j: int| 32 <= j < 48 ==> out@[j] == r2@[j - 32],
                forall|j: int| 48 <= j < 48 + i ==> out@[j] == r3@[j - 48],
            decreases 16 - i,
        {
            out[48 + i] = r3[i];
            i = i + 1;
        }
        proof {
            assert(out@.subrange(0, 16) =~= r0@);
            assert(out@.subrange(16, 32) =~= r1@);
            assert(out@.subrange(32, 48) =~= r2@);
            assert(out@.subrange(48, 64) =~= r3@);
            crate::bits::lemma_u_val_quarters16(out@);
            crate::bits::lemma_u_val_quarters16(inp0@);
            crate::bits::lemma_u_val_quarters16(inp1@);
        }
        (out, c3)
    }
}

impl Default for AddSub64bit {
    fn default() -> (r: Self) {
        AddSub64bit {
            add_sub_16bit_0: AddSub16bit::default(),
            add_sub_16bit_1: AddSub16bit::default(),
            add_sub_16bit_2: AddSub16bit::default(),
            add_sub_16bit_3: AddSub16bit::default(),
        }
    }
}

/// Law of signed addition: a 64-bit add whose unsigned reading satisfies the
/// adder's contract computes the two's-complement sum modulo 2^64 — the
/// signed reading of the output is congruent to the sum of the signed
/// readings of the inputs.
pub proof fn lemma_adder_signed_sum(a: Seq<bool>, b: Seq<bool>, out: Seq<bool>, cout: bool)
    requires
        a.len() == 64,
        b.len() == 64,
        out.len() == 64,
        u_val(out) + 0x10000000000000000 * b2n(cout) == u_val(a) + u_val(b),
    ensures
        (crate::bits::s_val(out) - (crate::bits::s_val(a) + crate::bits::s_val(b)))
            % 0x10000000000000000 == 0,
{
    crate::bits::lemma_s_val_u_val(a);
    crate::bits::lemma_s_val_u_val(b);
    crate::bits::lemma_s_val_u_val(out);
    vstd::arithmetic::power2::lemma2_to64();
    let m: int = 0x10000000000000000;
    let k: int = b2n(a[63]) + b2n(b[63]) - b2n(out[63]) - b2n(cout);
    assert(crate::bits::s_val(out) - (crate::bits::s_val(a) + crate::bits::s_val(b)) == k * m)
        by (nonlinear_arith)
        requires
            crate::bits::s_val(out) == u_val(out) - b2n(out[63]) * m,
            crate::bits::s_val(a) == u_val(a) - b2n(a[63]) * m,
            crate::bits::s_val(b) == u_val(b) - b2n(b[63]) * m,
            u_val(out) + m * b2n(cout) == u_val(a) + u_val(b),
            k == b2n(a[63]) + b2n(b[63]) - b2n(out[63]) - b2n(cout),
    ;
    vstd::arithmetic::div_mod::lemma_mod_multiples_basic(k, m);
}

} // verus!
