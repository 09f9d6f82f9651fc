//! Conversions between the machine's data representations: little-endian
//! boolean sequences, unsigned and two's-complement integers, and hexadecimal
//! text.

use vstd::prelude::*;
use crate::adders::AddSub64bit;
use crate::bits::b2n;
use crate::bits::u_val;
use crate::bits::s_val;
use crate::bits::zero_bits;
use crate::bits::lemma_u_val_bound;
use crate::bits::lemma_u_val_push;
use crate::bits::lemma_u_val_zero;
use crate::bits::lemma_u_val_zero_extend;
use crate::bits::lemma_u_val_truncate;
use crate::bits::lemma_u_val_invert;
use crate::bits::lemma_u_val_split;
use crate::bits::lemma_pow2_le64;

verus! {

use vstd::arithmetic::power2::pow2;
use vstd::arithmetic::power2::lemma_pow2_adds;
use vstd::arithmetic::power2::lemma_pow2_pos;
use vstd::arithmetic::power2::lemma2_to64;
use vstd::arithmetic::div_mod::lemma_small_mod;
use vstd::string::StringExecFns;
use vstd::string::StrSliceExecFns;
use crate::bits::lemma_u_val4;
use crate::bits::lemma_u_val_append;

/// Two's-complement negation of an unsigned 64-bit reading.
pub open spec fn neg64(u: nat) -> nat {
    if u == 0 {
        0
    } else {
        (0x10000000000000000 - u) as nat
    }
}

/// A sequence with the top bit set reads at least 2^(n-1); with it clear,
/// less than 2^(n-1).
pub proof fn lemma_u_val_top_bit(s: Seq<bool>)
    requires
        s.len() > 0,
    ensures
        s[s.len() - 1] ==> u_val(s) >= pow2((s.len() - 1) as nat),
        !s[s.len() - 1] ==> u_val(s) < pow2((s.len() - 1) as nat),
{
    let k = (s.len() - 1) as int;
    lemma_u_val_split(s, k);
    let top = s.subrange(k, s.len() as int);
    assert(top.len() == 1);
    reveal_with_fuel(u_val, 3);
    assert(top.subrange(1, 1).len() == 0);
    assert(u_val(top) == b2n(s[s.len() - 1]));
    lemma_u_val_bound(s.subrange(0, k));
    lemma_pow2_pos((s.len() - 1) as nat);
    assert(pow2((s.len() - 1) as nat) * u_val(top) == pow2((s.len() - 1) as nat) * b2n(
        s[s.len() - 1],
    ));
    if s[s.len() - 1] {
        assert(pow2((s.len() - 1) as nat) * 1nat == pow2((s.len() - 1) as nat));
    } else {
        assert(pow2((s.len() - 1) as nat) * 0nat == 0);
    }
}

/// Simple file containing conversions between different data representations.
pub struct Converter {}

impl Converter {
    /// Reads a little-endian bit sequence as an unsigned number.
    pub fn bin_to_dec_pos_only(bits: Vec<bool>) -> (r: u64)
        requires
            bits@.len() <= 64,
        ensures
            r as nat == u_val(bits@),
    {
        let n = bits.len();
        let mut acc: u64 = 0;
        let mut i: usize = n;
        while i > 0
            invariant
                i <= n,
                n == bits@.len() <= 64,
                acc as nat == u_val(bits@.subrange(i as int, n as int)),
            decreases i,
        {
            i = i - 1;
            proof {
                let cur = bits@.subrange(i as int, n as int);
                assert(cur.subrange(1, cur.len() as int) =~= bits@.subrange(
                    i as int + 1,
                    n as int,
                ));
                assert(u_val(cur) == b2n(bits@[i as int]) + 2 * u_val(
                    bits@.subrange(i as int + 1, n as int),
                ));
                lemma_u_val_bound(cur);
                lemma_pow2_le64((n - i) as nat);
            }
            acc = 2 * acc + (if bits[i] {
                1
            } else {
                0
            });
        }
        proof {
            assert(bits@.subrange(0, n as int) =~= bits@);
        }
        acc
    }

    /// Reads a little-endian bit sequence as a two's-complement number: the
    /// highest-index bit carries weight -2^(n-1).
    pub fn bin_to_dec_2s_comp(bits: Vec<bool>) -> (r: i64)
        requires
            bits@.len() <= 64,
        ensures
            r as int == s_val(bits@),
    {
        let n = bits.len();
        if n == 0 {
            return 0;
        }
        let top = bits[n - 1];
        let ghost s = bits@;
        let u = Self::bin_to_dec_pos_only(bits);
        proof {
            lemma_u_val_top_bit(s);
            lemma_u_val_bound(s);
            lemma_pow2_le64(n as nat);
            lemma_pow2_le64((n - 1) as nat);
            crate::bits::lemma_pow2_double((n - 1) as nat);
            assert(((n - 1) + 1) as nat == n as nat);
        }
        if top {
            let p = pow2_u128(n);
            (u as i128 - p as i128) as i64
        } else {
            u as i64
        }
    }

    /// Extends a bit sequence with high zeros, or truncates it, to `size` bits.
    pub fn set_size(bits: Vec<bool>, size: u8) -> (r: Vec<bool>)
        ensures
            size == 0 ==> r@ =~= Seq::<bool>::empty(),
            size > 0 && bits@.len() >= size ==> r@ =~= bits@.subrange(0, size as int),
            size > 0 && bits@.len() < size ==> r@ =~= bits@ + zero_bits(
                (size - bits@.len()) as nat,
            ),
    {
        if size == 0 {
            return Vec::new();
        }
        let mut bits = bits;
        let ghost orig = bits@;
        while bits.len() < size as usize
            invariant
                orig.len() >= size ==> bits@ =~= orig,
                orig.len() < size ==> bits@.len() <= size && bits@ =~= orig + zero_bits(
                    (bits@.len() - orig.len()) as nat,
                ),
            decreases size as int - bits@.len(),
        {
            bits.push(false);
            proof {
                assert(bits@ =~= orig + zero_bits((bits@.len() - orig.len()) as nat));
            }
        }
        if bits.len() > size as usize {
            bits.truncate(size as usize);
            proof {
                assert(bits@ =~= orig.subrange(0, size as int));
            }
        }
        bits
    }

    /// Zero-extends a 48-bit address to a 64-bit word, keeping its value.
    pub fn bit48_to64(data: [bool; 48]) -> (r: [bool; 64])
        ensures
            r@ =~= data@ + zero_bits(16),
            u_val(r@) == u_val(data@),
    {
        let mut out: [bool; 64] = [false; 64];
        let mut i: usize = 0;
        while i < 48
            invariant
                i <= 48,
                forall|j: int| 0 <= j < i ==> out@[j] == data@[j],
                forall|j: int| i <= j < 64 ==> !out@[j],
            decreases 48 - i,
        {
            out[i] = data[i];
            i = i + 1;
        }
        proof {
            assert(out@ =~= data@ + zero_bits(16));
            lemma_u_val_zero_extend(data@, 16);
        }
        out
    }

    /// Two's-complement negation of a 64-bit word, computed per the machine's
    /// own rule: below zero, subtract one then invert; otherwise invert then
    /// add one.
    pub fn bin_flip_sign(val: [bool; 64]) -> (r: [bool; 64])
        ensures
            u_val(r@) == neg64(u_val(val@)),
    {
        let mut one_bit: [bool; 64] = [false; 64];
        one_bit[0] = true;
        proof {
            assert(one_bit@.subrange(1, 64) =~= zero_bits(63));
            lemma_u_val_zero(63);
            assert(u_val(one_bit@) == 1);
            lemma_u_val_top_bit(val@);
            lemma_u_val_bound(val@);
            lemma_pow2_le64(63);
            lemma2_to64();
        }
        let add_sub: AddSub64bit = AddSub64bit::default();
        if val[63] {
            let minus_one = add_sub.value(val, one_bit, false).0;
            proof {
                lemma_u_val_bound(minus_one@);
            }
            let mut out: [bool; 64] = [false; 64];
            let mut i: usize = 0;
            while i < 64
                invariant
                    i <= 64,
                    forall|j: int| 0 <= j < i ==> out@[j] == !minus_one@[j],
                decreases 64 - i,
            {
                out[i] = !minus_one[i];
                i = i + 1;
            }
            proof {
                lemma_u_val_invert(minus_one@, out@);
            }
            out
        } else {
            let mut inv: [bool; 64] = [false; 64];
            let mut i: usize = 0;
            while i < 64
                invariant
                    i <= 64,
                    forall|j: int| 0 <= j < i ==> inv@[j] == !val@[j],
                decreases 64 - i,
            {
                inv[i] = !val[i];
                i = i + 1;
            }
            proof {
                lemma_u_val_invert(val@, inv@);
            }
            let (out, _) = add_sub.value(inv, one_bit, true);
            proof {
                lemma_u_val_bound(out@);
            }
            out
        }
    }

    /// Unsigned binary of `val`, extended or truncated to `size` bits; excess
    /// high bits are lost, so the value kept is `val` modulo 2^size.
    pub fn dec_to_bin_pos_only(val: u64, size: u8) -> (r: Vec<bool>)
        ensures
            r@.len() == size as nat,
            u_val(r@) == (val as nat) % pow2(size as nat),
            (val as nat) < pow2(size as nat) ==> u_val(r@) == val as nat,
    {
        let mut bits_vec: Vec<bool> = Vec::new();
        let mut v: u64 = val;
        proof {
            lemma2_to64();
            assert((val as nat) * pow2(0) == val as nat) by (nonlinear_arith)
                requires
                    pow2(0) == 1,
            ;
        }
        while v > 0
            invariant
                u_val(bits_vec@) + (v as nat) * pow2(bits_vec@.len()) == val as nat,
            decreases v,
        {
            let b = v % 2 != 0;
            proof {
                let len = bits_vec@.len();
                lemma_u_val_push(bits_vec@, b);
                crate::bits::lemma_pow2_double(len);
                assert(u_val(bits_vec@.push(b)) + ((v / 2) as nat) * pow2(len + 1) == val as nat)
                    by (nonlinear_arith)
                    requires
                        u_val(bits_vec@.push(b)) == u_val(bits_vec@) + pow2(len) * b2n(b),
                        u_val(bits_vec@) + (v as nat) * pow2(len) == val as nat,
                        pow2(len + 1) == 2 * pow2(len),
                        (v as nat) == 2 * ((v / 2) as nat) + ((v % 2) as nat),
                        b2n(b) == (v % 2) as nat,
                ;
            }
            bits_vec.push(b);
            v = v / 2;
        }
        let ghost raw = bits_vec@;
        proof {
            assert(u_val(raw) == val as nat) by {
                assert((v as nat) * pow2(raw.len()) == 0) by (nonlinear_arith)
                    requires
                        v == 0,
                ;
            }
            lemma_pow2_pos(size as nat);
        }
        let r = Self::set_size(bits_vec, size);
        proof {
            if size == 0 {
                assert(pow2(0) == 1) by {
                    lemma2_to64();
                }
                assert((val as nat) % 1 == 0) by (nonlinear_arith);
            } else if raw.len() >= size as nat {
                lemma_u_val_truncate(raw, size as int);
            } else {
                lemma_u_val_zero_extend(raw, (size - raw.len()) as nat);
                lemma_u_val_bound(raw);
                if raw.len() < size as nat {
                    vstd::arithmetic::power2::lemma_pow2_strictly_increases(
                        raw.len(),
                        size as nat,
                    );
                }
                lemma_small_mod(val as nat, pow2(size as nat));
            }
            if (val as nat) < pow2(size as nat) {
                lemma_small_mod(val as nat, pow2(size as nat));
            }
        }
        r
    }

    /// Two's-complement 64-bit pattern of a signed value.
    pub fn dec_to_bin_2s_comp(val: i64) -> (r: [bool; 64])
        ensures
            s_val(r@) == val as int,
            u_val(r@) == if val >= 0 {
                val as nat
            } else {
                (0x10000000000000000 + val) as nat
            },
    {
        proof {
            lemma2_to64();
            vstd::arithmetic::power2::lemma2_to64_rest();
        }
        let r: [bool; 64] = if val >= 0 {
            let v = Self::dec_to_bin_pos_only(val as u64, 64);
            vec_to_word64(&v)
        } else {
            let mag: u64 = (-(val as i128)) as u64;
            let v = Self::dec_to_bin_pos_only(mag, 64);
            let arr = vec_to_word64(&v);
            Self::bin_flip_sign(arr)
        };
        proof {
            lemma_u_val_top_bit(r@);
            lemma_u_val_bound(r@);
        }
        r
    }

    /// Hexadecimal text of a number, built digit by digit; zero gives the
    /// empty string.
    pub fn dec_to_hex(dec: u32) -> (r: String)
        ensures
            r@ == hex_str(dec as nat),
        decreases dec,
    {
        if dec == 0 {
            let s = String::new();
            proof {
                assert(s@ =~= hex_str(0));
            }
            s
        } else {
            let mut s = Self::dec_to_hex(dec / 16);
            let dig = hex_digit_str(dec % 16);
            s.append(dig);
            proof {
                assert(s@ =~= hex_str(dec as nat));
            }
            s
        }
    }

    /// Hexadecimal text of the lowest `len/4 - 1` nibbles of a bit sequence,
    /// one character per nibble, highest nibble leftmost; the top nibble is
    /// dropped.
    pub fn bin_to_hex(bits: Vec<bool>) -> (r: String)
        requires
            bits@.len() >= 4,
        ensures
            r@ == bin_hex(bits@, (bits@.len() / 4 - 1) as nat),
    {
        let fours: usize = bits.len() / 4 - 1;
        let mut output = String::new();
        proof {
            assert(output@ =~= bin_hex(bits@, 0));
        }
        let mut i: usize = 0;
        while i < fours
            invariant
                i <= fours,
                fours == bits@.len() / 4 - 1,
                bits@.len() >= 4,
                bits@.len() <= usize::MAX,
                4 * fours + 4 <= bits@.len(),
                output@ == bin_hex(bits@, i as nat),
            decreases fours - i,
        {
            let mut nib: Vec<bool> = Vec::new();
            nib.push(bits[4 * i]);
            nib.push(bits[4 * i + 1]);
            nib.push(bits[4 * i + 2]);
            nib.push(bits[4 * i + 3]);
            proof {
                assert(nib@ =~= bits@.subrange(4 * i as int, 4 * i as int + 4));
            }
            let ghost nv = nib@;
            let v = Self::bin_to_dec_pos_only(nib);
            proof {
                lemma_u_val_bound(nv);
                lemma2_to64();
            }
            let mut hx = String::new();
            hx.append(hex_digit_str(v as u32));
            output = hx.concat(output.as_str());
            proof {
                assert(4 * ((i + 1) as nat - 1) == 4 * i as int);
                assert(output@ =~= bin_hex(bits@, (i + 1) as nat));
            }
            i = i + 1;
        }
        output
    }

    /// Value of one hexadecimal character; anything else reads as zero.
    pub fn hex_char_to_dec(character: char) -> (r: u32)
        ensures
            r as nat == hex_char_val(character),
    {
        let int_val = character as u32;
        if int_val >= 48 && int_val <= 57 {
            return int_val - 48;
        } else if int_val >= 65 && int_val <= 70 {
            return int_val - 55;
        }
        0
    }

    /// The four bits of one hexadecimal character, least significant first;
    /// anything outside the hex alphabet contributes four zero bits.
    pub fn hex_char_to_bin(character: char) -> (r: [bool; 4])
        ensures
            u_val(r@) == hex_char_val(character),
    {
        let mut r: [bool; 4] = [false; 4];
        match character {
            '1' => {
                r[0] = true;
            },
            '2' => {
                r[1] = true;
            },
            '3' => {
                r[0] = true;
                r[1] = true;
            },
            '4' => {
                r[2] = true;
            },
            '5' => {
                r[0] = true;
                r[2] = true;
            },
            '6' => {
                r[1] = true;
                r[2] = true;
            },
            '7' => {
                r[0] = true;
                r[1] = true;
                r[2] = true;
            },
            '8' => {
                r[3] = true;
            },
            '9' => {
                r[0] = true;
                r[3] = true;
            },
            'A' => {
                r[1] = true;
                r[3] = true;
            },
            'B' => {
                r[0] = true;
                r[1] = true;
                r[3] = true;
            },
            'C' => {
                r[2] = true;
                r[3] = true;
            },
            'D' => {
                r[0] = true;
                r[2] = true;
                r[3] = true;
            },
            'E' => {
                r[1] = true;
                r[2] = true;
                r[3] = true;
            },
            'F' => {
                r[0] = true;
                r[1] = true;
                r[2] = true;
                r[3] = true;
            },
            _ => {},
        }
        proof {
            lemma_u_val4(r@);
        }
        r
    }

    /// The bit sequence a hexadecimal string denotes: four bits per character,
    /// the rightmost character lowest.
    pub fn hex_val_to_bin(hex: String) -> (r: Vec<bool>)
        ensures
            r@.len() == 4 * hex@.len(),
            u_val(r@) == hex_val(hex@),
    {
        let hs = hex.as_str();
        let n = hs.unicode_len();
        let mut out: Vec<bool> = Vec::new();
        let mut k: usize = 0;
        while k < n
            invariant
                k <= n,
                n == hex@.len(),
                hs@ == hex@,
                out@.len() == 4 * k,
                u_val(out@) == hex_val(hex@.subrange((n - k) as int, n as int)),
            decreases n - k,
        {
            let c = hs.get_char(n - 1 - k);
            let cb = Self::hex_char_to_bin(c);
            let ghost before = out@;
            out.push(cb[0]);
            out.push(cb[1]);
            out.push(cb[2]);
            out.push(cb[3]);
            proof {
                assert(out@ =~= before + cb@);
                lemma_u_val_append(before, cb@);
                let suf2 = hex@.subrange((n - k - 1) as int, n as int);
                assert(suf2.subrange(1, suf2.len() as int) =~= hex@.subrange(
                    (n - k) as int,
                    n as int,
                ));
                assert(suf2[0] == hex@[(n - k - 1) as int]);
                assert(4 * (suf2.len() - 1) as nat == before.len());
                assert(u_val(out@) == u_val(before) + pow2(before.len()) * u_val(cb@));
                lemma_hex_val_unfold(suf2);
                assert(hex_char_val(suf2[0]) * pow2(before.len()) == pow2(before.len()) * u_val(
                    cb@,
                ));
                assert(u_val(out@) == hex_val(suf2));
                assert(hex@.subrange((n - (k + 1)) as int, n as int) == suf2);
            }
            k = k + 1;
        }
        proof {
            assert(hex@.subrange((n - k) as int, n as int) =~= hex@);
        }
        out
    }


    /// Positional reading of hexadecimal text with the machine's own weight
    /// rule: the weight of position i from the right is sixteen XOR i.
    pub fn hex_val_to_dec(str: String) -> (r: u32)
        requires
            str@.len() <= 4096,
        ensures
            r as nat == hex_xor_sum(str@, str@.len()),
    {
        let s = str.as_str();
        let n = s.unicode_len();
        let mut return_val: u32 = 0;
        let mut i: usize = 0;
        while i < n
            invariant
                i <= n,
                n == str@.len() <= 4096,
                s@ == str@,
                return_val as nat == hex_xor_sum(str@, i as nat),
                return_val <= 61680 * i,
            decreases n - i,
        {
            let c = s.get_char(n - 1 - i);
            let v = Self::hex_char_to_dec(c);
            let iv = i as u32;
            let x: u32 = 16u32 ^ iv;
            proof {
                assert(16u32 ^ iv <= iv + 16) by (bit_vector)
                    requires
                        iv <= 4096,
                ;
                assert(v * x <= 61680) by (nonlinear_arith)
                    requires
                        v <= 15,
                        x <= 4112,
                ;
            }
            return_val = return_val + v * x;
            i = i + 1;
        }
        return_val
    }

    /// Reverses a hexadecimal string and pads it with `0` characters to at
    /// least sixteen, so each character's index matches its nibble position.
    pub fn hex_resize(hex: String) -> (r: String)
        ensures
            hex@.len() >= 16 ==> r@ == hex@.reverse(),
            hex@.len() < 16 ==> r@ == hex@.reverse() + Seq::new(
                (16 - hex@.len()) as nat,
                |i: int| '0',
            ),
    {
        let hs = hex.as_str();
        let n = hs.unicode_len();
        let mut reversed = String::new();
        let mut k: usize = 0;
        while k < n
            invariant
                k <= n,
                n == hex@.len(),
                hs@ == hex@,
                reversed@.len() == k,
                forall|j: int| 0 <= j < k ==> reversed@[j] == hex@[n - 1 - j],
            decreases n - k,
        {
            let piece = hs.substring_char(n - 1 - k, n - k);
            reversed.append(piece);
            k = k + 1;
        }
        proof {
            assert(reversed@ =~= hex@.reverse());
        }
        let ghost rev = reversed@;
        let mut m: usize = n;
        proof {
            assert(reversed@ =~= rev + Seq::new(0nat, |i: int| '0'));
        }
        while m < 16
            invariant
                n <= m,
                n == hex@.len(),
                n >= 16 ==> m == n,
                n < 16 ==> m <= 16,
                reversed@.len() == m,
                reversed@ == rev + Seq::new((m - n) as nat, |i: int| '0'),
            decreases 16 - m,
        {
            proof {
                reveal_strlit("0");
            }
            reversed.append("0");
            proof {
                assert(reversed@ =~= rev + Seq::new((m + 1 - n) as nat, |i: int| '0'));
            }
            m = m + 1;
        }
        proof {
            if hex@.len() >= 16 {
                assert(reversed@ =~= rev);
            }
        }
        reversed
    }
}

/// Value of one hexadecimal character: digits and the upper-case letters
/// `A` to `F` carry their usual value, anything else counts as zero.
pub open spec fn hex_char_val(c: char) -> nat {
    if 48 <= c as int <= 57 {
        (c as int - 48) as nat
    } else if 65 <= c as int <= 70 {
        (c as int - 55) as nat
    } else {
        0
    }
}

/// The hexadecimal character of a value below sixteen.
pub open spec fn hex_digit_char(d: nat) -> char {
    if d == 0 {
        '0'
    } else if d == 1 {
        '1'
    } else if d == 2 {
        '2'
    } else if d == 3 {
        '3'
    } else if d == 4 {
        '4'
    } else if d == 5 {
        '5'
    } else if d == 6 {
        '6'
    } else if d == 7 {
        '7'
    } else if d == 8 {
        '8'
    } else if d == 9 {
        '9'
    } else if d == 10 {
        'A'
    } else if d == 11 {
        'B'
    } else if d == 12 {
        'C'
    } else if d == 13 {
        'D'
    } else if d == 14 {
        'E'
    } else {
        'F'
    }
}

/// Hexadecimal text of a number, most significant digit first; zero reads as
/// the empty string.
pub open spec fn hex_str(n: nat) -> Seq<char>
    decreases n,
{
    if n == 0 {
        Seq::empty()
    } else {
        hex_str(n / 16) + seq![hex_digit_char(n % 16)]
    }
}

/// What `bin_to_hex` emits for the lowest `count` nibbles of a bit sequence:
/// exactly one hexadecimal character per nibble, highest nibble leftmost.
pub open spec fn bin_hex(bits: Seq<bool>, count: nat) -> Seq<char>
    decreases count,
{
    if count == 0 {
        Seq::empty()
    } else {
        seq![hex_digit_char(u_val(bits.subrange(4 * (count - 1), 4 * count as int)))] + bin_hex(
            bits,
            (count - 1) as nat,
        )
    }
}

/// Unsigned reading of hexadecimal text, most significant character first;
/// characters outside the hex alphabet count as zero.
pub open spec fn hex_val(s: Seq<char>) -> nat
    decreases s.len(),
{
    if s.len() == 0 {
        0
    } else {
        hex_char_val(s[0]) * pow2(4 * (s.len() - 1) as nat) + hex_val(s.subrange(1, s.len() as int))
    }
}

pub proof fn lemma_hex_val_unfold(s: Seq<char>)
    requires
        s.len() > 0,
    ensures
        hex_val(s) == hex_char_val(s[0]) * pow2(4 * (s.len() - 1) as nat) + hex_val(
            s.subrange(1, s.len() as int),
        ),
{
}


/// What `hex_val_to_dec` accumulates: each character's hex value times
/// sixteen XOR its position from the right (the machine's own positional
/// rule; note the bitwise operation, not a power).
pub open spec fn hex_xor_sum(s: Seq<char>, n: nat) -> nat
    decreases n,
{
    if n == 0 || n > s.len() {
        0
    } else {
        hex_xor_sum(s, (n - 1) as nat) + hex_char_val(s[s.len() - n]) * ((16u32 ^ ((n - 1) as u32))
            as nat)
    }
}

/// One hexadecimal character as a string slice.
pub fn hex_digit_str(d: u32) -> (r: &'static str)
    requires
        d < 16,
    ensures
        r@ =~= seq![hex_digit_char(d as nat)],
{
    proof {
        reveal_strlit("0");
        reveal_strlit("1");
        reveal_strlit("2");
        reveal_strlit("3");
        reveal_strlit("4");
        reveal_strlit("5");
        reveal_strlit("6");
        reveal_strlit("7");
        reveal_strlit("8");
        reveal_strlit("9");
        reveal_strlit("A");
        reveal_strlit("B");
        reveal_strlit("C");
        reveal_strlit("D");
        reveal_strlit("E");
        reveal_strlit("F");
    }
    match d {
        0 => "0",
        1 => "1",
        2 => "2",
        3 => "3",
        4 => "4",
        5 => "5",
        6 => "6",
        7 => "7",
        8 => "8",
        9 => "9",
        10 => "A",
        11 => "B",
        12 => "C",
        13 => "D",
        14 => "E",
        _ => "F",
    }
}

/// Sign-extends a 16-bit field to a 64-bit word: the two's-complement
/// reading is unchanged.
pub fn sign_extend_16(v: [bool; 16]) -> (r: [bool; 64])
    ensures
        r@.subrange(0, 16) == v@,
        r@ == v@ + Seq::new(48, |i: int| v@[15]),
        s_val(r@) == s_val(v@),
{
    let top = v[15];
    let mut out: [bool; 64] = [false; 64];
    let mut i: usize = 0;
    while i < 16
        invariant
            i <= 16,
            forall|j: int| 0 <= j < i ==> out@[j] == v@[j],
            forall|j: int| i <= j < 64 ==> !out@[j],
        decreases 16 - i,
    {
        out[i] = v[i];
        i = i + 1;
    }
    if top {
        i = 16;
        while i < 64
            invariant
                16 <= i <= 64,
                forall|j: int| 0 <= j < 16 ==> out@[j] == v@[j],
                forall|j: int| 16 <= j < i ==> out@[j],
                forall|j: int| i <= j < 64 ==> !out@[j],
            decreases 64 - i,
        {
            out[i] = true;
            i = i + 1;
        }
    }
    proof {
        assert(out@.subrange(0, 16) =~= v@);
        assert(out@ =~= v@ + Seq::new(48, |i: int| v@[15]));
        crate::bits::lemma_u_val_split(out@, 16);
        lemma_u_val_top_bit(v@);
        lemma_u_val_bound(v@);
        lemma2_to64();
        vstd::arithmetic::power2::lemma2_to64_rest();
        let high = out@.subrange(16, 64);
        if top {
            assert(high =~= crate::bits::one_bits(48));
            lemma_u_val_invert(zero_bits(48), crate::bits::one_bits(48));
            lemma_u_val_zero(48);
            assert(u_val(high) == 0x1000000000000 - 1);
            assert(pow2(16) * (0x1000000000000 - 1) as nat == 0x10000000000000000 - 0x10000)
                by (nonlinear_arith)
                requires
                    pow2(16) == 0x10000,
            ;
            assert(out@[63]);
        } else {
            assert(high =~= zero_bits(48));
            lemma_u_val_zero(48);
            assert(pow2(16) * 0nat == 0) by (nonlinear_arith);
            assert(!out@[63]);
        }
    }
    out
}

/// 2^e, computed in a 128-bit word.
pub fn pow2_u128(e: usize) -> (r: u128)
    requires
        e <= 64,
    ensures
        r as nat == pow2(e as nat),
{
    let mut r: u128 = 1;
    let mut j: usize = 0;
    proof {
        lemma2_to64();
    }
    while j < e
        invariant
            j <= e <= 64,
            r as nat == pow2(j as nat),
        decreases e - j,
    {
        proof {
            lemma_pow2_adds(1, j as nat);
            lemma2_to64();
            lemma_pow2_le64((j + 1) as nat);
        }
        r = 2 * r;
        j = j + 1;
    }
    r
}

/// Copies a machine word into a bit vector.
pub fn word_to_vec64(w: [bool; 64]) -> (v: Vec<bool>)
    ensures
        v@ == w@,
{
    let mut out: Vec<bool> = Vec::new();
    let mut i: usize = 0;
    while i < 64
        invariant
            i <= 64,
            out@.len() == i,
            forall|j: int| 0 <= j < i ==> out@[j] == w@[j],
        decreases 64 - i,
    {
        out.push(w[i]);
        i = i + 1;
    }
    proof {
        assert(out@ =~= w@);
    }
    out
}

/// Copies a 64-entry bit vector into a machine word.
pub fn vec_to_word64(v: &Vec<bool>) -> (r: [bool; 64])
    requires
        v@.len() == 64,
    ensures
        r@ =~= v@,
{
    let mut out: [bool; 64] = [false; 64];
    let mut i: usize = 0;
    while i < 64
        invariant
            i <= 64,
            v@.len() == 64,
            forall|j: int| 0 <= j < i ==> out@[j] == v@[j],
        decreases 64 - i,
    {
        out[i] = v[i];
        i = i + 1;
    }
    out
}

/// Law of double negation: flipping a word's sign twice restores the word
/// exactly, bit for bit.
pub proof fn lemma_flip_sign_involution(a: Seq<bool>, b: Seq<bool>, c: Seq<bool>)
    requires
        a.len() == 64,
        b.len() == 64,
        c.len() == 64,
        u_val(b) == neg64(u_val(a)),
        u_val(c) == neg64(u_val(b)),
    ensures
        c == a,
{
    lemma_u_val_bound(a);
    lemma2_to64();
    crate::bits::lemma_u_val_injective(c, a);
}

} // verus!
