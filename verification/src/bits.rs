//! Mathematical model of fixed-width binary words.
//!
//! Every register, bus and memory cell of the machine holds a little-endian
//! boolean sequence: index 0 is the least-significant bit.  `u_val` reads such
//! a sequence as an unsigned binary number, `s_val` as two's complement.

use vstd::prelude::*;

verus! {

use vstd::arithmetic::power2::pow2;
use vstd::arithmetic::power2::lemma_pow2_adds;
use vstd::arithmetic::power2::lemma_pow2_pos;
use vstd::arithmetic::power2::lemma2_to64;

/// Numeric weight of one bit.
pub open spec fn b2n(b: bool) -> nat {
    if b {
        1
    } else {
        0
    }
}

/// Unsigned value of a little-endian bit sequence: bit 0 has weight 2^0.
pub open spec fn u_val(s: Seq<bool>) -> nat
    decreases s.len(),
{
    if s.len() == 0 {
        0
    } else {
        b2n(s[0]) + 2 * u_val(s.subrange(1, s.len() as int))
    }
}

/// Two's-complement value: the highest-index bit carries weight -2^(n-1),
/// which equals the unsigned reading minus 2^n when that bit is set.
pub open spec fn s_val(s: Seq<bool>) -> int {
    if s.len() == 0 {
        0
    } else if s[s.len() - 1] {
        u_val(s) - pow2(s.len())
    } else {
        u_val(s) as int
    }
}

/// The all-false sequence of a given width.
pub open spec fn zero_bits(n: nat) -> Seq<bool> {
    Seq::new(n, |i: int| false)
}

/// The all-true sequence of a given width.
pub open spec fn one_bits(n: nat) -> Seq<bool> {
    Seq::new(n, |i: int| true)
}

/// The canonical width-`w` little-endian pattern of a number: bit i is the
/// i-th binary digit of `v`.
pub open spec fn bits_of(v: nat, w: nat) -> Seq<bool> {
    Seq::new(w, |i: int| (v / pow2(i as nat)) % 2 == 1)
}

/// `bits_of(v, w)` reads back as `v` modulo 2^w.
pub proof fn lemma_bits_of_u_val(v: nat, w: nat)
    ensures
        u_val(bits_of(v, w)) == v % pow2(w),
    decreases w,
{
    lemma2_to64();
    if w == 0 {
        assert((v as int) % 1 == 0) by (nonlinear_arith);
    } else {
        let tail = bits_of(v, w).subrange(1, w as int);
        assert(tail =~= bits_of(v / 2, (w - 1) as nat)) by {
            assert forall|i: int| 0 <= i < w - 1 implies tail[i] == bits_of(
                v / 2,
                (w - 1) as nat,
            )[i] by {
                lemma_pow2_pos(i as nat);
                vstd::arithmetic::div_mod::lemma_div_denominator(
                    v as int,
                    2,
                    pow2(i as nat) as int,
                );
                lemma_pow2_double(i as nat);
                assert((i + 1) as nat == i as nat + 1);
            }
        }
        lemma_bits_of_u_val(v / 2, (w - 1) as nat);
        let m = pow2((w - 1) as nat) as int;
        lemma_pow2_double((w - 1) as nat);
        lemma_pow2_pos((w - 1) as nat);
        assert(bits_of(v, w)[0] == ((v / pow2(0)) % 2 == 1));
        assert(v / pow2(0) == v);
        vstd::arithmetic::div_mod::lemma_fundamental_div_mod(v as int, 2);
        vstd::arithmetic::div_mod::lemma_fundamental_div_mod((v / 2) as int, m);
        vstd::arithmetic::div_mod::lemma_fundamental_div_mod(v as int, 2 * m);
        vstd::arithmetic::div_mod::lemma_div_denominator(v as int, 2, m);
        assert(b2n(bits_of(v, w)[0]) == (v as int) % 2);
        assert((v as int) % 2 + 2 * (((v / 2) as int) % m) == (v as int) % (2 * m))
            by (nonlinear_arith)
            requires
                (v as int) % 2 == v - 2 * ((v / 2) as int),
                ((v / 2) as int) % m == (v / 2) as int - m * (((v / 2) as int) / m),
                (v as int) % (2 * m) == v - (2 * m) * ((v as int) / (2 * m)),
                ((v as int) / 2) / m == (v as int) / (2 * m),
        ;
    }
}

/// Closed form of `u_val` on a width-4 sequence.
pub proof fn lemma_u_val4(s: Seq<bool>)
    requires
        s.len() == 4,
    ensures
        u_val(s) == b2n(s[0]) + 2 * b2n(s[1]) + 4 * b2n(s[2]) + 8 * b2n(s[3]),
{
    reveal_with_fuel(u_val, 5);
    let s1 = s.subrange(1, 4);
    let s2 = s1.subrange(1, 3);
    let s3 = s2.subrange(1, 2);
    assert(s3.subrange(1, 1).len() == 0);
    assert(u_val(s3) == b2n(s[3]));
    assert(u_val(s2) == b2n(s[2]) + 2 * b2n(s[3]));
    assert(u_val(s1) == b2n(s[1]) + 2 * b2n(s[2]) + 4 * b2n(s[3]));
}

/// A sequence of four equal quarters splits into weights 1, 2^q, 2^2q, 2^3q.
pub proof fn lemma_u_val_quarters(s: Seq<bool>, q: nat)
    requires
        s.len() == 4 * q,
    ensures
        u_val(s) == u_val(s.subrange(0, q as int)) + pow2(q) * u_val(
            s.subrange(q as int, 2 * q as int),
        ) + pow2(2 * q) * u_val(s.subrange(2 * q as int, 3 * q as int)) + pow2(3 * q) * u_val(
            s.subrange(3 * q as int, 4 * q as int),
        ),
{
    let a = s.subrange(0, q as int);
    let b = s.subrange(q as int, 2 * q as int);
    let c = s.subrange(2 * q as int, 3 * q as int);
    let d = s.subrange(3 * q as int, 4 * q as int);
    lemma_u_val_split(s, q as int);
    let rest = s.subrange(q as int, s.len() as int);
    lemma_u_val_split(rest, q as int);
    let rest2 = rest.subrange(q as int, rest.len() as int);
    lemma_u_val_split(rest2, q as int);
    assert(rest.subrange(0, q as int) =~= b);
    assert(rest2.subrange(0, q as int) =~= c);
    assert(rest2.subrange(q as int, rest2.len() as int) =~= d);
    lemma_pow2_adds(q, q);
    lemma_pow2_adds(2 * q, q);
    assert(u_val(s) == u_val(a) + pow2(q) * u_val(b) + pow2(2 * q) * u_val(c) + pow2(3 * q)
        * u_val(d)) by (nonlinear_arith)
        requires
            u_val(s) == u_val(a) + pow2(q) * u_val(rest),
            u_val(rest) == u_val(b) + pow2(q) * u_val(rest2),
            u_val(rest2) == u_val(c) + pow2(q) * u_val(d),
            pow2(2 * q) == pow2(q) * pow2(q),
            pow2(3 * q) == pow2(2 * q) * pow2(q),
    ;
}

/// `lemma_u_val_quarters` with the weights of 4-bit quarters written out.
pub proof fn lemma_u_val_quarters4(s: Seq<bool>)
    requires
        s.len() == 16,
    ensures
        u_val(s) == u_val(s.subrange(0, 4)) + 0x10 * u_val(s.subrange(4, 8)) + 0x100 * u_val(
            s.subrange(8, 12),
        ) + 0x1000 * u_val(s.subrange(12, 16)),
{
    lemma_u_val_quarters(s, 4);
    lemma2_to64();
    let b = u_val(s.subrange(4, 8));
    let c = u_val(s.subrange(8, 12));
    let d = u_val(s.subrange(12, 16));
    assert(pow2(4) * b == 0x10 * b && pow2(8) * c == 0x100 * c && pow2(12) * d == 0x1000 * d)
        by (nonlinear_arith)
        requires
            pow2(4) == 0x10 && pow2(8) == 0x100 && pow2(12) == 0x1000,
    ;
}

/// `lemma_u_val_quarters` with the weights of 16-bit quarters written out.
pub proof fn lemma_u_val_quarters16(s: Seq<bool>)
    requires
        s.len() == 64,
    ensures
        u_val(s) == u_val(s.subrange(0, 16)) + 0x10000 * u_val(s.subrange(16, 32))
            + 0x100000000 * u_val(s.subrange(32, 48)) + 0x1000000000000 * u_val(
            s.subrange(48, 64),
        ),
{
    lemma_u_val_quarters(s, 16);
    lemma2_to64();
    vstd::arithmetic::power2::lemma2_to64_rest();
    let b = u_val(s.subrange(16, 32));
    let c = u_val(s.subrange(32, 48));
    let d = u_val(s.subrange(48, 64));
    assert(pow2(16) * b == 0x10000 * b && pow2(32) * c == 0x100000000 * c && pow2(48) * d
        == 0x1000000000000 * d) by (nonlinear_arith)
        requires
            pow2(16) == 0x10000 && pow2(32) == 0x100000000 && pow2(48) == 0x1000000000000,
    ;
}

pub proof fn lemma_u_val_bound(s: Seq<bool>)
    ensures
        u_val(s) < pow2(s.len()),
    decreases s.len(),
{
    if s.len() == 0 {
        lemma_pow2_pos(0);
        assert(pow2(0) == 1) by {
            lemma2_to64();
        }
    } else {
        let t = s.subrange(1, s.len() as int);
        lemma_u_val_bound(t);
        lemma_pow2_adds(1, (s.len() - 1) as nat);
        assert(pow2(1) == 2) by {
            lemma2_to64();
        }
    }
}

pub proof fn lemma_u_val_append(a: Seq<bool>, b: Seq<bool>)
    ensures
        u_val(a + b) == u_val(a) + pow2(a.len()) * u_val(b),
    decreases a.len(),
{
    if a.len() == 0 {
        assert(a + b =~= b);
        assert(pow2(0) == 1) by {
            lemma2_to64();
        }
    } else {
        let t = a.subrange(1, a.len() as int);
        assert((a + b).subrange(1, (a + b).len() as int) =~= t + b);
        lemma_u_val_append(t, b);
        lemma_pow2_adds(1, (a.len() - 1) as nat);
        assert(pow2(1) == 2) by {
            lemma2_to64();
        }
        assert(u_val(a + b) == b2n(a[0]) + 2 * (u_val(t) + pow2(t.len()) * u_val(b)));
        assert(2 * (u_val(t) + pow2(t.len()) * u_val(b)) == 2 * u_val(t) + 2 * (pow2(t.len())
            * u_val(b))) by (nonlinear_arith);
        assert(2 * (pow2(t.len()) * u_val(b)) == (2 * pow2(t.len())) * u_val(b))
            by (nonlinear_arith);
    }
}

/// Splitting a sequence at position k splits its value at weight 2^k.
pub proof fn lemma_u_val_split(s: Seq<bool>, k: int)
    requires
        0 <= k <= s.len(),
    ensures
        u_val(s) == u_val(s.subrange(0, k)) + pow2(k as nat) * u_val(
            s.subrange(k, s.len() as int),
        ),
{
    assert(s =~= s.subrange(0, k) + s.subrange(k, s.len() as int));
    lemma_u_val_append(s.subrange(0, k), s.subrange(k, s.len() as int));
}

/// Two sequences of one width with one unsigned value are the same sequence.
pub proof fn lemma_u_val_injective(a: Seq<bool>, b: Seq<bool>)
    requires
        a.len() == b.len(),
        u_val(a) == u_val(b),
    ensures
        a =~= b,
    decreases a.len(),
{
    if a.len() > 0 {
        let ta = a.subrange(1, a.len() as int);
        let tb = b.subrange(1, b.len() as int);
        assert(b2n(a[0]) + 2 * u_val(ta) == b2n(b[0]) + 2 * u_val(tb));
        assert(a[0] == b[0]);
        lemma_u_val_injective(ta, tb);
        assert(forall|i: int| 1 <= i < a.len() ==> a[i] == ta[i - 1] && b[i] == tb[i - 1]);
    }
}

pub proof fn lemma_u_val_zero(n: nat)
    ensures
        u_val(zero_bits(n)) == 0,
    decreases n,
{
    if n > 0 {
        assert(zero_bits(n).subrange(1, n as int) =~= zero_bits((n - 1) as nat));
        lemma_u_val_zero((n - 1) as nat);
    }
}

/// A sequence reads as zero exactly when every bit is clear.
pub proof fn lemma_u_val_is_zero(s: Seq<bool>)
    ensures
        (u_val(s) == 0) <==> (forall|i: int| 0 <= i < s.len() ==> !s[i]),
{
    if u_val(s) == 0 {
        lemma_u_val_zero(s.len());
        lemma_u_val_injective(s, zero_bits(s.len()));
    } else {
        if forall|i: int| 0 <= i < s.len() ==> !s[i] {
            assert(s =~= zero_bits(s.len()));
            lemma_u_val_zero(s.len());
        }
    }
}

/// Appending one bit adds it at weight 2^len.
pub proof fn lemma_u_val_push(s: Seq<bool>, b: bool)
    ensures
        u_val(s.push(b)) == u_val(s) + pow2(s.len()) * b2n(b),
{
    let one = seq![b];
    assert(s.push(b) =~= s + one);
    lemma_u_val_append(s, one);
    reveal_with_fuel(u_val, 3);
    assert(one.subrange(1, 1).len() == 0);
    assert(u_val(one) == b2n(b));
}

/// Extending with high zero bits keeps the unsigned value.
pub proof fn lemma_u_val_zero_extend(s: Seq<bool>, n: nat)
    ensures
        u_val(s + zero_bits(n)) == u_val(s),
{
    lemma_u_val_append(s, zero_bits(n));
    lemma_u_val_zero(n);
}

/// Keeping the low `k` bits keeps the value modulo 2^k.
pub proof fn lemma_u_val_truncate(s: Seq<bool>, k: int)
    requires
        0 <= k <= s.len(),
    ensures
        u_val(s.subrange(0, k)) == u_val(s) % pow2(k as nat),
{
    lemma_u_val_split(s, k);
    lemma_u_val_bound(s.subrange(0, k));
    lemma_pow2_pos(k as nat);
    vstd::arithmetic::div_mod::lemma_fundamental_div_mod_converse(
        u_val(s) as int,
        pow2(k as nat) as int,
        u_val(s.subrange(k, s.len() as int)) as int,
        u_val(s.subrange(0, k)) as int,
    );
}

/// Inverting every bit maps the value v to 2^n - 1 - v.
pub proof fn lemma_u_val_invert(a: Seq<bool>, b: Seq<bool>)
    requires
        a.len() == b.len(),
        forall|i: int| 0 <= i < a.len() ==> b[i] == !a[i],
    ensures
        u_val(b) == pow2(a.len()) - 1 - u_val(a),
    decreases a.len(),
{
    if a.len() == 0 {
        lemma2_to64();
    } else {
        let ta = a.subrange(1, a.len() as int);
        let tb = b.subrange(1, b.len() as int);
        lemma_u_val_invert(ta, tb);
        lemma_pow2_adds(1, (a.len() - 1) as nat);
        lemma2_to64();
        lemma_pow2_pos((a.len() - 1) as nat);
        assert(u_val(b) == b2n(b[0]) + 2 * u_val(tb));
        assert(u_val(a) == b2n(a[0]) + 2 * u_val(ta));
        assert(b2n(b[0]) + b2n(a[0]) == 1);
    }
}

/// Doubling rule for powers of two, in the form linear reasoning can use.
pub proof fn lemma_pow2_double(e: nat)
    ensures
        pow2(e + 1) == 2 * pow2(e),
{
    lemma_pow2_adds(1, e);
    lemma2_to64();
    assert(pow2(1) * pow2(e) == 2 * pow2(e)) by (nonlinear_arith)
        requires
            pow2(1) == 2,
    ;
}

/// The value of a power of two in the range a machine word can carry.
pub proof fn lemma_pow2_le64(k: nat)
    requires
        k <= 64,
    ensures
        pow2(k) <= 0x10000000000000000,
        k < 64 ==> pow2(k) <= 0x8000000000000000,
{
    lemma2_to64();
    vstd::arithmetic::power2::lemma2_to64_rest();
    if k < 63 {
        vstd::arithmetic::power2::lemma_pow2_strictly_increases(k, 63);
    }
}

/// The two's-complement reading is congruent to the unsigned one modulo 2^n,
/// and zero exactly when the unsigned one is zero.
pub proof fn lemma_s_val_u_val(s: Seq<bool>)
    requires
        s.len() > 0,
    ensures
        s_val(s) == u_val(s) - b2n(s[s.len() - 1]) * pow2(s.len()),
        (s_val(s) == 0) <==> (u_val(s) == 0),
{
    if s[s.len() - 1] {
        let k = (s.len() - 1) as int;
        lemma_u_val_split(s, k);
        let top = s.subrange(k, s.len() as int);
        assert(top.len() == 1);
        assert(top[0]);
        assert(u_val(top.subrange(1, 1)) == 0);
        assert(u_val(top) == 1);
        lemma_pow2_pos((s.len() - 1) as nat);
        lemma_pow2_adds((s.len() - 1) as nat, 1);
        assert(pow2(1) == 2) by {
            lemma2_to64();
        }
        assert(u_val(s) >= pow2((s.len() - 1) as nat)) by (nonlinear_arith)
            requires
                u_val(s) == u_val(s.subrange(0, k)) + pow2((s.len() - 1) as nat) * u_val(top),
                u_val(top) == 1,
        ;
        lemma_u_val_bound(s);
    }
}

} // verus!
