//! Per-line parsing for the two input images: data lines of the form
//! `0xAAAAAAAA/0tVVV...`, and instruction lines whose first fifteen columns
//! are an address prefix.  File reading stays outside the library; these
//! functions take one line and hand back plain values.

use vstd::prelude::*;
use crate::converter::Converter;
use crate::converter::hex_val;
use crate::assembler::chars_of;
use crate::assembler::all_digits;
use crate::assembler::dec_val;
use crate::assembler::parse_signed;
use crate::bits::bits_of;
use crate::bits::zero_bits;
use crate::bits::lemma_bits_of_u_val;
use crate::bits::lemma_u_val_injective;

verus! {

use vstd::string::StrSliceExecFns;
use vstd::arithmetic::power2::pow2;
use vstd::arithmetic::power2::lemma2_to64;
use vstd::arithmetic::power2::lemma2_to64_rest;
use vstd::arithmetic::power2::lemma_pow2_strictly_increases;
use vstd::arithmetic::div_mod::lemma_small_mod;

/// An upper-case hexadecimal digit.
pub open spec fn is_upper_hex(c: char) -> bool {
    ('0' <= c <= '9') || ('A' <= c <= 'F')
}

/// A decimal digit.
pub open spec fn is_dec_digit(c: char) -> bool {
    '0' <= c <= '9'
}

/// A binary digit.
pub open spec fn is_bin_digit(c: char) -> bool {
    c == '0' || c == '1'
}

/// Whether a line is skipped: empty, or opening with the comment marker.
pub open spec fn spec_is_comment(s: Seq<char>) -> bool {
    s.len() == 0 || (s.len() >= 2 && s[0] == '/' && s[1] == '/')
}

/// Relies on regex::Regex::is_match with the anchored pattern
/// `^0x[0123456789ABCDEF]{8}$`: the haystack matches exactly when it is the
/// two characters `0x` followed by exactly eight upper-case hex digits.
#[verifier::external_body]
fn is_addr_literal(s: &str) -> (r: bool)
    ensures
        r == (s@.len() == 10 && s@[0] == '0' && s@[1] == 'x' && (forall|i: int|
            2 <= i < 10 ==> is_upper_hex(#[trigger] s@[i]))),
{
    regex::Regex::new(r"^0x[0123456789ABCDEF]{8}$").unwrap().is_match(s)
}

/// Relies on regex::Regex::is_match with the anchored pattern
/// `^[0123456789ABCDEF]+$`: a match is one or more upper-case hex digits.
#[verifier::external_body]
fn is_hex_data(s: &str) -> (r: bool)
    ensures
        r == (s@.len() >= 1 && (forall|i: int|
            0 <= i < s@.len() ==> is_upper_hex(#[trigger] s@[i]))),
{
    regex::Regex::new(r"^[0123456789ABCDEF]+$").unwrap().is_match(s)
}

/// Relies on regex::Regex::is_match with the anchored pattern
/// `^-?[0123456789]+$`: an optional minus sign, then one or more digits.
#[verifier::external_body]
fn is_decimal_data(s: &str) -> (r: bool)
    ensures
        r == ((s@.len() >= 1 && (forall|i: int|
            0 <= i < s@.len() ==> is_dec_digit(#[trigger] s@[i]))) || (s@.len() >= 2 && s@[0]
            == '-' && (forall|i: int| 1 <= i < s@.len() ==> is_dec_digit(#[trigger] s@[i])))),
{
    regex::Regex::new(r"^-?[0123456789]+$").unwrap().is_match(s)
}

/// Relies on regex::Regex::is_match with the anchored pattern `^[01]+$`: a
/// match is one or more binary digits.
#[verifier::external_body]
fn is_binary_data(s: &str) -> (r: bool)
    ensures
        r == (s@.len() >= 1 && (forall|i: int|
            0 <= i < s@.len() ==> is_bin_digit(#[trigger] s@[i]))),
{
    regex::Regex::new(r"^[01]+$").unwrap().is_match(s)
}

/// Check if line is a comment - comment lines start, like in C++, with '//'.
pub fn check_comment(str: String) -> (r: bool)
    ensures
        r == spec_is_comment(str@),
{
    let s = str.as_str();
    let n = s.unicode_len();
    if n == 0 {
        return true;
    }
    if n >= 2 && s.get_char(0) == '/' && s.get_char(1) == '/' {
        return true;
    }
    false
}

/// Convert boolean vector to string for output/debugging: most significant
/// bit leftmost, `1` for a set bit.
pub fn vec_to_str(val: Vec<bool>) -> (r: String)
    ensures
        r@ == Seq::new(val@.len(), |i: int| if val@[val@.len() - 1 - i] {
            '1'
        } else {
            '0'
        }),
{
    proof {
        reveal_strlit("1");
        reveal_strlit("0");
    }
    let n = val.len();
    let mut return_str = String::new();
    let mut k: usize = 0;
    while k < n
        invariant
            k <= n,
            n == val@.len(),
            return_str@.len() == k,
            forall|j: int| 0 <= j < k ==> return_str@[j] == (if val@[n - 1 - j] {
                '1'
            } else {
                '0'
            }),
        decreases n - k,
    {
        if val[n - 1 - k] {
            return_str.append("1");
        } else {
            return_str.append("0");
        }
        proof {
            reveal_strlit("1");
            reveal_strlit("0");
            assert("1"@ =~= seq!['1']);
            assert("0"@ =~= seq!['0']);
        }
        k = k + 1;
    }
    proof {
        assert(return_str@ =~= Seq::new(val@.len(), |i: int| if val@[val@.len() - 1 - i] {
            '1'
        } else {
            '0'
        }));
    }
    return_str
}

/// Index of the first `/`, or -1.
pub open spec fn idx_of_slash(s: Seq<char>) -> int
    decreases s.len(),
{
    if s.len() == 0 {
        -1
    } else if s[0] == '/' {
        0
    } else if idx_of_slash(s.subrange(1, s.len() as int)) == -1 {
        -1
    } else {
        idx_of_slash(s.subrange(1, s.len() as int)) + 1
    }
}

proof fn lemma_idx_of_slash_at(s: Seq<char>, i: int)
    requires
        -1 <= i,
        i == -1 ==> forall|j: int| 0 <= j < s.len() ==> s[j] != '/',
        i >= 0 ==> i < s.len() && s[i] == '/' && forall|j: int| 0 <= j < i ==> s[j] != '/',
    ensures
        idx_of_slash(s) == i,
    decreases s.len(),
{
    if s.len() > 0 && !(i == 0) {
        let t = s.subrange(1, s.len() as int);
        assert(forall|j: int| 0 <= j < t.len() ==> t[j] == s[j + 1]);
        if i == -1 {
            lemma_idx_of_slash_at(t, -1);
        } else {
            lemma_idx_of_slash_at(t, i - 1);
        }
    }
}

/// The text before the first `/` (the whole line when there is none).
pub open spec fn before_slash(s: Seq<char>) -> Seq<char> {
    if idx_of_slash(s) == -1 {
        s
    } else {
        s.subrange(0, idx_of_slash(s))
    }
}

/// The text after the first `/`, up to the next `/` or the end.
pub open spec fn slash_field(s: Seq<char>) -> Seq<char> {
    if idx_of_slash(s) == -1 {
        Seq::empty()
    } else {
        before_slash(s.subrange(idx_of_slash(s) + 1, s.len() as int))
    }
}

/// Finds the first `/` of a string.
fn find_slash(s: &str, from: usize) -> (r: Option<usize>)
    requires
        from <= s@.len(),
    ensures
        r is Some ==> from <= r->Some_0 < s@.len() && s@[r->Some_0 as int] == '/' && (forall|
            j: int,
        |
            from <= j < r->Some_0 ==> s@[j] != '/'),
        r is None ==> forall|j: int| from <= j < s@.len() ==> s@[j] != '/',
{
    let n = s.unicode_len();
    let mut i: usize = from;
    while i < n
        invariant
            from <= i <= n,
            n == s@.len(),
            forall|j: int| from <= j < i ==> s@[j] != '/',
        decreases n - i,
    {
        if s.get_char(i) == '/' {
            return Some(i);
        }
        i = i + 1;
    }
    None
}

/// Sign-extension of a short bit pattern to a 64-bit word by replicating
/// its highest bit; longer patterns are truncated.
pub open spec fn ext_to64(bits: Seq<bool>) -> Seq<bool> {
    if bits.len() >= 64 {
        bits.subrange(0, 64)
    } else if bits.len() == 0 {
        zero_bits(64)
    } else {
        bits + Seq::new((64 - bits.len()) as nat, |i: int| bits[bits.len() - 1])
    }
}

/// A signed value's 64-bit two's-complement reading.
pub open spec fn lit64(v: int) -> nat {
    (v % 0x10000000000000000) as nat
}

/// What one data-image line denotes: the 48-bit address and 64-bit word it
/// stores, or nothing for a comment, a malformed address, or malformed data.
/// Hex data sign-extends by replicating its high bit; decimal data reads as
/// a signed 64-bit value; binary data is reversed to little-endian and
/// zero-extended.
pub open spec fn spec_parse_data_line(s: Seq<char>) -> Option<(Seq<bool>, Seq<bool>)> {
    if spec_is_comment(s) {
        None
    } else {
        let p0 = before_slash(s);
        let p1 = slash_field(s);
        if !(p0.len() == 10 && p0[0] == '0' && p0[1] == 'x' && (forall|i: int|
            2 <= i < 10 ==> is_upper_hex(#[trigger] p0[i]))) {
            None
        } else if p1.len() < 2 {
            None
        } else {
            let addr = bits_of(hex_val(p0.subrange(2, 10)), 48);
            let dt = p1[1];
            let data = p1.subrange(2, p1.len() as int);
            if dt == 'x' {
                if data.len() >= 1 && (forall|i: int|
                    0 <= i < data.len() ==> is_upper_hex(#[trigger] data[i])) {
                    Some((addr, ext_to64(bits_of(hex_val(data), 4 * data.len()))))
                } else {
                    None
                }
            } else if dt == 'd' {
                if data.len() > 0 && data[0] == '-' {
                    if data.len() >= 2 && all_digits(data.subrange(1, data.len() as int))
                        && dec_val(data.subrange(1, data.len() as int)) <= 0x8000000000000000 {
                        Some(
                            (
                                addr,
                                bits_of(
                                    lit64(-(dec_val(data.subrange(1, data.len() as int)) as int)),
                                    64,
                                ),
                            ),
                        )
                    } else {
                        None
                    }
                } else {
                    if data.len() >= 1 && all_digits(data) && dec_val(data)
                        <= 0x7fffffffffffffff {
                        Some((addr, bits_of(lit64(dec_val(data) as int), 64)))
                    } else {
                        None
                    }
                }
            } else if dt == 'b' {
                if data.len() >= 1 && (forall|i: int|
                    0 <= i < data.len() ==> is_bin_digit(#[trigger] data[i])) {
                    let rev = Seq::new(data.len(), |i: int| data[data.len() - 1 - i] == '1');
                    if rev.len() >= 64 {
                        Some((addr, rev.subrange(0, 64)))
                    } else {
                        Some((addr, rev + zero_bits((64 - rev.len()) as nat)))
                    }
                } else {
                    None
                }
            } else {
                None
            }
        }
    }
}

/// What one instruction-image line contributes: the text to assemble, after
/// the fifteen-column address prefix and any leading spaces; a line of bare
/// prefix, a short line, or all spaces contributes nothing.
pub open spec fn spec_instr_content(s: Seq<char>) -> Option<Seq<char>> {
    if s.len() <= 15 {
        None
    } else {
        let j = idx_non_space_from(s, 15);
        if j == -1 {
            None
        } else {
            Some(s.subrange(j, s.len() as int))
        }
    }
}

/// The first non-space position at or after `k`, or -1.
pub open spec fn idx_non_space_from(s: Seq<char>, k: int) -> int
    decreases s.len() - k,
{
    if k < 0 || k > s.len() {
        -1
    } else if k >= s.len() {
        -1
    } else if s[k] != ' ' {
        k
    } else {
        idx_non_space_from(s, k + 1)
    }
}


proof fn lemma_idx_non_space_at(s: Seq<char>, k: int, j: int)
    requires
        0 <= k <= j <= s.len(),
        forall|a: int| k <= a < j ==> s[a] == ' ',
        j < s.len() ==> s[j] != ' ',
    ensures
        j < s.len() ==> idx_non_space_from(s, k) == j,
        j == s.len() ==> idx_non_space_from(s, k) == -1,
    decreases j - k,
{
    if k < j {
        lemma_idx_non_space_at(s, k + 1, j);
    }
}

/// Parses one data-image line into the address and word it stores; a
/// comment or any malformed part reads as nothing and the line is skipped.
pub fn parse_data_line(line: &str) -> (r: Option<([bool; 48], [bool; 64])>)
    ensures
        spec_parse_data_line(line@) is None ==> r is None,
        spec_parse_data_line(line@) is Some ==> r is Some && r->Some_0.0@ == spec_parse_data_line(
            line@,
        )->Some_0.0 && r->Some_0.1@ == spec_parse_data_line(line@)->Some_0.1,
{
    let n = line.unicode_len();
    if n == 0 {
        return None;
    }
    if n >= 2 && line.get_char(0) == '/' && line.get_char(1) == '/' {
        return None;
    }
    let s1 = find_slash(line, 0);
    let part0: &str = match s1 {
        None => {
            proof {
                lemma_idx_of_slash_at(line@, -1);
            }
            line
        },
        Some(i1) => {
            proof {
                lemma_idx_of_slash_at(line@, i1 as int);
            }
            line.substring_char(0, i1)
        },
    };
    proof {
        assert(part0@ == before_slash(line@));
    }
    if !is_addr_literal(part0) {
        return None;
    }
    let i1 = match s1 {
        None => {
            // The whole line is the address: the data field is empty.
            return None;
        },
        Some(i1) => i1,
    };
    let s2 = find_slash(line, i1 + 1);
    let p1_end = match s2 {
        None => n,
        Some(j) => j,
    };
    let part1: &str = line.substring_char(i1 + 1, p1_end);
    proof {
        let sub = line@.subrange(i1 as int + 1, n as int);
        match s2 {
            None => {
                lemma_idx_of_slash_at(sub, -1);
            },
            Some(j) => {
                assert(forall|a: int| 0 <= a < sub.len() ==> sub[a] == line@[a + i1 + 1]);
                lemma_idx_of_slash_at(sub, j - i1 - 1);
            },
        }
        assert(part1@ =~= slash_field(line@));
    }
    let m = part1.unicode_len();
    if m < 2 {
        return None;
    }
    let dt = part1.get_char(1);
    let data_str = part1.substring_char(2, m);
    // The 48-bit address.
    let addr_hex = part0.substring_char(2, 10);
    let addr_chars = chars_of(addr_hex);
    let ghost av = addr_chars@;
    let hbits = crate::assembler::hex_chars_to_bin(&addr_chars);
    let ghost hv = hbits@;
    let sized = Converter::set_size(hbits, 48);
    proof {
        crate::assembler::lemma_hex_val_bound(av);
        lemma_bits_of_u_val(hex_val(av), 48);
        vstd::arithmetic::power2::lemma_pow2_pos(48);
        crate::bits::lemma_u_val_zero_extend(hv, (48 - hv.len()) as nat);
        lemma_pow2_strictly_increases(32, 48);
        lemma_small_mod(hex_val(av), pow2(48));
    }
    let mut addr_arr: [bool; 48] = [false; 48];
    let mut i: usize = 0;
    while i < 48
        invariant
            i <= 48,
            sized@.len() == 48,
            forall|a: int| 0 <= a < i ==> addr_arr@[a] == sized@[a],
        decreases 48 - i,
    {
        addr_arr[i] = sized[i];
        i = i + 1;
    }
    proof {
        assert(addr_arr@ =~= sized@);
        lemma_u_val_injective(addr_arr@, bits_of(hex_val(av), 48));
        assert(av =~= before_slash(line@).subrange(2, 10));
        assert(addr_arr@ == bits_of(hex_val(before_slash(line@).subrange(2, 10)), 48));
    }
    if dt == 'x' {
        if !is_hex_data(data_str) {
            return None;
        }
        let dchars = chars_of(data_str);
        let ghost dv = dchars@;
        let mut bits = crate::assembler::hex_chars_to_bin(&dchars);
        let ghost orig = bits@;
        proof {
            crate::assembler::lemma_hex_val_bound(dv);
            lemma_bits_of_u_val(hex_val(dv), 4 * dv.len());
            vstd::arithmetic::power2::lemma_pow2_pos(4 * dv.len());
            lemma_small_mod(hex_val(dv), pow2(4 * dv.len()));
            lemma_u_val_injective(orig, bits_of(hex_val(dv), 4 * dv.len()));
        }
        while bits.len() < 64
            invariant
                orig.len() >= 4,
                orig.len() < 64 ==> bits@ == orig + Seq::new(
                    (bits@.len() - orig.len()) as nat,
                    |i: int| orig[orig.len() - 1],
                ) && bits@.len() <= 64,
                orig.len() >= 64 ==> bits@ == orig,
                bits@.len() >= orig.len(),
            decreases 64 - bits@.len(),
        {
            let last = bits[bits.len() - 1];
            proof {
                if bits@.len() > orig.len() {
                    assert(bits@[bits@.len() - 1] == orig[orig.len() - 1]);
                }
            }
            bits.push(last);
            proof {
                assert(bits@ =~= orig + Seq::new(
                    (bits@.len() - orig.len()) as nat,
                    |i: int| orig[orig.len() - 1],
                ));
            }
        }
        if bits.len() > 64 {
            bits.truncate(64);
            proof {
                assert(bits@ =~= orig.subrange(0, 64));
            }
        }
        let arr = crate::converter::vec_to_word64(&bits);
        proof {
            assert(arr@ == ext_to64(orig)) by {
                if orig.len() >= 64 {
                    assert(arr@ =~= orig.subrange(0, 64));
                } else {
                    assert(arr@ =~= orig + Seq::new(
                        (64 - orig.len()) as nat,
                        |i: int| orig[orig.len() - 1],
                    ));
                }
            }
        }
        Some((addr_arr, arr))
    } else if dt == 'd' {
        if !is_decimal_data(data_str) {
            proof {
                let p1 = slash_field(line@);
                let data = p1.subrange(2, p1.len() as int);
                assert(data == data_str@);
                if data.len() > 0 && data[0] == '-' {
                    let rest = data.subrange(1, data.len() as int);
                    if data.len() >= 2 && all_digits(rest) {
                        assert forall|i: int| 1 <= i < data.len() implies is_dec_digit(
                            #[trigger] data[i],
                        ) by {
                            assert(data[i] == rest[i - 1]);
                            assert('0' <= rest[i - 1] <= '9');
                        }
                        assert(false);
                    }
                }
            }
            return None;
        }
        let dchars = chars_of(data_str);
        match parse_signed(&dchars) {
            None => None,
            Some(v) => {
                let w = Converter::dec_to_bin_2s_comp(v);
                proof {
                    lemma2_to64();
                    lemma_bits_of_u_val(lit64(v as int), 64);
                    lemma_small_mod(lit64(v as int), pow2(64));
                    lemma_u_val_injective(w@, bits_of(lit64(v as int), 64));
                }
                Some((addr_arr, w))
            },
        }
    } else if dt == 'b' {
        if !is_binary_data(data_str) {
            return None;
        }
        let dchars = chars_of(data_str);
        let dn = dchars.len();
        let mut rev: Vec<bool> = Vec::new();
        let mut k: usize = 0;
        while k < dn
            invariant
                k <= dn,
                dn == dchars@.len(),
                rev@.len() == k,
                forall|a: int| 0 <= a < k ==> rev@[a] == (dchars@[dn - 1 - a] == '1'),
            decreases dn - k,
        {
            rev.push(dchars[dn - 1 - k] == '1');
            k = k + 1;
        }
        let ghost rv = rev@;
        proof {
            assert(rv =~= Seq::new(dchars@.len(), |i: int| dchars@[dchars@.len() - 1 - i]
                == '1'));
        }
        let mut bits = rev;
        while bits.len() < 64
            invariant
                bits@.len() >= rv.len(),
                rv.len() < 64 ==> bits@ == rv + zero_bits((bits@.len() - rv.len()) as nat)
                    && bits@.len() <= 64,
                rv.len() >= 64 ==> bits@ == rv,
            decreases 64 - bits@.len(),
        {
            bits.push(false);
            proof {
                assert(bits@ =~= rv + zero_bits((bits@.len() - rv.len()) as nat));
            }
        }
        if bits.len() > 64 {
            bits.truncate(64);
            proof {
                assert(bits@ =~= rv.subrange(0, 64));
            }
        }
        let arr = crate::converter::vec_to_word64(&bits);
        Some((addr_arr, arr))
    } else {
        None
    }
}

/// The text one instruction-image line contributes, past the fifteen-column
/// prefix and any leading spaces.
pub fn instr_line_content(line: &str) -> (r: Option<String>)
    ensures
        spec_instr_content(line@) is None ==> r is None,
        spec_instr_content(line@) is Some ==> r is Some && r->Some_0@ == spec_instr_content(
            line@,
        )->Some_0,
{
    let n = line.unicode_len();
    if n <= 15 {
        return None;
    }
    let mut j: usize = 15;
    while j < n
        invariant
            15 <= j <= n,
            n == line@.len(),
            forall|a: int| 15 <= a < j ==> line@[a] == ' ',
        decreases n - j,
    {
        if line.get_char(j) != ' ' {
            proof {
                lemma_idx_non_space_at(line@, 15, j as int);
            }
            let piece = line.substring_char(j, n);
            return Some(piece.to_owned());
        }
        j = j + 1;
    }
    proof {
        lemma_idx_non_space_at(line@, 15, n as int);
    }
    None
}

} // verus!
