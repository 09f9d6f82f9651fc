//! The machine's process-output lines: decimal text of register contents and
//! the cycle-count report.

use vstd::prelude::*;
use crate::converter::hex_digit_char;
use crate::converter::hex_digit_str;

verus! {

use vstd::string::StringExecFns;

/// Decimal text of a number, most significant digit first.
pub open spec fn dec_str(n: nat) -> Seq<char>
    decreases n,
{
    if n < 10 {
        seq![hex_digit_char(n)]
    } else {
        dec_str(n / 10) + seq![hex_digit_char(n % 10)]
    }
}

/// Decimal text of a signed value: a minus sign before the magnitude.
pub open spec fn sdec_str(v: int) -> Seq<char> {
    if v < 0 {
        seq!['-'] + dec_str((-v) as nat)
    } else {
        dec_str(v as nat)
    }
}

/// The line an OUT instruction emits for register `reg` holding `v`.
pub open spec fn out_line_str(reg: int, v: int) -> Seq<char> {
    seq!['R'] + sdec_str(reg) + seq![' ', 'O', 'U', 'T', 'P', 'U', 'T', ':', ' '] + sdec_str(v)
}

/// The line the clock emits when the machine halts after `n` cycles.
pub open spec fn cycle_line_str(n: nat) -> Seq<char> {
    seq!['C', 'Y', 'C', 'L', 'E', ' ', 'C', 'O', 'U', 'N', 'T', ':', ' '] + dec_str(n)
}

/// Decimal text of an unsigned number.
pub fn u64_dec_string(n: u64) -> (r: String)
    ensures
        r@ == dec_str(n as nat),
    decreases n,
{
    if n < 10 {
        let mut s = String::new();
        s.append(hex_digit_str(n as u32));
        proof {
            assert(s@ =~= dec_str(n as nat));
        }
        s
    } else {
        let mut s = u64_dec_string(n / 10);
        s.append(hex_digit_str((n % 10) as u32));
        proof {
            assert(s@ =~= dec_str(n as nat));
        }
        s
    }
}

/// Decimal text of a signed value.
pub fn i64_dec_string(v: i64) -> (r: String)
    ensures
        r@ == sdec_str(v as int),
{
    if v >= 0 {
        u64_dec_string(v as u64)
    } else {
        let mag: u64 = (-(v as i128)) as u64;
        proof {
            reveal_strlit("-");
        }
        let mut s = String::from_str("-");
        let digits = u64_dec_string(mag);
        s.append(digits.as_str());
        proof {
            assert("-"@ =~= seq!['-']);
            assert(s@ =~= sdec_str(v as int));
        }
        s
    }
}

/// Builds the `R<reg> OUTPUT: <value>` line.
pub fn out_line(reg: i64, value: i64) -> (r: String)
    ensures
        r@ == out_line_str(reg as int, value as int),
{
    proof {
        reveal_strlit("R");
        reveal_strlit(" OUTPUT: ");
    }
    let mut s = String::from_str("R");
    let regs = i64_dec_string(reg);
    s.append(regs.as_str());
    s.append(" OUTPUT: ");
    let vals = i64_dec_string(value);
    s.append(vals.as_str());
    proof {
        assert("R"@ =~= seq!['R']);
        assert(" OUTPUT: "@ =~= seq![' ', 'O', 'U', 'T', 'P', 'U', 'T', ':', ' ']);
        assert(s@ =~= out_line_str(reg as int, value as int));
    }
    s
}

/// Builds the `CYCLE COUNT: <n>` line.
pub fn cycle_count_line(n: u64) -> (r: String)
    ensures
        r@ == cycle_line_str(n as nat),
{
    proof {
        reveal_strlit("CYCLE COUNT: ");
    }
    let mut s = String::from_str("CYCLE COUNT: ");
    let digits = u64_dec_string(n);
    s.append(digits.as_str());
    proof {
        assert("CYCLE COUNT: "@ =~= seq!['C', 'Y', 'C', 'L', 'E', ' ', 'C', 'O', 'U', 'N', 'T', ':', ' ']);
        assert(s@ =~= cycle_line_str(n as nat));
    }
    s
}

} // verus!
