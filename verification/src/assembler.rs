//! The assembler: instruction type and branch condition codes, the parsed
//! intermediate form of one source line, text parsing, and the bit packer.

use vstd::prelude::*;
use crate::bits::zero_bits;
use crate::bits::bits_of;
use crate::bits::u_val;
use crate::bits::lemma_bits_of_u_val;
use crate::bits::lemma_u_val_injective;
use crate::converter::Converter;
use crate::converter::hex_val;
use crate::converter::hex_char_val;

verus! {

/// Instruction type enumeration.
#[derive(Clone, Copy, PartialEq, Eq, Structural, Debug)]
pub enum InstrType {
    OTH,
    ADD,
    SUB,
    B,
    LDR,
    STR,
    HLT,
    OUT,
    MULT,
    CMP,
    AND,
    OR,
    XOR,
    NOT,
    FLIP,
}

/// Opcode nibble of each instruction type.
pub open spec fn instr_code(t: InstrType) -> nat {
    match t {
        InstrType::OTH => 0,
        InstrType::ADD => 1,
        InstrType::SUB => 2,
        InstrType::B => 3,
        InstrType::LDR => 4,
        InstrType::STR => 5,
        InstrType::HLT => 6,
        InstrType::OUT => 7,
        InstrType::MULT => 8,
        InstrType::CMP => 9,
        InstrType::AND => 10,
        InstrType::OR => 11,
        InstrType::XOR => 12,
        InstrType::NOT => 13,
        InstrType::FLIP => 14,
    }
}

/// The instruction type an opcode nibble denotes; a value outside the
/// enumeration collapses to `OTH`.
pub fn instr_type_of(code: u64) -> (t: InstrType)
    ensures
        code <= 14 ==> instr_code(t) == code,
        code > 14 ==> t == InstrType::OTH,
        t == instr_of_code(code as nat),
{
    match code {
        1 => InstrType::ADD,
        2 => InstrType::SUB,
        3 => InstrType::B,
        4 => InstrType::LDR,
        5 => InstrType::STR,
        6 => InstrType::HLT,
        7 => InstrType::OUT,
        8 => InstrType::MULT,
        9 => InstrType::CMP,
        10 => InstrType::AND,
        11 => InstrType::OR,
        12 => InstrType::XOR,
        13 => InstrType::NOT,
        14 => InstrType::FLIP,
        _ => InstrType::OTH,
    }
}

/// Branch type enumeration.
#[derive(Clone, Copy, PartialEq, Eq, Structural, Debug)]
pub enum BranchConditions {
    B,
    BEQ,
    BNE,
    BLT,
    BGT,
    BLE,
    BGE,
    OTH,
}

/// Condition nibble of each branch kind.
pub open spec fn branch_code(c: BranchConditions) -> nat {
    match c {
        BranchConditions::B => 0,
        BranchConditions::BEQ => 1,
        BranchConditions::BNE => 2,
        BranchConditions::BLT => 3,
        BranchConditions::BGT => 4,
        BranchConditions::BLE => 5,
        BranchConditions::BGE => 6,
        BranchConditions::OTH => 7,
    }
}

/// The branch kind a condition nibble denotes; values past the enumeration
/// collapse to `OTH`.
pub fn branch_of(code: u64) -> (c: BranchConditions)
    ensures
        code <= 6 ==> branch_code(c) == code,
        code > 6 ==> c == BranchConditions::OTH,
        c == branch_of_code(code as nat),
{
    match code {
        0 => BranchConditions::B,
        1 => BranchConditions::BEQ,
        2 => BranchConditions::BNE,
        3 => BranchConditions::BLT,
        4 => BranchConditions::BGT,
        5 => BranchConditions::BLE,
        6 => BranchConditions::BGE,
        _ => BranchConditions::OTH,
    }
}

/// Parsed Instruction Object: the intermediate form between one source line
/// and its 64-bit word.
#[derive(Clone)]
pub struct ParsedInstruction {
    pub instr_type: InstrType,
    pub branch_condition: BranchConditions,
    pub addr: [bool; 48],
    pub return_register: [bool; 4],
    pub reg_0: bool,
    pub reg_1: bool,
    pub ascii: bool,
    pub input_val_0: [bool; 16],
    pub input_val_1: [bool; 16],
}

impl ParsedInstruction {
    /// Every field back to its rest value.
    pub open spec fn is_cleared(self) -> bool {
        &&& self.instr_type == InstrType::OTH
        &&& self.branch_condition == BranchConditions::OTH
        &&& self.addr@ == zero_bits(48)
        &&& self.return_register@ == zero_bits(4)
        &&& !self.reg_0
        &&& !self.reg_1
        &&& !self.ascii
        &&& self.input_val_0@ == zero_bits(16)
        &&& self.input_val_1@ == zero_bits(16)
    }

    pub fn clear(&mut self)
        ensures
            final(self).is_cleared(),
    {
        self.instr_type = InstrType::OTH;
        self.branch_condition = BranchConditions::OTH;
        self.addr = [false; 48];
        self.return_register = [false; 4];
        self.reg_0 = false;
        self.reg_1 = false;
        self.ascii = false;
        self.input_val_0 = [false; 16];
        self.input_val_1 = [false; 16];
        proof {
            assert(final(self).addr@ =~= zero_bits(48));
            assert(final(self).return_register@ =~= zero_bits(4));
            assert(final(self).input_val_0@ =~= zero_bits(16));
            assert(final(self).input_val_1@ =~= zero_bits(16));
        }
    }
}

impl Default for ParsedInstruction {
    fn default() -> (r: Self)
        ensures
            r.is_cleared(),
    {
        let r = ParsedInstruction {
            instr_type: InstrType::OTH,
            branch_condition: BranchConditions::OTH,
            addr: [false; 48],
            return_register: [false; 4],
            reg_0: false,
            reg_1: false,
            ascii: false,
            input_val_0: [false; 16],
            input_val_1: [false; 16],
        };
        proof {
            assert(r.addr@ =~= zero_bits(48));
            assert(r.return_register@ =~= zero_bits(4));
            assert(r.input_val_0@ =~= zero_bits(16));
            assert(r.input_val_1@ =~= zero_bits(16));
        }
        r
    }
}


use vstd::string::StrSliceExecFns;
use vstd::arithmetic::power2::pow2;
use vstd::arithmetic::power2::lemma2_to64;

/// The characters of a string, one by one.
pub fn chars_of(s: &str) -> (v: Vec<char>)
    ensures
        v@ == s@,
{
    let n = s.unicode_len();
    let mut v: Vec<char> = Vec::new();
    let mut i: usize = 0;
    while i < n
        invariant
            i <= n,
            n == s@.len(),
            v@.len() == i,
            forall|j: int| 0 <= j < i ==> v@[j] == s@[j],
        decreases n - i,
    {
        v.push(s.get_char(i));
        i = i + 1;
    }
    proof {
        assert(v@ =~= s@);
    }
    v
}

/// Whether a character vector spells the given string.
pub fn tok_eq(t: &Vec<char>, s: &str) -> (r: bool)
    ensures
        r == (t@ == s@),
{
    let n = s.unicode_len();
    if t.len() != n {
        proof {
            assert(t@ != s@);
        }
        return false;
    }
    let mut i: usize = 0;
    while i < n
        invariant
            i <= n,
            n == s@.len() == t@.len(),
            forall|j: int| 0 <= j < i ==> t@[j] == s@[j],
        decreases n - i,
    {
        if t[i] != s.get_char(i) {
            proof {
                assert(t@ != s@);
            }
            return false;
        }
        i = i + 1;
    }
    proof {
        assert(t@ =~= s@);
    }
    true
}

/// Index of the first space, or -1.
pub open spec fn idx_of_space(s: Seq<char>) -> int
    decreases s.len(),
{
    if s.len() == 0 {
        -1
    } else if s[0] == ' ' {
        0
    } else if idx_of_space(s.subrange(1, s.len() as int)) == -1 {
        -1
    } else {
        idx_of_space(s.subrange(1, s.len() as int)) + 1
    }
}

pub proof fn lemma_idx_of_space_at(s: Seq<char>, i: int)
    requires
        -1 <= i,
        i == -1 ==> forall|j: int| 0 <= j < s.len() ==> s[j] != ' ',
        i >= 0 ==> i < s.len() && s[i] == ' ' && forall|j: int| 0 <= j < i ==> s[j] != ' ',
    ensures
        idx_of_space(s) == i,
    decreases s.len(),
{
    if s.len() > 0 && !(i == 0) {
        let t = s.subrange(1, s.len() as int);
        assert(forall|j: int| 0 <= j < t.len() ==> t[j] == s[j + 1]);
        if i == -1 {
            lemma_idx_of_space_at(t, -1);
        } else {
            lemma_idx_of_space_at(t, i - 1);
        }
    }
}

/// The `n`-th token of a line whose tokens are separated by single spaces;
/// a token past the end reads as empty.
pub open spec fn token_at(s: Seq<char>, n: nat) -> Seq<char>
    decreases s.len(), n,
{
    let i = idx_of_space(s);
    if n == 0 {
        if i == -1 {
            s
        } else {
            s.subrange(0, i)
        }
    } else {
        if 0 <= i < s.len() {
            token_at(s.subrange(i + 1, s.len() as int), (n - 1) as nat)
        } else {
            Seq::empty()
        }
    }
}

/// Finds the first space of a character vector, as `idx_of_space` does.
fn find_space(chars: &Vec<char>) -> (r: Option<usize>)
    ensures
        r is Some ==> idx_of_space(chars@) == r->Some_0 && r->Some_0 < chars@.len(),
        r is None ==> idx_of_space(chars@) == -1,
{
    let n = chars.len();
    let mut i: usize = 0;
    while i < n
        invariant
            i <= n,
            n == chars@.len(),
            forall|j: int| 0 <= j < i ==> chars@[j] != ' ',
        decreases n - i,
    {
        if chars[i] == ' ' {
            proof {
                lemma_idx_of_space_at(chars@, i as int);
            }
            return Some(i);
        }
        i = i + 1;
    }
    proof {
        lemma_idx_of_space_at(chars@, -1);
    }
    None
}

/// The `n`-th space-separated token of the line.
pub fn nth_token(chars: &Vec<char>, n: usize) -> (t: Vec<char>)
    ensures
        t@ == token_at(chars@, n as nat),
    decreases chars@.len(), n,
{
    let sp = find_space(chars);
    if n == 0 {
        match sp {
            None => {
                let mut out: Vec<char> = Vec::new();
                let mut i: usize = 0;
                let len = chars.len();
                while i < len
                    invariant
                        i <= len,
                        len == chars@.len(),
                        out@.len() == i,
                        forall|j: int| 0 <= j < i ==> out@[j] == chars@[j],
                    decreases len - i,
                {
                    out.push(chars[i]);
                    i = i + 1;
                }
                proof {
                    assert(out@ =~= chars@);
                }
                out
            },
            Some(i) => {
                let mut out: Vec<char> = Vec::new();
                let mut j: usize = 0;
                while j < i
                    invariant
                        j <= i,
                        i < chars@.len(),
                        out@.len() == j,
                        forall|a: int| 0 <= a < j ==> out@[a] == chars@[a],
                    decreases i - j,
                {
                    out.push(chars[j]);
                    j = j + 1;
                }
                proof {
                    assert(out@ =~= chars@.subrange(0, i as int));
                }
                out
            },
        }
    } else {
        match sp {
            None => {
                let out: Vec<char> = Vec::new();
                proof {
                    assert(out@ =~= Seq::<char>::empty());
                }
                out
            },
            Some(i) => {
                let mut rest: Vec<char> = Vec::new();
                let len = chars.len();
                let mut j: usize = i + 1;
                while j < len
                    invariant
                        i + 1 <= j <= len,
                        len == chars@.len(),
                        rest@.len() == j - i - 1,
                        forall|a: int| 0 <= a < j - i - 1 ==> rest@[a] == chars@[a + i + 1],
                    decreases len - j,
                {
                    rest.push(chars[j]);
                    j = j + 1;
                }
                proof {
                    assert(rest@ =~= chars@.subrange(i as int + 1, chars@.len() as int));
                }
                nth_token(&rest, n - 1)
            },
        }
    }
}

/// Whether a character is an operand marker the parser drops: the register
/// prefix `R`, the literal prefix `#`, or a separating comma.
pub open spec fn is_mark(c: char) -> bool {
    c == 'R' || c == '#' || c == ','
}

/// The token with every operand marker removed.
pub open spec fn strip_marks(s: Seq<char>) -> Seq<char>
    decreases s.len(),
{
    if s.len() == 0 {
        Seq::empty()
    } else if is_mark(s.last()) {
        strip_marks(s.drop_last())
    } else {
        strip_marks(s.drop_last()).push(s.last())
    }
}

/// Removes the operand markers `R`, `#` and `,` from a token.
pub fn strip_marks_exec(t: &Vec<char>) -> (r: Vec<char>)
    ensures
        r@ == strip_marks(t@),
{
    let mut out: Vec<char> = Vec::new();
    let mut i: usize = 0;
    let n = t.len();
    proof {
        assert(t@.subrange(0, 0) =~= Seq::<char>::empty());
    }
    while i < n
        invariant
            i <= n,
            n == t@.len(),
            out@ == strip_marks(t@.subrange(0, i as int)),
        decreases n - i,
    {
        let c = t[i];
        proof {
            let pre = t@.subrange(0, i as int + 1);
            assert(pre.drop_last() =~= t@.subrange(0, i as int));
            assert(pre.last() == t@[i as int]);
        }
        if c != 'R' && c != '#' && c != ',' {
            out.push(c);
        }
        i = i + 1;
    }
    proof {
        assert(t@.subrange(0, n as int) =~= t@);
    }
    out
}

/// Whether every character is a decimal digit.
pub open spec fn all_digits(s: Seq<char>) -> bool {
    forall|i: int| 0 <= i < s.len() ==> '0' <= #[trigger] s[i] <= '9'
}

/// The number a string of decimal digits denotes.
pub open spec fn dec_val(s: Seq<char>) -> nat
    decreases s.len(),
{
    if s.len() == 0 {
        0
    } else {
        dec_val(s.drop_last()) * 10 + (if '0' <= s.last() <= '9' {
            (s.last() as int - 48) as nat
        } else {
            0
        })
    }
}

/// A prefix of a digit string never reads above the whole string.
pub proof fn lemma_dec_val_prefix(s: Seq<char>, j: int)
    requires
        0 <= j <= s.len(),
    ensures
        dec_val(s.subrange(0, j)) <= dec_val(s),
    decreases s.len() - j,
{
    if j < s.len() {
        lemma_dec_val_prefix(s, j + 1);
        let p1 = s.subrange(0, j + 1);
        assert(p1.drop_last() =~= s.subrange(0, j));
    } else {
        assert(s.subrange(0, j) =~= s);
    }
}

/// Reads an unsigned decimal token; empty tokens, non-digits and values
/// past the 64-bit range read as nothing.
pub fn parse_digits(t: &Vec<char>) -> (r: Option<u64>)
    ensures
        r is Some <==> t@.len() >= 1 && all_digits(t@) && dec_val(t@) <= 0xffffffffffffffff,
        r is Some ==> r->Some_0 == dec_val(t@),
{
    let n = t.len();
    if n == 0 {
        return None;
    }
    let mut acc: u64 = 0;
    let mut i: usize = 0;
    proof {
        assert(t@.subrange(0, 0) =~= Seq::<char>::empty());
    }
    while i < n
        invariant
            i <= n,
            n == t@.len(),
            acc == dec_val(t@.subrange(0, i as int)),
            forall|j: int| 0 <= j < i ==> '0' <= #[trigger] t@[j] <= '9',
        decreases n - i,
    {
        let c = t[i];
        if c < '0' || c > '9' {
            return None;
        }
        let d: u64 = (c as u32 - 48) as u64;
        proof {
            let pre = t@.subrange(0, i as int + 1);
            assert(pre.drop_last() =~= t@.subrange(0, i as int));
            assert(pre.last() == t@[i as int]);
        }
        if acc > (u64::MAX - d) / 10 {
            // The token reads past the 64-bit range.
            proof {
                lemma_dec_val_prefix(t@, i as int + 1);
            }
            return None;
        }
        acc = acc * 10 + d;
        i = i + 1;
    }
    proof {
        assert(t@.subrange(0, n as int) =~= t@);
    }
    Some(acc)
}

/// Reads a signed decimal token: an optional minus sign, then digits, over
/// the whole signed 64-bit range.
pub fn parse_signed(t: &Vec<char>) -> (r: Option<i64>)
    ensures
        r is Some && t@.len() > 0 && t@[0] == '-' ==> r->Some_0 as int == -(dec_val(
            t@.subrange(1, t@.len() as int),
        ) as int),
        r is Some && !(t@.len() > 0 && t@[0] == '-') ==> r->Some_0 as int == dec_val(t@) as int,
        t@.len() > 0 && t@[0] == '-' ==> (r is Some <==> t@.len() >= 2 && all_digits(
            t@.subrange(1, t@.len() as int),
        ) && dec_val(t@.subrange(1, t@.len() as int)) <= 0x8000000000000000),
        !(t@.len() > 0 && t@[0] == '-') ==> (r is Some <==> t@.len() >= 1 && all_digits(t@)
            && dec_val(t@) <= 0x7fffffffffffffff),
{
    let n = t.len();
    if n > 0 && t[0] == '-' {
        let mut rest: Vec<char> = Vec::new();
        let mut j: usize = 1;
        while j < n
            invariant
                1 <= j <= n,
                n == t@.len(),
                rest@.len() == j - 1,
                forall|a: int| 0 <= a < j - 1 ==> rest@[a] == t@[a + 1],
            decreases n - j,
        {
            rest.push(t[j]);
            j = j + 1;
        }
        proof {
            assert(rest@ =~= t@.subrange(1, t@.len() as int));
        }
        match parse_digits(&rest) {
            Some(v) => {
                if v <= 0x8000000000000000 {
                    if v == 0x8000000000000000 {
                        Some(i64::MIN)
                    } else {
                        Some(-(v as i64))
                    }
                } else {
                    None
                }
            },
            None => None,
        }
    } else {
        match parse_digits(t) {
            Some(v) => {
                if v <= 0x7fffffffffffffff {
                    Some(v as i64)
                } else {
                    None
                }
            },
            None => None,
        }
    }
}


/// The semantic content of a parsed instruction, with every bit field read
/// as a sequence.
pub ghost struct ParsedView {
    pub instr_type: InstrType,
    pub branch_condition: BranchConditions,
    pub addr: Seq<bool>,
    pub return_register: Seq<bool>,
    pub reg_0: bool,
    pub reg_1: bool,
    pub ascii: bool,
    pub input_val_0: Seq<bool>,
    pub input_val_1: Seq<bool>,
}

impl ParsedInstruction {
    /// The instruction's semantic fields.
    pub open spec fn model(self) -> ParsedView {
        ParsedView {
            instr_type: self.instr_type,
            branch_condition: self.branch_condition,
            addr: self.addr@,
            return_register: self.return_register@,
            reg_0: self.reg_0,
            reg_1: self.reg_1,
            ascii: self.ascii,
            input_val_0: self.input_val_0@,
            input_val_1: self.input_val_1@,
        }
    }
}

/// The view of a freshly cleared instruction.
pub open spec fn cleared_view() -> ParsedView {
    ParsedView {
        instr_type: InstrType::OTH,
        branch_condition: BranchConditions::OTH,
        addr: zero_bits(48),
        return_register: zero_bits(4),
        reg_0: false,
        reg_1: false,
        ascii: false,
        input_val_0: zero_bits(16),
        input_val_1: zero_bits(16),
    }
}

/// The instruction type the mnemonic token of a line names; a first token
/// that starts with `B` without being a listed mnemonic is a branch, and
/// anything else is `OTH`.
pub open spec fn spec_instr_type(s: Seq<char>) -> InstrType {
    let t0 = token_at(s, 0);
    if t0 == "ADD"@ {
        InstrType::ADD
    } else if t0 == "SUB"@ {
        InstrType::SUB
    } else if t0 == "MULT"@ {
        InstrType::MULT
    } else if t0 == "LDR"@ {
        InstrType::LDR
    } else if t0 == "STR"@ {
        InstrType::STR
    } else if t0 == "HLT"@ {
        InstrType::HLT
    } else if t0 == "OUT"@ {
        InstrType::OUT
    } else if t0 == "CMP"@ {
        InstrType::CMP
    } else if t0 == "AND"@ {
        InstrType::AND
    } else if t0 == "OR"@ {
        InstrType::OR
    } else if t0 == "XOR"@ {
        InstrType::XOR
    } else if t0 == "NOT"@ {
        InstrType::NOT
    } else if t0 == "FLIP"@ {
        InstrType::FLIP
    } else if t0.len() > 0 && t0[0] == 'B' {
        InstrType::B
    } else {
        InstrType::OTH
    }
}

/// The branch condition the mnemonic token names.
pub open spec fn spec_branch_cond(s: Seq<char>) -> BranchConditions {
    let t0 = token_at(s, 0);
    if t0 == "B"@ {
        BranchConditions::B
    } else if t0 == "BEQ"@ {
        BranchConditions::BEQ
    } else if t0 == "BNE"@ {
        BranchConditions::BNE
    } else if t0 == "BLT"@ {
        BranchConditions::BLT
    } else if t0 == "BGT"@ {
        BranchConditions::BGT
    } else if t0 == "BLE"@ {
        BranchConditions::BLE
    } else if t0 == "BGE"@ {
        BranchConditions::BGE
    } else {
        BranchConditions::OTH
    }
}

/// Whether a register-number token (its markers dropped) parses, within the
/// given bound.
pub open spec fn tok_reg_ok(t: Seq<char>, bound: nat) -> bool {
    let d = strip_marks(t);
    d.len() >= 1 && all_digits(d) && dec_val(d) <= bound
}

/// The register number a token denotes.
pub open spec fn tok_reg_val(t: Seq<char>) -> nat {
    dec_val(strip_marks(t))
}

/// Whether a literal token parses as a signed 16-bit value.
pub open spec fn tok_lit_ok(t: Seq<char>) -> bool {
    let d = strip_marks(t);
    if d.len() > 0 && d[0] == '-' {
        d.len() >= 2 && all_digits(d.subrange(1, d.len() as int)) && dec_val(
            d.subrange(1, d.len() as int),
        ) <= 32768
    } else {
        d.len() >= 1 && all_digits(d) && dec_val(d) <= 32767
    }
}

/// The signed value a literal token denotes.
pub open spec fn tok_lit_val(t: Seq<char>) -> int {
    let d = strip_marks(t);
    if d.len() > 0 && d[0] == '-' {
        -(dec_val(d.subrange(1, d.len() as int)) as int)
    } else {
        dec_val(d) as int
    }
}

/// The 16-bit two's-complement field of a literal's value.
pub open spec fn lit_bits(v: int) -> Seq<bool> {
    bits_of((v % 65536) as nat, 16)
}

/// The 48-bit address a hex token denotes, its first character skipped.
pub open spec fn tok_addr_bits(t: Seq<char>) -> Seq<bool> {
    bits_of(hex_val(t.subrange(1, t.len() as int)), 48)
}

/// What one source line parses to: the intermediate form of its instruction,
/// or a cleared record when any of its operands is malformed.
pub open spec fn spec_parse_line(s: Seq<char>) -> ParsedView {
    let t = spec_instr_type(s);
    match t {
        InstrType::ADD | InstrType::SUB | InstrType::MULT | InstrType::AND | InstrType::OR
            | InstrType::XOR => {
            let t1 = token_at(s, 1);
            let t2 = token_at(s, 2);
            let t3 = token_at(s, 3);
            if tok_reg_ok(t1, 255) && tok_lit_ok(t2) && tok_lit_ok(t3) {
                ParsedView {
                    instr_type: t,
                    branch_condition: BranchConditions::OTH,
                    addr: zero_bits(48),
                    return_register: bits_of(tok_reg_val(t1), 4),
                    reg_0: t2[0] != '#',
                    reg_1: t3[0] != '#',
                    ascii: false,
                    input_val_0: lit_bits(tok_lit_val(t2)),
                    input_val_1: lit_bits(tok_lit_val(t3)),
                }
            } else {
                cleared_view()
            }
        },
        InstrType::NOT | InstrType::FLIP => {
            let t1 = token_at(s, 1);
            let t2 = token_at(s, 2);
            if tok_reg_ok(t1, 255) && tok_lit_ok(t2) {
                ParsedView {
                    instr_type: t,
                    branch_condition: BranchConditions::OTH,
                    addr: zero_bits(48),
                    return_register: bits_of(tok_reg_val(t1), 4),
                    reg_0: t2[0] != '#',
                    reg_1: false,
                    ascii: false,
                    input_val_0: lit_bits(tok_lit_val(t2)),
                    input_val_1: zero_bits(16),
                }
            } else {
                cleared_view()
            }
        },
        InstrType::CMP => {
            let t1 = token_at(s, 1);
            let t2 = token_at(s, 2);
            if tok_lit_ok(t1) && tok_lit_ok(t2) {
                ParsedView {
                    instr_type: t,
                    branch_condition: BranchConditions::OTH,
                    addr: zero_bits(48),
                    return_register: zero_bits(4),
                    reg_0: t1[0] != '#',
                    reg_1: t2[0] != '#',
                    ascii: false,
                    input_val_0: lit_bits(tok_lit_val(t1)),
                    input_val_1: lit_bits(tok_lit_val(t2)),
                }
            } else {
                cleared_view()
            }
        },
        InstrType::LDR | InstrType::STR => {
            let t1 = token_at(s, 1);
            let t2 = token_at(s, 2);
            if tok_reg_ok(t1, 0x7fffffff) && t2.len() >= 1 {
                ParsedView {
                    instr_type: t,
                    branch_condition: BranchConditions::OTH,
                    addr: tok_addr_bits(t2),
                    return_register: bits_of(tok_reg_val(t1), 4),
                    reg_0: false,
                    reg_1: false,
                    ascii: false,
                    input_val_0: zero_bits(16),
                    input_val_1: zero_bits(16),
                }
            } else {
                cleared_view()
            }
        },
        InstrType::B => {
            let t1 = token_at(s, 1);
            if t1.len() >= 1 {
                ParsedView {
                    instr_type: t,
                    branch_condition: spec_branch_cond(s),
                    addr: tok_addr_bits(t1),
                    return_register: zero_bits(4),
                    reg_0: false,
                    reg_1: false,
                    ascii: false,
                    input_val_0: zero_bits(16),
                    input_val_1: zero_bits(16),
                }
            } else {
                cleared_view()
            }
        },
        InstrType::OUT => {
            let t1 = token_at(s, 1);
            let t2 = token_at(s, 2);
            if t1.len() >= 1 && t2.len() >= 2 && tok_reg_ok(t2.subrange(1, t2.len() as int),
                0xffffffffffffffff) {
                ParsedView {
                    instr_type: t,
                    branch_condition: BranchConditions::OTH,
                    addr: zero_bits(48),
                    return_register: bits_of(
                        dec_val(strip_marks(t2.subrange(1, t2.len() as int))),
                        4,
                    ),
                    reg_0: false,
                    reg_1: false,
                    ascii: t1[0] == 'A',
                    input_val_0: zero_bits(16),
                    input_val_1: zero_bits(16),
                }
            } else {
                cleared_view()
            }
        },
        InstrType::HLT => {
            ParsedView { instr_type: InstrType::HLT, ..cleared_view() }
        },
        InstrType::OTH => cleared_view(),
    }
}


/// Dropping markers never lengthens a token.
pub proof fn lemma_strip_len(t: Seq<char>)
    ensures
        strip_marks(t).len() <= t.len(),
    decreases t.len(),
{
    if t.len() > 0 {
        lemma_strip_len(t.drop_last());
    }
}

/// A 16-bit field of a number.
fn field16(v: u64) -> (r: [bool; 16])
    requires
        v < 65536,
    ensures
        r@ == bits_of(v as nat, 16),
{
    proof {
        lemma_bits_of_u_val(v as nat, 16);
        lemma2_to64();
    }
    let bits = Converter::dec_to_bin_pos_only(v, 16);
    let mut out: [bool; 16] = [false; 16];
    let mut i: usize = 0;
    while i < 16
        invariant
            i <= 16,
            bits@.len() == 16,
            forall|j: int| 0 <= j < i ==> out@[j] == bits@[j],
        decreases 16 - i,
    {
        out[i] = bits[i];
        i = i + 1;
    }
    proof {
        assert(out@ =~= bits@);
        lemma_u_val_injective(out@, bits_of(v as nat, 16));
    }
    out
}

/// Reads a register-number token, enforcing the given bound.
fn read_reg(t: &Vec<char>, bound: u64) -> (r: Option<u64>)
    ensures
        r is Some <==> tok_reg_ok(t@, bound as nat),
        r is Some ==> r->Some_0 == tok_reg_val(t@),
{
    let d = strip_marks_exec(t);
    match parse_digits(&d) {
        Some(v) => {
            if v <= bound {
                Some(v)
            } else {
                None
            }
        },
        None => None,
    }
}

/// Reads a literal token as a signed 16-bit value.
fn read_lit(t: &Vec<char>) -> (r: Option<i64>)
    ensures
        r is Some <==> tok_lit_ok(t@),
        r is Some ==> r->Some_0 as int == tok_lit_val(t@) && -32768 <= r->Some_0 <= 32767,
{
    let d = strip_marks_exec(t);
    match parse_signed(&d) {
        Some(v) => {
            if -32768 <= v && v <= 32767 {
                Some(v)
            } else {
                None
            }
        },
        None => None,
    }
}

/// The 16-bit two's-complement pattern of a literal's value.
fn lit_field(v: i64) -> (r: [bool; 16])
    requires
        -32768 <= v <= 32767,
    ensures
        r@ == lit_bits(v as int),
{
    let x: u64 = if v >= 0 {
        v as u64
    } else {
        (65536 + v) as u64
    };
    proof {
        assert(x as int == (v as int) % 65536);
    }
    field16(x)
}

/// Hexadecimal reading of a hex token is below 2^(4 len).
pub proof fn lemma_hex_val_bound(s: Seq<char>)
    ensures
        hex_val(s) < pow2(4 * s.len()),
    decreases s.len(),
{
    vstd::arithmetic::power2::lemma_pow2_pos(4 * s.len());
    if s.len() == 0 {
        lemma2_to64();
    } else {
        let t = s.subrange(1, s.len() as int);
        lemma_hex_val_bound(t);
        let p = pow2(4 * (s.len() - 1) as nat);
        vstd::arithmetic::power2::lemma_pow2_adds(4, 4 * (s.len() - 1) as nat);
        lemma2_to64();
        assert(hex_val(s) == hex_char_val(s[0]) * p + hex_val(t));
        assert(hex_char_val(s[0]) * p <= 15 * p) by (nonlinear_arith)
            requires
                hex_char_val(s[0]) <= 15,
                p >= 1,
        ;
        assert(16 * p == pow2(4 * s.len()));
    }
}

/// The bits of a hexadecimal character vector, rightmost character lowest.
pub fn hex_chars_to_bin(t: &Vec<char>) -> (r: Vec<bool>)
    ensures
        r@.len() == 4 * t@.len(),
        u_val(r@) == hex_val(t@),
{
    let n = t.len();
    let mut out: Vec<bool> = Vec::new();
    let mut k: usize = 0;
    while k < n
        invariant
            k <= n,
            n == t@.len(),
            out@.len() == 4 * k,
            u_val(out@) == hex_val(t@.subrange((n - k) as int, n as int)),
        decreases n - k,
    {
        let c = t[n - 1 - k];
        let cb = Converter::hex_char_to_bin(c);
        let ghost before = out@;
        out.push(cb[0]);
        out.push(cb[1]);
        out.push(cb[2]);
        out.push(cb[3]);
        proof {
            assert(out@ =~= before + cb@);
            crate::bits::lemma_u_val_append(before, cb@);
            let suf2 = t@.subrange((n - k - 1) as int, n as int);
            assert(suf2.subrange(1, suf2.len() as int) =~= t@.subrange((n - k) as int, n as int));
            assert(suf2[0] == t@[(n - k - 1) as int]);
            assert(4 * (suf2.len() - 1) as nat == before.len());
            crate::converter::lemma_hex_val_unfold(suf2);
            assert(u_val(out@) == u_val(before) + pow2(before.len()) * u_val(cb@));
            assert(u_val(cb@) == hex_char_val(t@[(n - k - 1) as int]));
            assert(hex_char_val(suf2[0]) == u_val(cb@));
            assert(hex_char_val(suf2[0]) * pow2(before.len()) == pow2(before.len()) * u_val(cb@))
                by (nonlinear_arith)
                requires
                    hex_char_val(suf2[0]) == u_val(cb@),
            ;
            assert(u_val(out@) == hex_val(suf2));
            assert(t@.subrange((n - (k + 1)) as int, n as int) == suf2);
        }
        k = k + 1;
    }
    proof {
        assert(t@.subrange((n - k) as int, n as int) =~= t@);
    }
    out
}

/// The 48-bit address field of a hex token, its first character skipped.
fn addr_field(t: &Vec<char>) -> (r: [bool; 48])
    requires
        t@.len() >= 1,
    ensures
        r@ == tok_addr_bits(t@),
{
    let n = t.len();
    let mut rest: Vec<char> = Vec::new();
    let mut j: usize = 1;
    while j < n
        invariant
            1 <= j <= n,
            n == t@.len(),
            rest@.len() == j - 1,
            forall|a: int| 0 <= a < j - 1 ==> rest@[a] == t@[a + 1],
        decreases n - j,
    {
        rest.push(t[j]);
        j = j + 1;
    }
    proof {
        assert(rest@ =~= t@.subrange(1, t@.len() as int));
    }
    let ghost rv = rest@;
    let hv = hex_chars_to_bin(&rest);
    let ghost hbits = hv@;
    let sized = Converter::set_size(hv, 48);
    proof {
        lemma_hex_val_bound(rv);
        lemma_bits_of_u_val(hex_val(rv), 48);
        vstd::arithmetic::power2::lemma_pow2_pos(48);
        if hbits.len() >= 48 {
            crate::bits::lemma_u_val_truncate(hbits, 48);
        } else {
            crate::bits::lemma_u_val_zero_extend(hbits, (48 - hbits.len()) as nat);
            if 4 * rv.len() < 48 {
                vstd::arithmetic::power2::lemma_pow2_strictly_increases(4 * rv.len(), 48);
            }
            vstd::arithmetic::div_mod::lemma_small_mod(hex_val(rv), pow2(48));
        }
    }
    let mut out: [bool; 48] = [false; 48];
    let mut i: usize = 0;
    while i < 48
        invariant
            i <= 48,
            sized@.len() == 48,
            forall|a: int| 0 <= a < i ==> out@[a] == sized@[a],
        decreases 48 - i,
    {
        out[i] = sized[i];
        i = i + 1;
    }
    proof {
        assert(out@ =~= sized@);
        lemma_u_val_injective(out@, bits_of(hex_val(rv), 48));
    }
    out
}

/// Convert a line from the instruction input file first into an intermediate
/// representation (ParsedInstruction), then into binary.
pub struct Assembler {}

impl Assembler {
    /// The instruction type of a source line's mnemonic.
    pub fn get_type(&self, line: String) -> (t: InstrType)
        ensures
            t == spec_instr_type(line@),
    {
        let chars = chars_of(line.as_str());
        type_of_chars(&chars)
    }

    /// The branch condition of a source line's mnemonic.
    pub fn get_condition(&self, line: String) -> (c: BranchConditions)
        ensures
            c == spec_branch_cond(line@),
    {
        let chars = chars_of(line.as_str());
        cond_of_chars(&chars)
    }

    /// Converts a line into the intermediate representation; a malformed
    /// operand clears the whole record to `OTH`.
    pub fn parse_line_data(&mut self, line: String) -> (r: ParsedInstruction)
        ensures
            r.model() == spec_parse_line(line@),
    {
        let chars = chars_of(line.as_str());
        let mut parsed_instr = ParsedInstruction::default();
        let type_val = type_of_chars(&chars);
        match type_val {
            InstrType::ADD | InstrType::SUB | InstrType::MULT | InstrType::AND | InstrType::OR
                | InstrType::XOR => {
                let t1 = nth_token(&chars, 1);
                let t2 = nth_token(&chars, 2);
                let t3 = nth_token(&chars, 3);
                let rr = read_reg(&t1, 255);
                let v0 = read_lit(&t2);
                let v1 = read_lit(&t3);
                if rr.is_some() && v0.is_some() && v1.is_some() {
                    proof {
                        lemma_strip_len(t2@);
                        lemma_strip_len(t3@);
                    }
                    parsed_instr.instr_type = type_val;
                    parsed_instr.return_register = field4_mod(rr.unwrap());
                    parsed_instr.input_val_0 = lit_field(v0.unwrap());
                    parsed_instr.reg_0 = t2[0] != '#';
                    parsed_instr.input_val_1 = lit_field(v1.unwrap());
                    parsed_instr.reg_1 = t3[0] != '#';
                }
            },
            InstrType::NOT | InstrType::FLIP => {
                let t1 = nth_token(&chars, 1);
                let t2 = nth_token(&chars, 2);
                let rr = read_reg(&t1, 255);
                let v0 = read_lit(&t2);
                if rr.is_some() && v0.is_some() {
                    proof {
                        lemma_strip_len(t2@);
                    }
                    parsed_instr.instr_type = type_val;
                    parsed_instr.return_register = field4_mod(rr.unwrap());
                    parsed_instr.input_val_0 = lit_field(v0.unwrap());
                    parsed_instr.reg_0 = t2[0] != '#';
                }
            },
            InstrType::CMP => {
                let t1 = nth_token(&chars, 1);
                let t2 = nth_token(&chars, 2);
                let v0 = read_lit(&t1);
                let v1 = read_lit(&t2);
                if v0.is_some() && v1.is_some() {
                    proof {
                        lemma_strip_len(t1@);
                        lemma_strip_len(t2@);
                    }
                    parsed_instr.instr_type = type_val;
                    parsed_instr.input_val_0 = lit_field(v0.unwrap());
                    parsed_instr.reg_0 = t1[0] != '#';
                    parsed_instr.input_val_1 = lit_field(v1.unwrap());
                    parsed_instr.reg_1 = t2[0] != '#';
                }
            },
            InstrType::LDR | InstrType::STR => {
                let t1 = nth_token(&chars, 1);
                let t2 = nth_token(&chars, 2);
                let rr = read_reg(&t1, 0x7fffffff);
                if rr.is_some() && t2.len() >= 1 {
                    parsed_instr.instr_type = type_val;
                    parsed_instr.addr = addr_field(&t2);
                    parsed_instr.return_register = field4_mod(rr.unwrap());
                }
            },
            InstrType::B => {
                let t1 = nth_token(&chars, 1);
                if t1.len() >= 1 {
                    parsed_instr.instr_type = type_val;
                    parsed_instr.branch_condition = cond_of_chars(&chars);
                    parsed_instr.addr = addr_field(&t1);
                }
            },
            InstrType::OUT => {
                let t1 = nth_token(&chars, 1);
                let t2 = nth_token(&chars, 2);
                if t1.len() >= 1 && t2.len() >= 2 {
                    let n2 = t2.len();
                    let mut sub: Vec<char> = Vec::new();
                    let mut j: usize = 1;
                    while j < n2
                        invariant
                            1 <= j <= n2,
                            n2 == t2@.len(),
                            sub@.len() == j - 1,
                            forall|a: int| 0 <= a < j - 1 ==> sub@[a] == t2@[a + 1],
                        decreases n2 - j,
                    {
                        sub.push(t2[j]);
                        j = j + 1;
                    }
                    proof {
                        assert(sub@ =~= t2@.subrange(1, t2@.len() as int));
                    }
                    let rr = read_reg(&sub, 0xffffffffffffffff);
                    if rr.is_some() {
                        parsed_instr.instr_type = type_val;
                        parsed_instr.ascii = t1[0] == 'A';
                        parsed_instr.return_register = field4_mod(rr.unwrap());
                    }
                }
            },
            InstrType::HLT => {
                parsed_instr.instr_type = InstrType::HLT;
            },
            InstrType::OTH => {},
        }
        parsed_instr
    }
}

/// The instruction type of a tokenized line.
fn type_of_chars(chars: &Vec<char>) -> (t: InstrType)
    ensures
        t == spec_instr_type(chars@),
{
    let t0 = nth_token(chars, 0);
    if tok_eq(&t0, "ADD") {
        InstrType::ADD
    } else if tok_eq(&t0, "SUB") {
        InstrType::SUB
    } else if tok_eq(&t0, "MULT") {
        InstrType::MULT
    } else if tok_eq(&t0, "LDR") {
        InstrType::LDR
    } else if tok_eq(&t0, "STR") {
        InstrType::STR
    } else if tok_eq(&t0, "HLT") {
        InstrType::HLT
    } else if tok_eq(&t0, "OUT") {
        InstrType::OUT
    } else if tok_eq(&t0, "CMP") {
        InstrType::CMP
    } else if tok_eq(&t0, "AND") {
        InstrType::AND
    } else if tok_eq(&t0, "OR") {
        InstrType::OR
    } else if tok_eq(&t0, "XOR") {
        InstrType::XOR
    } else if tok_eq(&t0, "NOT") {
        InstrType::NOT
    } else if tok_eq(&t0, "FLIP") {
        InstrType::FLIP
    } else if t0.len() > 0 && t0[0] == 'B' {
        InstrType::B
    } else {
        InstrType::OTH
    }
}

/// The branch condition of a tokenized line.
fn cond_of_chars(chars: &Vec<char>) -> (c: BranchConditions)
    ensures
        c == spec_branch_cond(chars@),
{
    let t0 = nth_token(chars, 0);
    if tok_eq(&t0, "B") {
        BranchConditions::B
    } else if tok_eq(&t0, "BEQ") {
        BranchConditions::BEQ
    } else if tok_eq(&t0, "BNE") {
        BranchConditions::BNE
    } else if tok_eq(&t0, "BLT") {
        BranchConditions::BLT
    } else if tok_eq(&t0, "BGT") {
        BranchConditions::BGT
    } else if tok_eq(&t0, "BLE") {
        BranchConditions::BLE
    } else if tok_eq(&t0, "BGE") {
        BranchConditions::BGE
    } else {
        BranchConditions::OTH
    }
}

/// A 4-bit register field: the number's low four bits.
fn field4_mod(v: u64) -> (r: [bool; 4])
    ensures
        r@ == bits_of(v as nat, 4),
{
    proof {
        lemma_bits_of_u_val(v as nat, 4);
        lemma2_to64();
    }
    let bits = Converter::dec_to_bin_pos_only(v, 4);
    let mut out: [bool; 4] = [false; 4];
    out[0] = bits[0];
    out[1] = bits[1];
    out[2] = bits[2];
    out[3] = bits[3];
    proof {
        assert(out@ =~= bits@);
        assert(u_val(out@) == (v as nat) % pow2(4));
        lemma_u_val_injective(out@, bits_of(v as nat, 4));
    }
    out
}


/// The 64-bit word an instruction packs to, field by field per its type.
pub open spec fn spec_encode(p: ParsedView) -> Seq<bool> {
    let op = bits_of(instr_code(p.instr_type), 4);
    match p.instr_type {
        InstrType::ADD | InstrType::SUB | InstrType::MULT | InstrType::AND | InstrType::OR
            | InstrType::XOR => op + p.return_register + seq![p.reg_0] + p.input_val_0 + seq![
            p.reg_1,
        ] + p.input_val_1 + zero_bits(22),
        InstrType::NOT | InstrType::FLIP => op + p.return_register + seq![p.reg_0]
            + p.input_val_0 + zero_bits(39),
        InstrType::CMP => op + seq![p.reg_0] + p.input_val_0 + seq![p.reg_1] + p.input_val_1
            + zero_bits(26),
        InstrType::LDR | InstrType::STR => op + p.return_register + p.addr + zero_bits(8),
        InstrType::B => op + bits_of(branch_code(p.branch_condition), 4) + seq![p.reg_0] + p.addr
            + zero_bits(7),
        InstrType::OUT => op + p.return_register + seq![p.ascii] + zero_bits(55),
        InstrType::HLT | InstrType::OTH => op + zero_bits(60),
    }
}

/// The instruction type of an opcode value.
pub open spec fn instr_of_code(c: nat) -> InstrType {
    if c == 1 {
        InstrType::ADD
    } else if c == 2 {
        InstrType::SUB
    } else if c == 3 {
        InstrType::B
    } else if c == 4 {
        InstrType::LDR
    } else if c == 5 {
        InstrType::STR
    } else if c == 6 {
        InstrType::HLT
    } else if c == 7 {
        InstrType::OUT
    } else if c == 8 {
        InstrType::MULT
    } else if c == 9 {
        InstrType::CMP
    } else if c == 10 {
        InstrType::AND
    } else if c == 11 {
        InstrType::OR
    } else if c == 12 {
        InstrType::XOR
    } else if c == 13 {
        InstrType::NOT
    } else if c == 14 {
        InstrType::FLIP
    } else {
        InstrType::OTH
    }
}

/// The branch kind of a condition value.
pub open spec fn branch_of_code(c: nat) -> BranchConditions {
    if c == 0 {
        BranchConditions::B
    } else if c == 1 {
        BranchConditions::BEQ
    } else if c == 2 {
        BranchConditions::BNE
    } else if c == 3 {
        BranchConditions::BLT
    } else if c == 4 {
        BranchConditions::BGT
    } else if c == 5 {
        BranchConditions::BLE
    } else if c == 6 {
        BranchConditions::BGE
    } else {
        BranchConditions::OTH
    }
}

/// The intermediate form the control unit's decoder reads out of a 64-bit
/// word, per the same bit layout the encoder writes.
pub open spec fn spec_decode(w: Seq<bool>) -> ParsedView {
    let t = instr_of_code(u_val(w.subrange(0, 4)));
    match t {
        InstrType::ADD | InstrType::SUB | InstrType::MULT | InstrType::AND | InstrType::OR
            | InstrType::XOR => ParsedView {
            instr_type: t,
            return_register: w.subrange(4, 8),
            reg_0: w[8],
            input_val_0: w.subrange(9, 25),
            reg_1: w[25],
            input_val_1: w.subrange(26, 42),
            ..cleared_view()
        },
        InstrType::NOT | InstrType::FLIP => ParsedView {
            instr_type: t,
            return_register: w.subrange(4, 8),
            reg_0: w[8],
            input_val_0: w.subrange(9, 25),
            ..cleared_view()
        },
        InstrType::CMP => ParsedView {
            instr_type: t,
            reg_0: w[4],
            input_val_0: w.subrange(5, 21),
            reg_1: w[21],
            input_val_1: w.subrange(22, 38),
            ..cleared_view()
        },
        InstrType::LDR | InstrType::STR => ParsedView {
            instr_type: t,
            return_register: w.subrange(4, 8),
            addr: w.subrange(8, 56),
            ..cleared_view()
        },
        InstrType::B => ParsedView {
            instr_type: t,
            branch_condition: branch_of_code(u_val(w.subrange(4, 8))),
            reg_0: w[8],
            addr: w.subrange(9, 57),
            ..cleared_view()
        },
        InstrType::OUT => ParsedView {
            instr_type: t,
            return_register: w.subrange(4, 8),
            ascii: w[8],
            ..cleared_view()
        },
        InstrType::HLT => ParsedView { instr_type: t, ..cleared_view() },
        InstrType::OTH => cleared_view(),
    }
}

/// Writes one bit field into a word.
fn put4(out: &mut [bool; 64], start: usize, v: &[bool; 4])
    requires
        start + 4 <= 64,
    ensures
        forall|j: int| 0 <= j < 64 && !(start <= j < start + 4) ==> final(out)@[j] == old(out)@[j],
        final(out)@.subrange(start as int, start as int + 4) == v@,
{
    out[start] = v[0];
    out[start + 1] = v[1];
    out[start + 2] = v[2];
    out[start + 3] = v[3];
    proof {
        assert(out@.subrange(start as int, start as int + 4) =~= v@);
    }
}

/// Writes one 16-bit field into a word.
fn put16(out: &mut [bool; 64], start: usize, v: &[bool; 16])
    requires
        start + 16 <= 64,
    ensures
        forall|j: int| 0 <= j < 64 && !(start <= j < start + 16) ==> final(out)@[j] == old(out)@[j],
        final(out)@.subrange(start as int, start as int + 16) == v@,
{
    let mut i: usize = 0;
    while i < 16
        invariant
            i <= 16,
            start + 16 <= 64,
            forall|j: int| 0 <= j < 64 && !(start <= j < start + i) ==> out@[j] == old(out)@[j],
            forall|j: int| 0 <= j < i ==> out@[start + j] == v@[j],
        decreases 16 - i,
    {
        out[start + i] = v[i];
        i = i + 1;
    }
    proof {
        assert(out@.subrange(start as int, start as int + 16) =~= v@);
    }
}

/// Writes one 48-bit field into a word.
fn put48(out: &mut [bool; 64], start: usize, v: &[bool; 48])
    requires
        start + 48 <= 64,
    ensures
        forall|j: int| 0 <= j < 64 && !(start <= j < start + 48) ==> final(out)@[j] == old(out)@[j],
        final(out)@.subrange(start as int, start as int + 48) == v@,
{
    let mut i: usize = 0;
    while i < 48
        invariant
            i <= 48,
            start + 48 <= 64,
            forall|j: int| 0 <= j < 64 && !(start <= j < start + i) ==> out@[j] == old(out)@[j],
            forall|j: int| 0 <= j < i ==> out@[start + j] == v@[j],
        decreases 48 - i,
    {
        out[start + i] = v[i];
        i = i + 1;
    }
    proof {
        assert(out@.subrange(start as int, start as int + 48) =~= v@);
    }
}

/// The opcode of an instruction type.
pub fn instr_code_exec(t: InstrType) -> (c: u64)
    ensures
        c == instr_code(t),
{
    match t {
        InstrType::OTH => 0,
        InstrType::ADD => 1,
        InstrType::SUB => 2,
        InstrType::B => 3,
        InstrType::LDR => 4,
        InstrType::STR => 5,
        InstrType::HLT => 6,
        InstrType::OUT => 7,
        InstrType::MULT => 8,
        InstrType::CMP => 9,
        InstrType::AND => 10,
        InstrType::OR => 11,
        InstrType::XOR => 12,
        InstrType::NOT => 13,
        InstrType::FLIP => 14,
    }
}

/// The condition nibble of a branch kind.
fn branch_code_exec(c: BranchConditions) -> (r: u64)
    ensures
        r == branch_code(c),
{
    match c {
        BranchConditions::B => 0,
        BranchConditions::BEQ => 1,
        BranchConditions::BNE => 2,
        BranchConditions::BLT => 3,
        BranchConditions::BGT => 4,
        BranchConditions::BLE => 5,
        BranchConditions::BGE => 6,
        BranchConditions::OTH => 7,
    }
}


impl Assembler {
    /// Convert the intermediate representation into its 64-bit word.
    pub fn code_generation(&self, parsed_instruction: ParsedInstruction) -> (r: [bool; 64])
        ensures
            r@ == spec_encode(parsed_instruction.model()),
    {
        let mut return_bits: [bool; 64] = [false; 64];
        let code = instr_code_exec(parsed_instruction.instr_type);
        let instr_nibble = field4_mod(code);
        put4(&mut return_bits, 0, &instr_nibble);
        proof {
            assert(forall|j: int| 4 <= j < 64 ==> !return_bits@[j]);
        }
        match parsed_instruction.instr_type {
            InstrType::ADD | InstrType::SUB | InstrType::MULT | InstrType::AND | InstrType::OR
                | InstrType::XOR => {
                put4(&mut return_bits, 4, &parsed_instruction.return_register);
                return_bits[8] = parsed_instruction.reg_0;
                put16(&mut return_bits, 9, &parsed_instruction.input_val_0);
                return_bits[25] = parsed_instruction.reg_1;
                put16(&mut return_bits, 26, &parsed_instruction.input_val_1);
                proof {
                    assert(return_bits@ =~= spec_encode(parsed_instruction.model()));
                }
            },
            InstrType::NOT | InstrType::FLIP => {
                put4(&mut return_bits, 4, &parsed_instruction.return_register);
                return_bits[8] = parsed_instruction.reg_0;
                put16(&mut return_bits, 9, &parsed_instruction.input_val_0);
                proof {
                    assert(return_bits@ =~= spec_encode(parsed_instruction.model()));
                }
            },
            InstrType::CMP => {
                return_bits[4] = parsed_instruction.reg_0;
                put16(&mut return_bits, 5, &parsed_instruction.input_val_0);
                return_bits[21] = parsed_instruction.reg_1;
                put16(&mut return_bits, 22, &parsed_instruction.input_val_1);
                proof {
                    assert(return_bits@ =~= spec_encode(parsed_instruction.model()));
                }
            },
            InstrType::LDR | InstrType::STR => {
                put4(&mut return_bits, 4, &parsed_instruction.return_register);
                put48(&mut return_bits, 8, &parsed_instruction.addr);
                proof {
                    assert(return_bits@ =~= spec_encode(parsed_instruction.model()));
                }
            },
            InstrType::B => {
                let cond = branch_code_exec(parsed_instruction.branch_condition);
                let condition_nibble = field4_mod(cond);
                put4(&mut return_bits, 4, &condition_nibble);
                return_bits[8] = parsed_instruction.reg_0;
                put48(&mut return_bits, 9, &parsed_instruction.addr);
                proof {
                    assert(return_bits@ =~= spec_encode(parsed_instruction.model()));
                }
            },
            InstrType::OUT => {
                put4(&mut return_bits, 4, &parsed_instruction.return_register);
                return_bits[8] = parsed_instruction.ascii;
                proof {
                    assert(return_bits@ =~= spec_encode(parsed_instruction.model()));
                }
            },
            InstrType::HLT | InstrType::OTH => {
                proof {
                    assert(return_bits@ =~= spec_encode(parsed_instruction.model()));
                }
            },
        }
        return_bits
    }

    /// Assembles one source line: parse, then pack.
    pub fn assemble(&mut self, line: String) -> (r: [bool; 64])
        ensures
            r@ == spec_encode(spec_parse_line(line@)),
    {
        let ghost l = line@;
        let parsed_instruction: ParsedInstruction = self.parse_line_data(line);
        self.code_generation(parsed_instruction)
    }
}

/// Round-trip law of the instruction codec: packing an instruction and
/// decoding the word restores every semantic field its form carries — the
/// operand fields of the arithmetic, bitwise and compare forms, the register
/// and address of the memory forms, the condition, register flag and target
/// of a branch, and the register and mode of an output.
pub proof fn lemma_codec_round_trip(p: ParsedView)
    requires
        p.return_register.len() == 4,
        p.input_val_0.len() == 16,
        p.input_val_1.len() == 16,
        p.addr.len() == 48,
    ensures
        spec_decode(spec_encode(p)).instr_type == p.instr_type,
        (p.instr_type == InstrType::ADD || p.instr_type == InstrType::SUB || p.instr_type
            == InstrType::MULT || p.instr_type == InstrType::AND || p.instr_type == InstrType::OR
            || p.instr_type == InstrType::XOR) ==> {
            let d = spec_decode(spec_encode(p));
            d.return_register == p.return_register && d.reg_0 == p.reg_0 && d.input_val_0
                == p.input_val_0 && d.reg_1 == p.reg_1 && d.input_val_1 == p.input_val_1
        },
        (p.instr_type == InstrType::NOT || p.instr_type == InstrType::FLIP) ==> {
            let d = spec_decode(spec_encode(p));
            d.return_register == p.return_register && d.reg_0 == p.reg_0 && d.input_val_0
                == p.input_val_0
        },
        p.instr_type == InstrType::CMP ==> {
            let d = spec_decode(spec_encode(p));
            d.reg_0 == p.reg_0 && d.input_val_0 == p.input_val_0 && d.reg_1 == p.reg_1
                && d.input_val_1 == p.input_val_1
        },
        (p.instr_type == InstrType::LDR || p.instr_type == InstrType::STR) ==> {
            let d = spec_decode(spec_encode(p));
            d.return_register == p.return_register && d.addr == p.addr
        },
        p.instr_type == InstrType::B ==> {
            let d = spec_decode(spec_encode(p));
            d.branch_condition == p.branch_condition && d.reg_0 == p.reg_0 && d.addr == p.addr
        },
        p.instr_type == InstrType::OUT ==> {
            let d = spec_decode(spec_encode(p));
            d.return_register == p.return_register && d.ascii == p.ascii
        },
{
    let w = spec_encode(p);
    let op = bits_of(instr_code(p.instr_type), 4);
    lemma_bits_of_u_val(instr_code(p.instr_type), 4);
    lemma2_to64();
    assert(w.subrange(0, 4) =~= op);
    assert(u_val(w.subrange(0, 4)) == instr_code(p.instr_type));
    match p.instr_type {
        InstrType::ADD | InstrType::SUB | InstrType::MULT | InstrType::AND | InstrType::OR
            | InstrType::XOR => {
            assert(w.subrange(4, 8) =~= p.return_register);
            assert(w[8] == p.reg_0);
            assert(w.subrange(9, 25) =~= p.input_val_0);
            assert(w[25] == p.reg_1);
            assert(w.subrange(26, 42) =~= p.input_val_1);
        },
        InstrType::NOT | InstrType::FLIP => {
            assert(w.subrange(4, 8) =~= p.return_register);
            assert(w[8] == p.reg_0);
            assert(w.subrange(9, 25) =~= p.input_val_0);
        },
        InstrType::CMP => {
            assert(w[4] == p.reg_0);
            assert(w.subrange(5, 21) =~= p.input_val_0);
            assert(w[21] == p.reg_1);
            assert(w.subrange(22, 38) =~= p.input_val_1);
        },
        InstrType::LDR | InstrType::STR => {
            assert(w.subrange(4, 8) =~= p.return_register);
            assert(w.subrange(8, 56) =~= p.addr);
        },
        InstrType::B => {
            lemma_bits_of_u_val(branch_code(p.branch_condition), 4);
            assert(w.subrange(4, 8) =~= bits_of(branch_code(p.branch_condition), 4));
            assert(u_val(w.subrange(4, 8)) == branch_code(p.branch_condition));
            assert(w[8] == p.reg_0);
            assert(w.subrange(9, 57) =~= p.addr);
        },
        InstrType::OUT => {
            assert(w.subrange(4, 8) =~= p.return_register);
            assert(w[8] == p.ascii);
        },
        InstrType::HLT | InstrType::OTH => {},
    }
}

} // verus!
