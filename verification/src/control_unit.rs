//! The control unit: a five-state machine (Fetch, Decode, Execute, Stall,
//! MemoryComp) that owns the ALU, the register file, the program counter,
//! both memory-interface registers and the data access manager, and advances
//! one step per clock tick.

use vstd::prelude::*;
use crate::alu::Alu;
use crate::alu::z_of;
use crate::alu::n_of;
use crate::reg64::Reg64;
use crate::reg_bank::RegBank;
use crate::caches::DataAccessManager;
use crate::caches::dam_read_hit;
use crate::caches::dam_read_value;
use crate::caches::dam_insert_lands;
use crate::caches::dam_cached;
use crate::assembler::BranchConditions;
use crate::assembler::InstrType;
use crate::assembler::ParsedInstruction;
use crate::assembler::spec_decode;
use crate::assembler::instr_type_of;
use crate::assembler::branch_of;
use crate::converter::Converter;
use crate::converter::word_to_vec64;
use crate::converter::sign_extend_16;
use crate::converter::neg64;
use crate::output::out_line;
use crate::output::out_line_str;
use crate::bits::b2n;
use crate::bits::u_val;
use crate::bits::s_val;
use crate::bits::bits_of;
use crate::bits::zero_bits;
use crate::bits::lemma_bits_of_u_val;
use crate::bits::lemma_u_val_injective;
use crate::bits::lemma_u_val_bound;

verus! {

use vstd::arithmetic::power2::pow2;
use vstd::arithmetic::power2::lemma2_to64;
use vstd::arithmetic::div_mod::lemma_fundamental_div_mod_converse;
use vstd::arithmetic::div_mod::lemma_small_mod;

#[derive(Clone, Copy, PartialEq, Eq, Structural, Debug)]
pub enum CpuState {
    Fetch,
    Decode,
    Execute,
    Stall,
    MemoryComp,
}

/// The 64-bit sum modulo 2^64.
pub open spec fn add64(x: nat, y: nat) -> nat {
    ((x + y) % 0x10000000000000000) as nat
}

/// The 64-bit difference modulo 2^64.
pub open spec fn sub64(x: nat, y: nat) -> nat {
    (((x as int) - (y as int)) % 0x10000000000000000) as nat
}

/// The signed 64-bit product modulo 2^64.
pub open spec fn mul64s(x: int, y: int) -> nat {
    ((x * y) % 0x10000000000000000) as nat
}

pub open spec fn bit_and(a: Seq<bool>, b: Seq<bool>) -> Seq<bool> {
    Seq::new(64, |i: int| a[i] && b[i])
}

pub open spec fn bit_or(a: Seq<bool>, b: Seq<bool>) -> Seq<bool> {
    Seq::new(64, |i: int| a[i] || b[i])
}

pub open spec fn bit_xor(a: Seq<bool>, b: Seq<bool>) -> Seq<bool> {
    Seq::new(64, |i: int| a[i] != b[i])
}

pub open spec fn bit_not(a: Seq<bool>) -> Seq<bool> {
    Seq::new(64, |i: int| !a[i])
}

/// An operand of the execute stage: a register's word when the register flag
/// is set (registers past 14 read as zero), else the sign-extended literal.
pub open spec fn spec_operand(regs: Seq<Seq<bool>>, flag: bool, field: Seq<bool>) -> Seq<bool> {
    if flag {
        if u_val(field.subrange(0, 4)) < 15 {
            regs[u_val(field.subrange(0, 4)) as int]
        } else {
            zero_bits(64)
        }
    } else {
        field + Seq::new(48, |i: int| field[15])
    }
}

/// What the register file holds after a write through a selector.
pub open spec fn spec_write_reg(regs: Seq<Seq<bool>>, idx_bits: Seq<bool>, w: Seq<bool>) -> Seq<
    Seq<bool>,
> {
    if 0 < u_val(idx_bits) < 15 {
        regs.update(u_val(idx_bits) as int, w)
    } else {
        regs
    }
}

/// What the register file yields on a read through a selector.
pub open spec fn spec_read_reg(regs: Seq<Seq<bool>>, idx_bits: Seq<bool>) -> Seq<bool> {
    if u_val(idx_bits) < 15 {
        regs[u_val(idx_bits) as int]
    } else {
        zero_bits(64)
    }
}

/// Whether a branch fires under the given Z and N flags.
pub open spec fn branch_taken(c: BranchConditions, z: bool, n: bool) -> bool {
    match c {
        BranchConditions::B => true,
        BranchConditions::BEQ => z,
        BranchConditions::BNE => !z,
        BranchConditions::BLT => n,
        BranchConditions::BGT => !z && !n,
        BranchConditions::BLE => z || n,
        BranchConditions::BGE => z || !n,
        BranchConditions::OTH => false,
    }
}

pub struct ControlUnit {
    pub alu: Alu,
    pub memory_instr_reg: Reg64,
    pub memory_instr_stall: bool,
    pub memory_data_reg: Reg64,
    pub memory_data_stall: bool,
    pub pc: Reg64,
    pub register_bank: RegBank,
    pub halt: bool,
    pub data_access_manager: DataAccessManager,
    pub state: CpuState,
    pub decoded_instruction: ParsedInstruction,
}

/// Fetch: read the instruction at the program counter through the cache,
/// then advance the program counter by one 64-bit word (wrapping to zero on
/// carry out).  A hit moves to Decode; a miss posts the load and stalls.
pub open spec fn fetch_post(pre: ControlUnit, post: ControlUnit) -> bool {
    let key = pre.pc.spec_data().subrange(0, 48);
    let hit = dam_read_hit(pre.data_access_manager, u_val(key));
    &&& post.halt == pre.halt
    &&& post.register_bank == pre.register_bank
    &&& post.decoded_instruction == pre.decoded_instruction
    &&& post.memory_data_stall == pre.memory_data_stall
    &&& post.alu.z == pre.alu.z && post.alu.n == pre.alu.n && post.alu.o == pre.alu.o
    &&& post.data_access_manager.main_memory.ram_map@
        == pre.data_access_manager.main_memory.ram_map@
    &&& (hit ==> {
        &&& post.state == CpuState::Decode
        &&& post.memory_instr_reg.spec_data() == dam_read_value(
            pre.data_access_manager,
            u_val(key),
        )
        &&& post.memory_instr_stall == pre.memory_instr_stall
        &&& post.data_access_manager.main_memory == pre.data_access_manager.main_memory
    })
    &&& (!hit ==> {
        &&& post.state == CpuState::Stall
        &&& post.memory_instr_stall
        &&& post.memory_instr_reg == pre.memory_instr_reg
        &&& post.data_access_manager.l1_cache.entries()
            == pre.data_access_manager.l1_cache.entries()
        &&& post.data_access_manager.l2_cache.entries()
            == pre.data_access_manager.l2_cache.entries()
        &&& post.data_access_manager.main_memory.address_bus.bits@ == key
        &&& post.data_access_manager.main_memory.control_bus.ready_memory
        &&& !post.data_access_manager.main_memory.control_bus.str
    })
    &&& (u_val(pre.pc.spec_data()) + 64 < 0x10000000000000000 ==> u_val(post.pc.spec_data())
        == u_val(pre.pc.spec_data()) + 64)
    &&& (u_val(pre.pc.spec_data()) + 64 >= 0x10000000000000000 ==> u_val(post.pc.spec_data())
        == 0)
}

/// Decode: a zero instruction word skips back to Fetch; anything else is
/// unpacked into the intermediate form and handed to Execute.
pub open spec fn decode_post(pre: ControlUnit, post: ControlUnit) -> bool {
    &&& post.halt == pre.halt
    &&& post.register_bank == pre.register_bank
    &&& post.pc == pre.pc
    &&& post.alu == pre.alu
    &&& post.memory_instr_reg == pre.memory_instr_reg
    &&& post.memory_data_reg == pre.memory_data_reg
    &&& post.memory_instr_stall == pre.memory_instr_stall
    &&& post.memory_data_stall == pre.memory_data_stall
    &&& post.data_access_manager == pre.data_access_manager
    &&& (u_val(pre.memory_instr_reg.spec_data()) == 0 ==> post.state == CpuState::Fetch
        && post.decoded_instruction.is_cleared())
    &&& (u_val(pre.memory_instr_reg.spec_data()) != 0 ==> post.state == CpuState::Execute
        && post.decoded_instruction.model() == spec_decode(pre.memory_instr_reg.spec_data()))
}

/// Execute: dispatch on the decoded instruction type.
pub open spec fn execute_post(pre: ControlUnit, post: ControlUnit, out: Option<String>) -> bool {
    let d = pre.decoded_instruction.model();
    let regs = pre.register_bank.spec_regs();
    let a = spec_operand(regs, d.reg_0, d.input_val_0);
    let b = spec_operand(regs, d.reg_1, d.input_val_1);
    &&& post.decoded_instruction == pre.decoded_instruction
    &&& post.memory_instr_reg == pre.memory_instr_reg
    &&& post.memory_instr_stall == pre.memory_instr_stall
    &&& (match d.instr_type {
        InstrType::ADD => {
            let w = bits_of(add64(u_val(a), u_val(b)), 64);
            &&& post.state == CpuState::Fetch
            &&& post.register_bank.spec_regs() == spec_write_reg(regs, d.return_register, w)
            &&& post.alu.z == z_of(w)
            &&& post.alu.n == n_of(w)
            &&& post.alu.o == (u_val(a) + u_val(b) >= 0x10000000000000000)
            &&& post.data_access_manager == pre.data_access_manager
            &&& post.pc == pre.pc
            &&& post.halt == pre.halt
            &&& out is None
        },
        InstrType::SUB => {
            let w = bits_of(sub64(u_val(a), u_val(b)), 64);
            &&& post.state == CpuState::Fetch
            &&& post.register_bank.spec_regs() == spec_write_reg(regs, d.return_register, w)
            &&& post.alu.z == z_of(w)
            &&& post.alu.n == n_of(w)
            &&& post.alu.o == (u_val(a) < u_val(b))
            &&& post.data_access_manager == pre.data_access_manager
            &&& post.pc == pre.pc
            &&& post.halt == pre.halt
            &&& out is None
        },
        InstrType::MULT => {
            let w = bits_of(mul64s(s_val(a), s_val(b)), 64);
            &&& post.state == CpuState::Fetch
            &&& post.register_bank.spec_regs() == spec_write_reg(regs, d.return_register, w)
            &&& post.alu.z == z_of(w)
            &&& post.alu.n == n_of(w)
            &&& !post.alu.o
            &&& post.data_access_manager == pre.data_access_manager
            &&& post.pc == pre.pc
            &&& post.halt == pre.halt
            &&& out is None
        },
        InstrType::AND | InstrType::OR | InstrType::XOR => {
            let w = if d.instr_type == InstrType::AND {
                bit_and(a, b)
            } else if d.instr_type == InstrType::OR {
                bit_or(a, b)
            } else {
                bit_xor(a, b)
            };
            &&& post.state == CpuState::Fetch
            &&& post.register_bank.spec_regs() == spec_write_reg(regs, d.return_register, w)
            &&& post.alu.z == z_of(w)
            &&& post.alu.n == n_of(w)
            &&& !post.alu.o
            &&& post.data_access_manager == pre.data_access_manager
            &&& post.pc == pre.pc
            &&& post.halt == pre.halt
            &&& out is None
        },
        InstrType::NOT => {
            let w = bit_not(a);
            &&& post.state == CpuState::Fetch
            &&& post.register_bank.spec_regs() == spec_write_reg(regs, d.return_register, w)
            &&& post.alu.z == z_of(w)
            &&& post.alu.n == n_of(w)
            &&& !post.alu.o
            &&& post.data_access_manager == pre.data_access_manager
            &&& post.pc == pre.pc
            &&& post.halt == pre.halt
            &&& out is None
        },
        InstrType::FLIP => {
            let w = bits_of(neg64(u_val(a)), 64);
            &&& post.state == CpuState::Fetch
            &&& post.register_bank.spec_regs() == spec_write_reg(regs, d.return_register, w)
            &&& post.alu.z == z_of(w)
            &&& post.alu.n == n_of(w)
            &&& !post.alu.o
            &&& post.data_access_manager == pre.data_access_manager
            &&& post.pc == pre.pc
            &&& post.halt == pre.halt
            &&& out is None
        },
        InstrType::STR => {
            let v = spec_read_reg(regs, d.return_register);
            &&& post.state == CpuState::Fetch
            &&& post.register_bank == pre.register_bank
            &&& post.pc == pre.pc
            &&& post.halt == pre.halt
            &&& post.alu == pre.alu
            &&& (dam_insert_lands(pre.data_access_manager, u_val(d.addr)) ==> dam_cached(
                post.data_access_manager,
                u_val(d.addr),
            ) == Some(v))
            &&& post.data_access_manager.main_memory.ram_map@
                == pre.data_access_manager.main_memory.ram_map@
            &&& post.data_access_manager.main_memory.address_bus.bits@ == d.addr
            &&& post.data_access_manager.main_memory.data_bus.bits@ == v
            &&& post.data_access_manager.main_memory.control_bus.str
            &&& post.data_access_manager.main_memory.control_bus.ready_memory
            &&& out is None
        },
        InstrType::LDR => {
            let hit = dam_read_hit(pre.data_access_manager, u_val(d.addr));
            &&& post.pc == pre.pc
            &&& post.halt == pre.halt
            &&& post.alu == pre.alu
            &&& post.data_access_manager.main_memory.ram_map@
                == pre.data_access_manager.main_memory.ram_map@
            &&& (hit ==> {
                &&& post.state == CpuState::Fetch
                &&& post.register_bank.spec_regs() == spec_write_reg(
                    regs,
                    d.return_register,
                    dam_read_value(pre.data_access_manager, u_val(d.addr)),
                )
                &&& post.memory_data_reg.spec_data() == dam_read_value(
                    pre.data_access_manager,
                    u_val(d.addr),
                )
                &&& post.memory_data_stall == pre.memory_data_stall
            })
            &&& (!hit ==> {
                &&& post.state == CpuState::Stall
                &&& post.memory_data_stall
                &&& post.register_bank == pre.register_bank
                &&& post.data_access_manager.main_memory.address_bus.bits@ == d.addr
                &&& post.data_access_manager.main_memory.control_bus.ready_memory
                &&& !post.data_access_manager.main_memory.control_bus.str
            })
            &&& out is None
        },
        InstrType::B => {
            let taken = branch_taken(d.branch_condition, pre.alu.z, pre.alu.n);
            &&& post.state == CpuState::Fetch
            &&& post.register_bank == pre.register_bank
            &&& post.halt == pre.halt
            &&& post.alu == pre.alu
            &&& post.data_access_manager == pre.data_access_manager
            &&& (!taken ==> post.pc == pre.pc)
            &&& (taken && d.reg_0 ==> post.pc.spec_data() == spec_read_reg(
                regs,
                d.addr.subrange(0, 4),
            ))
            &&& (taken && !d.reg_0 ==> u_val(post.pc.spec_data()) == u_val(d.addr))
            &&& out is None
        },
        InstrType::HLT => {
            &&& post.halt
            &&& post.state == pre.state
            &&& post.register_bank == pre.register_bank
            &&& post.pc == pre.pc
            &&& post.alu == pre.alu
            &&& post.data_access_manager == pre.data_access_manager
            &&& out is None
        },
        InstrType::OUT => {
            let v = spec_read_reg(regs, d.return_register);
            &&& post.state == CpuState::Fetch
            &&& post.register_bank == pre.register_bank
            &&& post.pc == pre.pc
            &&& post.halt == pre.halt
            &&& post.alu == pre.alu
            &&& post.data_access_manager == pre.data_access_manager
            &&& out is Some
            &&& out->Some_0@ == out_line_str(s_val(d.return_register), s_val(v))
        },
        InstrType::CMP | InstrType::OTH => {
            &&& post.state == CpuState::Fetch
            &&& post.register_bank == pre.register_bank
            &&& post.pc == pre.pc
            &&& post.halt == pre.halt
            &&& post.alu == pre.alu
            &&& post.data_access_manager == pre.data_access_manager
            &&& out is None
        },
    })
}

/// Stall: poll the memory reply; when it arrives, route it to the
/// instruction or data register the machine was waiting to fill.
pub open spec fn stall_post(pre: ControlUnit, post: ControlUnit) -> bool {
    let ready = pre.data_access_manager.main_memory.control_bus.ready_cpu;
    let data = pre.data_access_manager.main_memory.data_bus.bits@;
    &&& post.halt == pre.halt
    &&& post.register_bank == pre.register_bank
    &&& post.pc == pre.pc
    &&& post.alu == pre.alu
    &&& post.decoded_instruction == pre.decoded_instruction
    &&& post.data_access_manager.main_memory.ram_map@
        == pre.data_access_manager.main_memory.ram_map@
    &&& (!ready ==> post == pre)
    &&& (ready ==> {
        &&& !post.data_access_manager.main_memory.control_bus.ready_cpu
        &&& (pre.memory_instr_stall ==> post.state == CpuState::Decode
            && !post.memory_instr_stall && post.memory_instr_reg.spec_data() == data
            && post.memory_data_stall == pre.memory_data_stall)
        &&& (!pre.memory_instr_stall && pre.memory_data_stall ==> post.state
            == CpuState::MemoryComp && !post.memory_data_stall && post.memory_data_reg.spec_data()
            == data && post.memory_instr_stall == pre.memory_instr_stall)
        &&& (!pre.memory_instr_stall && !pre.memory_data_stall ==> post.state == pre.state
            && post.memory_instr_reg == pre.memory_instr_reg && post.memory_data_reg
            == pre.memory_data_reg)
    })
}

/// MemoryComp: complete the stalled load by writing the captured word into
/// the destination register of the already-decoded instruction.
pub open spec fn memcomp_post(pre: ControlUnit, post: ControlUnit) -> bool {
    &&& post.state == CpuState::Fetch
    &&& post.halt == pre.halt
    &&& post.pc == pre.pc
    &&& post.alu == pre.alu
    &&& post.decoded_instruction == pre.decoded_instruction
    &&& post.memory_data_reg == pre.memory_data_reg
    &&& post.data_access_manager == pre.data_access_manager
    &&& post.register_bank.spec_regs() == spec_write_reg(
        pre.register_bank.spec_regs(),
        pre.decoded_instruction.model().return_register,
        pre.memory_data_reg.spec_data(),
    )
}

/// One control-unit step: the post-relation of whichever phase the machine
/// stood in, with an output line possible only from Execute.
pub open spec fn cpu_step(pre: ControlUnit, post: ControlUnit, out: Option<String>) -> bool {
    match pre.state {
        CpuState::Fetch => fetch_post(pre, post) && out is None,
        CpuState::Decode => decode_post(pre, post) && out is None,
        CpuState::Execute => execute_post(pre, post, out),
        CpuState::Stall => stall_post(pre, post) && out is None,
        CpuState::MemoryComp => memcomp_post(pre, post) && out is None,
    }
}

/// Copies four consecutive bits out of a word.
fn take4_64(w: &[bool; 64], k: usize) -> (r: [bool; 4])
    requires
        k + 4 <= 64,
    ensures
        r@ == w@.subrange(k as int, k as int + 4),
{
    let mut out: [bool; 4] = [false; 4];
    out[0] = w[k];
    out[1] = w[k + 1];
    out[2] = w[k + 2];
    out[3] = w[k + 3];
    proof {
        assert(out@ =~= w@.subrange(k as int, k as int + 4));
    }
    out
}

/// Copies sixteen consecutive bits out of a word.
fn take16_64(w: &[bool; 64], k: usize) -> (r: [bool; 16])
    requires
        k + 16 <= 64,
    ensures
        r@ == w@.subrange(k as int, k as int + 16),
{
    let mut out: [bool; 16] = [false; 16];
    let mut i: usize = 0;
    while i < 16
        invariant
            i <= 16,
            k + 16 <= 64,
            forall|j: int| 0 <= j < i ==> out@[j] == w@[k + j],
        decreases 16 - i,
    {
        out[i] = w[k + i];
        i = i + 1;
    }
    proof {
        assert(out@ =~= w@.subrange(k as int, k as int + 16));
    }
    out
}

/// Copies forty-eight consecutive bits out of a word.
fn take48_64(w: &[bool; 64], k: usize) -> (r: [bool; 48])
    requires
        k + 48 <= 64,
    ensures
        r@ == w@.subrange(k as int, k as int + 48),
{
    let mut out: [bool; 48] = [false; 48];
    let mut i: usize = 0;
    while i < 48
        invariant
            i <= 48,
            k + 48 <= 64,
            forall|j: int| 0 <= j < i ==> out@[j] == w@[k + j],
        decreases 48 - i,
    {
        out[i] = w[k + i];
        i = i + 1;
    }
    proof {
        assert(out@ =~= w@.subrange(k as int, k as int + 48));
    }
    out
}

/// Resolves one execute-stage operand.
fn resolve_operand(bank: &mut RegBank, flag: bool, field: [bool; 16]) -> (r: [bool; 64])
    ensures
        *final(bank) == *old(bank),
        r@ == spec_operand(old(bank).spec_regs(), flag, field@),
{
    if flag {
        let mut reg_index: [bool; 4] = [false; 4];
        reg_index[0] = field[0];
        reg_index[1] = field[1];
        reg_index[2] = field[2];
        reg_index[3] = field[3];
        proof {
            assert(reg_index@ =~= field@.subrange(0, 4));
        }
        bank.get_data(reg_index)
    } else {
        sign_extend_16(field)
    }
}

impl ControlUnit {
    /// The hierarchy is well formed and the bus is free between ticks.
    pub open spec fn wf(self) -> bool {
        &&& self.data_access_manager.wf()
        &&& !self.data_access_manager.main_memory.control_bus.lock
    }

    /// One clock step of the machine; an OUT instruction hands back its
    /// output line.
    pub fn tick(&mut self) -> (r: Option<String>)
        requires
            old(self).wf(),
        ensures
            final(self).wf(),
            cpu_step(*old(self), *final(self), r),
    {
        let st = self.state;
        match st {
            CpuState::Fetch => {
                self.fetch_step();
                None
            },
            CpuState::Decode => {
                self.decode_step();
                None
            },
            CpuState::Execute => self.execute_step(),
            CpuState::Stall => {
                self.stall_step();
                None
            },
            CpuState::MemoryComp => {
                self.memcomp_step();
                None
            },
        }
    }

    fn fetch_step(&mut self)
        requires
            old(self).wf(),
        ensures
            final(self).wf(),
            fetch_post(*old(self), *final(self)),
    {
        let pc_data = self.pc.get_data();
        let read_addr = take48_64(&pc_data, 0);
        let (data, cache_hit) = self.data_access_manager.read(read_addr);
        if cache_hit {
            self.memory_instr_reg.set_data(data);
            self.state = CpuState::Decode;
        } else {
            self.memory_instr_stall = true;
            self.state = CpuState::Stall;
        }
        // Increment PC by one 64-bit word using the ALU.
        let mut one_bit: [bool; 64] = [false; 64];
        one_bit[6] = true;
        proof {
            assert(one_bit@ =~= zero_bits(6) + (seq![true] + zero_bits(57)));
            crate::bits::lemma_u_val_append(zero_bits(6), seq![true] + zero_bits(57));
            crate::bits::lemma_u_val_append(seq![true], zero_bits(57));
            crate::bits::lemma_u_val_zero(6);
            crate::bits::lemma_u_val_zero(57);
            reveal_with_fuel(u_val, 3);
            assert(seq![true].subrange(1, 1).len() == 0);
            assert(u_val(seq![true]) == 1);
            lemma2_to64();
            assert(u_val(one_bit@) == 64);
            lemma_u_val_bound(old(self).pc.spec_data());
        }
        let (increment, carry_out) = self.alu.add(pc_data, one_bit, true);
        proof {
            lemma_u_val_bound(increment@);
        }
        if carry_out {
            let zero: [bool; 64] = [false; 64];
            proof {
                assert(zero@ =~= zero_bits(64));
                crate::bits::lemma_u_val_zero(64);
            }
            self.pc.set_data(zero);
        } else {
            self.pc.set_data(increment);
        }
    }

    #[verifier::rlimit(80)]
    fn decode_step(&mut self)
        requires
            old(self).wf(),
        ensures
            final(self).wf(),
            decode_post(*old(self), *final(self)),
    {
        self.decoded_instruction.clear();
        let mdr_data = self.memory_instr_reg.get_data();
        let mut zero: bool = true;
        let mut i: usize = 0;
        while i < 64
            invariant
                i <= 64,
                zero <==> forall|j: int| 0 <= j < i ==> !mdr_data@[j],
            decreases 64 - i,
        {
            if mdr_data[i] {
                zero = false;
            }
            i = i + 1;
        }
        proof {
            crate::bits::lemma_u_val_is_zero(mdr_data@);
        }
        if zero {
            self.state = CpuState::Fetch;
        } else {
            let mut op_vec: Vec<bool> = Vec::new();
            op_vec.push(mdr_data[0]);
            op_vec.push(mdr_data[1]);
            op_vec.push(mdr_data[2]);
            op_vec.push(mdr_data[3]);
            proof {
                assert(op_vec@ =~= mdr_data@.subrange(0, 4));
            }
            let code = Converter::bin_to_dec_pos_only(op_vec);
            let parsed_type = instr_type_of(code);
            self.decoded_instruction.instr_type = parsed_type;
            match parsed_type {
                InstrType::ADD | InstrType::SUB | InstrType::MULT | InstrType::AND | InstrType::OR
                    | InstrType::XOR => {
                    self.decoded_instruction.return_register = take4_64(&mdr_data, 4);
                    self.decoded_instruction.reg_0 = mdr_data[8];
                    self.decoded_instruction.input_val_0 = take16_64(&mdr_data, 9);
                    self.decoded_instruction.reg_1 = mdr_data[25];
                    self.decoded_instruction.input_val_1 = take16_64(&mdr_data, 26);
                },
                InstrType::NOT | InstrType::FLIP => {
                    self.decoded_instruction.return_register = take4_64(&mdr_data, 4);
                    self.decoded_instruction.reg_0 = mdr_data[8];
                    self.decoded_instruction.input_val_0 = take16_64(&mdr_data, 9);
                },
                InstrType::CMP => {
                    self.decoded_instruction.reg_0 = mdr_data[4];
                    self.decoded_instruction.input_val_0 = take16_64(&mdr_data, 5);
                    self.decoded_instruction.reg_1 = mdr_data[21];
                    self.decoded_instruction.input_val_1 = take16_64(&mdr_data, 22);
                },
                InstrType::STR | InstrType::LDR => {
                    self.decoded_instruction.return_register = take4_64(&mdr_data, 4);
                    self.decoded_instruction.addr = take48_64(&mdr_data, 8);
                },
                InstrType::B => {
                    let mut cond_vec: Vec<bool> = Vec::new();
                    cond_vec.push(mdr_data[4]);
                    cond_vec.push(mdr_data[5]);
                    cond_vec.push(mdr_data[6]);
                    cond_vec.push(mdr_data[7]);
                    proof {
                        assert(cond_vec@ =~= mdr_data@.subrange(4, 8));
                    }
                    let ccode = Converter::bin_to_dec_pos_only(cond_vec);
                    self.decoded_instruction.branch_condition = branch_of(ccode);
                    self.decoded_instruction.reg_0 = mdr_data[8];
                    self.decoded_instruction.addr = take48_64(&mdr_data, 9);
                },
                InstrType::OUT => {
                    self.decoded_instruction.return_register = take4_64(&mdr_data, 4);
                    self.decoded_instruction.ascii = mdr_data[8];
                },
                InstrType::HLT | InstrType::OTH => {},
            }
            self.state = CpuState::Execute;
            proof {
                assert(self.decoded_instruction.model() == spec_decode(
                    old(self).memory_instr_reg.spec_data(),
                ));
            }
        }
    }

    fn memcomp_step(&mut self)
        requires
            old(self).wf(),
        ensures
            final(self).wf(),
            memcomp_post(*old(self), *final(self)),
    {
        let data = self.memory_data_reg.get_data();
        let rr = self.decoded_instruction.return_register;
        self.register_bank.set_data(rr, data);
        self.state = CpuState::Fetch;
        proof {
            lemma_u_val_bound(rr@);
            lemma2_to64();
        }
    }

    fn stall_step(&mut self)
        requires
            old(self).wf(),
        ensures
            final(self).wf(),
            stall_post(*old(self), *final(self)),
    {
        let (ready, data_bits) = self.data_access_manager.stall_read();
        if ready {
            if self.memory_instr_stall {
                self.memory_instr_stall = false;
                self.memory_instr_reg.set_data(data_bits);
                self.state = CpuState::Decode;
            } else if self.memory_data_stall {
                self.memory_data_stall = false;
                self.memory_data_reg.set_data(data_bits);
                self.state = CpuState::MemoryComp;
            }
        }
    }

    #[verifier::rlimit(80)]
    fn execute_step(&mut self) -> (r: Option<String>)
        requires
            old(self).wf(),
            old(self).state == CpuState::Execute,
        ensures
            final(self).wf(),
            execute_post(*old(self), *final(self), r),
    {
        proof {
            lemma2_to64();
        }
        let t = self.decoded_instruction.instr_type;
        match t {
            InstrType::ADD | InstrType::SUB | InstrType::MULT | InstrType::AND | InstrType::OR
                | InstrType::XOR => {
                let flag0 = self.decoded_instruction.reg_0;
                let f0 = self.decoded_instruction.input_val_0;
                let flag1 = self.decoded_instruction.reg_1;
                let f1 = self.decoded_instruction.input_val_1;
                let val0 = resolve_operand(&mut self.register_bank, flag0, f0);
                let val1 = resolve_operand(&mut self.register_bank, flag1, f1);
                let rr = self.decoded_instruction.return_register;
                proof {
                    lemma_u_val_bound(val0@);
                    lemma_u_val_bound(val1@);
                }
                match t {
                    InstrType::ADD => {
                        let (w, c) = self.alu.add(val0, val1, false);
                        proof {
                            lemma_u_val_bound(w@);
                            assert((u_val(val0@) + u_val(val1@)) as int == (b2n(c) as int)
                                * 0x10000000000000000 + u_val(w@) as int) by (nonlinear_arith)
                                requires
                                    u_val(w@) as int == u_val(val0@) + u_val(val1@)
                                        - 0x10000000000000000 * b2n(c),
                            ;
                            lemma_fundamental_div_mod_converse(
                                (u_val(val0@) + u_val(val1@)) as int,
                                0x10000000000000000,
                                b2n(c) as int,
                                u_val(w@) as int,
                            );
                            lemma_bits_of_u_val(add64(u_val(val0@), u_val(val1@)), 64);
                            lemma_small_mod(
                                add64(u_val(val0@), u_val(val1@)),
                                pow2(64),
                            );
                            lemma_u_val_injective(
                                w@,
                                bits_of(add64(u_val(val0@), u_val(val1@)), 64),
                            );
                        }
                        self.register_bank.set_data(rr, w);
                    },
                    InstrType::SUB => {
                        let (w, c) = self.alu.sub(val0, val1);
                        proof {
                            lemma_u_val_bound(w@);
                            assert(u_val(val0@) - u_val(val1@) == (-(b2n(c) as int))
                                * 0x10000000000000000 + u_val(w@) as int) by (nonlinear_arith)
                                requires
                                    u_val(w@) as int == u_val(val0@) - u_val(val1@)
                                        + 0x10000000000000000 * b2n(c),
                            ;
                            lemma_fundamental_div_mod_converse(
                                u_val(val0@) - u_val(val1@),
                                0x10000000000000000,
                                -(b2n(c) as int),
                                u_val(w@) as int,
                            );
                            lemma_bits_of_u_val(sub64(u_val(val0@), u_val(val1@)), 64);
                            lemma_small_mod(sub64(u_val(val0@), u_val(val1@)), pow2(64));
                            lemma_u_val_injective(
                                w@,
                                bits_of(sub64(u_val(val0@), u_val(val1@)), 64),
                            );
                        }
                        self.register_bank.set_data(rr, w);
                    },
                    InstrType::MULT => {
                        let w = self.alu.mult(val0, val1);
                        proof {
                            lemma_u_val_bound(w@);
                            crate::bits::lemma_s_val_u_val(w@);
                            let m: int = 0x10000000000000000;
                            let p = s_val(val0@) * s_val(val1@);
                            let diff = s_val(w@) - p;
                            let k = diff / m;
                            vstd::arithmetic::div_mod::lemma_fundamental_div_mod(diff, m);
                            let tt: int = if w@[63] {
                                1
                            } else {
                                0
                            };
                            assert(s_val(w@) == u_val(w@) - tt * m);
                            assert(p == (-k - tt) * m + u_val(w@)) by (nonlinear_arith)
                                requires
                                    diff == m * k,
                                    s_val(w@) == u_val(w@) - tt * m,
                                    diff == s_val(w@) - p,
                            ;
                            lemma_fundamental_div_mod_converse(
                                p,
                                m,
                                -k - tt,
                                u_val(w@) as int,
                            );
                            lemma_bits_of_u_val(mul64s(s_val(val0@), s_val(val1@)), 64);
                            lemma_small_mod(mul64s(s_val(val0@), s_val(val1@)), pow2(64));
                            lemma_u_val_injective(
                                w@,
                                bits_of(mul64s(s_val(val0@), s_val(val1@)), 64),
                            );
                        }
                        self.register_bank.set_data(rr, w);
                    },
                    InstrType::AND | InstrType::OR | InstrType::XOR => {
                        let code = crate::assembler::instr_code_exec(t);
                        let op_bits = Converter::dec_to_bin_pos_only(code, 4);
                        let mut op4: [bool; 4] = [false; 4];
                        op4[0] = op_bits[0];
                        op4[1] = op_bits[1];
                        op4[2] = op_bits[2];
                        op4[3] = op_bits[3];
                        proof {
                            assert(op4@ =~= op_bits@);
                        }
                        let w = self.alu.bitwise(val0, val1, op4);
                        proof {
                            if t == InstrType::AND {
                                assert(w@ =~= bit_and(val0@, val1@));
                            } else if t == InstrType::OR {
                                assert(w@ =~= bit_or(val0@, val1@));
                            } else {
                                assert(w@ =~= bit_xor(val0@, val1@));
                            }
                        }
                        self.register_bank.set_data(rr, w);
                    },
                    _ => {},
                }
                self.state = CpuState::Fetch;
                None
            },
            InstrType::NOT => {
                let flag0 = self.decoded_instruction.reg_0;
                let f0 = self.decoded_instruction.input_val_0;
                let val0 = resolve_operand(&mut self.register_bank, flag0, f0);
                let rr = self.decoded_instruction.return_register;
                let code = crate::assembler::instr_code_exec(InstrType::NOT);
                let op_bits = Converter::dec_to_bin_pos_only(code, 4);
                let mut op4: [bool; 4] = [false; 4];
                op4[0] = op_bits[0];
                op4[1] = op_bits[1];
                op4[2] = op_bits[2];
                op4[3] = op_bits[3];
                proof {
                    assert(op4@ =~= op_bits@);
                }
                let zero: [bool; 64] = [false; 64];
                let w = self.alu.bitwise(val0, zero, op4);
                proof {
                    assert(w@ =~= bit_not(val0@));
                }
                self.register_bank.set_data(rr, w);
                self.state = CpuState::Fetch;
                None
            },
            InstrType::FLIP => {
                let val0 = if self.decoded_instruction.reg_0 {
                    let mut reg_index: [bool; 4] = [false; 4];
                    reg_index[0] = self.decoded_instruction.input_val_0[0];
                    reg_index[1] = self.decoded_instruction.input_val_0[1];
                    reg_index[2] = self.decoded_instruction.input_val_0[2];
                    reg_index[3] = self.decoded_instruction.input_val_0[3];
                    proof {
                        assert(reg_index@ =~= self.decoded_instruction.input_val_0@.subrange(
                            0,
                            4,
                        ));
                    }
                    self.register_bank.get_data(reg_index)
                } else {
                    sign_extend_16(self.decoded_instruction.input_val_0)
                };
                let rr = self.decoded_instruction.return_register;
                let w = Converter::bin_flip_sign(val0);
                proof {
                    lemma_u_val_bound(val0@);
                    lemma_u_val_bound(w@);
                    lemma_bits_of_u_val(neg64(u_val(val0@)), 64);
                    lemma_small_mod(neg64(u_val(val0@)), pow2(64));
                    lemma_u_val_injective(w@, bits_of(neg64(u_val(val0@)), 64));
                }
                let zero64: [bool; 64] = [false; 64];
                let (res, _c) = self.alu.add(w, zero64, false);
                proof {
                    crate::bits::lemma_u_val_zero(64);
                    assert(zero64@ =~= zero_bits(64));
                    lemma_u_val_bound(res@);
                    lemma_u_val_injective(res@, w@);
                }
                self.register_bank.set_data(rr, res);
                self.state = CpuState::Fetch;
                None
            },
            InstrType::STR => {
                let rr = self.decoded_instruction.return_register;
                let v = self.register_bank.get_data(rr);
                let addr = self.decoded_instruction.addr;
                self.data_access_manager.write(addr, v);
                self.state = CpuState::Fetch;
                None
            },
            InstrType::LDR => {
                let addr = self.decoded_instruction.addr;
                let (data, cache_hit) = self.data_access_manager.read(addr);
                if !cache_hit {
                    self.memory_data_stall = true;
                    self.state = CpuState::Stall;
                } else {
                    self.memory_data_reg.set_data(data);
                    let rr = self.decoded_instruction.return_register;
                    let d2 = self.memory_data_reg.get_data();
                    self.register_bank.set_data(rr, d2);
                    self.state = CpuState::Fetch;
                }
                None
            },
            InstrType::B => {
                let mut valid_branch = false;
                match self.decoded_instruction.branch_condition {
                    BranchConditions::B => {
                        valid_branch = true;
                    },
                    BranchConditions::BEQ => {
                        if self.alu.z {
                            valid_branch = true;
                        }
                    },
                    BranchConditions::BNE => {
                        if !self.alu.z {
                            valid_branch = true;
                        }
                    },
                    BranchConditions::BLT => {
                        if self.alu.n {
                            valid_branch = true;
                        }
                    },
                    BranchConditions::BGT => {
                        if !self.alu.z && !self.alu.n {
                            valid_branch = true;
                        }
                    },
                    BranchConditions::BLE => {
                        if self.alu.z || self.alu.n {
                            valid_branch = true;
                        }
                    },
                    BranchConditions::BGE => {
                        if self.alu.z || !self.alu.n {
                            valid_branch = true;
                        }
                    },
                    BranchConditions::OTH => {},
                }
                if valid_branch {
                    if self.decoded_instruction.reg_0 {
                        let mut reg_data: [bool; 4] = [false; 4];
                        reg_data[0] = self.decoded_instruction.addr[0];
                        reg_data[1] = self.decoded_instruction.addr[1];
                        reg_data[2] = self.decoded_instruction.addr[2];
                        reg_data[3] = self.decoded_instruction.addr[3];
                        proof {
                            assert(reg_data@ =~= self.decoded_instruction.addr@.subrange(0, 4));
                        }
                        let v = self.register_bank.get_data(reg_data);
                        self.pc.set_data(v);
                    } else {
                        let v = Converter::bit48_to64(self.decoded_instruction.addr);
                        self.pc.set_data(v);
                    }
                }
                self.state = CpuState::Fetch;
                None
            },
            InstrType::HLT => {
                self.halt = true;
                None
            },
            InstrType::OUT => {
                let rr = self.decoded_instruction.return_register;
                let output_val = self.register_bank.get_data(rr);
                let mut rr_vec: Vec<bool> = Vec::new();
                rr_vec.push(rr[0]);
                rr_vec.push(rr[1]);
                rr_vec.push(rr[2]);
                rr_vec.push(rr[3]);
                proof {
                    assert(rr_vec@ =~= rr@);
                }
                let reg_num = Converter::bin_to_dec_2s_comp(rr_vec);
                let value = Converter::bin_to_dec_2s_comp(word_to_vec64(output_val));
                let line = out_line(reg_num, value);
                self.state = CpuState::Fetch;
                Some(line)
            },
            InstrType::CMP | InstrType::OTH => {
                self.state = CpuState::Fetch;
                None
            },
        }
    }
}

} // verus!
