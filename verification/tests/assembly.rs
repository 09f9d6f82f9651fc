// The assembler: mnemonic recognition, operand parsing, and the packed bit
// layout of each instruction form.

use vonsim::assembler::Assembler;
use vonsim::assembler::BranchConditions;
use vonsim::assembler::InstrType;
use vonsim::converter::Converter;

fn bits_val(bits: &[bool]) -> u64 {
    let mut v = 0u64;
    for (i, b) in bits.iter().enumerate() {
        if *b {
            v |= 1 << i;
        }
    }
    v
}

#[test]
fn mnemonics_map_to_types() {
    let a = Assembler {};
    assert_eq!(a.get_type(String::from("ADD R1, #3, #4")), InstrType::ADD);
    assert_eq!(a.get_type(String::from("SUB R1, #3, #4")), InstrType::SUB);
    assert_eq!(a.get_type(String::from("MULT R1, #3, #4")), InstrType::MULT);
    assert_eq!(a.get_type(String::from("LDR R1 0x40")), InstrType::LDR);
    assert_eq!(a.get_type(String::from("STR R1 0x40")), InstrType::STR);
    assert_eq!(a.get_type(String::from("HLT")), InstrType::HLT);
    assert_eq!(a.get_type(String::from("OUT D R1")), InstrType::OUT);
    assert_eq!(a.get_type(String::from("CMP #1, #2")), InstrType::CMP);
    assert_eq!(a.get_type(String::from("AND R1, #3, #4")), InstrType::AND);
    assert_eq!(a.get_type(String::from("OR R1, #3, #4")), InstrType::OR);
    assert_eq!(a.get_type(String::from("XOR R1, #3, #4")), InstrType::XOR);
    assert_eq!(a.get_type(String::from("NOT R1, #3")), InstrType::NOT);
    assert_eq!(a.get_type(String::from("FLIP R1, #3")), InstrType::FLIP);
    // Anything starting with B that is no listed mnemonic is a branch.
    assert_eq!(a.get_type(String::from("BEQ 0x40")), InstrType::B);
    assert_eq!(a.get_type(String::from("BANANA 0x40")), InstrType::B);
    assert_eq!(a.get_type(String::from("NOP")), InstrType::OTH);
}

#[test]
fn conditions_map_to_branch_kinds() {
    let a = Assembler {};
    assert_eq!(a.get_condition(String::from("B 0x40")), BranchConditions::B);
    assert_eq!(a.get_condition(String::from("BEQ 0x40")), BranchConditions::BEQ);
    assert_eq!(a.get_condition(String::from("BNE 0x40")), BranchConditions::BNE);
    assert_eq!(a.get_condition(String::from("BLT 0x40")), BranchConditions::BLT);
    assert_eq!(a.get_condition(String::from("BGT 0x40")), BranchConditions::BGT);
    assert_eq!(a.get_condition(String::from("BLE 0x40")), BranchConditions::BLE);
    assert_eq!(a.get_condition(String::from("BGE 0x40")), BranchConditions::BGE);
    assert_eq!(a.get_condition(String::from("ADD R1, #1, #2")), BranchConditions::OTH);
}

#[test]
fn parse_add_fields() {
    let mut a = Assembler {};
    let p = a.parse_line_data(String::from("ADD R1, #3, R4"));
    assert_eq!(p.instr_type, InstrType::ADD);
    assert_eq!(bits_val(&p.return_register), 1);
    assert!(!p.reg_0);
    assert_eq!(bits_val(&p.input_val_0), 3);
    assert!(p.reg_1);
    assert_eq!(bits_val(&p.input_val_1), 4);
}

#[test]
fn parse_negative_literal() {
    let mut a = Assembler {};
    let p = a.parse_line_data(String::from("MULT R1, #-3, #4"));
    // -3 in a sixteen-bit two's-complement field.
    assert_eq!(bits_val(&p.input_val_0), 65533);
    assert_eq!(bits_val(&p.input_val_1), 4);
}

#[test]
fn parse_memory_and_branch_addresses() {
    let mut a = Assembler {};
    let p = a.parse_line_data(String::from("LDR R2 0x00000100"));
    assert_eq!(p.instr_type, InstrType::LDR);
    assert_eq!(bits_val(&p.return_register), 2);
    assert_eq!(bits_val(&p.addr), 256);
    let p = a.parse_line_data(String::from("BEQ 0xC0"));
    assert_eq!(p.instr_type, InstrType::B);
    assert_eq!(p.branch_condition, BranchConditions::BEQ);
    assert_eq!(bits_val(&p.addr), 192);
}

#[test]
fn parse_out_modes() {
    let mut a = Assembler {};
    let p = a.parse_line_data(String::from("OUT A R3"));
    assert_eq!(p.instr_type, InstrType::OUT);
    assert!(p.ascii);
    assert_eq!(bits_val(&p.return_register), 3);
    let p = a.parse_line_data(String::from("OUT D R3"));
    assert!(!p.ascii);
}

#[test]
fn malformed_lines_collapse_to_oth() {
    let mut a = Assembler {};
    // A missing operand, a bad register and an oversized literal all clear
    // the record to the no-op form.
    assert_eq!(a.parse_line_data(String::from("ADD R1, #3")).instr_type, InstrType::OTH);
    assert_eq!(a.parse_line_data(String::from("ADD Rx, #3, #4")).instr_type, InstrType::OTH);
    assert_eq!(a.parse_line_data(String::from("ADD R1, #99999, #4")).instr_type, InstrType::OTH);
    assert_eq!(a.parse_line_data(String::from("")).instr_type, InstrType::OTH);
}

#[test]
fn encode_add_layout() {
    let mut a = Assembler {};
    let w = a.assemble(String::from("ADD R1, #3, #4"));
    // Opcode nibble.
    assert_eq!(bits_val(&w[0..4]), 1);
    // Destination register.
    assert_eq!(bits_val(&w[4..8]), 1);
    // Literal flags and the two operand fields.
    assert!(!w[8]);
    assert_eq!(bits_val(&w[9..25]), 3);
    assert!(!w[25]);
    assert_eq!(bits_val(&w[26..42]), 4);
    assert_eq!(bits_val(&w[42..64]), 0);
}

#[test]
fn encode_ldr_and_branch_layout() {
    let mut a = Assembler {};
    let w = a.assemble(String::from("LDR R2 0x00000100"));
    assert_eq!(bits_val(&w[0..4]), 4);
    assert_eq!(bits_val(&w[4..8]), 2);
    assert_eq!(bits_val(&w[8..56]), 256);
    let w = a.assemble(String::from("BEQ 0xC0"));
    assert_eq!(bits_val(&w[0..4]), 3);
    assert_eq!(bits_val(&w[4..8]), 1);
    assert!(!w[8]);
    assert_eq!(bits_val(&w[9..57]), 192);
    let w = a.assemble(String::from("HLT"));
    assert_eq!(bits_val(&w[0..4]), 6);
    assert_eq!(bits_val(&w[4..64]), 0);
}

#[test]
fn encode_out_layout() {
    let mut a = Assembler {};
    let w = a.assemble(String::from("OUT A R3"));
    assert_eq!(bits_val(&w[0..4]), 7);
    assert_eq!(bits_val(&w[4..8]), 3);
    assert!(w[8]);
}

#[test]
fn parse_register_numbers_use_low_bits() {
    let mut a = Assembler {};
    // A register number keeps only its low four bits in the field.
    let p = a.parse_line_data(String::from("ADD R17, #1, #2"));
    assert_eq!(bits_val(&p.return_register), 1);
    let _ = Converter::dec_to_bin_pos_only(17, 4);
}
