// End-to-end runs of the whole machine: programs are assembled into main
// memory and the clock drives the control unit until HLT.

use vonsim::alu::Alu;
use vonsim::assembler::Assembler;
use vonsim::assembler::ParsedInstruction;
use vonsim::buses::AddressBus;
use vonsim::buses::ControlBus;
use vonsim::buses::DataBus;
use vonsim::caches::DataAccessManager;
use vonsim::caches::L1Cache;
use vonsim::caches::L2Cache;
use vonsim::clock::Clock;
use vonsim::control_unit::ControlUnit;
use vonsim::control_unit::CpuState;
use vonsim::converter::Converter;
use vonsim::loader::parse_data_line;
use vonsim::output::u64_dec_string;
use vonsim::output::i64_dec_string;
use vonsim::output::out_line;
use vonsim::output::cycle_count_line;
use vonsim::loader::instr_line_content;
use vonsim::loader::check_comment;
use vonsim::main_memory::MainMemory;
use vonsim::reg64::Reg64;
use vonsim::reg_bank::RegBank;

fn build_machine(data_lines: &[&str], instrs: &[&str]) -> Clock {
    let mut memory = MainMemory {
        ram_map: Vec::new(),
        data_bus: DataBus::default(),
        address_bus: AddressBus::default(),
        control_bus: ControlBus::default(),
    };
    memory.clear();
    for line in data_lines {
        if let Some((addr, data)) = parse_data_line(line) {
            memory.write(addr, data);
        }
    }
    let mut assembler = Assembler {};
    let mut counter: u64 = 0;
    for line in instrs {
        if !check_comment(String::from(*line)) {
            let assembled = assembler.assemble(String::from(*line));
            let addr: [bool; 48] =
                Converter::dec_to_bin_pos_only(counter, 48).try_into().unwrap();
            memory.write(addr, assembled);
        }
        counter += 64;
    }
    let cpu = ControlUnit {
        alu: Alu::default(),
        memory_instr_reg: Reg64::default(),
        memory_instr_stall: false,
        memory_data_reg: Reg64::default(),
        memory_data_stall: false,
        pc: Reg64::default(),
        register_bank: RegBank::default(),
        halt: false,
        state: CpuState::Fetch,
        decoded_instruction: ParsedInstruction::default(),
        data_access_manager: DataAccessManager {
            l1_cache: L1Cache::default(),
            l2_cache: L2Cache::default(),
            main_memory: memory,
        },
    };
    Clock { clock_speed: 100, running: false, ctrl: cpu, cycle_count: 0 }
}

fn run(data_lines: &[&str], instrs: &[&str]) -> Vec<String> {
    let mut clk = build_machine(data_lines, instrs);
    clk.start()
}

fn cycle_count(lines: &[String]) -> u64 {
    let last = lines.last().expect("no output");
    let rest = last.strip_prefix("CYCLE COUNT: ").expect("no cycle report");
    rest.parse().expect("bad cycle count")
}

#[test]
fn immediate_add() {
    let lines = run(&[], &["ADD R1, #3, #4", "OUT D R1", "HLT"]);
    assert!(lines.iter().any(|l| l == "R1 OUTPUT: 7"));
    assert!(cycle_count(&lines) >= 3);
}

#[test]
fn register_add() {
    let lines = run(&[], &["ADD R1, #10, #20", "ADD R2, R1, #5", "OUT D R2", "HLT"]);
    assert!(lines.iter().any(|l| l == "R2 OUTPUT: 35"));
}

#[test]
fn subtract_sets_zero_flag_and_branch_fires() {
    // SUB leaves Z set; BEQ jumps over the first OUT (instruction 2) to the
    // instruction at bit address 0xC0 (the fourth slot).
    let lines = run(
        &[],
        &[
            "SUB R1, #5, #5",
            "BEQ 0xC0",
            "OUT D R1",
            "ADD R2, #7, #0",
            "OUT D R2",
            "HLT",
        ],
    );
    assert!(lines.iter().any(|l| l == "R2 OUTPUT: 7"));
    assert!(!lines.iter().any(|l| l == "R1 OUTPUT: 0"));
}

#[test]
fn branch_not_taken_falls_through() {
    let lines = run(
        &[],
        &["SUB R1, #5, #4", "BEQ 0xC0", "OUT D R1", "HLT", "OUT D R1", "HLT"],
    );
    assert!(lines.iter().any(|l| l == "R1 OUTPUT: 1"));
}

#[test]
fn memory_load_round_trip() {
    let lines = run(
        &["0x00000100/0d42"],
        &["LDR R1 0x00000100", "OUT D R1", "HLT"],
    );
    assert!(lines.iter().any(|l| l == "R1 OUTPUT: 42"));
}

#[test]
fn store_then_load_round_trip() {
    let lines = run(
        &[],
        &[
            "ADD R1, #99, #0",
            "STR R1 0x00000200",
            "LDR R2 0x00000200",
            "OUT D R2",
            "HLT",
        ],
    );
    assert!(lines.iter().any(|l| l == "R2 OUTPUT: 99"));
}

#[test]
fn multiplier_with_negative_multiplicand() {
    let lines = run(&[], &["MULT R1, #-3, #4", "OUT D R1", "HLT"]);
    assert!(lines.iter().any(|l| l == "R1 OUTPUT: -12"));
}

#[test]
fn bitwise_not_gives_minus_one() {
    let lines = run(&[], &["NOT R1, #0", "OUT D R1", "HLT"]);
    assert!(lines.iter().any(|l| l == "R1 OUTPUT: -1"));
}

#[test]
fn flip_negates_a_register() {
    let lines = run(&[], &["ADD R1, #12, #0", "FLIP R2, R1", "OUT D R2", "HLT"]);
    assert!(lines.iter().any(|l| l == "R2 OUTPUT: -12"));
}

#[test]
fn data_image_hex_and_binary_forms() {
    let lines = run(
        &["0x00001000/0xFF", "0x00001040/0b101"],
        &["LDR R1 0x00001000", "LDR R2 0x00001040", "OUT D R1", "OUT D R2", "HLT"],
    );
    // Hex data sign-extends by replicating its high bit: FF reads as -1.
    assert!(lines.iter().any(|l| l == "R1 OUTPUT: -1"));
    assert!(lines.iter().any(|l| l == "R2 OUTPUT: 5"));
}

#[test]
fn comments_and_malformed_data_lines_are_skipped() {
    let lines = run(
        &["// a comment", "", "0xZZ/0d5", "0x00000100/0q9", "0x00000100/0d8"],
        &["LDR R1 0x00000100", "OUT D R1", "HLT"],
    );
    assert!(lines.iter().any(|l| l == "R1 OUTPUT: 8"));
}

#[test]
fn cache_eviction_after_twenty_one_loads() {
    // Twenty-one distinct loads (plus the instruction fetches) push the
    // first-loaded line out of L1; it must then sit in L2, not L1.
    let mut data: Vec<String> = Vec::new();
    let mut prog: Vec<String> = Vec::new();
    for k in 0..21u64 {
        let addr = 0x10000 + 64 * k;
        data.push(format!("0x{:08X}/0d{}", addr, k + 1));
        prog.push(format!("LDR R1 0x{:012X}", addr));
    }
    prog.push(String::from("HLT"));
    let data_refs: Vec<&str> = data.iter().map(|s| s.as_str()).collect();
    let prog_refs: Vec<&str> = prog.iter().map(|s| s.as_str()).collect();
    let mut clk = build_machine(&data_refs, &prog_refs);
    let _ = clk.start();
    let first: [bool; 48] = Converter::dec_to_bin_pos_only(0x10000, 48).try_into().unwrap();
    let dam = &clk.ctrl.data_access_manager;
    assert_eq!(dam.l1_cache.get_index(first), -1);
    assert!(dam.l2_cache.get_index(first) != -1);
}

#[test]
fn instruction_lines_skip_prefix_and_spaces() {
    let line = "0x000000000000|  ADD R1, #3, #4";
    let content = instr_line_content(line).expect("content expected");
    assert_eq!(content, "ADD R1, #3, #4");
    assert!(instr_line_content("0x000000000000|").is_none());
    assert!(instr_line_content("short").is_none());
    let comment = instr_line_content("0x000000000000|// note").expect("content");
    assert!(check_comment(comment));
}

#[test]
fn halted_machine_reports_cycles() {
    let lines = run(&[], &["HLT"]);
    let last = lines.last().unwrap();
    assert!(last.starts_with("CYCLE COUNT: "));
}

#[test]
fn unknown_opcodes_are_skipped() {
    // A malformed line assembles to the no-op form and execution walks past.
    let lines = run(&[], &["GIBBERISH", "ADD R1, #2, #2", "OUT D R1", "HLT"]);
    assert!(lines.iter().any(|l| l == "R1 OUTPUT: 4"));
}

#[test]
fn output_lines_format_decimals() {
    assert_eq!(u64_dec_string(0), "0");
    assert_eq!(u64_dec_string(1234567890), "1234567890");
    assert_eq!(i64_dec_string(-42), "-42");
    assert_eq!(i64_dec_string(i64::MIN), "-9223372036854775808");
    assert_eq!(out_line(1, 7), "R1 OUTPUT: 7");
    assert_eq!(out_line(2, -12), "R2 OUTPUT: -12");
    assert_eq!(cycle_count_line(15), "CYCLE COUNT: 15");
}

#[test]
fn data_lines_parse_each_form() {
    let (addr, val) = parse_data_line("0x00000100/0d42").expect("decimal line");
    assert_eq!(Converter::bin_to_dec_pos_only(addr.to_vec()), 256);
    assert_eq!(Converter::bin_to_dec_2s_comp(val.to_vec()), 42);
    let (_, val) = parse_data_line("0x00000100/0d-7").expect("negative line");
    assert_eq!(Converter::bin_to_dec_2s_comp(val.to_vec()), -7);
    let (_, val) = parse_data_line("0x00000100/0x2A").expect("hex line");
    assert_eq!(Converter::bin_to_dec_2s_comp(val.to_vec()), 42);
    let (_, val) = parse_data_line("0x00000100/0b110").expect("binary line");
    assert_eq!(Converter::bin_to_dec_2s_comp(val.to_vec()), 6);
    // The full signed 64-bit range is read, including nineteen-digit values.
    let (_, val) = parse_data_line("0x00000100/0d4611686018427387904").expect("wide line");
    assert_eq!(Converter::bin_to_dec_2s_comp(val.to_vec()), 4611686018427387904);
    let (_, val) = parse_data_line("0x00000100/0d-9223372036854775808").expect("min line");
    assert_eq!(Converter::bin_to_dec_2s_comp(val.to_vec()), i64::MIN);
    // A value past the signed 64-bit range is skipped.
    assert!(parse_data_line("0x00000100/0d9223372036854775808").is_none());
    // Comments, short addresses, lower-case hex and unknown types are skipped.
    assert!(parse_data_line("// note").is_none());
    assert!(parse_data_line("").is_none());
    assert!(parse_data_line("0x100/0d42").is_none());
    assert!(parse_data_line("0x00000100/0q42").is_none());
    assert!(parse_data_line("0x00000100/0xff").is_none());
    assert!(parse_data_line("0x00000100").is_none());
}
