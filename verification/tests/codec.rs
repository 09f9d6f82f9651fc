// Conversions, the adder stack, the multiplier and the bitwise unit on
// concrete values.

use vonsim::adders::AddSub64bit;
use vonsim::adders::FullAddSub;
use vonsim::adders::AddSub4bit;
use vonsim::adders::AddSub16bit;
use vonsim::converter::Converter;
use vonsim::converter::sign_extend_16;
use vonsim::multiplier::Multiplier;
use vonsim::bitwise_operator::BitwiseOperator;
use vonsim::logic_gates::AND;
use vonsim::logic_gates::NOT;
use vonsim::logic_gates::OR;
use vonsim::logic_gates::XOR;
use vonsim::logic_gates::NOR;
use vonsim::transistors::Pmos;
use vonsim::transistors::Nmos;

fn word(v: i64) -> [bool; 64] {
    Converter::dec_to_bin_2s_comp(v)
}

fn as_i64(w: [bool; 64]) -> i64 {
    Converter::bin_to_dec_2s_comp(w.to_vec())
}

fn as_u64(w: [bool; 64]) -> u64 {
    Converter::bin_to_dec_pos_only(w.to_vec())
}

#[test]
fn transistor_and_gate_tables() {
    let p = Pmos {};
    let n = Nmos {};
    assert!(!p.value(true, true));
    assert!(p.value(false, true));
    assert!(!n.value(false, true));
    assert!(n.value(true, true));
    let and = AND::default();
    let or = OR::default();
    let xor = XOR::default();
    let not = NOT::default();
    let nor = NOR::default();
    for a in [false, true] {
        for b in [false, true] {
            assert_eq!(and.value(a, b), a && b);
            assert_eq!(or.value(a, b), a || b);
            assert_eq!(xor.value(a, b), a != b);
            assert_eq!(nor.value(a, b), !(a || b));
        }
        assert_eq!(not.value(a), !a);
    }
}

#[test]
fn full_adder_truth_table() {
    let f = FullAddSub::default();
    for a in [false, true] {
        for b in [false, true] {
            for cin in [false, true] {
                let (s, c) = f.value(a, b, cin, true);
                let lhs = (s as u32) + 2 * (c as u32);
                let rhs = (a as u32) + (b as u32) + (cin as u32);
                assert_eq!(lhs, rhs);
                let (d, br) = f.value(a, b, cin, false);
                let lhs = d as i32 - 2 * (br as i32);
                let rhs = a as i32 - b as i32 - cin as i32;
                assert_eq!(lhs, rhs);
            }
        }
    }
}

#[test]
fn nibble_and_block_adders() {
    let a4 = AddSub4bit::default();
    let (out, c) = a4.value(
        [true, true, true, true],
        [true, false, false, false],
        false,
        true,
    );
    // 15 + 1 == 16: a zero nibble with carry out.
    assert_eq!(out, [false, false, false, false]);
    assert!(c);
    let a16 = AddSub16bit::default();
    let lhs: [bool; 16] = core::array::from_fn(|i| (40000u32 >> i) & 1 == 1);
    let rhs: [bool; 16] = core::array::from_fn(|i| (30000u32 >> i) & 1 == 1);
    let (sum, carry) = a16.value(lhs, rhs, false, true);
    // 40000 + 30000 == 70000 == 4464 + 65536.
    let mut val = 0u32;
    for i in 0..16 {
        if sum[i] {
            val |= 1 << i;
        }
    }
    assert_eq!(val, 70000 - 65536);
    assert!(carry);
}

#[test]
fn adder_signed_sum_and_carry() {
    let add = AddSub64bit::default();
    let (out, cout) = add.value(word(3), word(4), true);
    assert_eq!(as_i64(out), 7);
    assert!(!cout);
    // A sum that wraps: the signed reading keeps the sum modulo 2^64.
    let (out, _) = add.value(word(i64::MAX), word(1), true);
    assert_eq!(as_i64(out), i64::MIN);
    let (out, cout) = add.value(word(-1), word(1), true);
    assert_eq!(as_i64(out), 0);
    assert!(cout);
    // Subtraction with borrow.
    let (out, borrow) = add.value(word(3), word(5), false);
    assert_eq!(as_i64(out), -2);
    assert!(borrow);
}

#[test]
fn unsigned_round_trip() {
    for v in [0u64, 1, 2, 63, 64, 255, 4096, u64::MAX] {
        let bits = Converter::dec_to_bin_pos_only(v, 64);
        assert_eq!(Converter::bin_to_dec_pos_only(bits), v);
    }
}

#[test]
fn signed_round_trip() {
    for v in [0i64, 1, -1, 42, -42, i64::MAX, i64::MIN] {
        let bits = Converter::dec_to_bin_2s_comp(v);
        assert_eq!(as_i64(bits), v);
    }
}

#[test]
fn truncation_keeps_low_bits() {
    // 300 == 44 + 256: eight bits keep 44.
    let bits = Converter::dec_to_bin_pos_only(300, 8);
    assert_eq!(bits.len(), 8);
    let mut v = 0u64;
    for (i, b) in bits.iter().enumerate() {
        if *b {
            v |= 1 << i;
        }
    }
    assert_eq!(v, 44);
}

#[test]
fn flip_sign_is_negation_and_involution() {
    for v in [0i64, 1, -1, 7, -12, 123456789, i64::MAX] {
        let w = word(v);
        let flipped = Converter::bin_flip_sign(w);
        assert_eq!(as_i64(flipped), v.wrapping_neg());
        let back = Converter::bin_flip_sign(flipped);
        assert_eq!(back, w);
    }
}

#[test]
fn set_size_extends_and_truncates() {
    let out = Converter::set_size(vec![true, false, true], 5);
    assert_eq!(out, vec![true, false, true, false, false]);
    let out = Converter::set_size(vec![true, false, true, true], 2);
    assert_eq!(out, vec![true, false]);
    let out = Converter::set_size(vec![true], 0);
    assert!(out.is_empty());
}

#[test]
fn bit48_to64_zero_extends() {
    let mut addr = [false; 48];
    addr[6] = true;
    let w = Converter::bit48_to64(addr);
    assert_eq!(as_u64(w), 64);
}

#[test]
fn hex_text_conversions() {
    assert_eq!(Converter::dec_to_hex(255), "FF");
    assert_eq!(Converter::dec_to_hex(0), "");
    assert_eq!(Converter::dec_to_hex(4096), "1000");
    assert_eq!(Converter::hex_char_to_dec('A'), 10);
    assert_eq!(Converter::hex_char_to_dec('9'), 9);
    assert_eq!(Converter::hex_char_to_dec('z'), 0);
    let bits = Converter::hex_val_to_bin(String::from("FF"));
    assert_eq!(bits.len(), 8);
    assert_eq!(Converter::bin_to_dec_pos_only(bits), 255);
    let bits = Converter::hex_val_to_bin(String::from("100"));
    assert_eq!(Converter::bin_to_dec_pos_only(bits), 256);
    // Unknown characters contribute zero nibbles.
    let bits = Converter::hex_val_to_bin(String::from("x10"));
    assert_eq!(Converter::bin_to_dec_pos_only(bits), 16);
}

#[test]
fn bin_to_hex_drops_top_nibble() {
    // Sixteen bits hold 0x1234; the text keeps floor(16/4)-1 = 3 nibbles.
    let bits = Converter::dec_to_bin_pos_only(0x1234, 16);
    assert_eq!(Converter::bin_to_hex(bits), "234");
    // A zero nibble still contributes its character.
    let bits = Converter::dec_to_bin_pos_only(0x1204, 16);
    assert_eq!(Converter::bin_to_hex(bits), "204");
    let bits = Converter::dec_to_bin_pos_only(0, 8);
    assert_eq!(Converter::bin_to_hex(bits), "0");
    let bits = Converter::dec_to_bin_pos_only(0x101, 16);
    assert_eq!(Converter::bin_to_hex(bits), "101");
}

#[test]
fn hex_resize_reverses_and_pads() {
    let out = Converter::hex_resize(String::from("AB"));
    assert_eq!(out, "BA00000000000000");
    let out = Converter::hex_resize(String::from("0123456789ABCDEFF"));
    assert_eq!(out, "FFEDCBA9876543210");
}

#[test]
fn hex_val_to_dec_uses_xor_weights() {
    // Weight of position i from the right is 16 XOR i, not a power of 16:
    // "21" reads as 2*(16^1) + 1*(16^0) = 2*17 + 16 = 50.
    assert_eq!(Converter::hex_val_to_dec(String::from("21")), 50);
    assert_eq!(Converter::hex_val_to_dec(String::from("")), 0);
}

#[test]
fn sign_extension_keeps_signed_value() {
    let mut field = [false; 16];
    // -3 in sixteen bits.
    for i in 0..16 {
        field[i] = ((-3i16 as u16) >> i) & 1 == 1;
    }
    let w = sign_extend_16(field);
    assert_eq!(as_i64(w), -3);
}

#[test]
fn multiplier_products() {
    let mut m = Multiplier::default();
    assert_eq!(as_i64(m.value(word(-3), word(4))), -12);
    assert_eq!(as_i64(m.value(word(6), word(7))), 42);
    assert_eq!(as_i64(m.value(word(5), word(0))), 0);
    assert_eq!(as_i64(m.value(word(-5), word(-5))), 25);
}

#[test]
fn bitwise_unit_ops() {
    let b = BitwiseOperator::default();
    let op = |code: u64| -> [bool; 4] {
        let v = Converter::dec_to_bin_pos_only(code, 4);
        [v[0], v[1], v[2], v[3]]
    };
    assert_eq!(as_u64(b.value(word(12), word(10), op(10))), 8);
    assert_eq!(as_u64(b.value(word(12), word(10), op(11))), 14);
    assert_eq!(as_u64(b.value(word(12), word(10), op(12))), 6);
    assert_eq!(as_i64(b.value(word(0), word(99), op(13))), -1);
    // An opcode outside the bitwise range yields zero.
    assert_eq!(as_u64(b.value(word(12), word(10), op(1))), 0);
}
