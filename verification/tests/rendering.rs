//! Tests of value rendering: the multi-base display line, the literal
//! round trip, binary strings, and the register view.

use bitwister::calc::{eval, Bits, Calculation};
use bitwister::regview::regprint;
use bitwister::tokenizer::Tokenizer;
use bitwister::value::{IntType, Overflow};

#[test]
fn display_shows_hex_bin_dec() {
    assert_eq!(
        IntType::U8(255).display(),
        "hex: 0xff bin: b11111111 dec: 255"
    );
    assert_eq!(IntType::U16(1).display(), "hex: 0x0001 bin: b1 dec: 1");
    assert_eq!(
        IntType::U32(0xdeadbeef).display(),
        "hex: 0xdeadbeef bin: b11011110101011011011111011101111 dec: 3735928559"
    );
    assert_eq!(
        IntType::U64(16).display(),
        "hex: 0x0000000000000010 bin: b10000 dec: 16"
    );
    assert_eq!(IntType::U8(0).display(), "hex: 0x00 bin: b0 dec: 0");
}

#[test]
fn literal_round_trips_through_parse() {
    let values = [
        IntType::U8(0),
        IntType::U8(255),
        IntType::U16(0xdead),
        IntType::U32(0xdeadbeef),
        IntType::U64(u64::MAX),
        IntType::U64(1),
    ];
    for v in values {
        let lit = v.to_literal();
        assert_eq!(IntType::new_from_str(&lit), Ok(v));
    }
    assert_eq!(IntType::U8(255).to_literal(), "255u8");
    assert_eq!(IntType::U16(1).to_literal(), "1u16");
}

#[test]
fn binary_string_is_full_width() {
    let t = Tokenizer::new();
    let mut calc = Calculation::new(Bits::U8);
    let mut tokens = t.tokenize("+ 0xde 1").unwrap();
    let res = calc.calculate(&mut tokens).unwrap();
    assert_eq!(res.to_binary_string(), "11011111");

    let r = eval("u16 + 0 5").unwrap();
    assert_eq!(r.to_binary_string(), "0000000000000101");
}

#[test]
fn register_view_of_a_byte_is_one_line_pair() {
    assert_eq!(regprint(0xff, 8), "7 6 5 4 3 2 1 0 \n1 1 1 1 1 1 1 1 \n");
    assert_eq!(regprint(0b1010_0001, 8), "7 6 5 4 3 2 1 0 \n1 0 1 0 0 0 0 1 \n");
}

#[test]
fn register_view_of_a_word_aligns_wide_indices() {
    let s = regprint(0x8001, 16);
    let lines: Vec<&str> = s.lines().collect();
    assert_eq!(lines.len(), 2);
    assert_eq!(lines[0], "15 14 13 12 11 10 9 8 7 6 5 4 3 2 1 0 ");
    assert_eq!(lines[1], "1  0  0  0  0  0  0 0 0 0 0 0 0 0 0 1 ");
}

#[test]
fn register_view_of_64_bits_splits_at_bit_32() {
    let s = regprint(1u64 << 63 | 1, 64);
    let lines: Vec<&str> = s.lines().collect();
    assert_eq!(lines.len(), 4);
    assert!(lines[0].starts_with("63 62 61 "));
    assert!(lines[0].ends_with("34 33 32 "));
    assert!(lines[1].starts_with("1  0  0  "));
    assert!(lines[2].starts_with("31 30 29 "));
    assert!(lines[2].ends_with("2 1 0 "));
    assert!(lines[3].ends_with("0 0 1 "));
}

#[test]
fn overflow_labels() {
    assert_eq!(Overflow::Occured.label(), "[overflow occured]");
    assert_eq!(Overflow::NoOverflow.label(), "[no overflow]");
    assert_eq!(Overflow::NotPossible.label(), "");
}
