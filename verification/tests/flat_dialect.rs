//! Tests of the flat dialect: literals with width suffixes, two- and
//! three-token expressions.

use bitwister::flat::{evaluate, quick_help};
use bitwister::ops::Operation;
use bitwister::value::{IntType, IntTypeConversionError, Overflow};

#[test]
fn inttype_new_from_str() {
    assert!(IntType::new_from_str("1u8").is_ok());
    assert!(IntType::new_from_str("1u16").is_ok());
    assert!(IntType::new_from_str("1u32").is_ok());
    assert!(IntType::new_from_str("1u64").is_ok());

    assert!(IntType::new_from_str("1").is_err());
    assert!(IntType::new_from_str("a").is_err());
    assert!(IntType::new_from_str("au8").is_err());
    assert!(IntType::new_from_str("1u").is_err());
    assert!(IntType::new_from_str("1u33").is_err());
}

#[test]
fn operation_new_from_str() {
    assert!(Operation::new_from_str("+").is_ok());
    assert!(Operation::new_from_str("-").is_ok());
    assert!(Operation::new_from_str("*").is_ok());
    assert!(Operation::new_from_str("&").is_ok());
    assert!(Operation::new_from_str("|").is_ok());
    assert!(Operation::new_from_str("^").is_ok());
    assert!(Operation::new_from_str("<<").is_ok());
    assert!(Operation::new_from_str(">>").is_ok());
    assert!(Operation::new_from_str("<<<").is_ok());
    assert!(Operation::new_from_str(">>>").is_ok());
    assert!(Operation::new_from_str("~").is_ok());
    assert!(Operation::new_from_str("!").is_ok());
    assert!(Operation::new_from_str("r").is_ok());

    assert!(Operation::new_from_str("x").is_err());
}

#[test]
fn operation_is_unary() {
    assert!(!Operation::new_from_str("+").unwrap().is_unary());
    assert!(!Operation::new_from_str("-").unwrap().is_unary());
    assert!(!Operation::new_from_str("*").unwrap().is_unary());
    assert!(!Operation::new_from_str("&").unwrap().is_unary());
    assert!(!Operation::new_from_str("|").unwrap().is_unary());
    assert!(!Operation::new_from_str("^").unwrap().is_unary());
    assert!(!Operation::new_from_str("<<").unwrap().is_unary());
    assert!(!Operation::new_from_str(">>").unwrap().is_unary());
    assert!(!Operation::new_from_str("<<<").unwrap().is_unary());
    assert!(!Operation::new_from_str(">>>").unwrap().is_unary());
    assert!(Operation::new_from_str("~").unwrap().is_unary());
    assert!(Operation::new_from_str("!").unwrap().is_unary());
    assert!(Operation::new_from_str("r").unwrap().is_unary());

    assert!(Operation::new_from_str("x").is_err());
}

#[test]
fn evaluate_test() {
    assert!(evaluate("1u8 + 1u8").is_some());
    assert!(evaluate("1u8 - 1u8").is_some());
    assert!(evaluate("1u8 * 1u8").is_some());
    assert!(evaluate("1u8 & 1u8").is_some());
    assert!(evaluate("1u8 | 1u8").is_some());
    assert!(evaluate("1u8 ^ 1u8").is_some());
    assert!(evaluate("1u8 << 1u8").is_some());
    assert!(evaluate("1u8 >> 1u8").is_some());
    assert!(evaluate("1u8 <<< 1u8").is_some());
    assert!(evaluate("1u8 >>> 1u8").is_some());
    assert!(evaluate("! 1u8").is_some());
    assert!(evaluate("~ 1u8").is_some());
    assert!(evaluate("r 1u8").is_some());
    assert!(evaluate("e 1u8").is_some());

    assert!(evaluate("1u16 + 1u16").is_some());
    assert!(evaluate("1u16 - 1u16").is_some());
    assert!(evaluate("1u16 * 1u16").is_some());
    assert!(evaluate("1u16 & 1u16").is_some());
    assert!(evaluate("1u16 | 1u16").is_some());
    assert!(evaluate("1u16 ^ 1u16").is_some());
    assert!(evaluate("1u16 << 1u16").is_some());
    assert!(evaluate("1u16 >> 1u16").is_some());
    assert!(evaluate("1u16 <<< 1u16").is_some());
    assert!(evaluate("1u16 >>> 1u16").is_some());
    assert!(evaluate("! 1u16").is_some());
    assert!(evaluate("~ 1u16").is_some());
    assert!(evaluate("r 1u16").is_some());
    assert!(evaluate("e 1u16").is_some());

    assert!(evaluate("1u32 + 1u32").is_some());
    assert!(evaluate("1u32 - 1u32").is_some());
    assert!(evaluate("1u32 * 1u32").is_some());
    assert!(evaluate("1u32 & 1u32").is_some());
    assert!(evaluate("1u32 | 1u32").is_some());
    assert!(evaluate("1u32 ^ 1u32").is_some());
    assert!(evaluate("1u32 << 1u32").is_some());
    assert!(evaluate("1u32 >> 1u32").is_some());
    assert!(evaluate("1u32 <<< 1u32").is_some());
    assert!(evaluate("1u32 >>> 1u32").is_some());
    assert!(evaluate("! 1u32").is_some());
    assert!(evaluate("~ 1u32").is_some());
    assert!(evaluate("r 1u32").is_some());
    assert!(evaluate("e 1u32").is_some());

    assert!(evaluate("1u64 + 1u64").is_some());
    assert!(evaluate("1u64 - 1u64").is_some());
    assert!(evaluate("1u64 * 1u64").is_some());
    assert!(evaluate("1u64 & 1u64").is_some());
    assert!(evaluate("1u64 | 1u64").is_some());
    assert!(evaluate("1u64 ^ 1u64").is_some());
    assert!(evaluate("1u64 << 1u64").is_some());
    assert!(evaluate("1u64 >> 1u64").is_some());
    assert!(evaluate("1u64 <<< 1u64").is_some());
    assert!(evaluate("1u64 >>> 1u64").is_some());
    assert!(evaluate("! 1u64").is_some());
    assert!(evaluate("~ 1u64").is_some());
    assert!(evaluate("r 1u64").is_some());
    assert!(evaluate("e 1u64").is_some());

    assert!(evaluate("1u64 ++ 1u64").is_none());
    assert!(evaluate("1u64 - u64").is_none());
    assert!(evaluate("u64 * 1u64").is_none());
    assert!(evaluate("1u64 x 1u64").is_none());
    assert!(evaluate("1au64 | 1u64").is_none());
    assert!(evaluate("! 1u6").is_none());
    assert!(evaluate("~ -1u64").is_none());
    assert!(evaluate("rr 1u64").is_none());
}

#[test]
fn subtraction_reports_wraparound() {
    assert_eq!(
        evaluate("2u8 - 1u8"),
        Some((IntType::U8(1), Overflow::NoOverflow))
    );
    assert_eq!(
        evaluate("1u8 - 2u8"),
        Some((IntType::U8(255), Overflow::Occured))
    );
}

#[test]
fn addition_and_multiplication_wrap_modulo_width() {
    assert_eq!(
        evaluate("255u8 + 1u8"),
        Some((IntType::U8(0), Overflow::Occured))
    );
    assert_eq!(
        evaluate("200u8 + 55u8"),
        Some((IntType::U8(255), Overflow::NoOverflow))
    );
    assert_eq!(
        evaluate("16u8 * 16u8"),
        Some((IntType::U8(0), Overflow::Occured))
    );
    assert_eq!(
        evaluate("3u16 * 7u16"),
        Some((IntType::U16(21), Overflow::NoOverflow))
    );
    assert_eq!(
        evaluate("0xffffffffffffffffu64 + 1u64"),
        Some((IntType::U64(0), Overflow::Occured))
    );
}

#[test]
fn bitwise_not_and_negate() {
    assert_eq!(
        evaluate("! 1u8"),
        Some((IntType::U8(254), Overflow::NotPossible))
    );
    assert_eq!(
        evaluate("~ 1u8"),
        Some((IntType::U8(255), Overflow::NotPossible))
    );
}

#[test]
fn over_wide_shifts_give_zero() {
    assert_eq!(
        evaluate("1u8 << 8u8"),
        Some((IntType::U8(0), Overflow::NotPossible))
    );
    assert_eq!(
        evaluate("255u8 >> 8u8"),
        Some((IntType::U8(0), Overflow::NotPossible))
    );
    assert_eq!(
        evaluate("1u16 << 16u16"),
        Some((IntType::U16(0), Overflow::NotPossible))
    );
    assert_eq!(
        evaluate("1u32 << 32u32"),
        Some((IntType::U32(0), Overflow::NotPossible))
    );
    assert_eq!(
        evaluate("1u64 << 63u64"),
        Some((IntType::U64(1 << 63), Overflow::NotPossible))
    );
    assert_eq!(
        evaluate("1u8 << 7u8"),
        Some((IntType::U8(128), Overflow::NotPossible))
    );
}

#[test]
fn rotation_wraps_and_inverts() {
    assert_eq!(
        evaluate("1u8 <<< 3u8"),
        Some((IntType::U8(8), Overflow::NotPossible))
    );
    assert_eq!(
        evaluate("8u8 >>> 3u8"),
        Some((IntType::U8(1), Overflow::NotPossible))
    );
    assert_eq!(
        evaluate("1u8 <<< 9u8"),
        Some((IntType::U8(2), Overflow::NotPossible))
    );
    assert_eq!(
        evaluate("128u8 <<< 1u8"),
        Some((IntType::U8(1), Overflow::NotPossible))
    );
}

#[test]
fn byte_swap_reverses_byte_order() {
    assert_eq!(
        evaluate("e 0xbeefu16"),
        Some((IntType::U16(0xefbe), Overflow::NotPossible))
    );
    assert_eq!(
        evaluate("e 0x12345678u32"),
        Some((IntType::U32(0x78563412), Overflow::NotPossible))
    );
    assert_eq!(
        evaluate("e 1u8"),
        Some((IntType::U8(1), Overflow::NotPossible))
    );
}

#[test]
fn width_mismatch_is_rejected() {
    assert!(evaluate("1u8 + 1u16").is_none());
    assert!(evaluate("1u64 & 1u32").is_none());
}

#[test]
fn parse_errors_are_typed() {
    assert_eq!(
        IntType::new_from_str("1"),
        Err(IntTypeConversionError::InvalidInteger)
    );
    assert_eq!(
        IntType::new_from_str("au8"),
        Err(IntTypeConversionError::InvalidInteger)
    );
    assert_eq!(
        IntType::new_from_str("256u8"),
        Err(IntTypeConversionError::InvalidInteger)
    );
    assert_eq!(
        IntType::new_from_str("1u"),
        Err(IntTypeConversionError::InvalidBitwidth)
    );
    assert_eq!(
        IntType::new_from_str("1uxy"),
        Err(IntTypeConversionError::InvalidBitwidth)
    );
    assert_eq!(
        IntType::new_from_str("1u33"),
        Err(IntTypeConversionError::UnsupportedBitwidth)
    );
    assert_eq!(
        IntType::new_from_str("1u128"),
        Err(IntTypeConversionError::UnsupportedBitwidth)
    );
    assert_eq!(IntType::new_from_str("0xdeadu16"), Ok(IntType::U16(0xdead)));
    assert_eq!(IntType::new_from_str("0xFFu8"), Ok(IntType::U8(255)));
}

#[test]
fn quick_help_lists_the_operators() {
    let h = quick_help();
    assert!(h.contains("<<<"));
    assert!(h.contains(">>>"));
    assert!(h.contains("operators"));
}
