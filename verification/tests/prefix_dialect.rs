//! Tests of the prefix stack-machine dialect: an ambient width and
//! operators written before their operands.

use bitwister::calc::{eval, Bits, Calculation};
use bitwister::tokenizer::{Operator, ParseError, Token, Tokenizer};

#[test]
fn test_parse_number() {
    assert!(Tokenizer::parse_number("0xdeadbeef").is_ok());
    assert!(Tokenizer::parse_number("1234").is_ok());
    assert!(Tokenizer::parse_number("abcd").is_err());
    assert!(Tokenizer::parse_number("0xgggg").is_err());
    assert!(Tokenizer::parse_number("1a30").is_err());
}

#[test]
fn test_is_number() {
    assert!(Tokenizer::is_number("0xdeadbeef"));
    assert!(Tokenizer::is_number("1234"));
    assert!(!Tokenizer::is_number("1ddddddddd"));
    assert!(!Tokenizer::is_number("0x"));
}

#[test]
fn empty_piece_is_no_number() {
    assert!(!Tokenizer::is_number(""));
    let t = Tokenizer::new();
    assert!(t.tokenize("+ 2  2").is_none());
}

#[test]
fn test_operator() {
    assert!(Operator::from_str("+").is_some());
    assert!(Operator::from_str("!").is_some());
    assert!(Operator::from_str("x").is_none());
}

#[test]
fn test_tokenize() {
    let t = Tokenizer::new();
    let tokens = t.tokenize("+ 2 + 0xdead 0xbeef");
    println!("tokens: {:?}", tokens);
}

#[test]
fn test_prefix_to_postfix() {
    let mut calc = Calculation::new(Bits::U64);
    let t = Tokenizer::new();
    let tokens = t.tokenize("+ 2 + 0xdead 0xbeef");

    let res = calc.calculate(&mut tokens.unwrap());
    assert!(res.is_some());

    let mut calc = Calculation::new(Bits::U64);
    let t = Tokenizer::new();
    let tokens = t.tokenize("! + 0xdead 0xbeef");
    let res = calc.calculate(&mut tokens.unwrap());
    assert!(res.is_some());
}

#[test]
fn test_calculations() {
    let mut calc = Calculation::new(Bits::U8);
    let t = Tokenizer::new();
    let tokens = t.tokenize("+ 0xde 1");
    let res = calc.calculate(&mut tokens.unwrap());
    assert!(res.is_some());

    let mut calc = Calculation::new(Bits::U8);
    let t = Tokenizer::new();
    let tokens = t.tokenize("+ 1 0xff");
    let res = calc.calculate(&mut tokens.unwrap());
    assert!(res.is_some());

    let mut calc = Calculation::new(Bits::U16);
    let t = Tokenizer::new();
    let tokens = t.tokenize("+ 0xdead 2");
    let res = calc.calculate(&mut tokens.unwrap());
    assert!(res.is_some());

    let mut calc = Calculation::new(Bits::U16);
    let t = Tokenizer::new();
    let tokens = t.tokenize("+ 1 0xffff");
    let res = calc.calculate(&mut tokens.unwrap());
    assert!(res.is_some());

    let mut calc = Calculation::new(Bits::U32);
    let t = Tokenizer::new();
    let tokens = t.tokenize("+ 0xdeadca11 1");
    let res = calc.calculate(&mut tokens.unwrap());
    assert!(res.is_some());

    let mut calc = Calculation::new(Bits::U32);
    let t = Tokenizer::new();
    let tokens = t.tokenize("+ 1 0xffffffff");
    let res = calc.calculate(&mut tokens.unwrap());
    assert!(res.is_some());

    let mut calc = Calculation::new(Bits::U64);
    let t = Tokenizer::new();
    let tokens = t.tokenize("+ 0xdeaddeaddeaddead 1");
    let res = calc.calculate(&mut tokens.unwrap());
    assert!(res.is_some());

    let mut calc = Calculation::new(Bits::U64);
    let t = Tokenizer::new();
    let tokens = t.tokenize("+ 1 0xffffffffffffffff");
    let res = calc.calculate(&mut tokens.unwrap());
    assert!(res.is_some());
}

#[test]
fn simple_prefix_sum_reduces() {
    let t = Tokenizer::new();
    let tokens = t.tokenize("+ 2 2").unwrap();
    let mut calc = Calculation::new(Bits::U32);
    let mut tokens = tokens;
    let res = calc.calculate(&mut tokens).unwrap();
    assert_eq!(res.inner(), 4);
    assert!(!res.overflowed());
}

#[test]
fn nested_prefix_expression_reduces() {
    assert_eq!(eval("* 2 + 2 2").unwrap().inner(), 8);
}

#[test]
fn eval_dispatches_on_a_width_word() {
    let r = eval("u8 + 1 0xff").unwrap();
    assert_eq!(r.inner(), 0);
    assert!(r.overflowed());
    assert_eq!(r.bits(), Bits::U8);

    let r = eval("+ 1 0xff").unwrap();
    assert_eq!(r.inner(), 0x100);
    assert!(!r.overflowed());
    assert_eq!(r.bits(), Bits::U32);

    let r = eval("u16 - 3 5").unwrap();
    assert_eq!(r.inner(), 0xfffe);
    assert!(r.overflowed());

    let r = eval("u64 + 1 0xffffffffffffffff").unwrap();
    assert_eq!(r.inner(), 0);
    assert!(r.overflowed());
}

#[test]
fn prefix_operand_order_is_kept() {
    assert_eq!(eval("- 5 3").unwrap().inner(), 2);
    assert_eq!(eval("/ 6 2").unwrap().inner(), 3);
    assert_eq!(eval("u8 / 7 2").unwrap().inner(), 3);
}

#[test]
fn division_by_zero_is_an_error() {
    assert!(eval("/ 1 0").is_none());
    assert!(eval("u8 / 1 0x100").is_none());
    assert!(eval("/ 6 2").is_some());
}

#[test]
fn malformed_prefix_lines_fail() {
    assert!(eval("").is_none());
    assert!(eval("u8").is_none());
    assert!(eval("u16").is_none());
    assert!(eval("+ 1").is_none());
    assert!(eval("+ 1 ? 2").is_none());
    assert!(eval("1 2 3").is_none());
    assert!(eval("0xgggg").is_none());
}

#[test]
fn prefix_bitwise_not_masks_to_width() {
    let r = eval("u8 ! 1").unwrap();
    assert_eq!(r.inner(), 254);
    let r = eval("! 0").unwrap();
    assert_eq!(r.inner(), 0xffff_ffff);
}

#[test]
fn prefix_shift_and_rotate() {
    assert_eq!(eval("u8 << 1 8").unwrap().inner(), 0);
    assert_eq!(eval("u8 >> 0xff 8").unwrap().inner(), 0);
    assert_eq!(eval("u8 <<< 1 9").unwrap().inner(), 2);
    assert_eq!(eval("u8 >>> 2 9").unwrap().inner(), 1);
}

#[test]
fn parse_number_errors_are_typed() {
    assert_eq!(Tokenizer::parse_number("abcd"), Err(ParseError::ParseNumber));
    assert_eq!(
        Tokenizer::parse_number("0x10000000000000000"),
        Err(ParseError::ParseNumber)
    );
    assert_eq!(Tokenizer::parse_number("0xff"), Ok(255));
    assert_eq!(
        Tokenizer::parse_number("18446744073709551615"),
        Ok(u64::MAX)
    );
    assert_eq!(
        Tokenizer::parse_number("18446744073709551616"),
        Err(ParseError::ParseNumber)
    );
}

#[test]
fn tokenize_classifies_pieces() {
    let t = Tokenizer::new();
    let tokens = t.tokenize("+ 2 2").unwrap();
    assert_eq!(
        tokens,
        vec![Token::Op(Operator::Add), Token::Number(2), Token::Number(2)]
    );
    assert!(t.tokenize("+ 2 ?").is_none());
    assert!(t.tokenize("").is_none());
}

#[test]
fn conversion_emits_operands_in_textual_order() {
    let mut expr = vec![Token::Op(Operator::Sub), Token::Number(3), Token::Number(1)];
    let post = Tokenizer::prefix_to_postfix(&mut expr);
    assert!(expr.is_empty());
    assert_eq!(
        post,
        vec![Token::Op(Operator::Sub), Token::Number(3), Token::Number(1)]
    );

    let mut lone = vec![Token::Number(1), Token::Op(Operator::Add)];
    let post = Tokenizer::prefix_to_postfix(&mut lone);
    assert_eq!(post, vec![Token::Op(Operator::Add)]);
}
