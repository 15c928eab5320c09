//! The flat dialect: `operator literal` or `literal operator literal`,
//! each literal carrying its own width suffix.

use crate::ops::{spec_operation_of, Operation};
use crate::text::{chars_of, split_chars, split_on, trim_end_chars, trim_end_spec};
use crate::value::{
    spec_calculate_binary, spec_calculate_unary, spec_parse_literal, IntType, Overflow,
};
use vstd::prelude::*;
use vstd::string::StringExecFns;

verus! {

/// What evaluating a flat expression yields.  The line is stripped of
/// trailing whitespace and split on single spaces: two pieces form a
/// unary application, three a binary one, and anything else fails.
/// A failure of any piece to parse, an operator of the wrong arity, or a
/// width mismatch between the two literals yields `None`.
pub open spec fn spec_evaluate(s: Seq<char>) -> Option<(IntType, Overflow)> {
    let parts = split_on(trim_end_spec(s), ' ');
    if parts.len() == 2 {
        match (spec_operation_of(parts[0]), spec_parse_literal(parts[1])) {
            (Some(op), Ok(v)) => if op.spec_is_unary() {
                spec_calculate_unary(v, op)
            } else {
                None
            },
            _ => None,
        }
    } else if parts.len() == 3 {
        match (
            spec_parse_literal(parts[0]),
            spec_operation_of(parts[1]),
            spec_parse_literal(parts[2]),
        ) {
            (Ok(v0), Some(op), Ok(v1)) => if op.spec_is_unary() {
                None
            } else {
                spec_calculate_binary(v0, v1, op)
            },
            _ => None,
        }
    } else {
        None
    }
}

/// Evaluate one line of the flat dialect.
pub fn evaluate(s: &str) -> (r: Option<(IntType, Overflow)>)
    ensures
        r == spec_evaluate(s@),
{
    let cs = chars_of(s);
    let trimmed = trim_end_chars(&cs);
    let parts = split_chars(&trimmed, ' ');
    let ghost sparts = split_on(trim_end_spec(s@), ' ');
    if parts.len() == 2 {
        proof {
            assert(parts@[0]@ == sparts[0]);
            assert(parts@[1]@ == sparts[1]);
        }
        let op = Operation::new_from_chars(&parts[0]);
        let v0 = IntType::new_from_chars(&parts[1]);
        match (op, v0) {
            (Ok(op), Ok(v0)) => {
                if op.is_unary() {
                    v0.calculate_unary(op)
                } else {
                    None
                }
            },
            _ => None,
        }
    } else if parts.len() == 3 {
        proof {
            assert(parts@[0]@ == sparts[0]);
            assert(parts@[1]@ == sparts[1]);
            assert(parts@[2]@ == sparts[2]);
        }
        let v0 = IntType::new_from_chars(&parts[0]);
        let op = Operation::new_from_chars(&parts[1]);
        let v1 = IntType::new_from_chars(&parts[2]);
        match (v0, op, v1) {
            (Ok(v0), Ok(op), Ok(v1)) => {
                if op.is_unary() {
                    None
                } else {
                    v0.calculate_binary(v1, op)
                }
            },
            _ => None,
        }
    } else {
        None
    }
}

/// The one-line operator summary the surrounding shell shows on request.
pub fn quick_help() -> (r: String)
    ensures
        r@
            == "operators: + - * & | ^ << >> <<< >>> ~ ! r e  examples: 1u8 + 1u8, 0xffu16 << 2u16, ! 0xdeadbeefu32, r 7u8, e 0xbeefu16"@,
{
    String::from_str(
        "operators: + - * & | ^ << >> <<< >>> ~ ! r e  examples: 1u8 + 1u8, 0xffu16 << 2u16, ! 0xdeadbeefu32, r 7u8, e 0xbeefu16",
    )
}

} // verus!
